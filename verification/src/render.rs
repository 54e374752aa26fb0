//! The diagnostic text of a map: its pairs, one after the other.

use std::fmt::Debug;
use vstd::prelude::*;
use vstd::string::StringExecFns;

verus! {

/// The text of one pair: the text of the key, a colon and a space, the text
/// of the value.
pub open spec fn pair_text(key: Seq<char>, value: Seq<char>) -> Seq<char> {
    key + ": "@ + value
}

/// The texts of the pairs in order, with nothing between one pair and the
/// next.
pub open spec fn rendered(texts: Seq<(Seq<char>, Seq<char>)>) -> Seq<char>
    decreases texts.len(),
{
    if texts.len() == 0 {
        Seq::empty()
    } else {
        rendered(texts.drop_last()) + pair_text(texts.last().0, texts.last().1)
    }
}

/// The characters of each text of `texts`.
pub open spec fn texts_of(texts: Seq<(String, String)>) -> Seq<(Seq<char>, Seq<char>)> {
    texts.map_values(|t: (String, String)| (t.0@, t.1@))
}

/// `format!("{:?}", t)`: the text that the `Debug` impl of `T` writes for
/// `t`. What that text holds is up to the impl, so nothing is claimed of it.
#[verifier::external_body]
fn debug_text<T: Debug>(t: &T) -> (text: String) {
    format!("{:?}", t)
}

/// `text` is a text that the `Debug` impl of `T` has written for `t`: what a
/// call of `debug_text` on `t` gave back.
pub closed spec fn is_debug_text<T: Debug>(t: T, text: String) -> bool {
    call_ensures(debug_text::<T>, (&t,), text)
}

/// The text of `t` for diagnostics.
pub(crate) fn debug_of<T: Debug>(t: &T) -> (text: String)
    ensures
        is_debug_text(*t, text),
{
    debug_text(t)
}

/// Joins the texts of keys and values into the text of the map.
pub fn render(texts: &Vec<(String, String)>) -> (out: String)
    ensures
        out@ == rendered(texts_of(texts@)),
{
    let mut out = String::new();
    let mut j: usize = 0;
    while j < texts.len()
        invariant
            j <= texts.len(),
            out@ == rendered(texts_of(texts@).take(j as int)),
        decreases texts.len() - j,
    {
        out.append(texts[j].0.as_str());
        out.append(": ");
        out.append(texts[j].1.as_str());
        proof {
            let done = texts_of(texts@).take(j + 1);
            assert(done.drop_last() =~= texts_of(texts@).take(j as int));
        }
        j += 1;
    }
    proof {
        assert(texts_of(texts@).take(texts.len() as int) =~= texts_of(texts@));
    }
    out
}

} // verus!
