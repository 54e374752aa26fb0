//! The map as mathematics: a sequence of key/value pairs in which no key
//! occurs twice. The position of a pair is its index in the sequence.

use vstd::prelude::*;
use crate::map::IndexedLinkedHashMapValue;
use crate::traits::in_range;

verus! {

/// The keys of `s`, in order.
pub open spec fn keys_of<K, V>(s: Seq<(K, V)>) -> Seq<K> {
    s.map_values(|e: (K, V)| e.0)
}

/// The values of `s`, in the order of their keys.
pub open spec fn values_of<K, V>(s: Seq<(K, V)>) -> Seq<V> {
    s.map_values(|e: (K, V)| e.1)
}

/// No key occurs in two slots of `s`.
pub open spec fn distinct_keys<K, V>(s: Seq<(K, V)>) -> bool {
    forall|i: int, j: int| 0 <= i < j < s.len() ==> (#[trigger] s[i]).0 != (#[trigger] s[j]).0
}

/// Some slot of `s` holds the key `k`.
pub open spec fn has_key<K, V>(s: Seq<(K, V)>, k: K) -> bool {
    exists|i: int| 0 <= i < s.len() && (#[trigger] s[i]).0 == k
}

/// The slot of `s` that holds `k`; meaningful where `has_key(s, k)`.
pub open spec fn position_of<K, V>(s: Seq<(K, V)>, k: K) -> int {
    choose|i: int| 0 <= i < s.len() && (#[trigger] s[i]).0 == k
}

/// The value stored under `k`.
pub open spec fn value_of<K, V>(s: Seq<(K, V)>, k: K) -> Option<V> {
    if has_key(s, k) {
        Some(s[position_of(s, k)].1)
    } else {
        None
    }
}

/// The key in slot `i`.
pub open spec fn key_at<K, V>(s: Seq<(K, V)>, i: Option<usize>) -> Option<K> {
    if in_range(s, i) {
        Some(s[i.unwrap() as int].0)
    } else {
        None
    }
}

/// The value in slot `i`.
pub open spec fn value_at<K, V>(s: Seq<(K, V)>, i: Option<usize>) -> Option<V> {
    if in_range(s, i) {
        Some(s[i.unwrap() as int].1)
    } else {
        None
    }
}

/// `s` after `k` is set to `v`: a key that is present keeps its slot and gets
/// the new value, a new key is appended.
pub open spec fn put<K, V>(s: Seq<(K, V)>, k: K, v: V) -> Seq<(K, V)> {
    if has_key(s, k) {
        s.update(position_of(s, k), (k, v))
    } else {
        s.push((k, v))
    }
}

/// `s` after the pair `(k, v)` is written into slot `i`.
///
/// A position that names no slot changes nothing. Otherwise the pair that the
/// slot held is gone, and if `k` lived in another slot, that slot is deleted
/// and the later pairs move down by one.
pub open spec fn put_at<K, V>(s: Seq<(K, V)>, i: Option<usize>, k: K, v: V) -> Seq<(K, V)> {
    if !in_range(s, i) {
        s
    } else if has_key(s, k) && position_of(s, k) != i.unwrap() {
        s.update(i.unwrap() as int, (k, v)).remove(position_of(s, k))
    } else {
        s.update(i.unwrap() as int, (k, v))
    }
}

/// `s` without the pair of `k`: the later pairs move down by one.
pub open spec fn without<K, V>(s: Seq<(K, V)>, k: K) -> Seq<(K, V)> {
    if has_key(s, k) {
        s.remove(position_of(s, k))
    } else {
        s
    }
}

/// What taking `k` out of `s` hands back: the position and the value of `k`.
pub open spec fn taken<K, V>(s: Seq<(K, V)>, k: K) -> Option<IndexedLinkedHashMapValue<V>> {
    if has_key(s, k) {
        Some(
            IndexedLinkedHashMapValue {
                index: Some(position_of(s, k) as usize),
                value: s[position_of(s, k)].1,
            },
        )
    } else {
        None
    }
}

/// In a sequence of distinct keys, the slot that holds `k` is the only one.
pub proof fn lemma_position_unique<K, V>(s: Seq<(K, V)>, i: int)
    requires
        distinct_keys(s),
        0 <= i < s.len(),
    ensures
        has_key(s, s[i].0),
        position_of(s, s[i].0) == i,
{
}

} // verus!
