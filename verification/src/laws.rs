//! What holds of the map whatever it stores, proved over its model.

use vstd::prelude::*;
use crate::model::{
    distinct_keys, has_key, key_at, keys_of, lemma_position_unique, position_of, put, put_at,
    taken, value_at, value_of, values_of, without,
};
use crate::traits::in_range;

verus! {

/// `s` after each pair of `entries` is set, the first pair first.
pub open spec fn put_all<K, V>(s: Seq<(K, V)>, entries: Seq<(K, V)>) -> Seq<(K, V)>
    decreases entries.len(),
{
    if entries.len() == 0 {
        s
    } else {
        put(put_all(s, entries.drop_last()), entries.last().0, entries.last().1)
    }
}

/// The keys that `s` holds, as a set.
pub open spec fn live_keys<K, V>(s: Seq<(K, V)>) -> Set<K> {
    keys_of(s).to_set()
}

/// A call that fills or empties the map by key.
pub enum Call<K, V> {
    /// `set(k, v)`
    Upsert(K, V),
    /// `remove(k)`
    Remove(K),
    /// `clear()`
    Clear,
}

/// `s` after the calls of `calls`, the first call first.
pub open spec fn after_calls<K, V>(s: Seq<(K, V)>, calls: Seq<Call<K, V>>) -> Seq<(K, V)>
    decreases calls.len(),
{
    if calls.len() == 0 {
        s
    } else {
        match calls.last() {
            Call::Upsert(k, v) => put(after_calls(s, calls.drop_last()), k, v),
            Call::Remove(k) => without(after_calls(s, calls.drop_last()), k),
            Call::Clear => Seq::empty(),
        }
    }
}

/// The keys that were set by `calls` and neither removed nor cleared away
/// since, beside those of `keys` that were left alone.
pub open spec fn keys_left<K, V>(keys: Set<K>, calls: Seq<Call<K, V>>) -> Set<K>
    decreases calls.len(),
{
    if calls.len() == 0 {
        keys
    } else {
        match calls.last() {
            Call::Upsert(k, v) => keys_left(keys, calls.drop_last()).insert(k),
            Call::Remove(k) => keys_left(keys, calls.drop_last()).remove(k),
            Call::Clear => Set::empty(),
        }
    }
}

/// No call makes a key occur twice: setting, writing at a position and
/// removing each keep the keys distinct.
pub proof fn lemma_keys_stay_distinct<K, V>(s: Seq<(K, V)>, i: Option<usize>, k: K, v: V)
    requires
        distinct_keys(s),
    ensures
        distinct_keys(put(s, k, v)),
        distinct_keys(put_at(s, i, k, v)),
        distinct_keys(without(s, k)),
{
    if in_range(s, i) {
        lemma_set_at_then_read(s, i, k, v);
    }
}

/// Keys that are new to the map and differ from each other are appended in
/// the order in which they are set.
pub proof fn lemma_new_keys_are_appended_in_order<K, V>(s: Seq<(K, V)>, entries: Seq<(K, V)>)
    requires
        distinct_keys(s + entries),
    ensures
        put_all(s, entries) == s + entries,
    decreases entries.len(),
{
    if entries.len() > 0 {
        let all = s + entries;
        let before = s + entries.drop_last();
        assert(distinct_keys(before)) by {
            assert forall|i: int| 0 <= i < before.len() implies #[trigger] before[i] == all[i] by {}
        }
        lemma_new_keys_are_appended_in_order(s, entries.drop_last());
        assert forall|i: int| 0 <= i < before.len() implies (#[trigger] before[i]).0
            != entries.last().0 by {
            assert(before[i] == all[i]);
            assert(all[all.len() - 1] == entries.last());
        }
    }
}

/// Setting keys that differ from each other on an empty map leaves exactly
/// these keys, in the order of the calls.
pub proof fn lemma_set_preserves_call_order<K, V>(entries: Seq<(K, V)>)
    requires
        distinct_keys(entries),
    ensures
        put_all(Seq::empty(), entries) == entries,
        keys_of(put_all(Seq::empty(), entries)) == keys_of(entries),
{
    lemma_new_keys_are_appended_in_order(Seq::empty(), entries);
}

/// After a key is set it is present, in a slot of the map.
pub proof fn lemma_put_has_key<K, V>(s: Seq<(K, V)>, k: K, v: V)
    ensures
        has_key(put(s, k, v), k),
        0 <= position_of(put(s, k, v), k) < put(s, k, v).len(),
        put(s, k, v)[position_of(put(s, k, v), k)].0 == k,
{
    let slot = if has_key(s, k) { position_of(s, k) } else { s.len() as int };
    assert(put(s, k, v)[slot].0 == k);
}

/// Setting a key a second time moves no key: the sequence of keys stays as
/// the first call left it, and only the value at the position of `k`
/// changes.
pub proof fn lemma_set_again_keeps_positions<K, V>(s: Seq<(K, V)>, k: K, v1: V, v2: V)
    requires
        distinct_keys(s),
    ensures
        has_key(put(s, k, v1), k),
        keys_of(put(put(s, k, v1), k, v2)) == keys_of(put(s, k, v1)),
        put(put(s, k, v1), k, v2) == put(s, k, v1).update(
            position_of(put(s, k, v1), k),
            (k, v2),
        ),
        put(put(s, k, v1), k, v2) == put(s, k, v2),
{
    let slot = if has_key(s, k) { position_of(s, k) } else { s.len() as int };
    lemma_position_unique(put(s, k, v1), slot);
}

/// What was set is what is read, by key and by position: after `k` is set
/// to `v`, the value of `k` is `v`, and so is the value at the position
/// where `k` is found.
pub proof fn lemma_set_then_read<K, V>(s: Seq<(K, V)>, k: K, v: V)
    requires
        distinct_keys(s),
        s.len() < usize::MAX,
    ensures
        value_of(put(s, k, v), k) == Some(v),
        key_at(put(s, k, v), Some(position_of(put(s, k, v), k) as usize)) == Some(k),
        value_at(put(s, k, v), Some(position_of(put(s, k, v), k) as usize)) == Some(v),
{
    let slot = if has_key(s, k) { position_of(s, k) } else { s.len() as int };
    lemma_position_unique(put(s, k, v), slot);
}

/// A key has a slot exactly if it is among the keys that the map holds.
pub proof fn lemma_has_key_is_live<K, V>(s: Seq<(K, V)>, k: K)
    ensures
        has_key(s, k) <==> live_keys(s).contains(k),
        has_key(s, k) <==> keys_of(s).contains(k),
{
    if has_key(s, k) {
        assert(keys_of(s)[position_of(s, k)] == k);
    }
}

/// The map has as many pairs as it has keys, and as many keys as values.
pub proof fn lemma_len_counts_live_keys<K, V>(s: Seq<(K, V)>)
    requires
        distinct_keys(s),
    ensures
        keys_of(s).len() == s.len(),
        values_of(s).len() == s.len(),
        keys_of(s).no_duplicates(),
        live_keys(s).finite(),
        live_keys(s).len() == s.len(),
{
    let keys = keys_of(s);
    assert forall|i: int, j: int|
        0 <= i < keys.len() && 0 <= j < keys.len() && i != j implies keys[i] != keys[j] by {
        assert(s[i].0 != s[j].0);
    }
    keys.unique_seq_to_set();
}

/// Setting a key adds it to the keys that the map holds, and to the length
/// only if it is new.
pub proof fn lemma_set_counts<K, V>(s: Seq<(K, V)>, k: K, v: V)
    ensures
        live_keys(put(s, k, v)) == live_keys(s).insert(k),
        has_key(s, k) <==> live_keys(s).contains(k),
        put(s, k, v).len() == s.len() + (if has_key(s, k) { 0int } else { 1int }),
{
    let t = put(s, k, v);
    lemma_has_key_is_live(s, k);
    assert forall|x: K| live_keys(t).contains(x) <==> live_keys(s).insert(k).contains(x) by {
        lemma_has_key_is_live(t, x);
        lemma_has_key_is_live(s, x);
        if x == k {
            lemma_put_has_key(s, k, v);
        } else if has_key(s, x) {
            assert(t[position_of(s, x)].0 == x);
        }
    }
}

/// Removing a key takes it from the keys that the map holds, and from the
/// length only if it was present.
pub proof fn lemma_remove_counts<K, V>(s: Seq<(K, V)>, k: K)
    requires
        distinct_keys(s),
    ensures
        live_keys(without(s, k)) == live_keys(s).remove(k),
        without(s, k).len() == s.len() - (if has_key(s, k) { 1int } else { 0int }),
        taken(s, k) is Some <==> has_key(s, k),
{
    let t = without(s, k);
    assert forall|x: K| live_keys(t).contains(x) <==> live_keys(s).remove(k).contains(x) by {
        lemma_has_key_is_live(t, x);
        lemma_has_key_is_live(s, x);
        if has_key(s, k) && has_key(s, x) && x != k {
            lemma_remove_shifts_later_keys(s, k, x);
        }
    }
}

/// Whatever was set, removed and cleared, and in whatever order, the map
/// holds the keys that were set and not taken away since, each once: its
/// length is their number.
pub proof fn lemma_len_after_calls<K, V>(s: Seq<(K, V)>, calls: Seq<Call<K, V>>)
    requires
        distinct_keys(s),
    ensures
        distinct_keys(after_calls(s, calls)),
        live_keys(after_calls(s, calls)) == keys_left(live_keys(s), calls),
        keys_left(live_keys(s), calls).finite(),
        after_calls(s, calls).len() == keys_left(live_keys(s), calls).len(),
    decreases calls.len(),
{
    if calls.len() > 0 {
        let before = after_calls(s, calls.drop_last());
        lemma_len_after_calls(s, calls.drop_last());
        match calls.last() {
            Call::Upsert(k, v) => lemma_set_counts(before, k, v),
            Call::Remove(k) => lemma_remove_counts(before, k),
            Call::Clear => {},
        }
    }
    lemma_len_counts_live_keys(after_calls(s, calls));
}

/// Removing a key moves every later key down by one position and leaves
/// the earlier ones where they are; no other key loses its value.
pub proof fn lemma_remove_shifts_later_keys<K, V>(s: Seq<(K, V)>, k: K, x: K)
    requires
        distinct_keys(s),
        has_key(s, k),
        has_key(s, x),
        x != k,
    ensures
        has_key(without(s, k), x),
        position_of(without(s, k), x) == (if position_of(s, x) < position_of(s, k) {
            position_of(s, x)
        } else {
            position_of(s, x) - 1
        }),
        value_of(without(s, k), x) == value_of(s, x),
{
    let slot = if position_of(s, x) < position_of(s, k) {
        position_of(s, x)
    } else {
        position_of(s, x) - 1
    };
    lemma_position_unique(without(s, k), slot);
}

/// Writing a pair at a position that the map has leaves the key present
/// with that value, and keeps the keys distinct. The pair stands at the
/// position that was named, unless the key lived at an earlier position:
/// that position is then deleted, and the pair stands one position lower.
pub proof fn lemma_set_at_then_read<K, V>(s: Seq<(K, V)>, i: Option<usize>, k: K, v: V)
    requires
        distinct_keys(s),
        in_range(s, i),
    ensures
        distinct_keys(put_at(s, i, k, v)),
        has_key(put_at(s, i, k, v), k),
        value_of(put_at(s, i, k, v), k) == Some(v),
        position_of(put_at(s, i, k, v), k) == (if has_key(s, k) && position_of(s, k)
            < i.unwrap() {
            i.unwrap() - 1
        } else {
            i.unwrap() as int
        }),
        put_at(s, i, k, v).len() == s.len() - (if has_key(s, k) && position_of(s, k)
            != i.unwrap() {
            1int
        } else {
            0int
        }),
{
    let slot = if has_key(s, k) && position_of(s, k) < i.unwrap() {
        i.unwrap() - 1
    } else {
        i.unwrap() as int
    };
    lemma_position_unique(put_at(s, i, k, v), slot);
}

/// An empty map answers every lookup with nothing, and a removal finds
/// nothing to take.
pub proof fn lemma_empty_holds_nothing<K, V>(k: K, i: Option<usize>)
    ensures
        !has_key(Seq::<(K, V)>::empty(), k),
        value_of(Seq::<(K, V)>::empty(), k) is None,
        key_at(Seq::<(K, V)>::empty(), i) is None,
        value_at(Seq::<(K, V)>::empty(), i) is None,
        taken(Seq::<(K, V)>::empty(), k) is None,
        without(Seq::<(K, V)>::empty(), k) == Seq::<(K, V)>::empty(),
{
}

/// An empty map has no keys and no values, and setting a key on it gives
/// the map of that one pair: a cleared map is as good as a new one.
pub proof fn lemma_empty_is_fresh<K, V>(k: K, v: V)
    ensures
        distinct_keys(Seq::<(K, V)>::empty()),
        keys_of(Seq::<(K, V)>::empty()) == Seq::<K>::empty(),
        values_of(Seq::<(K, V)>::empty()) == Seq::<V>::empty(),
        put(Seq::<(K, V)>::empty(), k, v) == seq![(k, v)],
{
}

/// Writing at a position that the map does not have changes nothing.
pub proof fn lemma_set_at_out_of_range<K, V>(s: Seq<(K, V)>, i: Option<usize>, k: K, v: V)
    requires
        !in_range(s, i),
    ensures
        put_at(s, i, k, v) == s,
{
}

} // verus!
