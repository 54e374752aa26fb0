//! What the map asks of the sequence that keeps its keys in order.

use vstd::prelude::*;

verus! {

/// Whether `i` names a slot of `s`: a position below its length.
pub open spec fn in_range<K>(s: Seq<K>, i: Option<usize>) -> bool {
    i matches Some(n) && n < s.len()
}

/// An ordered sequence of keys, addressed by position.
///
/// The view is the sequence held. Every method says what it does to the view;
/// a position that names no slot is answered with `None` or ignored, never
/// with a failure. A container that keeps an order of its own, as a heap
/// does, cannot meet these contracts: it is no sequence of keys for the map.
pub trait Keys<K>: View<V = Seq<K>> {
    /// The key in slot `i`, if there is such a slot.
    fn get(&self, i: Option<usize>) -> (k: Option<&K>)
        ensures
            k == (if in_range(self@, i) {
                Some(&self@[i.unwrap() as int])
            } else {
                None
            }),
    ;

    /// Overwrites slot `i` with `k`; ignored if there is no such slot.
    fn set(&mut self, i: Option<usize>, k: K)
        ensures
            final(self)@ == (if in_range(old(self)@, i) {
                old(self)@.update(i.unwrap() as int, k)
            } else {
                old(self)@
            }),
    ;

    /// Appends `k` as the last slot.
    fn push(&mut self, k: K)
        ensures
            final(self)@ == old(self)@.push(k),
    ;

    /// Deletes slot `i`, moving every later key down by one; ignored if there
    /// is no such slot.
    fn remove(&mut self, i: Option<usize>)
        ensures
            final(self)@ == (if in_range(old(self)@, i) {
                old(self)@.remove(i.unwrap() as int)
            } else {
                old(self)@
            }),
    ;

    /// Deletes every slot.
    fn clear(&mut self)
        ensures
            final(self)@ == Seq::<K>::empty(),
    ;

    /// The number of slots.
    fn len(&self) -> (n: usize)
        ensures
            n == self@.len(),
    ;
}

} // verus!
