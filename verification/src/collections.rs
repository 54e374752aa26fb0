//! The growable array as a sequence of keys.

use vstd::prelude::*;
use crate::traits::Keys;

verus! {

impl<K> Keys<K> for Vec<K> {
    fn get(&self, i: Option<usize>) -> (k: Option<&K>) {
        match i {
            Some(i) => {
                if i >= self.len() {
                    None
                } else {
                    Some(&self[i])
                }
            },
            None => None,
        }
    }

    fn set(&mut self, i: Option<usize>, k: K) {
        match i {
            Some(i) => {
                if i < self.len() {
                    self[i] = k;
                }
            },
            None => (),
        }
    }

    fn push(&mut self, k: K) {
        self.push(k);
    }

    fn remove(&mut self, i: Option<usize>) {
        match i {
            Some(i) => {
                if i < self.len() {
                    self.remove(i);
                }
            },
            None => (),
        }
    }

    fn clear(&mut self) {
        self.clear();
    }

    fn len(&self) -> (n: usize) {
        self.len()
    }
}

} // verus!
