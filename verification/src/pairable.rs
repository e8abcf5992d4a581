//! Pairwise iteration: the consecutive pairs of a vector.

use vstd::prelude::*;

verus! {

/// A sequence whose consecutive pairs can be listed.
pub trait Pairable<T: Copy>: View<V = Seq<T>> {
    /// The consecutive pairs: one fewer than the elements, none for fewer
    /// than two elements.
    fn pairwise(&self) -> (r: Vec<(T, T)>)
        ensures
            self@.len() < 2 ==> r@.len() == 0,
            self@.len() >= 2 ==> r@.len() == self@.len() - 1,
            forall|i: int| 0 <= i < r@.len() ==> r@[i] == (self@[i], self@[i + 1]),
    ;
}

impl<T: Copy> Pairable<T> for Vec<T> {
    fn pairwise(&self) -> (r: Vec<(T, T)>) {
        let mut r: Vec<(T, T)> = Vec::new();
        if self.len() < 2 {
            return r;
        }
        let mut i: usize = 1;
        while i < self.len()
            invariant
                1 <= i <= self@.len(),
                2 <= self@.len(),
                r@.len() == i - 1,
                forall|k: int| 0 <= k < r@.len() ==> r@[k] == (self@[k], self@[k + 1]),
            decreases self@.len() - i,
        {
            r.push((self[i - 1], self[i]));
            i += 1;
        }
        r
    }
}

} // verus!
