use vstd::prelude::*;

verus! {

/// An iterator whose items borrow from the iterator itself: each item is
/// valid only until the next call of `next`.
pub trait LendingIterator {
    type Item<'a> where Self: 'a;

    fn next<'a>(&'a mut self) -> Option<Self::Item<'a>>;
}

} // verus!
