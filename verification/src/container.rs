//! The growable-collection capability that collect steps gather their
//! results into: any type offering `empty`, `reserve` and `extend_one` can
//! receive the per-element values of a `.[]` query.

use vstd::prelude::*;

verus! {

/// A growable collection of elements.  `reserve` is only a capacity hint;
/// `extend_one` adds one element, with each collection's own policy (a
/// sequence appends, a set deduplicates).
pub trait Container: Sized {
    type Element;

    fn empty() -> Self;

    fn reserve(&mut self, additional: usize);

    fn extend_one(&mut self, element: Self::Element);
}

impl<T> Container for Vec<T> {
    type Element = T;

    fn empty() -> (r: Self)
        ensures
            r@ =~= Seq::<T>::empty(),
    {
        Vec::new()
    }

    fn reserve(&mut self, additional: usize)
        ensures
            final(self)@ == old(self)@,
    {
        Vec::reserve(self, additional);
    }

    fn extend_one(&mut self, element: T)
        ensures
            final(self)@ == old(self)@.push(element),
    {
        self.push(element);
    }
}

impl<T> Container for std::collections::VecDeque<T> {
    type Element = T;

    fn empty() -> (r: Self)
        ensures
            r@ =~= Seq::<T>::empty(),
    {
        std::collections::VecDeque::new()
    }

    fn reserve(&mut self, additional: usize)
        ensures
            final(self)@ == old(self)@,
    {
        std::collections::VecDeque::reserve(self, additional);
    }

    fn extend_one(&mut self, element: T)
        ensures
            final(self)@ == old(self)@.push(element),
    {
        self.push_back(element);
    }
}

impl<T: Ord> Container for std::collections::BTreeSet<T> {
    type Element = T;

    fn empty() -> (r: Self)
        ensures
            r@ =~= Set::<T>::empty(),
    {
        std::collections::BTreeSet::new()
    }

    /// An ordered set needs no reservation.
    fn reserve(&mut self, _additional: usize)
        ensures
            final(self)@ == old(self)@,
    {
    }

    fn extend_one(&mut self, element: T)
        ensures
            vstd::laws_cmp::obeys_cmp::<T>() ==> final(self)@ == old(self)@.insert(
                element,
            ),
    {
        self.insert(element);
    }
}

} // verus!
