//! A single-pass cursor over a `VecCell`.

use vstd::prelude::*;

use crate::VecCell;

verus! {

/// A forward-only cursor over a `VecCell`.
///
/// Each advance copies the element at the current position out of the live
/// buffer and then steps past it; nothing is borrowed from the buffer across
/// steps, so the cell itself stays free for further operations.
pub struct Iter<'a, T> {
    vc: &'a VecCell<T>,
    idx: usize,
}

impl<'a, T> Iter<'a, T> {
    /// The cell under iteration, as contracts see it.
    pub closed spec fn cell(&self) -> &'a VecCell<T> {
        self.vc
    }

    /// The position the next advance will read, as contracts see it.
    pub closed spec fn spec_position(&self) -> usize {
        self.idx
    }
}

impl<'a, T: Clone> Iter<'a, T> {
    pub(crate) fn new(vc: &'a VecCell<T>) -> (r: Self)
        ensures
            r.cell() == vc,
            r.spec_position() == 0,
    {
        Iter { vc, idx: 0 }
    }

    /// The position the next advance will read.
    pub fn position(&self) -> (r: usize)
        ensures
            r == self.spec_position(),
    {
        self.idx
    }

    /// Copies out the element at the current position, or returns `None`
    /// once the position is past the end; the position steps forward either
    /// way, so an element appended after exhaustion is skipped, never
    /// yielded late.
    pub fn next(&mut self) -> (r: Option<T>)
        requires
            old(self).spec_position() < usize::MAX,
        ensures
            final(self).cell() == old(self).cell(),
            final(self).spec_position() == old(self).spec_position() + 1,
            old(self).spec_position() < old(self).cell()@.len() ==> (r matches Some(v) && cloned(
                old(self).cell()@[old(self).spec_position() as int],
                v,
            )),
            old(self).spec_position() >= old(self).cell()@.len() ==> r is None,
    {
        let item = self.vc.get(self.idx);
        self.idx = self.idx + 1;
        item
    }
}

} // verus!
