//! A growable sequence container with a verified sequence view.
//!
//! `VecCell<T>` owns one contiguous growable buffer of `T` and exposes the
//! usual sequence operations — push, pop, insert, remove, drain, sort, and
//! friends — each with a contract over the abstract view `self@: Seq<T>`.
//!
//! Exclusive access for a mutation is scoped to the single call that performs
//! it: every mutating operation takes the receiver exclusively, mutates the
//! buffer, and returns, so no view of the buffer ever survives across a call
//! boundary. Re-entrant use of one cell from inside one of its own operations
//! is impossible here, and cross-thread use without external serialization is
//! unsupported.

use vstd::prelude::*;

mod edit;
mod matching;
mod sorting;
mod iter;

pub use edit::{lemma_insert_remove_inverse, lowered_reservation, raised_reservation};
pub use matching::{dedup_of, seq_contains_eq, seq_starts_with_eq};
pub use sorting::{
    key_run, le_spec, lemma_i64_total_ordered, lemma_insertion_point_keeps_sorted, lt_spec,
    same_key, sorted_le, stable_reorder_of, total_ordered,
};
pub use iter::Iter;

verus! {

/// A growable buffer of `T`, viewed in contracts as the sequence `self@`.
///
/// Besides its elements, the cell records in ghost state a lower bound on
/// the buffer's allocated capacity, `spec_reserved()`: the headroom promised
/// by the reservation calls made so far. The bound is raised by
/// `with_capacity`, `reserve`, `reserve_exact` and a successful
/// `try_reserve`, lowered by `shrink_to`, and forgotten by `as_mut` (whose
/// caller may shrink the buffer at will); no other operation shrinks a
/// buffer it keeps, so the live capacity never falls below the record.
pub struct VecCell<T> {
    inner: Vec<T>,
    reserved: Ghost<nat>,
}

impl<T> View for VecCell<T> {
    type V = Seq<T>;

    open(crate) spec fn view(&self) -> Seq<T> {
        self.inner@
    }
}

impl<T> VecCell<T> {
    /// The recorded lower bound on the buffer's allocated capacity, as
    /// contracts see it.
    pub open(crate) spec fn spec_reserved(&self) -> nat {
        self.reserved@
    }
}

impl<T: Clone> Clone for VecCell<T> {
    /// Produces a cell over an independently owned deep copy of every
    /// element; later mutation of either cell leaves the other unchanged.
    fn clone(&self) -> (r: Self)
        ensures
            r@.len() == self@.len(),
            forall|i: int| 0 <= i < self@.len() ==> cloned(self@[i], #[trigger] r@[i]),
            r.spec_reserved() == 0,
    {
        VecCell { inner: self.inner.clone(), reserved: Ghost(0) }
    }
}

impl<T> Default for VecCell<T> {
    /// The default cell is empty.
    fn default() -> (r: Self)
        ensures
            r@ == Seq::<T>::empty(),
    {
        VecCell::new()
    }
}

impl<T> From<Vec<T>> for VecCell<T> {
    /// Wraps an already-built owned vector without copying it.
    fn from(v: Vec<T>) -> (r: Self) {
        VecCell { inner: v, reserved: Ghost(0) }
    }
}

impl<T> vstd::std_specs::convert::FromSpecImpl<Vec<T>> for VecCell<T> {
    open spec fn obeys_from_spec() -> bool {
        true
    }

    open(crate) spec fn from_spec(v: Vec<T>) -> Self {
        VecCell { inner: v, reserved: Ghost(0) }
    }
}

impl<T> From<VecCell<T>> for Vec<T> {
    /// Unwraps the cell into its owned vector.
    fn from(cell: VecCell<T>) -> (r: Vec<T>) {
        cell.inner
    }
}

impl<T> vstd::std_specs::convert::FromSpecImpl<VecCell<T>> for Vec<T> {
    open spec fn obeys_from_spec() -> bool {
        true
    }

    open(crate) spec fn from_spec(cell: VecCell<T>) -> Vec<T> {
        cell.inner
    }
}

impl<T> VecCell<T> {
    /// Creates an empty cell.
    pub fn new() -> (r: Self)
        ensures
            r@ == Seq::<T>::empty(),
            r.spec_reserved() == 0,
    {
        VecCell { inner: Vec::new(), reserved: Ghost(0) }
    }

    /// Creates an empty cell with room reserved for at least `capacity`
    /// elements.
    pub fn with_capacity(capacity: usize) -> (r: Self)
        ensures
            r@ == Seq::<T>::empty(),
            r.spec_reserved() == capacity as nat,
    {
        VecCell { inner: Vec::with_capacity(capacity), reserved: Ghost(capacity as nat) }
    }

    /// Consumes the cell and yields the owned buffer.
    pub fn into_inner(self) -> (r: Vec<T>)
        ensures
            r@ == self@,
    {
        self.inner
    }

    /// Borrows the owned buffer for reading; the borrow ends before any
    /// later mutating call can begin.
    pub fn as_ref(&self) -> (r: &Vec<T>)
        ensures
            r@ == self@,
    {
        &self.inner
    }

    /// Borrows the owned buffer for whole-buffer mutation; the borrow ends
    /// before any later call on the cell can begin. The caller may shrink
    /// the buffer through it, so the recorded capacity headroom is
    /// forgotten.
    pub fn as_mut(&mut self) -> (r: &mut Vec<T>)
        ensures
            (*r)@ == old(self)@,
            final(self)@ == final(r)@,
            final(self).spec_reserved() == 0,
    {
        self.reserved = Ghost(0);
        &mut self.inner
    }

    /// Borrows the element at `index`, or returns `None` when `index` is
    /// past the end; the borrow ends before any later mutating call.
    pub fn get_ref(&self, index: usize) -> (r: Option<&T>)
        ensures
            index < self@.len() ==> (r matches Some(v) && *v == self@[index as int]),
            index >= self@.len() ==> r is None,
    {
        if index < self.inner.len() {
            Some(&self.inner[index])
        } else {
            None
        }
    }

    /// The number of elements in the buffer.
    pub fn len(&self) -> (r: usize)
        ensures
            r == self@.len(),
    {
        self.inner.len()
    }

    /// Whether the buffer holds no elements.
    pub fn is_empty(&self) -> (r: bool)
        ensures
            r == (self@.len() == 0),
    {
        self.inner.is_empty()
    }

    /// Copies out the element at `index`, or returns `None` when `index` is
    /// past the end.
    pub fn get(&self, index: usize) -> (r: Option<T>) where T: Clone
        ensures
            index < self@.len() ==> (r matches Some(v) && cloned(self@[index as int], v)),
            index >= self@.len() ==> r is None,
    {
        if index < self.inner.len() {
            Some(self.inner[index].clone())
        } else {
            None
        }
    }

    /// Copies out the first element, or returns `None` on an empty buffer.
    pub fn first(&self) -> (r: Option<T>) where T: Clone
        ensures
            self@.len() > 0 ==> (r matches Some(v) && cloned(self@[0], v)),
            self@.len() == 0 ==> r is None,
    {
        self.get(0)
    }

    /// Copies out the last element, or returns `None` on an empty buffer.
    pub fn last(&self) -> (r: Option<T>) where T: Clone
        ensures
            self@.len() > 0 ==> (r matches Some(v) && cloned(self@.last(), v)),
            self@.len() == 0 ==> r is None,
    {
        if self.inner.len() == 0 {
            None
        } else {
            self.get(self.inner.len() - 1)
        }
    }

    /// Begins a single-pass iteration over copies of the elements.
    pub fn iter(&self) -> (r: Iter<'_, T>) where T: Clone
        ensures
            r.cell() == self,
            r.spec_position() == 0,
    {
        Iter::new(self)
    }

    /// Appends `value` at the end of the buffer.
    pub fn push(&mut self, value: T)
        ensures
            final(self)@ == old(self)@.push(value),
            final(self).spec_reserved() == old(self).spec_reserved(),
    {
        self.inner.push(value);
    }

    /// Removes and returns the last element, or `None` on an empty buffer.
    pub fn pop(&mut self) -> (r: Option<T>)
        ensures
            old(self)@.len() > 0 ==> r == Some(old(self)@.last()) && final(self)@
                == old(self)@.drop_last(),
            old(self)@.len() == 0 ==> r is None && final(self)@ == old(self)@,
            final(self).spec_reserved() == old(self).spec_reserved(),
    {
        self.inner.pop()
    }
}

/// Law: appending `v` to a sequence puts `v` at the old length and leaves
/// every earlier position unchanged, so values pushed in order are found by
/// `get` at their push positions.
pub proof fn lemma_push_preserves_order<T>(s: Seq<T>, v: T)
    ensures
        s.push(v).len() == s.len() + 1,
        s.push(v)[s.len() as int] == v,
        forall|i: int| 0 <= i < s.len() ==> s.push(v)[i] == s[i],
{
}

/// Law: popping directly after pushing `v` returns `v` and restores the
/// sequence that was there before the push.
pub proof fn lemma_push_pop_round_trip<T>(s: Seq<T>, v: T)
    ensures
        s.push(v).last() == v,
        s.push(v).drop_last() == s,
{
    assert(s.push(v).drop_last() =~= s);
}

/// Law: wrapping an owned vector in a cell and unwrapping it again yields
/// the original vector.
pub proof fn lemma_conversion_round_trip<T>(v: Vec<T>)
    ensures
        <VecCell<T> as vstd::std_specs::convert::FromSpec<Vec<T>>>::from_spec(v)@ == v@,
        <Vec<T> as vstd::std_specs::convert::FromSpec<VecCell<T>>>::from_spec(
            <VecCell<T> as vstd::std_specs::convert::FromSpec<Vec<T>>>::from_spec(v),
        ) == v,
{
}

/// Law: the owned vector obtained from any cell views equal to the cell's
/// own view, however the cell was built.
pub proof fn lemma_unwrap_preserves_view<T>(cell: VecCell<T>)
    ensures
        <Vec<T> as vstd::std_specs::convert::FromSpec<VecCell<T>>>::from_spec(cell)@ == cell@,
{
}

} // verus!
