//! In-place editing operations: insertion, removal, resizing, reordering,
//! draining, appending, and capacity management.

use vstd::prelude::*;

use core::ops::Range;
use std::collections::TryReserveError;

use vstd::pervasive::VecAdditionalExecFns;

use crate::VecCell;

verus! {

impl<T> VecCell<T> {
    /// Inserts `value` at `index`, shifting later elements one slot right.
    pub fn insert(&mut self, index: usize, value: T)
        requires
            index <= old(self)@.len(),
        ensures
            final(self)@ == old(self)@.insert(index as int, value),
            final(self).spec_reserved() == old(self).spec_reserved(),
    {
        self.inner.insert(index, value);
    }

    /// Removes and returns the element at `index`, shifting later elements
    /// one slot left.
    pub fn remove(&mut self, index: usize) -> (r: T)
        requires
            index < old(self)@.len(),
        ensures
            r == old(self)@[index as int],
            final(self)@ == old(self)@.remove(index as int),
            final(self).spec_reserved() == old(self).spec_reserved(),
    {
        self.inner.remove(index)
    }

    /// Removes and returns the element at `index` by moving the last element
    /// into its slot; constant-time, but the tail order is not preserved.
    pub fn swap_remove(&mut self, index: usize) -> (r: T)
        requires
            index < old(self)@.len(),
        ensures
            r == old(self)@[index as int],
            final(self)@ == old(self)@.update(index as int, old(self)@.last()).drop_last(),
            final(self).spec_reserved() == old(self).spec_reserved(),
    {
        self.inner.swap_remove(index)
    }

    /// Drops every element past index `len`; a no-op when `len` is not below
    /// the current length.
    pub fn truncate(&mut self, len: usize)
        ensures
            len <= old(self)@.len() ==> final(self)@ == old(self)@.subrange(0, len as int),
            len > old(self)@.len() ==> final(self)@ == old(self)@,
            final(self).spec_reserved() == old(self).spec_reserved(),
    {
        self.inner.truncate(len);
    }

    /// Grows the buffer to length `new_len` with copies of `value`, or drops
    /// the tail down to `new_len`.
    pub fn resize(&mut self, new_len: usize, value: T) where T: Clone
        ensures
            new_len <= old(self)@.len() ==> final(self)@ == old(self)@.subrange(
                0,
                new_len as int,
            ),
            new_len > old(self)@.len() ==> {
                &&& final(self)@.len() == new_len
                &&& final(self)@.subrange(0, old(self)@.len() as int) == old(self)@
                &&& forall|i: int|
                    old(self)@.len() <= i < new_len ==> cloned(value, #[trigger] final(self)@[i])
            },
            final(self).spec_reserved() == old(self).spec_reserved(),
    {
        self.inner.resize(new_len, value);
    }

    /// Exchanges the elements at indices `a` and `b`.
    pub fn swap(&mut self, a: usize, b: usize)
        requires
            a < old(self)@.len(),
            b < old(self)@.len(),
        ensures
            final(self)@ == old(self)@.update(a as int, old(self)@[b as int]).update(
                b as int,
                old(self)@[a as int],
            ),
            final(self).spec_reserved() == old(self).spec_reserved(),
    {
        let ghost orig = self.inner@;
        if a == b {
            proof {
                assert(orig.update(a as int, orig[b as int]).update(b as int, orig[a as int])
                    =~= orig);
            }
            return ;
        }
        let (lo, hi) = if a < b {
            (a, b)
        } else {
            (b, a)
        };
        let x = self.inner.remove(hi);
        let y = self.inner.remove(lo);
        self.inner.insert(lo, x);
        self.inner.insert(hi, y);
        proof {
            assert(self.inner@ =~= orig.update(a as int, orig[b as int]).update(
                b as int,
                orig[a as int],
            ));
        }
    }

    /// Overwrites every slot with a copy of `value`; the length is unchanged.
    pub fn fill(&mut self, value: T) where T: Clone
        ensures
            final(self)@.len() == old(self)@.len(),
            forall|i: int| 0 <= i < old(self)@.len() ==> cloned(value, #[trigger] final(self)@[i]),
            final(self).spec_reserved() == old(self).spec_reserved(),
    {
        let n = self.inner.len();
        let mut i: usize = 0;
        while i < n
            invariant
                i <= n,
                n == self.inner@.len(),
                self.spec_reserved() == old(self).spec_reserved(),
                forall|j: int| 0 <= j < i ==> cloned(value, #[trigger] self.inner@[j]),
            decreases n - i,
        {
            self.inner.set(i, value.clone());
            i = i + 1;
        }
    }

    /// Reverses the elements of `[from, to)` in place.
    fn reverse_span(&mut self, from: usize, to: usize)
        requires
            from <= to <= old(self)@.len(),
        ensures
            final(self)@.len() == old(self)@.len(),
            final(self).spec_reserved() == old(self).spec_reserved(),
            forall|j: int|
                0 <= j < old(self)@.len() && !(from <= j < to) ==> final(self)@[j] == old(
                    self,
                )@[j],
            forall|j: int| from <= j < to ==> final(self)@[j] == old(self)@[from + to - 1 - j],
    {
        let ghost orig = self.inner@;
        let span = to - from;
        let mut i: usize = 0;
        while i < span / 2
            invariant
                i <= span / 2,
                span == to - from,
                from <= to <= self.inner@.len(),
                orig.len() == self.inner@.len(),
                self.spec_reserved() == old(self).spec_reserved(),
                forall|j: int|
                    0 <= j < orig.len() && !(from <= j < to) ==> self.inner@[j] == orig[j],
                forall|j: int|
                    from <= j < from + i || to - i <= j < to ==> self.inner@[j] == orig[from + to
                        - 1 - j],
                forall|j: int| from + i <= j < to - i ==> self.inner@[j] == orig[j],
            decreases span / 2 - i,
        {
            self.swap(from + i, to - 1 - i);
            i = i + 1;
        }
    }

    /// Reverses the element order in place.
    pub fn reverse(&mut self)
        ensures
            final(self)@ == old(self)@.reverse(),
            final(self).spec_reserved() == old(self).spec_reserved(),
    {
        let n = self.inner.len();
        self.reverse_span(0, n);
        proof {
            assert(self.inner@ =~= old(self)@.reverse());
        }
    }

    /// Cyclically shifts the elements `k` positions toward the front, in
    /// place by three span reversals.
    pub fn rotate_left(&mut self, k: usize)
        requires
            k <= old(self)@.len(),
        ensures
            final(self)@ == old(self)@.subrange(k as int, old(self)@.len() as int)
                + old(self)@.subrange(0, k as int),
            final(self).spec_reserved() == old(self).spec_reserved(),
    {
        let ghost orig = self.inner@;
        let n = self.inner.len();
        self.reverse_span(0, k);
        let ghost s1 = self.inner@;
        self.reverse_span(k, n);
        let ghost s2 = self.inner@;
        self.reverse_span(0, n);
        proof {
            let rotated = orig.subrange(k as int, n as int) + orig.subrange(0, k as int);
            assert forall|j: int| 0 <= j < n implies #[trigger] self.inner@[j] == rotated[j] by {
                assert(self.inner@[j] == s2[n - 1 - j]);
                if j < n - k {
                    assert(s2[n - 1 - j] == s1[k + j]);
                    assert(s1[k + j] == orig[k + j]);
                } else {
                    assert(s2[n - 1 - j] == s1[n - 1 - j]);
                    assert(s1[n - 1 - j] == orig[k - 1 - (n - 1 - j)]);
                }
            }
            assert(self.inner@ =~= rotated);
        }
    }

    /// Cyclically shifts the elements `k` positions toward the back, in
    /// place.
    pub fn rotate_right(&mut self, k: usize)
        requires
            k <= old(self)@.len(),
        ensures
            final(self)@ == old(self)@.subrange(
                old(self)@.len() - k as int,
                old(self)@.len() as int,
            ) + old(self)@.subrange(0, old(self)@.len() - k as int),
            final(self).spec_reserved() == old(self).spec_reserved(),
    {
        let n = self.inner.len();
        self.rotate_left(n - k);
    }

    /// Splits the buffer at `at`: the cell keeps `[0, at)` and the call
    /// returns `[at, len)` as an owned vector.
    pub fn split_off(&mut self, at: usize) -> (r: Vec<T>)
        requires
            at <= old(self)@.len(),
        ensures
            final(self)@ == old(self)@.subrange(0, at as int),
            r@ == old(self)@.subrange(at as int, old(self)@.len() as int),
            final(self).spec_reserved() == old(self).spec_reserved(),
    {
        self.inner.split_off(at)
    }

    /// Removes the elements of `range` and returns them, in their original
    /// order, as an owned vector; the remainder shifts left to close the gap.
    pub fn drain_collect(&mut self, range: Range<usize>) -> (r: Vec<T>)
        requires
            range.start <= range.end,
            range.end <= old(self)@.len(),
        ensures
            r@ == old(self)@.subrange(range.start as int, range.end as int),
            final(self)@ == old(self)@.subrange(0, range.start as int) + old(self)@.subrange(
                range.end as int,
                old(self)@.len() as int,
            ),
            final(self).spec_reserved() == old(self).spec_reserved(),
    {
        let ghost orig = self.inner@;
        let start = range.start;
        let count = range.end - range.start;
        let mut out: Vec<T> = Vec::new();
        let mut t: usize = 0;
        while t < count
            invariant
                t <= count,
                start + count <= orig.len(),
                self.spec_reserved() == old(self).spec_reserved(),
                out@ == orig.subrange(start as int, start + t),
                self.inner@ == orig.subrange(0, start as int) + orig.subrange(
                    start + t,
                    orig.len() as int,
                ),
            decreases count - t,
        {
            let x = self.inner.remove(start);
            out.push(x);
            proof {
                assert(out@ =~= orig.subrange(start as int, start + t + 1));
                assert(self.inner@ =~= orig.subrange(0, start as int) + orig.subrange(
                    start + t + 1,
                    orig.len() as int,
                ));
            }
            t = t + 1;
        }
        proof {
            assert(self.inner@ =~= orig.subrange(0, start as int) + orig.subrange(
                start + count,
                orig.len() as int,
            ));
        }
        out
    }

    /// Removes the elements of `range` and discards them; the remainder
    /// shifts left to close the gap.
    pub fn drain(&mut self, range: Range<usize>)
        requires
            range.start <= range.end,
            range.end <= old(self)@.len(),
        ensures
            final(self)@ == old(self)@.subrange(0, range.start as int) + old(self)@.subrange(
                range.end as int,
                old(self)@.len() as int,
            ),
            final(self).spec_reserved() == old(self).spec_reserved(),
    {
        let _ = self.drain_collect(range);
    }

    /// Moves every element of `other` to the end of the buffer, preserving
    /// their order.
    pub fn extend(&mut self, other: Vec<T>)
        ensures
            final(self)@ == old(self)@ + other@,
            final(self).spec_reserved() == old(self).spec_reserved(),
    {
        let mut other = other;
        self.inner.append(&mut other);
    }

    /// Appends a copy of each element of `items`, preserving their order.
    pub fn extend_from_slice(&mut self, items: &[T]) where T: Clone
        ensures
            final(self)@.len() == old(self)@.len() + items@.len(),
            final(self)@.subrange(0, old(self)@.len() as int) == old(self)@,
            forall|i: int|
                old(self)@.len() <= i < final(self)@.len() ==> cloned(
                    items@[i - old(self)@.len()],
                    #[trigger] final(self)@[i],
                ),
            final(self).spec_reserved() == old(self).spec_reserved(),
    {
        self.inner.extend_from_slice(items);
        proof {
            assert(self.inner@.subrange(0, old(self)@.len() as int) =~= old(self)@);
        }
    }

    /// The number of elements the buffer can hold before it must reallocate.
    ///
    /// Relies on `Vec::capacity` and the documented capacity discipline of
    /// `Vec`: the capacity is never below the length; `Vec::with_capacity`,
    /// `Vec::reserve`, `Vec::reserve_exact` and a successful
    /// `Vec::try_reserve` leave at least the requested headroom; and a `Vec`
    /// never shrinks its allocation on its own, only on an explicit shrink
    /// call. The cell raises and lowers its recorded headroom
    /// `spec_reserved()` exactly at those calls (and forgets it when
    /// `as_mut` hands the buffer out), so the live capacity is never below
    /// the record.
    #[verifier::external_body]
    pub fn capacity(&self) -> (r: usize)
        ensures
            r >= self@.len(),
            r >= self.spec_reserved(),
    {
        self.inner.capacity()
    }

    /// Reserves room for at least `additional` more elements and records
    /// that headroom; the contents are unchanged.
    pub fn reserve(&mut self, additional: usize)
        ensures
            final(self)@ == old(self)@,
            final(self).spec_reserved() == raised_reservation(
                old(self).spec_reserved(),
                old(self)@.len() as nat,
                additional as nat,
            ),
    {
        let len = self.inner.len();
        self.inner.reserve(additional);
        self.reserved = Ghost(raised_reservation(self.reserved@, len as nat, additional as nat));
    }

    /// Reserves room for exactly `additional` more elements where possible
    /// and records that headroom; the contents are unchanged.
    pub fn reserve_exact(&mut self, additional: usize)
        ensures
            final(self)@ == old(self)@,
            final(self).spec_reserved() == raised_reservation(
                old(self).spec_reserved(),
                old(self)@.len() as nat,
                additional as nat,
            ),
    {
        let len = self.inner.len();
        vec_reserve_exact(&mut self.inner, additional);
        self.reserved = Ghost(raised_reservation(self.reserved@, len as nat, additional as nat));
    }

    /// Releases excess capacity down to at least `min_capacity`, capping the
    /// recorded headroom accordingly; the contents are unchanged.
    pub fn shrink_to(&mut self, min_capacity: usize)
        ensures
            final(self)@ == old(self)@,
            final(self).spec_reserved() == lowered_reservation(
                old(self).spec_reserved(),
                min_capacity as nat,
            ),
    {
        vec_shrink_to(&mut self.inner, min_capacity);
        self.reserved = Ghost(lowered_reservation(self.reserved@, min_capacity as nat));
    }

    /// Tries to reserve room for at least `additional` more elements,
    /// reporting allocation failure as an error instead of aborting; the
    /// contents are unchanged either way, and on success the headroom is
    /// recorded.
    pub fn try_reserve(&mut self, additional: usize) -> (r: Result<(), TryReserveError>)
        ensures
            final(self)@ == old(self)@,
            r is Ok ==> final(self).spec_reserved() == raised_reservation(
                old(self).spec_reserved(),
                old(self)@.len() as nat,
                additional as nat,
            ),
            r is Err ==> final(self).spec_reserved() == old(self).spec_reserved(),
    {
        let len = self.inner.len();
        let result = self.inner.try_reserve(additional);
        if result.is_ok() {
            self.reserved = Ghost(
                raised_reservation(self.reserved@, len as nat, additional as nat),
            );
        }
        result
    }
}

/// The headroom on record after reserving room for `additional` elements
/// beyond `len`: the old record where it already covers the request.
pub open spec fn raised_reservation(current: nat, len: nat, additional: nat) -> nat {
    if current >= len + additional {
        current
    } else {
        (len + additional) as nat
    }
}

/// The headroom on record after shrinking to `min_capacity`: capped there,
/// never raised.
pub open spec fn lowered_reservation(current: nat, min_capacity: nat) -> nat {
    if current <= min_capacity {
        current
    } else {
        min_capacity
    }
}

/// Relies on `Vec::reserve_exact`: it only adjusts capacity, never the
/// contents.
#[verifier::external_body]
fn vec_reserve_exact<T>(v: &mut Vec<T>, additional: usize)
    ensures
        final(v)@ == old(v)@,
{
    v.reserve_exact(additional);
}

/// Relies on `Vec::shrink_to`: it only adjusts capacity, never the
/// contents.
#[verifier::external_body]
fn vec_shrink_to<T>(v: &mut Vec<T>, min_capacity: usize)
    ensures
        final(v)@ == old(v)@,
{
    v.shrink_to(min_capacity);
}

/// Law: removing at `i` directly after inserting `v` at `i` returns `v` and
/// restores the original sequence.
pub proof fn lemma_insert_remove_inverse<T>(s: Seq<T>, i: int, v: T)
    requires
        0 <= i <= s.len(),
    ensures
        s.insert(i, v)[i] == v,
        s.insert(i, v).remove(i) == s,
{
    assert(s.insert(i, v).remove(i) =~= s);
}

} // verus!
