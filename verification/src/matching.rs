//! Equality-based queries and deduplication.
//!
//! Element comparisons go through `T`'s own `PartialEq`. The contracts are
//! stated over `eq_spec`, the specification of that comparison, and hold
//! whenever the element type's equality obeys its specification
//! (`T::obeys_eq_spec()`), which is the case for the primitive types.

use vstd::prelude::*;

use vstd::std_specs::cmp::PartialEqSpec;

use crate::VecCell;

verus! {

/// Whether some element of `s` compares equal to `x`.
pub open spec fn seq_contains_eq<T: PartialEq>(s: Seq<T>, x: T) -> bool {
    exists|i: int| 0 <= i < s.len() && s[i].eq_spec(&x)
}

/// Whether `p` is an elementwise-equal prefix of `s`.
pub open spec fn seq_starts_with_eq<T: PartialEq>(s: Seq<T>, p: Seq<T>) -> bool {
    &&& p.len() <= s.len()
    &&& forall|i: int| 0 <= i < p.len() ==> #[trigger] s[i].eq_spec(&p[i])
}

/// Whether no two adjacent elements of `s` below position `n` compare equal.
pub open spec fn distinct_adjacent_upto<T: PartialEq>(s: Seq<T>, n: int) -> bool {
    forall|j: int, k: int|
        1 <= j < n && j <= s.len() && k == j - 1 ==> !(#[trigger] s[j].eq_spec(&s[k]))
}

/// `s` with every element that compares equal to the element most recently
/// kept before it removed: the first element of each run of equals stays.
pub open spec fn dedup_of<T: PartialEq>(s: Seq<T>) -> Seq<T>
    decreases s.len(),
{
    if s.len() <= 1 {
        s
    } else if s[1].eq_spec(&s[0]) {
        dedup_of(s.remove(1))
    } else {
        seq![s[0]] + dedup_of(s.drop_first())
    }
}

impl<T> VecCell<T> {
    /// Whether some element compares equal to `x`.
    pub fn contains(&self, x: &T) -> (r: bool) where T: PartialEq
        ensures
            T::obeys_eq_spec() ==> r == seq_contains_eq(self@, *x),
    {
        let n = self.inner.len();
        let mut i: usize = 0;
        while i < n
            invariant
                i <= n,
                n == self@.len(),
                T::obeys_eq_spec() ==> forall|j: int|
                    0 <= j < i ==> !(#[trigger] self@[j].eq_spec(x)),
            decreases n - i,
        {
            if self.inner[i].eq(x) {
                return true;
            }
            i = i + 1;
        }
        false
    }

    /// Whether the buffer begins with the elements of `prefix`, compared
    /// elementwise.
    pub fn starts_with(&self, prefix: &[T]) -> (r: bool) where T: PartialEq
        ensures
            T::obeys_eq_spec() ==> r == seq_starts_with_eq(self@, prefix@),
    {
        let n = prefix.len();
        if n > self.inner.len() {
            return false;
        }
        let mut i: usize = 0;
        while i < n
            invariant
                i <= n,
                n == prefix@.len(),
                n <= self@.len(),
                T::obeys_eq_spec() ==> forall|j: int|
                    0 <= j < i ==> #[trigger] self@[j].eq_spec(&prefix@[j]),
            decreases n - i,
        {
            if !self.inner[i].eq(&prefix[i]) {
                return false;
            }
            i = i + 1;
        }
        true
    }

    /// Removes every element that compares equal to the element kept just
    /// before it, keeping the first of each run of equal elements.
    pub fn dedup(&mut self) where T: PartialEq
        ensures
            final(self)@.len() <= old(self)@.len(),
            final(self).spec_reserved() == old(self).spec_reserved(),
            T::obeys_eq_spec() ==> final(self)@ == dedup_of(old(self)@),
    {
        let ghost orig = self.inner@;
        if self.inner.len() == 0 {
            return ;
        }
        let mut i: usize = 1;
        while i < self.inner.len()
            invariant
                1 <= i,
                i <= self.inner@.len() || self.inner@.len() == 1,
                self.inner@.len() <= orig.len(),
                self.spec_reserved() == old(self).spec_reserved(),
                T::obeys_eq_spec() ==> {
                    &&& distinct_adjacent_upto(self.inner@, i as int)
                    &&& dedup_of(self.inner@) == dedup_of(orig)
                },
            decreases self.inner@.len() - i,
        {
            let dup = self.inner[i].eq(&self.inner[i - 1]);
            if dup {
                let ghost before = self.inner@;
                let _ = self.inner.remove(i);
                proof {
                    if T::obeys_eq_spec() {
                        lemma_dedup_remove_dup(before, i as int);
                        assert forall|j: int, k: int|
                            1 <= j < i && j <= self.inner@.len() && k == j - 1 implies !(
                        self.inner@[j].eq_spec(&self.inner@[k])) by {
                            assert(self.inner@[j] == before[j]);
                            assert(self.inner@[k] == before[k]);
                            assert(!(before[j].eq_spec(&before[k])));
                        }
                    }
                }
            } else {
                proof {
                    if T::obeys_eq_spec() {
                        assert(!(self.inner@[i as int].eq_spec(&self.inner@[i - 1])));
                        assert forall|j: int, k: int|
                            1 <= j < i + 1 && j <= self.inner@.len() && k == j - 1 implies !(
                        self.inner@[j].eq_spec(&self.inner@[k])) by {
                            if j < i {
                                assert(!(self.inner@[j].eq_spec(&self.inner@[k])));
                            } else {
                                assert(j == i && k == i - 1);
                            }
                        }
                    }
                }
                i = i + 1;
            }
        }
        proof {
            if T::obeys_eq_spec() {
                lemma_dedup_clean(self.inner@);
            }
        }
    }
}

/// Removing the duplicate that ends a clean prefix does not change the
/// deduplicated sequence.
proof fn lemma_dedup_remove_dup<T: PartialEq>(s: Seq<T>, i: int)
    requires
        1 <= i < s.len(),
        distinct_adjacent_upto(s, i),
        s[i].eq_spec(&s[i - 1]),
    ensures
        dedup_of(s.remove(i)) == dedup_of(s),
    decreases i,
{
    if i == 1 {
        assert(dedup_of(s) == dedup_of(s.remove(1)));
    } else {
        let t = s.drop_first();
        assert(!(s[1].eq_spec(&s[0])));
        assert(distinct_adjacent_upto(t, i - 1)) by {
            assert forall|j: int, k: int|
                1 <= j < i - 1 && j <= t.len() && k == j - 1 implies !(t[j].eq_spec(&t[k])) by {
                assert(t[j] == s[j + 1]);
                assert(t[k] == s[k + 1]);
                assert(!(s[j + 1].eq_spec(&s[k + 1])));
            }
        }
        assert(t[i - 1] == s[i] && t[i - 2] == s[i - 1]);
        assert(t[i - 1].eq_spec(&t[i - 2]));
        lemma_dedup_remove_dup(t, i - 1);
        assert(s.remove(i).drop_first() =~= t.remove(i - 1));
        assert(s.remove(i)[1] == s[1] && s.remove(i)[0] == s[0]);
        assert(dedup_of(s) == seq![s[0]] + dedup_of(t));
        assert(dedup_of(s.remove(i)) == seq![s.remove(i)[0]] + dedup_of(s.remove(i).drop_first()));
    }
}

/// A sequence without adjacent equal elements is its own deduplication.
proof fn lemma_dedup_clean<T: PartialEq>(s: Seq<T>)
    requires
        distinct_adjacent_upto(s, s.len() as int),
    ensures
        dedup_of(s) == s,
    decreases s.len(),
{
    if s.len() <= 1 {
    } else {
        let t = s.drop_first();
        assert(!(s[1].eq_spec(&s[0])));
        assert(distinct_adjacent_upto(t, t.len() as int)) by {
            assert forall|j: int, k: int|
                1 <= j < t.len() && k == j - 1 implies !(t[j].eq_spec(&t[k])) by {
                assert(t[j] == s[j + 1]);
                assert(t[k] == s[k + 1]);
                assert(!(s[j + 1].eq_spec(&s[k + 1])));
            }
        }
        lemma_dedup_clean(t);
        assert(seq![s[0]] + t =~= s);
    }
}

} // verus!
