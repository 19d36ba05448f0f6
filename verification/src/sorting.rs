//! Order-based operations: sorting, binary search, and their laws.
//!
//! Element comparisons go through `T`'s own `PartialOrd`. The contracts are
//! stated over `partial_cmp_spec`, the specification of that comparison, and
//! hold whenever the comparison obeys its specification and is a total order
//! (`total_ordered::<T>()`), which is the case for the primitive integer
//! types.

use vstd::prelude::*;

use core::cmp::Ordering;

use vstd::std_specs::cmp::PartialOrdSpec;

use crate::VecCell;

verus! {

/// Whether `x` orders at or below `y` under the element comparison.
pub open spec fn le_spec<T: PartialOrd>(x: T, y: T) -> bool {
    x.partial_cmp_spec(&y) matches Some(Ordering::Less | Ordering::Equal)
}

/// Whether `x` orders strictly below `y` under the element comparison.
pub open spec fn lt_spec<T: PartialOrd>(x: T, y: T) -> bool {
    x.partial_cmp_spec(&y) == Some(Ordering::Less)
}

/// Whether `x` and `y` carry equal keys under the element comparison.
pub open spec fn same_key<T: PartialOrd>(x: T, y: T) -> bool {
    x.partial_cmp_spec(&y) == Some(Ordering::Equal)
}

/// Whether the element comparison obeys its specification and orders every
/// pair of values consistently and transitively: a total order.
pub open spec fn total_ordered<T: PartialOrd>() -> bool {
    &&& T::obeys_partial_cmp_spec()
    &&& forall|x: T, y: T| #[trigger] x.partial_cmp_spec(&y) is Some
    &&& forall|x: T, y: T|
        #![trigger x.partial_cmp_spec(&y)]
        x.partial_cmp_spec(&y) == Some(Ordering::Less) <==> y.partial_cmp_spec(&x) == Some(
            Ordering::Greater,
        )
    &&& forall|x: T, y: T|
        #![trigger x.partial_cmp_spec(&y)]
        x.partial_cmp_spec(&y) == Some(Ordering::Equal) <==> y.partial_cmp_spec(&x) == Some(
            Ordering::Equal,
        )
    &&& forall|x: T, y: T, z: T|
        #![trigger le_spec(x, y), le_spec(y, z)]
        le_spec(x, y) && le_spec(y, z) ==> le_spec(x, z)
}

/// Under a total order the two directions of one comparison agree.
proof fn lemma_dual<T: PartialOrd>(a: T, b: T)
    requires
        total_ordered::<T>(),
    ensures
        a.partial_cmp_spec(&b) is Some,
        b.partial_cmp_spec(&a) is Some,
        lt_spec(a, b) <==> b.partial_cmp_spec(&a) == Some(Ordering::Greater),
        same_key(a, b) <==> same_key(b, a),
        !le_spec(a, b) ==> lt_spec(b, a),
        lt_spec(a, b) ==> le_spec(a, b) && !le_spec(b, a),
        le_spec(a, b) || le_spec(b, a),
{
    assert(a.partial_cmp_spec(&b) is Some);
    assert(b.partial_cmp_spec(&a) is Some);
}

/// Under a total order, `a <= b` and `b < c` give `a < c`.
proof fn lemma_le_lt_trans<T: PartialOrd>(a: T, b: T, c: T)
    requires
        total_ordered::<T>(),
        le_spec(a, b),
        lt_spec(b, c),
    ensures
        lt_spec(a, c),
{
    lemma_dual(b, c);
    assert(le_spec(a, c));
    if le_spec(c, a) {
        assert(le_spec(c, b));
        lemma_dual(c, b);
    }
    lemma_dual(c, a);
}

/// Under a total order, `a < b` and `b <= c` give `a < c`.
proof fn lemma_lt_le_trans<T: PartialOrd>(a: T, b: T, c: T)
    requires
        total_ordered::<T>(),
        lt_spec(a, b),
        le_spec(b, c),
    ensures
        lt_spec(a, c),
{
    lemma_dual(a, b);
    assert(le_spec(a, c));
    if le_spec(c, a) {
        assert(le_spec(b, a));
        lemma_dual(b, a);
    }
    lemma_dual(c, a);
}

/// Whether `s` is ordered ascending under the element comparison.
pub open spec fn sorted_le<T: PartialOrd>(s: Seq<T>) -> bool {
    forall|i: int, j: int| 0 <= i <= j < s.len() ==> #[trigger] le_spec(s[i], s[j])
}

/// The subsequence of elements of `s` whose key equals `k`'s, in order.
pub open spec fn key_run<T: PartialOrd>(s: Seq<T>, k: T) -> Seq<T> {
    s.filter(|x: T| same_key(x, k))
}

/// Whether `b` keeps every run of equal-keyed elements of `a` in its
/// original order.
pub open spec fn stable_reorder_of<T: PartialOrd>(a: Seq<T>, b: Seq<T>) -> bool {
    forall|k: T| #[trigger] key_run(a, k) == key_run(b, k)
}

/// Law: the integer comparison is a total order, so the ordering hypothesis
/// of the sorting and searching contracts is satisfied by ordinary keys.
pub proof fn lemma_i64_total_ordered()
    ensures
        total_ordered::<i64>(),
{
}

/// Law: inserting `x` at an index that splits a sorted sequence into
/// elements strictly below `x` and elements strictly above `x` keeps the
/// sequence sorted.
pub proof fn lemma_insertion_point_keeps_sorted<T: PartialOrd>(s: Seq<T>, i: int, x: T)
    requires
        total_ordered::<T>(),
        sorted_le(s),
        0 <= i <= s.len(),
        forall|j: int| 0 <= j < i ==> lt_spec(#[trigger] s[j], x),
        forall|j: int| i <= j < s.len() ==> lt_spec(x, #[trigger] s[j]),
    ensures
        sorted_le(s.insert(i, x)),
{
    let t = s.insert(i, x);
    assert forall|p: int, q: int| 0 <= p <= q < t.len() implies le_spec(t[p], t[q]) by {
        if p < i {
            assert(t[p] == s[p]);
        } else if p == i {
            assert(t[p] == x);
        } else {
            assert(t[p] == s[p - 1]);
        }
        if q < i {
            assert(t[q] == s[q]);
        } else if q == i {
            assert(t[q] == x);
        } else {
            assert(t[q] == s[q - 1]);
        }
    }
}

/// A sequence none of whose elements satisfy `pred` filters to the empty
/// sequence.
proof fn lemma_filter_none<T>(s: Seq<T>, pred: spec_fn(T) -> bool)
    requires
        forall|i: int| 0 <= i < s.len() ==> !pred(#[trigger] s[i]),
    ensures
        s.filter(pred) == Seq::<T>::empty(),
    decreases s.len(),
{
    reveal(Seq::filter);
    if s.len() > 0 {
        lemma_filter_none(s.drop_last(), pred);
    }
}

/// Filtering a one-element sequence keeps or drops its element.
proof fn lemma_filter_single<T>(x: T, pred: spec_fn(T) -> bool)
    ensures
        pred(x) ==> seq![x].filter(pred) == seq![x],
        !pred(x) ==> seq![x].filter(pred) == Seq::<T>::empty(),
{
    reveal(Seq::filter);
    assert(seq![x].drop_last() =~= Seq::<T>::empty());
    assert(Seq::<T>::empty().filter(pred) == Seq::<T>::empty());
    if pred(x) {
        assert(seq![x].filter(pred) =~= seq![x]);
    }
}

/// One step of insertion sort: moving the element at `i` back to `p`, the
/// first position whose element orders strictly above it, keeps the prefix
/// sorted one slot further, permutes nothing away, and preserves the order
/// within every run of equal keys.
proof fn lemma_insert_step<T: PartialOrd>(s: Seq<T>, i: int, p: int)
    requires
        total_ordered::<T>(),
        0 <= p <= i < s.len(),
        forall|a: int, b: int| 0 <= a <= b < i ==> #[trigger] le_spec(s[a], s[b]),
        forall|q: int| 0 <= q < p ==> le_spec(#[trigger] s[q], s[i]),
        p < i ==> !le_spec(s[p], s[i]),
    ensures
        ({
            let t = s.remove(i).insert(p, s[i]);
            &&& t.len() == s.len()
            &&& forall|a: int, b: int| 0 <= a <= b < i + 1 ==> #[trigger] le_spec(t[a], t[b])
            &&& t.to_multiset() == s.to_multiset()
            &&& stable_reorder_of(s, t)
        }),
{
    broadcast use vstd::seq_lib::group_to_multiset_ensures;

    let x = s[i];
    let t = s.remove(i).insert(p, x);
    let pre = s.subrange(0, p);
    let mid = s.subrange(p, i);
    let post = s.subrange(i + 1, s.len() as int);

    // The moved element orders at or below everything it passes over.
    assert forall|q: int| p <= q < i implies le_spec(x, #[trigger] s[q]) by {
        assert(!le_spec(s[p], x));
        lemma_dual(s[p], x);
        assert(le_spec(s[p], s[q]));
        assert(le_spec(x, s[p]));
    }

    // Sortedness of the widened prefix.
    assert forall|a: int, b: int| 0 <= a <= b < i + 1 implies le_spec(t[a], t[b]) by {
        let av = if a < p {
            s[a]
        } else if a == p {
            x
        } else {
            s[a - 1]
        };
        let bv = if b < p {
            s[b]
        } else if b == p {
            x
        } else {
            s[b - 1]
        };
        assert(t[a] == av && t[b] == bv);
        if a < p && b < p {
            assert(le_spec(s[a], s[b]));
        } else if a < p && b == p {
            assert(le_spec(s[a], x));
        } else if a < p && b > p {
            assert(le_spec(s[a], s[b - 1]));
        } else if a == p && b == p {
            lemma_dual(x, x);
        } else if a == p && b > p {
            assert(le_spec(x, s[b - 1]));
        } else {
            assert(le_spec(s[a - 1], s[b - 1]));
        }
    }

    // The move is a permutation.
    assert(s.contains(x)) by {
        assert(s[i] == x);
    }
    assert(s.to_multiset().count(x) > 0);
    assert(s.remove(i).to_multiset() =~= s.to_multiset().remove(x));
    assert(t.to_multiset() =~= s.remove(i).to_multiset().insert(x));
    assert(t.to_multiset() =~= s.to_multiset());

    // Equal-keyed runs keep their order.
    assert forall|k: T| #[trigger] key_run(s, k) == key_run(t, k) by {
        let f = |e: T| same_key(e, k);
        assert(s =~= ((pre + mid) + seq![x]) + post);
        assert(t =~= ((pre + seq![x]) + mid) + post);
        Seq::filter_distributes_over_add((pre + mid) + seq![x], post, f);
        Seq::filter_distributes_over_add(pre + mid, seq![x], f);
        Seq::filter_distributes_over_add(pre, mid, f);
        Seq::filter_distributes_over_add((pre + seq![x]) + mid, post, f);
        Seq::filter_distributes_over_add(pre + seq![x], mid, f);
        Seq::filter_distributes_over_add(pre, seq![x], f);
        lemma_filter_single(x, f);
        if f(x) {
            assert forall|q: int| 0 <= q < mid.len() implies !f(#[trigger] mid[q]) by {
                assert(mid[q] == s[p + q]);
                if f(s[p + q]) {
                    assert(same_key(s[p + q], k) && same_key(x, k));
                    lemma_dual(s[p + q], k);
                    lemma_dual(x, k);
                    assert(le_spec(s[p + q], k) && le_spec(k, x));
                    assert(le_spec(s[p + q], x));
                    assert(!le_spec(s[p], x));
                    lemma_dual(s[p], x);
                    assert(le_spec(s[p], s[p + q]));
                    assert(le_spec(s[p], x));
                }
            }
            lemma_filter_none(mid, f);
            assert(key_run(s, k) =~= key_run(t, k));
        } else {
            assert(key_run(s, k) =~= key_run(t, k));
        }
    }
}

impl<T> VecCell<T> {
    /// Orders the elements ascending; elements with equal keys keep their
    /// original relative order (a stable sort).
    pub fn sort(&mut self) where T: Ord
        ensures
            final(self)@.len() == old(self)@.len(),
            final(self).spec_reserved() == old(self).spec_reserved(),
            total_ordered::<T>() ==> {
                &&& sorted_le(final(self)@)
                &&& final(self)@.to_multiset() == old(self)@.to_multiset()
                &&& stable_reorder_of(old(self)@, final(self)@)
            },
    {
        let ghost orig = self.inner@;
        let n = self.inner.len();
        if n <= 1 {
            proof {
                if total_ordered::<T>() {
                    assert forall|a: int, b: int|
                        0 <= a <= b < self.inner@.len() implies le_spec(
                        self.inner@[a],
                        self.inner@[b],
                    ) by {
                        lemma_dual(self.inner@[a], self.inner@[b]);
                    }
                    assert(sorted_le(self.inner@));
                }
            }
            return ;
        }
        let mut i: usize = 1;
        while i < n
            invariant
                1 <= i <= n,
                n == self.inner@.len(),
                self.spec_reserved() == old(self).spec_reserved(),
                total_ordered::<T>() ==> {
                    &&& forall|a: int, b: int|
                        0 <= a <= b < i && b < n ==> #[trigger] le_spec(
                            self.inner@[a],
                            self.inner@[b],
                        )
                    &&& self.inner@.to_multiset() == orig.to_multiset()
                    &&& stable_reorder_of(orig, self.inner@)
                },
            decreases n - i,
        {
            let mut p: usize = 0;
            while p < i && self.inner[p].le(&self.inner[i])
                invariant
                    p <= i,
                    i < n,
                    n == self.inner@.len(),
                    total_ordered::<T>() ==> forall|q: int|
                        0 <= q < p ==> le_spec(#[trigger] self.inner@[q], self.inner@[i as int]),
                decreases i - p,
            {
                p = p + 1;
            }
            let ghost before = self.inner@;
            let x = self.inner.remove(i);
            self.inner.insert(p, x);
            proof {
                assert(self.inner@ == before.remove(i as int).insert(p as int, before[i as int]));
                if total_ordered::<T>() {
                    lemma_insert_step(before, i as int, p as int);
                }
            }
            i = i + 1;
        }
        proof {
            if total_ordered::<T>() {
                assert(sorted_le(self.inner@));
            }
        }
    }

    /// Orders the elements ascending; the relative order of elements with
    /// equal keys is unspecified.
    pub fn sort_unstable(&mut self) where T: Ord
        ensures
            final(self)@.len() == old(self)@.len(),
            final(self).spec_reserved() == old(self).spec_reserved(),
            total_ordered::<T>() ==> {
                &&& sorted_le(final(self)@)
                &&& final(self)@.to_multiset() == old(self)@.to_multiset()
            },
    {
        self.sort();
    }

    /// Searches a buffer sorted ascending for `x`: `Ok(i)` points at an
    /// element with `x`'s key, and `Err(i)` is the index where `x` could be
    /// inserted to keep the buffer sorted, every earlier element being
    /// strictly below `x` and every later one strictly above it.
    pub fn binary_search(&self, x: &T) -> (r: Result<usize, usize>) where T: Ord
        ensures
            total_ordered::<T>() && sorted_le(self@) ==> match r {
                Ok(i) => i < self@.len() && same_key(self@[i as int], *x),
                Err(i) => {
                    &&& i <= self@.len()
                    &&& forall|j: int| 0 <= j < i ==> lt_spec(#[trigger] self@[j], *x)
                    &&& forall|j: int| i <= j < self@.len() ==> lt_spec(*x, #[trigger] self@[j])
                },
            },
    {
        let ghost ok = total_ordered::<T>() && sorted_le(self@);
        let n = self.inner.len();
        let mut lo: usize = 0;
        let mut hi: usize = n;
        while lo < hi
            invariant
                lo <= hi <= n,
                n == self@.len(),
                ok == (total_ordered::<T>() && sorted_le(self@)),
                ok ==> forall|j: int| 0 <= j < lo ==> lt_spec(#[trigger] self@[j], *x),
                ok ==> forall|j: int| hi <= j < n ==> !lt_spec(#[trigger] self@[j], *x),
            decreases hi - lo,
        {
            let mid = lo + (hi - lo) / 2;
            if self.inner[mid].lt(x) {
                proof {
                    if ok {
                        assert(lt_spec(self@[mid as int], *x));
                        assert forall|j: int| 0 <= j < mid + 1 implies lt_spec(
                            #[trigger] self@[j],
                            *x,
                        ) by {
                            assert(le_spec(self@[j], self@[mid as int]));
                            lemma_le_lt_trans(self@[j], self@[mid as int], *x);
                        }
                    }
                }
                lo = mid + 1;
            } else {
                proof {
                    if ok {
                        assert(!lt_spec(self@[mid as int], *x));
                        assert forall|j: int| mid <= j < n implies !lt_spec(
                            #[trigger] self@[j],
                            *x,
                        ) by {
                            assert(le_spec(self@[mid as int], self@[j]));
                            if lt_spec(self@[j], *x) {
                                lemma_le_lt_trans(self@[mid as int], self@[j], *x);
                            }
                        }
                    }
                }
                hi = mid;
            }
        }
        if lo < n && !x.lt(&self.inner[lo]) {
            proof {
                if ok {
                    assert(!lt_spec(self@[lo as int], *x));
                    assert(!lt_spec(*x, self@[lo as int]));
                    lemma_dual(self@[lo as int], *x);
                    assert(same_key(self@[lo as int], *x));
                }
            }
            Ok(lo)
        } else {
            proof {
                if ok {
                    assert forall|j: int| lo <= j < n implies lt_spec(*x, #[trigger] self@[j]) by {
                        assert(lt_spec(*x, self@[lo as int]));
                        assert(le_spec(self@[lo as int], self@[j]));
                        lemma_lt_le_trans(*x, self@[lo as int], self@[j]);
                    }
                }
            }
            Err(lo)
        }
    }
}

} // verus!
