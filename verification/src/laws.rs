//! What the structural transforms do to a view, element by element, and the
//! laws that follow: transposing, flipping or swapping twice gives back the
//! view one started from.

use std::ops::Range;
use std::ops::Sub;
use vstd::prelude::*;
use vstd::std_specs::ops::SubSpec;
use crate::calc::{spread_by, spread_of};
use crate::layout::{
    dense_stride, dense_terms, extents, lemma_dense_offset, lemma_rank_bounds,
    lemma_representable_suffix, lemma_unrank, lemma_volume_monotonic, rank, representable, unrank,
    volume,
};
use crate::layout::{lemma_unrank_rank, lemma_volume_sign};
use crate::model::{advanced, exchanged, ranges_fit, reflected, ArrayView, Axis};
use crate::order::{
    at_most, copy_at, first_least, greatest_of, last_greatest, least_of, lemma_not_below, level,
    total_order,
};
use crate::series::{lemma_product_reverse, lemma_product_swap, lemma_sum_reverse, lemma_sum_swap};

verus! {

impl Axis {
    /// Flipping keeps an axis well formed, and names with `i` what `extent - 1 - i`
    /// named before.
    pub proof fn lemma_flipped(self, i: int)
        requires
            self.wf(),
        ensures
            self.flipped().wf(),
            self.flipped().locate(i) == self.locate(self.extent - 1 - i),
            self.flipped().flipped() == self,
    {
        let s = self.scale;
        let e = self.extent as int;
        assert(s == 1 ==> s * (e - 1) == e - 1) by (nonlinear_arith);
        assert(s == -1 ==> s * (e - 1) == 1 - e) by (nonlinear_arith);
        assert((-s) * i + (self.shift + s * (e - 1)) == s * (e - 1 - i) + self.shift)
            by (nonlinear_arith);
        assert((-s) * (e - 1) + s * (e - 1) == 0) by (nonlinear_arith);
    }

    /// Narrowing keeps an axis well formed, and names with `i` what `start + i`
    /// named before.
    pub proof fn lemma_narrowed(self, start: int, end: int, i: int)
        requires
            self.wf(),
            0 <= start <= end <= self.extent,
        ensures
            self.narrowed(start, end).wf(),
            self.narrowed(start, end).extent == end - start,
            self.narrowed(start, end).locate(i) == self.locate(start + i),
    {
        let s = self.scale;
        assert(s == 1 ==> s * start == start) by (nonlinear_arith);
        assert(s == -1 ==> s * start == -start) by (nonlinear_arith);
        assert(s * i + (self.shift + s * start) == s * (start + i) + self.shift)
            by (nonlinear_arith);
    }
}

impl<T> ArrayView<T> {
    /// The transposed view shows under `idx` what the view shows under `idx`
    /// read backwards.
    pub proof fn lemma_transposed_at(self, idx: Seq<usize>)
        requires
            idx.len() == self.dims(),
        ensures
            self.transposed().contains(idx) == self.contains(idx.reverse()),
            self.transposed().offset(idx) == self.offset(idx.reverse()),
            self.transposed().get(idx) == self.get(idx.reverse()),
    {
        let t = self.transposed();
        let n = self.dims() as int;
        let back = idx.reverse();
        assert(t.terms(idx) =~= self.terms(back).reverse());
        lemma_sum_reverse(self.terms(back));
        if self.contains(back) {
            assert forall|a: int| 0 <= a < n implies idx[a] < t.shape()[a] by {
                assert(back[n - 1 - a] < self.shape()[n - 1 - a]);
            }
        }
        if t.contains(idx) {
            assert forall|a: int| 0 <= a < n implies back[a] < self.shape()[a] by {
                assert(idx[n - 1 - a] < t.shape()[n - 1 - a]);
            }
        }
    }

    /// Transposing keeps a view well formed and reverses its shape.
    pub proof fn lemma_transposed(self)
        requires
            self.wf(),
        ensures
            self.transposed().wf(),
            self.transposed().shape() == self.shape().reverse(),
            self.transposed().size() == self.size(),
    {
        let t = self.transposed();
        assert(t.shape() =~= self.shape().reverse());
        assert(extents(t.shape()) =~= extents(self.shape()).reverse());
        lemma_product_reverse(extents(self.shape()));
        assert forall|a: int| 0 <= a < t.axes.len() implies (#[trigger] t.axes[a]).wf() by {
            assert(self.axes[self.axes.len() - 1 - a].wf());
        }
        assert forall|idx: Seq<usize>| #[trigger] t.contains(idx) implies t.offset(idx)
            < t.buffer.len() by {
            self.lemma_transposed_at(idx);
            assert(self.contains(idx.reverse()));
        }
    }

    /// Transposing twice gives back the view, so every index tuple names the
    /// element it named before.
    pub proof fn lemma_transpose_round_trip(self)
        ensures
            self.transposed().transposed() == self,
            forall|idx: Seq<usize>| self.transposed().transposed().get(idx) == self.get(idx),
    {
        assert(self.axes.reverse().reverse() =~= self.axes);
    }

    /// The flipped view shows under `idx` what the view shows under `idx`
    /// read backwards along `axis`.
    pub proof fn lemma_flipped_at(self, axis: int, idx: Seq<usize>)
        requires
            self.wf(),
            0 <= axis < self.dims(),
            self.contains(idx),
        ensures
            self.flipped(axis).contains(idx),
            self.contains(reflected(idx, axis, self.axes[axis].extent)),
            self.flipped(axis).offset(idx) == self.offset(
                reflected(idx, axis, self.axes[axis].extent),
            ),
            self.flipped(axis).get(idx) == self.get(reflected(idx, axis, self.axes[axis].extent)),
    {
        let f = self.flipped(axis);
        let back = reflected(idx, axis, self.axes[axis].extent);
        assert(f.shape() =~= self.shape());
        assert(idx[axis] < self.shape()[axis]);
        assert forall|a: int| 0 <= a < self.dims() implies back[a] < self.shape()[a] by {
            assert(idx[a] < self.shape()[a]);
        }
        assert(self.axes[axis].wf());
        self.axes[axis].lemma_flipped(idx[axis] as int);
        assert(f.terms(idx) =~= self.terms(back));
    }

    /// Flipping keeps a view well formed and leaves its shape alone.
    pub proof fn lemma_flipped(self, axis: int)
        requires
            self.wf(),
            0 <= axis < self.dims(),
        ensures
            self.flipped(axis).wf(),
            self.flipped(axis).shape() == self.shape(),
    {
        let f = self.flipped(axis);
        assert(f.shape() =~= self.shape());
        assert forall|a: int| 0 <= a < f.axes.len() implies (#[trigger] f.axes[a]).wf() by {
            assert(self.axes[a].wf());
            self.axes[axis].lemma_flipped(0);
        }
        assert forall|idx: Seq<usize>| #[trigger] f.contains(idx) implies f.offset(idx)
            < f.buffer.len() by {
            assert(self.contains(idx));
            self.lemma_flipped_at(axis, idx);
            assert(self.contains(reflected(idx, axis, self.axes[axis].extent)));
        }
    }

    /// Flipping an axis twice gives back the view: the two are one and the
    /// same to every observer.
    pub proof fn lemma_flip_involution(self, axis: int)
        requires
            self.wf(),
            0 <= axis < self.dims(),
        ensures
            self.flipped(axis).flipped(axis) == self,
            forall|idx: Seq<usize>| self.flipped(axis).flipped(axis).get(idx) == self.get(idx),
            self.flipped(axis).flipped(axis).flat() == self.flat(),
    {
        assert(self.axes[axis].wf());
        self.axes[axis].lemma_flipped(0);
        assert(self.flipped(axis).flipped(axis).axes =~= self.axes);
    }

    /// Every element that the flipped view lists, the view lists too, so the
    /// two flat sequences are rearrangements of one another.
    pub proof fn lemma_flipped_flat(self, axis: int, k: int)
        requires
            self.wf(),
            0 <= axis < self.dims(),
            0 <= k < self.size(),
        ensures
            self.flipped(axis).flat().len() == self.flat().len(),
            self.flat().contains(self.flipped(axis).flat()[k]),
    {
        let f = self.flipped(axis);
        let idx = unrank(self.shape(), k);
        let back = reflected(idx, axis, self.axes[axis].extent);
        let j = rank(self.shape(), back);
        self.lemma_flipped(axis);
        lemma_unrank(self.shape(), k);
        self.lemma_flipped_at(axis, idx);
        lemma_rank_bounds(self.shape(), back);
        lemma_unrank_rank(self.shape(), back);
        assert(f.flat()[k] == self.flat()[j]);
    }

    /// The view with two axes swapped shows under `idx` what the view shows
    /// under `idx` with the same two coordinates exchanged.
    pub proof fn lemma_swapped_at(self, a: int, b: int, idx: Seq<usize>)
        requires
            0 <= a < self.dims(),
            0 <= b < self.dims(),
            idx.len() == self.dims(),
        ensures
            self.swapped(a, b).contains(idx) == self.contains(exchanged(idx, a, b)),
            self.swapped(a, b).offset(idx) == self.offset(exchanged(idx, a, b)),
            self.swapped(a, b).get(idx) == self.get(exchanged(idx, a, b)),
    {
        let w = self.swapped(a, b);
        let other = exchanged(idx, a, b);
        let t = self.terms(other);
        assert(w.terms(idx) =~= t.update(a, t[b]).update(b, t[a]));
        lemma_sum_swap(t, a, b);
        if self.contains(other) {
            assert forall|c: int| 0 <= c < self.dims() implies idx[c] < w.shape()[c] by {
                assert(other[a] < self.shape()[a]);
                assert(other[b] < self.shape()[b]);
                assert(other[c] < self.shape()[c]);
            }
        }
        if w.contains(idx) {
            assert forall|c: int| 0 <= c < self.dims() implies other[c] < self.shape()[c] by {
                assert(idx[a] < w.shape()[a]);
                assert(idx[b] < w.shape()[b]);
                assert(idx[c] < w.shape()[c]);
            }
        }
    }

    /// Swapping two axes keeps a view well formed and exchanges their extents.
    pub proof fn lemma_swapped(self, a: int, b: int)
        requires
            self.wf(),
            0 <= a < self.dims(),
            0 <= b < self.dims(),
        ensures
            self.swapped(a, b).wf(),
            self.swapped(a, b).shape() == self.shape().update(a, self.shape()[b]).update(
                b,
                self.shape()[a],
            ),
            self.swapped(a, b).size() == self.size(),
    {
        let w = self.swapped(a, b);
        let p = extents(self.shape());
        assert(w.shape() =~= self.shape().update(a, self.shape()[b]).update(b, self.shape()[a]));
        assert(extents(w.shape()) =~= p.update(a, p[b]).update(b, p[a]));
        lemma_product_swap(p, a, b);
        assert forall|c: int| 0 <= c < w.axes.len() implies (#[trigger] w.axes[c]).wf() by {
            assert(self.axes[a].wf());
            assert(self.axes[b].wf());
            assert(self.axes[c].wf());
        }
        assert forall|idx: Seq<usize>| #[trigger] w.contains(idx) implies w.offset(idx)
            < w.buffer.len() by {
            self.lemma_swapped_at(a, b, idx);
            assert(self.contains(exchanged(idx, a, b)));
        }
    }

    /// Swapping the same two axes twice gives back the view, so every index
    /// tuple names the element it named before.
    pub proof fn lemma_swap_round_trip(self, a: int, b: int)
        requires
            0 <= a < self.dims(),
            0 <= b < self.dims(),
        ensures
            self.swapped(a, b).swapped(a, b) == self,
            forall|idx: Seq<usize>| self.swapped(a, b).swapped(a, b).get(idx) == self.get(idx),
    {
        assert(self.swapped(a, b).swapped(a, b).axes =~= self.axes);
    }

    /// The sliced view shows under `idx` what the view shows under `idx`
    /// moved on by the start of each range.
    pub proof fn lemma_sliced_at(self, ranges: Seq<Range<usize>>, idx: Seq<usize>)
        requires
            self.wf(),
            ranges_fit(self.shape(), ranges),
            self.sliced(ranges).contains(idx),
        ensures
            self.contains(advanced(idx, ranges)),
            self.sliced(ranges).offset(idx) == self.offset(advanced(idx, ranges)),
            self.sliced(ranges).get(idx) == self.get(advanced(idx, ranges)),
    {
        let s = self.sliced(ranges);
        let moved = advanced(idx, ranges);
        assert forall|a: int| 0 <= a < self.dims() implies moved[a] < self.shape()[a]
            && s.terms(idx)[a] == self.terms(moved)[a] by {
            assert(self.axes[a].wf());
            assert(ranges[a].start <= ranges[a].end <= self.shape()[a]);
            assert(idx[a] < s.shape()[a]);
            self.axes[a].lemma_narrowed(
                ranges[a].start as int,
                ranges[a].end as int,
                idx[a] as int,
            );
        }
        assert(s.terms(idx) =~= self.terms(moved));
    }

    /// Slicing keeps a view well formed and makes each extent the length of
    /// its range.
    pub proof fn lemma_sliced(self, ranges: Seq<Range<usize>>)
        requires
            self.wf(),
            ranges_fit(self.shape(), ranges),
        ensures
            self.sliced(ranges).wf(),
            self.sliced(ranges).dims() == self.dims(),
            forall|a: int|
                0 <= a < self.dims() ==> #[trigger] self.sliced(ranges).shape()[a] == ranges[a].end
                    - ranges[a].start,
    {
        let s = self.sliced(ranges);
        assert forall|a: int| 0 <= a < self.dims() implies (#[trigger] s.axes[a]).wf()
            && s.shape()[a] == ranges[a].end - ranges[a].start && s.shape()[a]
            <= self.shape()[a] by {
            assert(self.axes[a].wf());
            assert(ranges[a].start <= ranges[a].end <= self.shape()[a]);
            self.axes[a].lemma_narrowed(ranges[a].start as int, ranges[a].end as int, 0);
        }
        lemma_volume_monotonic(s.shape(), self.shape());
        assert forall|idx: Seq<usize>| #[trigger] s.contains(idx) implies s.offset(idx)
            < s.buffer.len() by {
            self.lemma_sliced_at(ranges, idx);
            assert(self.contains(advanced(idx, ranges)));
        }
    }

    /// A buffer that holds as many elements as the shape asks for makes a
    /// well-formed view, which lists the buffer in its own order.
    pub proof fn lemma_dense(buffer: Seq<T>, shape: Seq<usize>)
        requires
            representable(shape),
            buffer.len() == volume(shape),
        ensures
            Self::dense(buffer, shape).wf(),
            Self::dense(buffer, shape).shape() == shape,
            Self::dense(buffer, shape).flat() == buffer,
            forall|idx: Seq<usize>| #[trigger]
                Self::dense(buffer, shape).contains(idx) ==> Self::dense(buffer, shape).offset(
                    idx,
                ) == rank(shape, idx),
    {
        let d = Self::dense(buffer, shape);
        assert(d.shape() =~= shape);
        assert forall|a: int| 0 <= a < shape.len() implies 0 <= dense_stride(shape, a)
            <= usize::MAX && (#[trigger] d.axes[a]).wf() by {
            lemma_representable_suffix(shape, a + 1);
        }
        assert forall|idx: Seq<usize>| #[trigger] d.contains(idx) implies d.offset(idx) == rank(
            shape,
            idx,
        ) && d.offset(idx) < buffer.len() by {
            assert forall|a: int| 0 <= a < shape.len() implies d.terms(idx)[a] == dense_terms(
                shape,
                idx,
            )[a] by {
                lemma_representable_suffix(shape, a + 1);
                assert(1 * (idx[a] as int) + 0 == idx[a]) by (nonlinear_arith);
            }
            assert(d.terms(idx) =~= dense_terms(shape, idx));
            lemma_dense_offset(shape, idx);
            lemma_rank_bounds(shape, idx);
        }
        assert forall|k: int| 0 <= k < buffer.len() implies d.flat()[k] == buffer[k] by {
            lemma_unrank(shape, k);
            assert(d.contains(unrank(shape, k)));
        }
        assert(d.flat() =~= buffer);
    }

    /// The same axes over a buffer of the same length make a well-formed view
    /// again, in which every index tuple names the same place.
    pub proof fn lemma_rebased<U>(self, buffer: Seq<U>)
        requires
            self.wf(),
            buffer.len() == self.buffer.len(),
        ensures
            self.rebased(buffer).wf(),
            self.rebased(buffer).shape() == self.shape(),
            forall|idx: Seq<usize>| #[trigger]
                self.rebased(buffer).offset(idx) == self.offset(idx),
    {
        let r = self.rebased(buffer);
        assert(r.shape() =~= self.shape());
        assert forall|idx: Seq<usize>| #[trigger] r.offset(idx) == self.offset(idx) by {
            assert(r.terms(idx) =~= self.terms(idx));
        }
        assert forall|idx: Seq<usize>| #[trigger] r.contains(idx) implies r.offset(idx)
            < r.buffer.len() by {
            assert(self.contains(idx));
        }
    }
}

/// Whether every entry of `s` is an entry of `t`.
pub open spec fn drawn_from<T>(s: Seq<T>, t: Seq<T>) -> bool {
    forall|k: int| 0 <= k < s.len() ==> t.contains(#[trigger] s[k])
}

/// Whether the order of `T` tells any two different values apart, and a copy
/// of a value is that value.
pub open spec fn exact_order<T: Ord + Clone>() -> bool {
    &&& total_order::<T>()
    &&& forall|a: T, b: T| #[trigger] level(a, b) ==> a == b
    &&& forall|a: T, b: T| #[trigger] cloned(a, b) ==> a == b
}

/// Under such an order, two sequences that hold the same values have the
/// same greatest and the same least element.
proof fn lemma_same_extremes<T: Ord + Clone>(s: Seq<T>, t: Seq<T>, m: T, n: T, p: T, q: T)
    requires
        exact_order::<T>(),
        drawn_from(s, t),
        drawn_from(t, s),
        greatest_of(s, Some(m)),
        least_of(s, Some(n)),
        greatest_of(t, Some(p)),
        least_of(t, Some(q)),
    ensures
        m == p,
        n == q,
{
    let a = choose|a: int| copy_at(s, a, Some(m)->Some_0) && last_greatest(s, a);
    let b = choose|b: int| copy_at(t, b, Some(p)->Some_0) && last_greatest(t, b);
    let c = choose|c: int| copy_at(s, c, Some(n)->Some_0) && first_least(s, c);
    let d = choose|d: int| copy_at(t, d, Some(q)->Some_0) && first_least(t, d);
    assert(m == s[a] && p == t[b] && n == s[c] && q == t[d]);
    assert(t.contains(s[a]) && s.contains(t[b]));
    let a2 = choose|j: int| 0 <= j < t.len() && t[j] == s[a];
    let b2 = choose|j: int| 0 <= j < s.len() && s[j] == t[b];
    assert(at_most(t[a2], t[b]));
    assert(at_most(s[b2], s[a]));
    lemma_not_below(m, p);
    assert(t.contains(s[c]) && s.contains(t[d]));
    let c2 = choose|j: int| 0 <= j < t.len() && t[j] == s[c];
    let d2 = choose|j: int| 0 <= j < s.len() && s[j] == t[d];
    assert(at_most(t[d], t[c2]));
    assert(at_most(s[c], s[d2]));
    lemma_not_below(n, q);
}

impl<T: Ord + Clone + Sub<Output = T>> ArrayView<T> {
    /// Flipping an axis leaves the distance from the least to the greatest
    /// element as it is, where the order of the elements tells different
    /// values apart, copies are exact and subtraction is what `sub_spec`
    /// describes.
    pub proof fn lemma_flip_keeps_spread(self, axis: int, before: Option<T>, after: Option<T>)
        requires
            self.wf(),
            0 <= axis < self.dims(),
            exact_order::<T>(),
            T::obeys_sub_spec(),
            spread_of(self.flat(), before),
            spread_of(self.flipped(axis).flat(), after),
        ensures
            before == after,
    {
        let f = self.flipped(axis);
        let s = self.flat();
        let t = f.flat();
        self.lemma_flipped(axis);
        self.lemma_flip_involution(axis);
        lemma_volume_sign(self.shape());
        assert(s.len() == t.len());
        assert forall|k: int| 0 <= k < t.len() implies s.contains(#[trigger] t[k]) by {
            self.lemma_flipped_flat(axis, k);
        }
        assert forall|k: int| 0 <= k < s.len() implies t.contains(#[trigger] s[k]) by {
            f.lemma_flipped_flat(axis, k);
        }
        if before is Some && after is Some {
            let (m, n) = choose|m: T, n: T| spread_by(s, m, n, before->Some_0);
            let (p, q) = choose|p: T, q: T| spread_by(t, p, q, after->Some_0);
            lemma_same_extremes(s, t, m, n, p, q);
        } else if before is Some {
            let (m, n) = choose|m: T, n: T| spread_by(s, m, n, before->Some_0);
            let a = choose|a: int| copy_at(s, a, Some(m)->Some_0) && last_greatest(s, a);
            assert(false);
        } else if after is Some {
            let (p, q) = choose|p: T, q: T| spread_by(t, p, q, after->Some_0);
            let b = choose|b: int| copy_at(t, b, Some(p)->Some_0) && last_greatest(t, b);
            assert(false);
        }
    }
}

} // verus!
