//! The mathematical model of an array: a flat buffer seen through one affine
//! map per axis.

use std::ops::Range;
use vstd::prelude::*;
use crate::layout::{
    dense_stride, in_bounds, lemma_rank_bounds, lemma_unrank_rank, rank, unrank, volume,
};
use crate::series::{lemma_sum_nonnegative, sum};

verus! {

/// One axis of a view: how many coordinates it has, how far apart two
/// neighbours of the buffer's own axis lie, and the affine map from the
/// coordinate a caller names to the coordinate on the buffer's axis.
pub struct Axis {
    pub extent: usize,
    pub stride: usize,
    pub scale: int,
    pub shift: int,
}

impl Axis {
    /// The coordinate on the buffer's axis that the logical coordinate `i` names.
    pub open spec fn locate(self, i: int) -> int {
        self.scale * i + self.shift
    }

    /// The map runs forwards or backwards, and every coordinate of the axis
    /// lands on a coordinate that a machine word can hold.
    pub open spec fn wf(self) -> bool {
        &&& self.scale == 1 || self.scale == -1
        &&& self.scale == 1 ==> 0 <= self.shift && self.shift + self.extent <= usize::MAX + 1
        &&& self.scale == -1 ==> -1 <= self.shift - self.extent && self.shift <= usize::MAX
    }

    /// The axis as a fresh buffer has it.
    pub open spec fn plain(extent: usize, stride: usize) -> Axis {
        Axis { extent, stride, scale: 1, shift: 0 }
    }

    /// The axis read in the opposite direction.
    pub open spec fn flipped(self) -> Axis {
        Axis {
            extent: self.extent,
            stride: self.stride,
            scale: -self.scale,
            shift: self.shift + self.scale * (self.extent - 1),
        }
    }

    /// The axis cut down to the coordinates from `start` up to `end`.
    pub open spec fn narrowed(self, start: int, end: int) -> Axis {
        Axis {
            extent: (end - start) as usize,
            stride: self.stride,
            scale: self.scale,
            shift: self.shift + self.scale * start,
        }
    }
}

/// The coordinate map of a well-formed axis, without the multiplication.
pub proof fn lemma_locate(axis: Axis, i: int)
    requires
        axis.wf(),
    ensures
        axis.scale == 1 ==> axis.locate(i) == axis.shift + i,
        axis.scale == -1 ==> axis.locate(i) == axis.shift - i,
        0 <= i < axis.extent ==> 0 <= axis.locate(i) <= usize::MAX,
{
    assert(axis.scale == 1 ==> axis.scale * i == i) by (nonlinear_arith);
    assert(axis.scale == -1 ==> axis.scale * i == -i) by (nonlinear_arith);
}

/// What an array is: the buffer and, per axis, how it is read.
pub struct ArrayView<T> {
    pub buffer: Seq<T>,
    pub axes: Seq<Axis>,
}

/// The index tuple read backwards at `axis` of the given extent.
pub open spec fn reflected(idx: Seq<usize>, axis: int, extent: usize) -> Seq<usize> {
    idx.update(axis, (extent - 1 - idx[axis]) as usize)
}

/// The index tuple with the coordinates of two axes exchanged.
pub open spec fn exchanged(idx: Seq<usize>, a: int, b: int) -> Seq<usize> {
    idx.update(a, idx[b]).update(b, idx[a])
}

/// The index tuple moved on by the start of each range.
pub open spec fn advanced(idx: Seq<usize>, ranges: Seq<Range<usize>>) -> Seq<usize> {
    Seq::new(idx.len(), |a: int| (idx[a] + ranges[a].start) as usize)
}

/// The ranges that keep every axis whole but `axis`, of which they keep the
/// one coordinate `k`.
pub open spec fn pinning(shape: Seq<usize>, axis: int, k: int) -> Seq<Range<usize>> {
    Seq::new(
        shape.len(),
        |a: int|
            if a == axis {
                (Range { start: k as usize, end: (k + 1) as usize })
            } else {
                (Range { start: 0, end: shape[a] })
            },
    )
}

/// Whether each range lies within the extent of its axis.
pub open spec fn ranges_fit(shape: Seq<usize>, ranges: Seq<Range<usize>>) -> bool {
    &&& ranges.len() == shape.len()
    &&& forall|a: int|
        0 <= a < shape.len() ==> (#[trigger] ranges[a]).start <= ranges[a].end <= shape[a]
}

impl<T> ArrayView<T> {
    /// The number of axes.
    pub open spec fn dims(self) -> nat {
        self.axes.len()
    }

    /// The extent of each axis.
    pub open spec fn shape(self) -> Seq<usize> {
        Seq::new(self.axes.len(), |a: int| self.axes[a].extent)
    }

    /// The stride of each axis.
    pub open spec fn strides(self) -> Seq<usize> {
        Seq::new(self.axes.len(), |a: int| self.axes[a].stride)
    }

    /// The number of elements that the view shows.
    pub open spec fn size(self) -> int {
        volume(self.shape())
    }

    /// Whether `idx` names an element of the view.
    pub open spec fn contains(self, idx: Seq<usize>) -> bool {
        in_bounds(self.shape(), idx)
    }

    /// Per axis, the coordinate on the buffer's axis times the stride.
    pub open spec fn terms(self, idx: Seq<usize>) -> Seq<int> {
        Seq::new(
            self.axes.len(),
            |a: int| self.axes[a].locate(idx[a] as int) * self.axes[a].stride,
        )
    }

    /// The place in the buffer that `idx` names.
    pub open spec fn offset(self, idx: Seq<usize>) -> int {
        sum(self.terms(idx))
    }

    /// The element that `idx` names, if it names one.
    pub open spec fn get(self, idx: Seq<usize>) -> Option<T> {
        if self.contains(idx) && 0 <= self.offset(idx) < self.buffer.len() {
            Some(self.buffer[self.offset(idx)])
        } else {
            None
        }
    }

    /// The elements of the view in row-major order, the last axis varying fastest.
    pub open spec fn flat(self) -> Seq<T> {
        Seq::new(
            self.size() as nat,
            |k: int| self.buffer[self.offset(unrank(self.shape(), k))],
        )
    }

    /// Every axis is well formed, the number of elements fits in a machine
    /// word, and every index tuple of the view names a place inside the
    /// buffer.
    pub open spec fn wf(self) -> bool {
        &&& forall|a: int| 0 <= a < self.axes.len() ==> (#[trigger] self.axes[a]).wf()
        &&& self.size() <= usize::MAX
        &&& forall|idx: Seq<usize>| #[trigger]
            self.contains(idx) ==> self.offset(idx) < self.buffer.len()
    }

    /// A buffer read in row-major order under the given shape.
    pub open spec fn dense(buffer: Seq<T>, shape: Seq<usize>) -> ArrayView<T> {
        ArrayView {
            buffer,
            axes: Seq::new(
                shape.len(),
                |a: int| Axis::plain(shape[a], dense_stride(shape, a) as usize),
            ),
        }
    }

    /// The view with the order of its axes reversed.
    pub open spec fn transposed(self) -> ArrayView<T> {
        ArrayView { buffer: self.buffer, axes: self.axes.reverse() }
    }

    /// The view with one axis read in the opposite direction.
    pub open spec fn flipped(self, axis: int) -> ArrayView<T> {
        ArrayView { buffer: self.buffer, axes: self.axes.update(axis, self.axes[axis].flipped()) }
    }

    /// The view with two axes exchanged.
    pub open spec fn swapped(self, a: int, b: int) -> ArrayView<T> {
        ArrayView {
            buffer: self.buffer,
            axes: self.axes.update(a, self.axes[b]).update(b, self.axes[a]),
        }
    }

    /// The view cut down, on each axis, to the coordinates of one range.
    pub open spec fn sliced(self, ranges: Seq<Range<usize>>) -> ArrayView<T> {
        ArrayView {
            buffer: self.buffer,
            axes: Seq::new(
                self.axes.len(),
                |a: int| self.axes[a].narrowed(ranges[a].start as int, ranges[a].end as int),
            ),
        }
    }

    /// The part of the view that has the coordinate `k` on `axis`: a view of
    /// as many axes, with a single coordinate left on that one.
    pub open spec fn pinned(self, axis: int, k: int) -> ArrayView<T> {
        self.sliced(pinning(self.shape(), axis, k))
    }

    /// The view taken apart along `axis`: for each coordinate of that axis, in
    /// order, the elements that have it, in row-major order.
    pub open spec fn parts(self, axis: int) -> Seq<Seq<T>> {
        Seq::new(self.axes[axis].extent as nat, |k: int| self.pinned(axis, k).flat())
    }

    /// The same axes over another buffer.
    pub open spec fn rebased<U>(self, buffer: Seq<U>) -> ArrayView<U> {
        ArrayView { buffer, axes: self.axes }
    }

    /// Inside a well-formed view every term of an offset is non-negative, so
    /// no term and no partial sum exceeds the offset.
    pub proof fn lemma_terms(self, idx: Seq<usize>)
        requires
            self.wf(),
            self.contains(idx),
        ensures
            forall|a: int| 0 <= a < self.dims() ==> self.terms(idx)[a] >= 0,
            forall|a: int|
                0 <= a < self.dims() ==> 0 <= #[trigger] self.axes[a].locate(idx[a] as int)
                    <= usize::MAX,
            0 <= self.offset(idx) < self.buffer.len(),
    {
        assert forall|a: int| 0 <= a < self.dims() implies self.terms(idx)[a] >= 0 && 0
            <= #[trigger] self.axes[a].locate(idx[a] as int) <= usize::MAX by {
            assert(self.axes[a].wf());
            assert(idx[a] < self.shape()[a]);
            lemma_locate(self.axes[a], idx[a] as int);
            assert(self.axes[a].locate(idx[a] as int) * self.axes[a].stride >= 0)
                by (nonlinear_arith)
                requires
                    self.axes[a].locate(idx[a] as int) >= 0,
                    self.axes[a].stride >= 0,
            ;
        }
        lemma_sum_nonnegative(self.terms(idx));
    }

    /// A well-formed view has an element for every index tuple inside its shape.
    pub proof fn lemma_get(self, idx: Seq<usize>)
        requires
            self.wf(),
        ensures
            self.get(idx) is Some <==> self.contains(idx),
            self.contains(idx) ==> self.get(idx) == Some(self.buffer[self.offset(idx)]),
    {
        if self.contains(idx) {
            self.lemma_terms(idx);
        }
    }

    /// The element of an index tuple stands in the flat sequence at the place
    /// of the tuple in row-major order.
    pub proof fn lemma_flat_at(self, idx: Seq<usize>)
        requires
            self.wf(),
            self.contains(idx),
        ensures
            0 <= rank(self.shape(), idx) < self.size(),
            self.flat().len() == self.size(),
            self.get(idx) == Some(self.flat()[rank(self.shape(), idx)]),
    {
        lemma_rank_bounds(self.shape(), idx);
        lemma_unrank_rank(self.shape(), idx);
        self.lemma_get(idx);
    }
}

} // verus!
