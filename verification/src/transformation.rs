//! The structural transforms: each gives a new array over the same buffer.

use std::borrow::Cow;
use vstd::prelude::*;
use crate::array::Array;
use crate::arrays::{reversed, with_exchanged};
use crate::layout::{lemma_single_axis, lemma_volume_sign, representable, volume};
use crate::model::{exchanged, reflected, ArrayView};

verus! {

impl<'a, T: Clone, const D: usize> Array<'a, T, D> {
    /// Reverses the order of the axes, keeping the buffer.
    pub fn transpose(self) -> (r: Array<'a, T, D>)
        requires
            self.wf(),
        ensures
            r.wf(),
            r@ == self@.transposed(),
            r@.shape() == self@.shape().reverse(),
            forall|idx: Seq<usize>|
                idx.len() == D ==> #[trigger] r@.get(idx) == self@.get(idx.reverse()),
    {
        let shape = reversed(&self.shape);
        let strides = reversed(&self.strides);
        let idx_maps = reversed(&self.idx_maps);
        let r = Array { vec: self.vec, shape, strides, idx_maps };
        proof {
            assert(r@.axes =~= self@.transposed().axes);
            self@.lemma_transposed();
            assert forall|idx: Seq<usize>| idx.len() == D implies #[trigger] r@.get(idx)
                == self@.get(idx.reverse()) by {
                self@.lemma_transposed_at(idx);
            }
        }
        r
    }

    /// A view of the array with the order of its axes reversed.
    pub fn t(&'a self) -> (r: Array<'a, T, D>)
        requires
            self.wf(),
        ensures
            r.wf(),
            r@ == self@.transposed(),
            r@.shape() == self@.shape().reverse(),
            forall|idx: Seq<usize>|
                idx.len() == D ==> #[trigger] r@.get(idx) == self@.get(idx.reverse()),
    {
        let shape = reversed(&self.shape);
        let strides = reversed(&self.strides);
        let idx_maps = reversed(&self.idx_maps);
        let r = Array { vec: Cow::Borrowed(self.data()), shape, strides, idx_maps };
        proof {
            assert(r@.axes =~= self@.transposed().axes);
            self@.lemma_transposed();
            assert forall|idx: Seq<usize>| idx.len() == D implies #[trigger] r@.get(idx)
                == self@.get(idx.reverse()) by {
                self@.lemma_transposed_at(idx);
            }
        }
        r
    }

    /// A view of the array in which `axis` is read in the opposite direction.
    pub fn flip(&'a self, axis: usize) -> (r: Array<'a, T, D>)
        requires
            self.wf(),
            axis < D,
        ensures
            r.wf(),
            r@ == self@.flipped(axis as int),
            r@.shape() == self@.shape(),
            forall|idx: Seq<usize>|
                self@.contains(idx) ==> #[trigger] r@.get(idx) == self@.get(
                    reflected(idx, axis as int, self@.shape()[axis as int]),
                ),
    {
        proof {
            assert(self@.axes[axis as int].wf());
        }
        let mut idx_maps = self.idx_maps;
        let mut idx_map = idx_maps[axis];
        let extent: i128 = self.shape[axis] as i128;
        idx_map.append_b(extent - 1);
        idx_map.m = -idx_map.m;
        idx_maps[axis] = idx_map;
        let r = Array {
            vec: Cow::Borrowed(self.data()),
            shape: self.shape,
            strides: self.strides,
            idx_maps,
        };
        proof {
            assert(r@.axes =~= self@.flipped(axis as int).axes);
            self@.lemma_flipped(axis as int);
            assert forall|idx: Seq<usize>| self@.contains(idx) implies #[trigger] r@.get(idx)
                == self@.get(reflected(idx, axis as int, self@.shape()[axis as int])) by {
                self@.lemma_flipped_at(axis as int, idx);
            }
        }
        r
    }

    /// A view of the array in which two axes have changed places.
    pub fn swap_axes(&'a self, axis0: usize, axis1: usize) -> (r: Array<'a, T, D>)
        requires
            self.wf(),
            axis0 < D,
            axis1 < D,
        ensures
            r.wf(),
            r@ == self@.swapped(axis0 as int, axis1 as int),
            forall|idx: Seq<usize>|
                idx.len() == D ==> #[trigger] r@.get(idx) == self@.get(
                    exchanged(idx, axis0 as int, axis1 as int),
                ),
    {
        let shape = with_exchanged(&self.shape, axis0, axis1);
        let strides = with_exchanged(&self.strides, axis0, axis1);
        let idx_maps = with_exchanged(&self.idx_maps, axis0, axis1);
        let r = Array { vec: Cow::Borrowed(self.data()), shape, strides, idx_maps };
        proof {
            assert(r@.axes =~= self@.swapped(axis0 as int, axis1 as int).axes);
            self@.lemma_swapped(axis0 as int, axis1 as int);
            assert forall|idx: Seq<usize>| idx.len() == D implies #[trigger] r@.get(idx)
                == self@.get(exchanged(idx, axis0 as int, axis1 as int)) by {
                self@.lemma_swapped_at(axis0 as int, axis1 as int, idx);
            }
        }
        r
    }

    /// A copy of every element, in row-major order.
    pub(crate) fn copied(&self) -> (r: Vec<T>)
        requires
            self.wf(),
        ensures
            r@.len() == self@.flat().len(),
            forall|k: int| 0 <= k < r@.len() ==> cloned(self@.flat()[k], #[trigger] r@[k]),
    {
        let elements = self.flat();
        let mut out: Vec<T> = Vec::new();
        let mut k: usize = 0;
        while k < elements.len()
            invariant
                0 <= k <= elements@.len(),
                elements@.len() == self@.flat().len(),
                forall|j: int| 0 <= j < elements@.len() ==> *elements@[j] == self@.flat()[j],
                out@.len() == k,
                forall|j: int| 0 <= j < k ==> cloned(self@.flat()[j], #[trigger] out@[j]),
            decreases elements@.len() - k,
        {
            out.push(elements[k].clone());
            k += 1;
        }
        out
    }

    /// A new array of another shape over a copy of the elements, taken in
    /// row-major order. The new shape must ask for as many elements as the
    /// array shows. Where that is none, the row-major strides of the new
    /// shape must fit in machine words.
    pub fn reshape<const S: usize>(&self, shape: [usize; S]) -> (r: Array<'a, T, S>)
        requires
            self.wf(),
            volume(shape@) == self@.size(),
            self@.size() == 0 ==> representable(shape@),
        ensures
            r.wf(),
            r@ == ArrayView::dense(r@.buffer, shape@),
            r@.shape() == shape@,
            r@.flat() == r@.buffer,
            r@.flat().len() == self@.flat().len(),
            forall|k: int|
                0 <= k < self@.flat().len() ==> cloned(self@.flat()[k], #[trigger] r@.flat()[k]),
    {
        proof {
            lemma_volume_sign(self@.shape());
        }
        Array::init(self.copied(), shape)
    }

    /// A new array of one axis over a copy of the elements, taken in
    /// row-major order.
    pub fn flatten(&self) -> (r: Array<'a, T, 1>)
        requires
            self.wf(),
        ensures
            r.wf(),
            r@.shape().len() == 1,
            r@.shape()[0] == self@.size(),
            r@ == ArrayView::dense(r@.buffer, r@.shape()),
            r@.flat() == r@.buffer,
            r@.flat().len() == self@.flat().len(),
            forall|k: int|
                0 <= k < self@.flat().len() ==> cloned(self@.flat()[k], #[trigger] r@.flat()[k]),
    {
        let vec = self.copied();
        let shape = [vec.len()];
        proof {
            lemma_volume_sign(self@.shape());
            lemma_single_axis(shape@);
            ArrayView::lemma_dense(vec@, shape@);
        }
        Array::init(vec, shape)
    }

    /// A new array of one axis over a copy of the elements, taken in
    /// row-major order.
    pub fn ravel(&self) -> (r: Array<'a, T, 1>)
        requires
            self.wf(),
        ensures
            r.wf(),
            r@.shape().len() == 1,
            r@.shape()[0] == self@.size(),
            r@ == ArrayView::dense(r@.buffer, r@.shape()),
            r@.flat() == r@.buffer,
            r@.flat().len() == self@.flat().len(),
            forall|k: int|
                0 <= k < self@.flat().len() ==> cloned(self@.flat()[k], #[trigger] r@.flat()[k]),
    {
        self.flatten()
    }
}

} // verus!
