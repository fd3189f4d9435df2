//! Walking an array in row-major order, and taking it apart along one axis.

use std::borrow::Cow;
use vstd::prelude::*;
use crate::array::Array;
use crate::layout::{
    in_bounds, lemma_rank_last, lemma_rank_origin, lemma_rank_step, lemma_volume_sign, origin,
    rank,
};
use crate::model::{pinning, ranges_fit, ArrayView};

verus! {

/// A walk over the elements of an array in row-major order: an odometer over
/// the index tuples, the last axis turning fastest.
#[verifier::reject_recursive_types(T)]
pub struct Iter<'a, T: Clone, const D: usize> {
    array: &'a Array<'a, T, D>,
    indices: [usize; D],
    exhausted: bool,
}

impl<'a, T: Clone, const D: usize> Iter<'a, T, D> {
    /// The array that is walked.
    pub closed spec fn source(&self) -> ArrayView<T> {
        self.array@
    }

    /// How many elements the walk has handed out.
    pub closed spec fn position(&self) -> int {
        if self.exhausted {
            self.array@.size()
        } else {
            rank(self.array@.shape(), self.indices@)
        }
    }

    /// The walk stands on an element of a well-formed array, or is over.
    pub closed spec fn wf(&self) -> bool {
        &&& self.array.wf()
        &&& !self.exhausted ==> self.array@.contains(self.indices@)
    }

    /// A walk that has handed out nothing yet.
    pub(crate) fn init(array: &'a Array<'a, T, D>) -> (r: Self)
        requires
            array.wf(),
        ensures
            r.wf(),
            r.source() == array@,
            r.position() == 0,
    {
        let indices = [0usize; D];
        let exhausted = !array.holds(&indices);
        proof {
            assert(indices@ =~= origin(D as nat));
            lemma_rank_origin(array@.shape());
            lemma_volume_sign(array@.shape());
            if exhausted {
                assert(exists|a: int| 0 <= a < D && !(indices@[a] < array@.shape()[a]));
            }
        }
        Iter { array, indices, exhausted }
    }

    /// Turns the odometer one place on; the walk is over once the carry runs
    /// past the first axis.
    fn increment_indices(&mut self)
        requires
            old(self).wf(),
            old(self).position() < old(self).source().size(),
        ensures
            final(self).wf(),
            final(self).source() == old(self).source(),
            final(self).position() == old(self).position() + 1,
    {
        let ghost shape = self.array@.shape();
        let ghost before = self.indices@;
        let mut indices = self.indices;
        let mut carry = true;
        let mut axis: usize = D;
        while carry && axis > 0
            invariant
                0 <= axis <= D,
                self.array.wf(),
                shape == self.array@.shape(),
                in_bounds(shape, before),
                carry ==> forall|a: int| 0 <= a < axis ==> indices@[a] == before[a],
                carry ==> forall|a: int|
                    axis <= a < D ==> before[a] + 1 == shape[a] && indices@[a] == 0,
                !carry ==> in_bounds(shape, indices@) && rank(shape, indices@) == rank(
                    shape,
                    before,
                ) + 1,
            decreases axis,
        {
            axis -= 1;
            assert(before[axis as int] < shape[axis as int]);
            if indices[axis] + 1 < self.array.shape[axis] {
                indices[axis] = indices[axis] + 1;
                carry = false;
                proof {
                    lemma_rank_step(shape, before, indices@, axis as int);
                }
            } else {
                indices[axis] = 0;
            }
        }
        if carry {
            proof {
                lemma_rank_last(shape, before);
            }
            self.exhausted = true;
        } else {
            self.indices = indices;
        }
    }

    /// The next element in row-major order, or `None` once every element has
    /// been handed out.
    pub fn next(&mut self) -> (r: Option<&'a T>)
        requires
            old(self).wf(),
        ensures
            final(self).wf(),
            final(self).source() == old(self).source(),
            0 <= old(self).position() <= old(self).source().size(),
            r is Some <==> old(self).position() < old(self).source().size(),
            r matches Some(x) ==> *x == old(self).source().flat()[old(self).position()]
                && final(self).position() == old(self).position() + 1,
            r is None ==> final(self).position() == old(self).position(),
    {
        proof {
            lemma_volume_sign(self.array@.shape());
        }
        if self.exhausted {
            return None;
        }
        proof {
            self.array@.lemma_flat_at(self.indices@);
        }
        let item = self.array.get(self.indices);
        self.increment_indices();
        item
    }
}

impl<'a, T: Clone, const D: usize> Array<'a, T, D> {
    /// A walk over the elements in row-major order.
    pub fn iter(&self) -> (r: Iter<'_, T, D>)
        requires
            self.wf(),
        ensures
            r.wf(),
            r.source() == self@,
            r.position() == 0,
    {
        Iter::init(self)
    }

    /// The elements in row-major order, the last axis varying fastest.
    pub fn flat(&self) -> (r: Vec<&T>)
        requires
            self.wf(),
        ensures
            r@.len() == self@.flat().len(),
            forall|k: int| 0 <= k < r@.len() ==> *r@[k] == self@.flat()[k],
    {
        let mut walk = self.iter();
        let mut out: Vec<&T> = Vec::new();
        proof {
            lemma_volume_sign(self@.shape());
        }
        loop
            invariant
                walk.wf(),
                walk.source() == self@,
                out@.len() == walk.position(),
                0 <= walk.position() <= self@.size(),
                forall|k: int| 0 <= k < out@.len() ==> *out@[k] == self@.flat()[k],
            ensures
                out@.len() == self@.size(),
                forall|k: int| 0 <= k < out@.len() ==> *out@[k] == self@.flat()[k],
            decreases self@.size() - walk.position(),
        {
            match walk.next() {
                Some(x) => {
                    out.push(x);
                },
                None => {
                    break;
                },
            }
        }
        out
    }

    /// The part of the array that has the coordinate `k` on `axis`, as a view.
    pub(crate) fn pin(&'a self, axis: usize, k: usize) -> (r: Array<'a, T, D>)
        requires
            self.wf(),
            axis < D,
            k < self@.shape()[axis as int],
        ensures
            r.wf(),
            r@ == self@.pinned(axis as int, k as int),
    {
        let ghost ranges = pinning(self@.shape(), axis as int, k as int);
        proof {
            assert(self@.axes[axis as int].wf());
        }
        let mut shape = self.shape;
        let mut idx_maps = self.idx_maps;
        let mut idx_map = idx_maps[axis];
        idx_map.append_b(k as i128);
        idx_maps[axis] = idx_map;
        shape[axis] = 1;
        let r = Array { vec: Cow::Borrowed(self.data()), shape, strides: self.strides, idx_maps };
        proof {
            assert(ranges_fit(self@.shape(), ranges));
            assert forall|a: int| 0 <= a < D implies r@.axes[a] == self@.sliced(ranges).axes[a] by {
                assert(self@.axes[a].scale * 0 == 0) by (nonlinear_arith);
            }
            assert(r@.axes =~= self@.sliced(ranges).axes);
            self@.lemma_sliced(ranges);
        }
        r
    }

    /// The array taken apart along `axis`: one view for each coordinate of
    /// that axis, in order, each showing the elements that have it.
    pub fn axis_view(&'a self, axis: usize) -> (r: Vec<Array<'a, T, D>>)
        requires
            self.wf(),
            axis < D,
        ensures
            r@.len() == self@.shape()[axis as int],
            forall|k: int|
                0 <= k < r@.len() ==> (#[trigger] r@[k]).wf() && r@[k]@ == self@.pinned(
                    axis as int,
                    k,
                ),
    {
        let extent = self.shape[axis];
        let mut views: Vec<Array<'a, T, D>> = Vec::new();
        let mut k: usize = 0;
        while k < extent
            invariant
                0 <= k <= extent,
                self.wf(),
                axis < D,
                extent == self@.shape()[axis as int],
                views@.len() == k,
                forall|j: int|
                    0 <= j < k ==> (#[trigger] views@[j]).wf() && views@[j]@ == self@.pinned(
                        axis as int,
                        j,
                    ),
            decreases extent - k,
        {
            views.push(self.pin(axis, k));
            k += 1;
        }
        views
    }

    /// A walk over the axes, each with its extent and its stride.
    pub fn axes(&self) -> (r: Axes<'_, D>)
        ensures
            r.position() == 0,
            r.shape() == self@.shape(),
            r.strides() == self@.strides(),
    {
        Axes::init(self.shape(), self.strides())
    }
}

/// A walk over the axes of an array, handing out the extent and the stride of
/// each in turn.
pub struct Axes<'a, const D: usize> {
    axis: usize,
    shape: &'a [usize; D],
    strides: &'a [usize; D],
}

impl<'a, const D: usize> Axes<'a, D> {
    /// How many axes the walk has handed out.
    pub closed spec fn position(&self) -> int {
        self.axis as int
    }

    /// The extents that the walk hands out.
    pub closed spec fn shape(&self) -> Seq<usize> {
        self.shape@
    }

    /// The strides that the walk hands out.
    pub closed spec fn strides(&self) -> Seq<usize> {
        self.strides@
    }

    /// A walk that starts at the first axis.
    pub fn init(shape: &'a [usize; D], strides: &'a [usize; D]) -> (r: Self)
        ensures
            r.position() == 0,
            r.shape() == shape@,
            r.strides() == strides@,
    {
        Axes { axis: 0, shape, strides }
    }

    /// The extent and the stride of the next axis, or `None` once every axis
    /// has been handed out.
    pub fn next(&mut self) -> (r: Option<(usize, usize)>)
        ensures
            final(self).shape() == old(self).shape(),
            final(self).strides() == old(self).strides(),
            r is Some <==> old(self).position() < D,
            r matches Some(pair) ==> pair.0 == old(self).shape()[old(self).position()] && pair.1
                == old(self).strides()[old(self).position()] && final(self).position() == old(
                self,
            ).position() + 1,
            r is None ==> final(self).position() == old(self).position(),
    {
        if self.axis < D {
            let pair = (self.shape[self.axis], self.strides[self.axis]);
            self.axis = self.axis + 1;
            Some(pair)
        } else {
            None
        }
    }
}

} // verus!
