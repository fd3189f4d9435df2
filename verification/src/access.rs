//! Reading single elements and cutting sub-ranges out of an array.

use std::borrow::Cow;
use std::ops::Index;
use std::ops::Range;
use vstd::prelude::*;
use crate::array::Array;
use crate::model::{advanced, ranges_fit};
use crate::series::{lemma_sum_bounds, sum};

verus! {

impl<'a, T: Clone, const D: usize> Array<'a, T, D> {
    /// Whether every coordinate of `indices` lies within the extent of its axis.
    pub(crate) fn holds(&self, indices: &[usize; D]) -> (r: bool)
        requires
            self.wf(),
        ensures
            r == self@.contains(indices@),
    {
        let mut a: usize = 0;
        while a < D
            invariant
                0 <= a <= D,
                forall|j: int| 0 <= j < a ==> indices@[j] < self.shape@[j],
            decreases D - a,
        {
            if indices[a] >= self.shape[a] {
                assert(!(indices@[a as int] < self@.shape()[a as int]));
                return false;
            }
            a += 1;
        }
        true
    }

    /// The place in the buffer of an index tuple that lies within the shape.
    pub(crate) fn locate(&self, indices: &[usize; D]) -> (r: usize)
        requires
            self.wf(),
            self@.contains(indices@),
        ensures
            r == self@.offset(indices@),
            r < self@.buffer.len(),
    {
        let ghost terms = self@.terms(indices@);
        proof {
            self@.lemma_terms(indices@);
        }
        let len = self.data().len();
        let mut offset: usize = 0;
        let mut a: usize = 0;
        proof {
            assert(terms.take(0) =~= Seq::<int>::empty());
        }
        while a < D
            invariant
                0 <= a <= D,
                self.wf(),
                self@.contains(indices@),
                terms == self@.terms(indices@),
                forall|j: int| 0 <= j < D ==> terms[j] >= 0,
                forall|j: int|
                    0 <= j < D ==> 0 <= #[trigger] self@.axes[j].locate(indices@[j] as int)
                        <= usize::MAX,
                sum(terms) < len == self@.buffer.len(),
                offset == sum(terms.take(a as int)),
            decreases D - a,
        {
            proof {
                lemma_sum_bounds(terms, a as int);
                assert(terms.take(a + 1).drop_last() =~= terms.take(a as int));
                assert(self@.axes[a as int].wf());
                assert(0 <= self@.axes[a as int].locate(indices@[a as int] as int) <= usize::MAX);
            }
            let p = self.idx_maps[a].map(indices[a]);
            assert(terms[a as int] == p * self.strides@[a as int]);
            offset = offset + p * self.strides[a];
            a += 1;
        }
        proof {
            assert(terms.take(D as int) =~= terms);
        }
        offset
    }

    /// A view of the array cut down, on each axis, to the coordinates of one
    /// range. Each range must lie within the extent of its axis.
    pub fn slice(&'a self, ranges: &[Range<usize>; D]) -> (r: Array<'a, T, D>)
        requires
            self.wf(),
            ranges_fit(self@.shape(), ranges@),
        ensures
            r.wf(),
            r@ == self@.sliced(ranges@),
            forall|a: int|
                0 <= a < D ==> #[trigger] r@.shape()[a] == ranges@[a].end - ranges@[a].start,
            forall|idx: Seq<usize>|
                r@.contains(idx) ==> #[trigger] r@.get(idx) == self@.get(advanced(idx, ranges@)),
    {
        let mut shape = self.shape;
        let mut idx_maps = self.idx_maps;
        let mut axis: usize = 0;
        while axis < D
            invariant
                0 <= axis <= D,
                self.wf(),
                ranges_fit(self@.shape(), ranges@),
                forall|a: int|
                    0 <= a < axis ==> shape@[a] == ranges@[a].end - ranges@[a].start
                        && idx_maps@[a].m == self.idx_maps@[a].m && idx_maps@[a].b
                        == self.idx_maps@[a].b + self.idx_maps@[a].m * ranges@[a].start,
                forall|a: int|
                    axis <= a < D ==> shape@[a] == self.shape@[a] && idx_maps@[a]
                        == self.idx_maps@[a],
            decreases D - axis,
        {
            let start = ranges[axis].start;
            let end = ranges[axis].end;
            proof {
                assert(self@.axes[axis as int].wf());
                assert(ranges@[axis as int].start <= ranges@[axis as int].end
                    <= self@.shape()[axis as int]);
            }
            let mut idx_map = idx_maps[axis];
            idx_map.append_b(start as i128);
            idx_maps[axis] = idx_map;
            shape[axis] = end - start;
            axis += 1;
        }
        let r = Array { vec: Cow::Borrowed(self.data()), shape, strides: self.strides, idx_maps };
        proof {
            assert(r@.axes =~= self@.sliced(ranges@).axes);
            self@.lemma_sliced(ranges@);
            assert forall|idx: Seq<usize>| r@.contains(idx) implies #[trigger] r@.get(idx)
                == self@.get(advanced(idx, ranges@)) by {
                self@.lemma_sliced_at(ranges@, idx);
            }
        }
        r
    }

    /// The element that `indices` names, or `None` where a coordinate lies
    /// beyond the extent of its axis.
    pub fn get(&self, indices: [usize; D]) -> (r: Option<&T>)
        requires
            self.wf(),
        ensures
            r is Some <==> self@.contains(indices@),
            r matches Some(x) ==> self@.get(indices@) == Some(*x),
            r is None ==> self@.get(indices@) is None,
    {
        if !self.holds(&indices) {
            return None;
        }
        let offset = self.locate(&indices);
        self.data().get(offset)
    }
}

impl<'a, T: Clone, const D: usize>
    vstd::std_specs::core::IndexSpecImpl<[usize; D]> for Array<'a, T, D>
{
    /// Indexing asks for an index tuple within the shape.
    open spec fn index_req(&self, index: &[usize; D]) -> bool {
        self.wf() && self@.contains(index@)
    }
}

impl<'a, T: Clone, const D: usize> Index<[usize; D]> for Array<'a, T, D> {
    type Output = T;

    /// The element that `indices` names, for indices within the shape.
    fn index(&self, indices: [usize; D]) -> (r: &T)
        ensures
            self@.get(indices@) == Some(*r),
    {
        let offset = self.locate(&indices);
        &self.data()[offset]
    }
}

} // verus!
