//! The array itself: a buffer that may be shared, a shape, the strides of the
//! buffer and one affine map per axis.

use std::borrow::Cow;
use vstd::prelude::*;
use crate::layout::{
    dense_strides_of, in_bounds, lemma_nonempty_representable, rank, representable, volume,
    volume_of,
};
use crate::model::{ArrayView, Axis};

verus! {

/// The affine map of one axis: a logical coordinate `i` names the coordinate
/// `m * i + b` of the buffer's axis, where `m` is 1 or -1.
#[derive(Debug, Clone, Copy)]
pub(crate) struct IdxMap {
    pub(crate) m: i128,
    pub(crate) b: i128,
}

impl IdxMap {
    /// The map that leaves every coordinate where it is.
    pub(crate) fn init() -> (r: IdxMap)
        ensures
            r.m == 1,
            r.b == 0,
    {
        IdxMap { m: 1, b: 0 }
    }

    /// The coordinate of the buffer's axis that `idx` names.
    pub(crate) fn map(&self, idx: usize) -> (r: usize)
        requires
            self.m == 1 || self.m == -1,
            -1 <= self.b <= usize::MAX + 1,
            0 <= self.m * idx + self.b <= usize::MAX,
        ensures
            r == self.m * idx + self.b,
    {
        assert(self.m == 1 ==> self.m * idx == idx) by (nonlinear_arith);
        assert(self.m == -1 ==> self.m * idx == -idx) by (nonlinear_arith);
        (self.m * (idx as i128) + self.b) as usize
    }

    /// Moves the start of the map on by `delta` coordinates in its own direction.
    pub(crate) fn append_b(&mut self, delta: i128)
        requires
            old(self).m == 1 || old(self).m == -1,
            -1 <= old(self).b <= usize::MAX + 1,
            -1 <= delta <= usize::MAX,
        ensures
            final(self).m == old(self).m,
            final(self).b == old(self).b + old(self).m * delta,
    {
        assert(self.m == 1 ==> self.m * delta == delta) by (nonlinear_arith);
        assert(self.m == -1 ==> self.m * delta == -delta) by (nonlinear_arith);
        self.b = self.b + self.m * delta;
    }
}

/// The elements that a buffer holds, owned or borrowed.
pub open spec fn contents<'a, T: Clone>(buffer: &Cow<'a, [T]>) -> Seq<T> {
    match buffer {
        Cow::Owned(v) => v@,
        Cow::Borrowed(s) => s@,
    }
}

/// An array of `D` axes over elements of type `T`.
///
/// Transposing, flipping, swapping axes and slicing give views that share the
/// buffer of the array they were taken from.
#[verifier::reject_recursive_types(T)]
pub struct Array<'a, T: Clone, const D: usize> {
    pub(crate) vec: Cow<'a, [T]>,
    pub(crate) shape: [usize; D],
    pub(crate) strides: [usize; D],
    pub(crate) idx_maps: [IdxMap; D],
}

impl<'a, T: Clone, const D: usize> Array<'a, T, D> {
    /// The mathematical model of the array.
    pub open(crate) spec fn view(&self) -> ArrayView<T> {
        ArrayView {
            buffer: contents(&self.vec),
            axes: Seq::new(
                D as nat,
                |a: int|
                    Axis {
                        extent: self.shape@[a],
                        stride: self.strides@[a],
                        scale: self.idx_maps@[a].m as int,
                        shift: self.idx_maps@[a].b as int,
                    },
            ),
        }
    }

    /// The array has `D` axes and its model is well formed.
    pub open spec fn wf(&self) -> bool {
        &&& self@.dims() == D
        &&& self@.wf()
    }

    /// The buffer as a slice.
    pub(crate) fn data(&self) -> (r: &[T])
        ensures
            r@ == self@.buffer,
    {
        match &self.vec {
            Cow::Owned(v) => v.as_slice(),
            Cow::Borrowed(s) => s,
        }
    }

    /// The number of elements that the array shows.
    pub(crate) fn count(&self) -> (r: usize)
        requires
            self.wf(),
        ensures
            r == self@.size(),
    {
        assert(self.shape@ =~= self@.shape());
        volume_of(&self.shape)
    }

    /// Builds an array over `vec`, read in row-major order under `shape`.
    ///
    /// The buffer must hold exactly as many elements as the shape asks for.
    /// Where that is none, the row-major strides of the shape must fit in
    /// machine words; those of a shape without an empty axis always do.
    pub fn init(vec: Vec<T>, shape: [usize; D]) -> (r: Self)
        requires
            volume(shape@) == vec@.len(),
            vec@.len() == 0 ==> representable(shape@),
        ensures
            r.wf(),
            r@ == ArrayView::dense(vec@, shape@),
            r@.shape() == shape@,
            r@.flat() == vec@,
            forall|idx: Seq<usize>|
                in_bounds(shape@, idx) ==> #[trigger] r@.get(idx) == Some(
                    vec@[rank(shape@, idx)],
                ),
    {
        let len = vec.len();
        proof {
            if len > 0 {
                lemma_nonempty_representable(shape@);
            }
        }
        let strides = dense_strides_of(&shape);
        let ghost buffer = vec@;
        let array = Array { vec: Cow::Owned(vec), shape, strides, idx_maps: [IdxMap::init(); D] };
        proof {
            ArrayView::lemma_dense(buffer, shape@);
            assert(array@.axes =~= ArrayView::dense(buffer, shape@).axes);
            assert forall|idx: Seq<usize>| in_bounds(shape@, idx) implies #[trigger] array@.get(
                idx,
            ) == Some(buffer[rank(shape@, idx)]) by {
                assert(array@.contains(idx));
                array@.lemma_get(idx);
            }
        }
        array
    }

    /// The extent of each axis.
    pub fn shape(&self) -> (r: &[usize; D])
        ensures
            r@ == self@.shape(),
    {
        assert(self.shape@ =~= self@.shape());
        &self.shape
    }

    /// The stride of each axis in the buffer.
    pub fn strides(&self) -> (r: &[usize; D])
        ensures
            r@ == self@.strides(),
    {
        assert(self.strides@ =~= self@.strides());
        &self.strides
    }
}

} // verus!
