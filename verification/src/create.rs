//! Arrays made from scratch: filled with one value, or with the items of an
//! iterator.

use vstd::prelude::*;
use vstd::std_specs::iter::IteratorSpec;
use crate::array::Array;
use crate::layout::{lemma_single_axis, representable, volume, volume_of};
use crate::model::ArrayView;
use crate::scalar::Scalar;

verus! {

/// `n` copies of `val`.
fn filled<T: Copy>(val: T, n: usize) -> (r: Vec<T>)
    ensures
        r@.len() == n,
        forall|i: int| 0 <= i < n ==> r@[i] == val,
{
    let mut vec: Vec<T> = Vec::new();
    let mut i: usize = 0;
    while i < n
        invariant
            0 <= i <= n,
            vec@.len() == i,
            forall|j: int| 0 <= j < i ==> vec@[j] == val,
        decreases n - i,
    {
        vec.push(val);
        i += 1;
    }
    vec
}

impl<'a, T: Clone, const D: usize> Array<'a, T, D> {
    /// A dense array of the given shape in which every element is a copy of
    /// `val`. The element count and the row-major strides of the shape must
    /// fit in machine words.
    pub fn full(val: T, shape: [usize; D]) -> (r: Array<'a, T, D>)
        requires
            representable(shape@),
        ensures
            r.wf(),
            r@ == ArrayView::dense(r@.buffer, shape@),
            r@.flat() == r@.buffer,
            r@.buffer.len() == volume(shape@),
            forall|i: int| 0 <= i < r@.buffer.len() ==> cloned(val, #[trigger] r@.buffer[i]),
    {
        let vec = vec![val; volume_of(&shape)];
        Array::init(vec, shape)
    }

    /// A dense array of the shape of `array` in which every element is a
    /// copy of `val`. Where `array` shows no element, the row-major strides
    /// of its shape must fit in machine words.
    pub fn full_like<'b, U: Clone>(val: T, array: &Array<'b, U, D>) -> (r: Array<'a, T, D>)
        requires
            array.wf(),
            array@.size() == 0 ==> representable(array@.shape()),
        ensures
            r.wf(),
            r@ == ArrayView::dense(r@.buffer, array@.shape()),
            r@.flat() == r@.buffer,
            r@.buffer.len() == array@.size(),
            forall|i: int| 0 <= i < r@.buffer.len() ==> cloned(val, #[trigger] r@.buffer[i]),
    {
        let vec = vec![val; array.count()];
        proof {
            assert(array.shape@ =~= array@.shape());
        }
        Array::init(vec, array.shape)
    }
}

impl<'a, T: Clone> Array<'a, T, 1> {
    /// An array of one axis that holds the items of `range` in the order in
    /// which the iterator hands them out.
    pub fn arange<I: Iterator<Item = T>>(range: I) -> (r: Array<'a, T, 1>)
        requires
            range.obeys_prophetic_iter_laws(),
            range.decrease() is Some,
        ensures
            r.wf(),
            r@.shape().len() == 1,
            r@.shape()[0] == r@.buffer.len(),
            r@ == ArrayView::dense(r@.buffer, r@.shape()),
            r@.flat() == r@.buffer,
            r@.buffer == range.remaining(),
    {
        let mut rest = range;
        let mut vec: Vec<T> = Vec::new();
        loop
            invariant
                rest.obeys_prophetic_iter_laws(),
                rest.decrease() is Some,
                vec@ + rest.remaining() == range.remaining(),
            ensures
                vec@ == range.remaining(),
            decreases rest.decrease()->Some_0,
        {
            let ghost before = rest.remaining();
            match rest.next() {
                Some(x) => {
                    vec.push(x);
                    assert(vec@ + rest.remaining() =~= range.remaining());
                },
                None => {
                    assert(vec@ + rest.remaining() =~= vec@);
                    break;
                },
            }
        }
        let shape = [vec.len()];
        proof {
            lemma_single_axis(shape@);
            ArrayView::lemma_dense(vec@, shape@);
        }
        Array::init(vec, shape)
    }
}

impl<'a, T: Scalar, const D: usize> Array<'a, T, D> {
    /// A dense array of the given shape in which every element is the zero
    /// of the element type. The element count and the row-major strides of
    /// the shape must fit in machine words.
    pub fn zeros(shape: [usize; D]) -> (r: Array<'a, T, D>)
        requires
            representable(shape@),
        ensures
            r.wf(),
            r@ == ArrayView::dense(r@.buffer, shape@),
            r@.flat() == r@.buffer,
            r@.buffer.len() == volume(shape@),
            forall|i: int| 0 <= i < r@.buffer.len() ==> r@.buffer[i] == T::zero_value(),
    {
        let vec = filled(T::zero(), volume_of(&shape));
        Array::init(vec, shape)
    }

    /// A dense array of the shape of `array` in which every element is the
    /// zero of the element type. Where `array` shows no element, the
    /// row-major strides of its shape must fit in machine words.
    pub fn zeros_like<'b, U: Clone>(array: &Array<'b, U, D>) -> (r: Array<'a, T, D>)
        requires
            array.wf(),
            array@.size() == 0 ==> representable(array@.shape()),
        ensures
            r.wf(),
            r@ == ArrayView::dense(r@.buffer, array@.shape()),
            r@.flat() == r@.buffer,
            r@.buffer.len() == array@.size(),
            forall|i: int| 0 <= i < r@.buffer.len() ==> r@.buffer[i] == T::zero_value(),
    {
        let vec = filled(T::zero(), array.count());
        proof {
            assert(array.shape@ =~= array@.shape());
        }
        Array::init(vec, array.shape)
    }

    /// A dense array of the given shape in which every element is the one of
    /// the element type. The element count and the row-major strides of the
    /// shape must fit in machine words.
    pub fn ones(shape: [usize; D]) -> (r: Array<'a, T, D>)
        requires
            representable(shape@),
        ensures
            r.wf(),
            r@ == ArrayView::dense(r@.buffer, shape@),
            r@.flat() == r@.buffer,
            r@.buffer.len() == volume(shape@),
            forall|i: int| 0 <= i < r@.buffer.len() ==> r@.buffer[i] == T::one_value(),
    {
        let vec = filled(T::one(), volume_of(&shape));
        Array::init(vec, shape)
    }

    /// A dense array of the shape of `array` in which every element is the
    /// one of the element type. Where `array` shows no element, the
    /// row-major strides of its shape must fit in machine words.
    pub fn ones_like<'b, U: Clone>(array: &Array<'b, U, D>) -> (r: Array<'a, T, D>)
        requires
            array.wf(),
            array@.size() == 0 ==> representable(array@.shape()),
        ensures
            r.wf(),
            r@ == ArrayView::dense(r@.buffer, array@.shape()),
            r@.flat() == r@.buffer,
            r@.buffer.len() == array@.size(),
            forall|i: int| 0 <= i < r@.buffer.len() ==> r@.buffer[i] == T::one_value(),
    {
        let vec = filled(T::one(), array.count());
        proof {
            assert(array.shape@ =~= array@.shape());
        }
        Array::init(vec, array.shape)
    }
}

} // verus!
