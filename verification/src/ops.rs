//! Arithmetic on whole arrays: negation, the sum and the difference of two
//! arrays of one shape, and the product and the quotient of an array with a
//! scalar.

use std::borrow::Cow;
use std::ops::Add;
use std::ops::Div;
use std::ops::Mul;
use std::ops::Neg;
use std::ops::Sub;
use vstd::prelude::*;
use vstd::std_specs::ops::AddSpec;
use vstd::std_specs::ops::DivSpec;
use vstd::std_specs::ops::MulSpec;
use vstd::std_specs::ops::NegSpec;
use vstd::std_specs::ops::SubSpec;
use crate::array::Array;
use crate::layout::{lemma_volume_sign, representable};
use crate::model::ArrayView;

verus! {

/// `y` is the negation of the copy `c` of `x`.
pub open spec fn negated_via<T: Clone + Neg<Output = T>>(x: T, c: T, y: T) -> bool {
    cloned(x, c) && (T::obeys_neg_spec() ==> y == c.neg_spec())
}

/// `y` is the negation of a copy of `x`.
pub open spec fn negated<T: Clone + Neg<Output = T>>(x: T, y: T) -> bool {
    exists|c: T| #[trigger] negated_via(x, c, y)
}

/// Whether every copy of an entry of `s` can be negated.
pub open spec fn negation_defined<T: Clone + Neg<Output = T>>(s: Seq<T>) -> bool {
    forall|i: int, c: T| 0 <= i < s.len() && #[trigger] cloned(s[i], c) ==> c.neg_req()
}

/// `z` is the sum of the copies `a` of `x` and `b` of `y`.
pub open spec fn added_via<T: Clone + Add<Output = T>>(x: T, y: T, a: T, b: T, z: T) -> bool {
    cloned(x, a) && cloned(y, b) && (T::obeys_add_spec() ==> z == a.add_spec(b))
}

/// `z` is the sum of a copy of `x` and a copy of `y`.
pub open spec fn added<T: Clone + Add<Output = T>>(x: T, y: T, z: T) -> bool {
    exists|a: T, b: T| #[trigger] added_via(x, y, a, b, z)
}

/// Whether, place by place, every copy of an entry of `s` can be added to
/// every copy of the entry of `t`.
pub open spec fn addition_defined<T: Clone + Add<Output = T>>(s: Seq<T>, t: Seq<T>) -> bool {
    forall|k: int, a: T, b: T|
        0 <= k < s.len() && k < t.len() && #[trigger] cloned(s[k], a) && #[trigger] cloned(t[k], b)
            ==> a.add_req(b)
}

/// `z` is the difference of the copies `a` of `x` and `b` of `y`.
pub open spec fn subtracted_via<T: Clone + Sub<Output = T>>(x: T, y: T, a: T, b: T, z: T) -> bool {
    cloned(x, a) && cloned(y, b) && (T::obeys_sub_spec() ==> z == a.sub_spec(b))
}

/// `z` is the difference of a copy of `x` and a copy of `y`.
pub open spec fn subtracted<T: Clone + Sub<Output = T>>(x: T, y: T, z: T) -> bool {
    exists|a: T, b: T| #[trigger] subtracted_via(x, y, a, b, z)
}

/// Whether, place by place, every copy of the entry of `t` can be subtracted
/// from every copy of the entry of `s`.
pub open spec fn subtraction_defined<T: Clone + Sub<Output = T>>(s: Seq<T>, t: Seq<T>) -> bool {
    forall|k: int, a: T, b: T|
        0 <= k < s.len() && k < t.len() && #[trigger] cloned(s[k], a) && #[trigger] cloned(t[k], b)
            ==> a.sub_req(b)
}

/// `z` is the product of the copies `a` of `x` and `b` of `y`.
pub open spec fn multiplied_via<U: Clone, O, T: Clone + Mul<U, Output = O>>(
    x: T,
    y: U,
    a: T,
    b: U,
    z: O,
) -> bool {
    cloned(x, a) && cloned(y, b) && (<T as MulSpec<U>>::obeys_mul_spec() ==> z == a.mul_spec(b))
}

/// `z` is the product of a copy of `x` and a copy of `y`.
pub open spec fn multiplied<U: Clone, O, T: Clone + Mul<U, Output = O>>(x: T, y: U, z: O) -> bool {
    exists|a: T, b: U| #[trigger] multiplied_via(x, y, a, b, z)
}

/// Whether every copy of an entry of `s` can be multiplied by every copy of `y`.
pub open spec fn multiplication_defined<U: Clone, O, T: Clone + Mul<U, Output = O>>(
    s: Seq<T>,
    y: U,
) -> bool {
    forall|i: int, a: T, b: U|
        0 <= i < s.len() && #[trigger] cloned(s[i], a) && #[trigger] cloned(y, b) ==> a.mul_req(b)
}

/// `z` is the quotient of the copies `a` of `x` and `b` of `y`.
pub open spec fn divided_via<U: Clone, O, T: Clone + Div<U, Output = O>>(
    x: T,
    y: U,
    a: T,
    b: U,
    z: O,
) -> bool {
    cloned(x, a) && cloned(y, b) && (<T as DivSpec<U>>::obeys_div_spec() ==> z == a.div_spec(b))
}

/// `z` is the quotient of a copy of `x` and a copy of `y`.
pub open spec fn divided<U: Clone, O, T: Clone + Div<U, Output = O>>(x: T, y: U, z: O) -> bool {
    exists|a: T, b: U| #[trigger] divided_via(x, y, a, b, z)
}

/// Whether every copy of an entry of `s` can be divided by every copy of `y`.
pub open spec fn division_defined<U: Clone, O, T: Clone + Div<U, Output = O>>(
    s: Seq<T>,
    y: U,
) -> bool {
    forall|i: int, a: T, b: U|
        0 <= i < s.len() && #[trigger] cloned(s[i], a) && #[trigger] cloned(y, b) ==> a.div_req(b)
}

impl<'a, T: Clone, const D: usize> Array<'a, T, D> {
    /// Whether the two arrays have the same extent on every axis.
    pub fn same_shape<'b>(&self, rhs: &Array<'b, T, D>) -> (r: bool)
        requires
            self.wf(),
            rhs.wf(),
        ensures
            r == (self@.shape() == rhs@.shape()),
    {
        let mut axis: usize = 0;
        while axis < D
            invariant
                0 <= axis <= D,
                self.wf(),
                rhs.wf(),
                forall|a: int| 0 <= a < axis ==> self@.shape()[a] == rhs@.shape()[a],
            decreases D - axis,
        {
            if self.shape[axis] != rhs.shape[axis] {
                assert(self@.shape()[axis as int] != rhs@.shape()[axis as int]);
                return false;
            }
            axis += 1;
        }
        assert(self@.shape() =~= rhs@.shape());
        true
    }
}

impl<'a, T: Clone + Neg<Output = T>, const D: usize>
    vstd::std_specs::ops::NegSpecImpl for Array<'a, T, D>
{
    /// The result is stated by the operator itself, not by `neg_spec`.
    open spec fn obeys_neg_spec() -> bool {
        false
    }

    /// What the operator asks of its operands.
    open spec fn neg_req(self) -> bool {
        self.wf() && negation_defined(self@.buffer)
    }

    /// Left open: see `obeys_neg_spec`.
    open spec fn neg_spec(self) -> Array<'a, T, D> {
        arbitrary()
    }
}

impl<'a, T: Clone + Neg<Output = T>, const D: usize> Neg for Array<'a, T, D> {
    type Output = Array<'a, T, D>;

    /// The array with every element of its buffer negated; shape, strides and
    /// affine maps stay as they are.
    fn neg(self) -> (r: Array<'a, T, D>)
        ensures
            r.wf(),
            r@ == self@.rebased(r@.buffer),
            r@.buffer.len() == self@.buffer.len(),
            forall|i: int|
                0 <= i < r@.buffer.len() ==> negated(self@.buffer[i], #[trigger] r@.buffer[i]),
    {
        let data = self.data();
        let mut vec: Vec<T> = Vec::new();
        let mut i: usize = 0;
        while i < data.len()
            invariant
                0 <= i <= data@.len(),
                data@ == self@.buffer,
                negation_defined(self@.buffer),
                vec@.len() == i,
                forall|j: int| 0 <= j < i ==> negated(self@.buffer[j], #[trigger] vec@[j]),
            decreases data@.len() - i,
        {
            let c = data[i].clone();
            assert(cloned(self@.buffer[i as int], c));
            let y = c.neg();
            assert(negated_via(self@.buffer[i as int], c, y));
            vec.push(y);
            i += 1;
        }
        let ghost buffer = vec@;
        let r = Array {
            vec: Cow::Owned(vec),
            shape: self.shape,
            strides: self.strides,
            idx_maps: self.idx_maps,
        };
        proof {
            assert(r@.axes =~= self@.axes);
            self@.lemma_rebased(buffer);
        }
        r
    }
}

impl<'a, 'b, T: Clone + Add<Output = T>, const D: usize>
    vstd::std_specs::ops::AddSpecImpl<&Array<'b, T, D>> for &Array<'a, T, D>
{
    /// The result is stated by the operator itself, not by `add_spec`.
    open spec fn obeys_add_spec() -> bool {
        false
    }

    /// What the operator asks of its operands.
    open spec fn add_req(self, rhs: &Array<'b, T, D>) -> bool {
        &&& self.wf()
        &&& rhs.wf()
        &&& self@.shape() == rhs@.shape()
        &&& self@.size() == 0 ==> representable(self@.shape())
        &&& addition_defined(self@.flat(), rhs@.flat())
    }

    /// Left open: see `obeys_add_spec`.
    open spec fn add_spec(self, rhs: &Array<'b, T, D>) -> Array<'a, T, D> {
        arbitrary()
    }
}

impl<'a, 'b, T: Clone + Add<Output = T>, const D: usize>
    Add<&Array<'b, T, D>> for &Array<'a, T, D>
{
    type Output = Array<'a, T, D>;

    /// A new dense array of the sums of the elements that the two arrays show
    /// at the same place. The two must agree in shape. Where they show no
    /// element, the row-major strides of that shape must fit in machine words.
    fn add(self, rhs: &Array<'b, T, D>) -> (r: Array<'a, T, D>)
        ensures
            r.wf(),
            r@ == ArrayView::dense(r@.buffer, self@.shape()),
            r@.flat() == r@.buffer,
            r@.flat().len() == self@.flat().len(),
            forall|k: int|
                0 <= k < r@.flat().len() ==> added(
                    self@.flat()[k],
                    rhs@.flat()[k],
                    #[trigger] r@.flat()[k],
                ),
    {
        let left = self.flat();
        let right = rhs.flat();
        let mut vec: Vec<T> = Vec::new();
        let mut k: usize = 0;
        while k < left.len()
            invariant
                0 <= k <= left@.len(),
                left@.len() == self@.flat().len(),
                right@.len() == rhs@.flat().len(),
                self@.flat().len() == rhs@.flat().len(),
                forall|j: int| 0 <= j < left@.len() ==> *left@[j] == self@.flat()[j],
                forall|j: int| 0 <= j < right@.len() ==> *right@[j] == rhs@.flat()[j],
                addition_defined(self@.flat(), rhs@.flat()),
                vec@.len() == k,
                forall|j: int|
                    0 <= j < k ==> added(self@.flat()[j], rhs@.flat()[j], #[trigger] vec@[j]),
            decreases left@.len() - k,
        {
            let a = left[k].clone();
            let b = right[k].clone();
            assert(cloned(self@.flat()[k as int], a));
            assert(cloned(rhs@.flat()[k as int], b));
            let z = a + b;
            assert(added_via(self@.flat()[k as int], rhs@.flat()[k as int], a, b, z));
            vec.push(z);
            k += 1;
        }
        proof {
            lemma_volume_sign(self@.shape());
            assert(self.shape@ =~= self@.shape());
        }
        Array::init(vec, self.shape)
    }
}

impl<'a, 'b, T: Clone + Add<Output = T>, const D: usize>
    vstd::std_specs::ops::AddSpecImpl<Array<'b, T, D>> for Array<'a, T, D>
{
    /// The result is stated by the operator itself, not by `add_spec`.
    open spec fn obeys_add_spec() -> bool {
        false
    }

    /// What the operator asks of its operands.
    open spec fn add_req(self, rhs: Array<'b, T, D>) -> bool {
        &&& self.wf()
        &&& rhs.wf()
        &&& self@.shape() == rhs@.shape()
        &&& self@.size() == 0 ==> representable(self@.shape())
        &&& addition_defined(self@.flat(), rhs@.flat())
    }

    /// Left open: see `obeys_add_spec`.
    open spec fn add_spec(self, rhs: Array<'b, T, D>) -> Array<'a, T, D> {
        arbitrary()
    }
}

impl<'a, 'b, T: Clone + Add<Output = T>, const D: usize> Add<Array<'b, T, D>> for Array<'a, T, D> {
    type Output = Array<'a, T, D>;

    /// A new dense array of the sums of the elements that the two arrays show
    /// at the same place. The two must agree in shape. Where they show no
    /// element, the row-major strides of that shape must fit in machine words.
    fn add(self, rhs: Array<'b, T, D>) -> (r: Array<'a, T, D>)
        ensures
            r.wf(),
            r@ == ArrayView::dense(r@.buffer, self@.shape()),
            r@.flat() == r@.buffer,
            r@.flat().len() == self@.flat().len(),
            forall|k: int|
                0 <= k < r@.flat().len() ==> added(
                    self@.flat()[k],
                    rhs@.flat()[k],
                    #[trigger] r@.flat()[k],
                ),
    {
        (&self).add(&rhs)
    }
}

impl<'a, 'b, T: Clone + Sub<Output = T>, const D: usize>
    vstd::std_specs::ops::SubSpecImpl<&Array<'b, T, D>> for &Array<'a, T, D>
{
    /// The result is stated by the operator itself, not by `sub_spec`.
    open spec fn obeys_sub_spec() -> bool {
        false
    }

    /// What the operator asks of its operands.
    open spec fn sub_req(self, rhs: &Array<'b, T, D>) -> bool {
        &&& self.wf()
        &&& rhs.wf()
        &&& self@.shape() == rhs@.shape()
        &&& self@.size() == 0 ==> representable(self@.shape())
        &&& subtraction_defined(self@.flat(), rhs@.flat())
    }

    /// Left open: see `obeys_sub_spec`.
    open spec fn sub_spec(self, rhs: &Array<'b, T, D>) -> Array<'a, T, D> {
        arbitrary()
    }
}

impl<'a, 'b, T: Clone + Sub<Output = T>, const D: usize>
    Sub<&Array<'b, T, D>> for &Array<'a, T, D>
{
    type Output = Array<'a, T, D>;

    /// A new dense array of the differences of the elements that the two arrays show
    /// at the same place. The two must agree in shape. Where they show no
    /// element, the row-major strides of that shape must fit in machine words.
    fn sub(self, rhs: &Array<'b, T, D>) -> (r: Array<'a, T, D>)
        ensures
            r.wf(),
            r@ == ArrayView::dense(r@.buffer, self@.shape()),
            r@.flat() == r@.buffer,
            r@.flat().len() == self@.flat().len(),
            forall|k: int|
                0 <= k < r@.flat().len() ==> subtracted(
                    self@.flat()[k],
                    rhs@.flat()[k],
                    #[trigger] r@.flat()[k],
                ),
    {
        let left = self.flat();
        let right = rhs.flat();
        let mut vec: Vec<T> = Vec::new();
        let mut k: usize = 0;
        while k < left.len()
            invariant
                0 <= k <= left@.len(),
                left@.len() == self@.flat().len(),
                right@.len() == rhs@.flat().len(),
                self@.flat().len() == rhs@.flat().len(),
                forall|j: int| 0 <= j < left@.len() ==> *left@[j] == self@.flat()[j],
                forall|j: int| 0 <= j < right@.len() ==> *right@[j] == rhs@.flat()[j],
                subtraction_defined(self@.flat(), rhs@.flat()),
                vec@.len() == k,
                forall|j: int|
                    0 <= j < k ==> subtracted(self@.flat()[j], rhs@.flat()[j], #[trigger] vec@[j]),
            decreases left@.len() - k,
        {
            let a = left[k].clone();
            let b = right[k].clone();
            assert(cloned(self@.flat()[k as int], a));
            assert(cloned(rhs@.flat()[k as int], b));
            let z = a - b;
            assert(subtracted_via(self@.flat()[k as int], rhs@.flat()[k as int], a, b, z));
            vec.push(z);
            k += 1;
        }
        proof {
            lemma_volume_sign(self@.shape());
            assert(self.shape@ =~= self@.shape());
        }
        Array::init(vec, self.shape)
    }
}

impl<'a, 'b, T: Clone + Sub<Output = T>, const D: usize>
    vstd::std_specs::ops::SubSpecImpl<Array<'b, T, D>> for Array<'a, T, D>
{
    /// The result is stated by the operator itself, not by `sub_spec`.
    open spec fn obeys_sub_spec() -> bool {
        false
    }

    /// What the operator asks of its operands.
    open spec fn sub_req(self, rhs: Array<'b, T, D>) -> bool {
        &&& self.wf()
        &&& rhs.wf()
        &&& self@.shape() == rhs@.shape()
        &&& self@.size() == 0 ==> representable(self@.shape())
        &&& subtraction_defined(self@.flat(), rhs@.flat())
    }

    /// Left open: see `obeys_sub_spec`.
    open spec fn sub_spec(self, rhs: Array<'b, T, D>) -> Array<'a, T, D> {
        arbitrary()
    }
}

impl<'a, 'b, T: Clone + Sub<Output = T>, const D: usize> Sub<Array<'b, T, D>> for Array<'a, T, D> {
    type Output = Array<'a, T, D>;

    /// A new dense array of the differences of the elements that the two arrays show
    /// at the same place. The two must agree in shape. Where they show no
    /// element, the row-major strides of that shape must fit in machine words.
    fn sub(self, rhs: Array<'b, T, D>) -> (r: Array<'a, T, D>)
        ensures
            r.wf(),
            r@ == ArrayView::dense(r@.buffer, self@.shape()),
            r@.flat() == r@.buffer,
            r@.flat().len() == self@.flat().len(),
            forall|k: int|
                0 <= k < r@.flat().len() ==> subtracted(
                    self@.flat()[k],
                    rhs@.flat()[k],
                    #[trigger] r@.flat()[k],
                ),
    {
        (&self).sub(&rhs)
    }
}

impl<'a, U: Clone, O: 'a + Clone, T: Clone + Mul<U, Output = O>, const D: usize>
    vstd::std_specs::ops::MulSpecImpl<U> for &Array<'a, T, D>
{
    /// The result is stated by the operator itself, not by `mul_spec`.
    open spec fn obeys_mul_spec() -> bool {
        false
    }

    /// What the operator asks of its operands.
    open spec fn mul_req(self, rhs: U) -> bool {
        self.wf() && multiplication_defined(self@.buffer, rhs)
    }

    /// Left open: see `obeys_mul_spec`.
    open spec fn mul_spec(self, rhs: U) -> Array<'a, O, D> {
        arbitrary()
    }
}

impl<'a, U: Clone, O: 'a + Clone, T: Clone + Mul<U, Output = O>, const D: usize>
    Mul<U> for &Array<'a, T, D>
{
    type Output = Array<'a, O, D>;

    /// A new array over a buffer of the products of every element of the
    /// buffer with `rhs`; shape, strides and affine maps stay as they are.
    fn mul(self, rhs: U) -> (r: Array<'a, O, D>)
        ensures
            r.wf(),
            r@ == self@.rebased(r@.buffer),
            r@.buffer.len() == self@.buffer.len(),
            forall|i: int|
                0 <= i < r@.buffer.len() ==> multiplied(
                    self@.buffer[i],
                    rhs,
                    #[trigger] r@.buffer[i],
                ),
    {
        let data = self.data();
        let mut vec: Vec<O> = Vec::new();
        let mut i: usize = 0;
        while i < data.len()
            invariant
                0 <= i <= data@.len(),
                data@ == self@.buffer,
                multiplication_defined(self@.buffer, rhs),
                vec@.len() == i,
                forall|j: int|
                    0 <= j < i ==> multiplied(self@.buffer[j], rhs, #[trigger] vec@[j]),
            decreases data@.len() - i,
        {
            let a = data[i].clone();
            let b = rhs.clone();
            assert(cloned(self@.buffer[i as int], a));
            assert(cloned(rhs, b));
            let z = a * b;
            assert(multiplied_via(self@.buffer[i as int], rhs, a, b, z));
            vec.push(z);
            i += 1;
        }
        let ghost buffer = vec@;
        let r = Array {
            vec: Cow::Owned(vec),
            shape: self.shape,
            strides: self.strides,
            idx_maps: self.idx_maps,
        };
        proof {
            assert(r@.axes =~= self@.axes);
            self@.lemma_rebased(buffer);
        }
        r
    }
}

impl<'a, U: Clone, O: 'a + Clone, T: Clone + Mul<U, Output = O>, const D: usize>
    vstd::std_specs::ops::MulSpecImpl<U> for Array<'a, T, D>
{
    /// The result is stated by the operator itself, not by `mul_spec`.
    open spec fn obeys_mul_spec() -> bool {
        false
    }

    /// What the operator asks of its operands.
    open spec fn mul_req(self, rhs: U) -> bool {
        self.wf() && multiplication_defined(self@.buffer, rhs)
    }

    /// Left open: see `obeys_mul_spec`.
    open spec fn mul_spec(self, rhs: U) -> Array<'a, O, D> {
        arbitrary()
    }
}

impl<'a, U: Clone, O: 'a + Clone, T: Clone + Mul<U, Output = O>, const D: usize>
    Mul<U> for Array<'a, T, D>
{
    type Output = Array<'a, O, D>;

    /// A new array over a buffer of the products of every element of the
    /// buffer with `rhs`; shape, strides and affine maps stay as they are.
    fn mul(self, rhs: U) -> (r: Array<'a, O, D>)
        ensures
            r.wf(),
            r@ == self@.rebased(r@.buffer),
            r@.buffer.len() == self@.buffer.len(),
            forall|i: int|
                0 <= i < r@.buffer.len() ==> multiplied(
                    self@.buffer[i],
                    rhs,
                    #[trigger] r@.buffer[i],
                ),
    {
        (&self).mul(rhs)
    }
}

impl<'a, U: Clone, O: 'a + Clone, T: Clone + Div<U, Output = O>, const D: usize>
    vstd::std_specs::ops::DivSpecImpl<U> for &Array<'a, T, D>
{
    /// The result is stated by the operator itself, not by `div_spec`.
    open spec fn obeys_div_spec() -> bool {
        false
    }

    /// What the operator asks of its operands.
    open spec fn div_req(self, rhs: U) -> bool {
        self.wf() && division_defined(self@.buffer, rhs)
    }

    /// Left open: see `obeys_div_spec`.
    open spec fn div_spec(self, rhs: U) -> Array<'a, O, D> {
        arbitrary()
    }
}

impl<'a, U: Clone, O: 'a + Clone, T: Clone + Div<U, Output = O>, const D: usize>
    Div<U> for &Array<'a, T, D>
{
    type Output = Array<'a, O, D>;

    /// A new array over a buffer of the quotients of every element of the
    /// buffer by `rhs`; shape, strides and affine maps stay as they are.
    fn div(self, rhs: U) -> (r: Array<'a, O, D>)
        ensures
            r.wf(),
            r@ == self@.rebased(r@.buffer),
            r@.buffer.len() == self@.buffer.len(),
            forall|i: int|
                0 <= i < r@.buffer.len() ==> divided(
                    self@.buffer[i],
                    rhs,
                    #[trigger] r@.buffer[i],
                ),
    {
        let data = self.data();
        let mut vec: Vec<O> = Vec::new();
        let mut i: usize = 0;
        while i < data.len()
            invariant
                0 <= i <= data@.len(),
                data@ == self@.buffer,
                division_defined(self@.buffer, rhs),
                vec@.len() == i,
                forall|j: int|
                    0 <= j < i ==> divided(self@.buffer[j], rhs, #[trigger] vec@[j]),
            decreases data@.len() - i,
        {
            let a = data[i].clone();
            let b = rhs.clone();
            assert(cloned(self@.buffer[i as int], a));
            assert(cloned(rhs, b));
            let z = a / b;
            assert(divided_via(self@.buffer[i as int], rhs, a, b, z));
            vec.push(z);
            i += 1;
        }
        let ghost buffer = vec@;
        let r = Array {
            vec: Cow::Owned(vec),
            shape: self.shape,
            strides: self.strides,
            idx_maps: self.idx_maps,
        };
        proof {
            assert(r@.axes =~= self@.axes);
            self@.lemma_rebased(buffer);
        }
        r
    }
}

impl<'a, U: Clone, O: 'a + Clone, T: Clone + Div<U, Output = O>, const D: usize>
    vstd::std_specs::ops::DivSpecImpl<U> for Array<'a, T, D>
{
    /// The result is stated by the operator itself, not by `div_spec`.
    open spec fn obeys_div_spec() -> bool {
        false
    }

    /// What the operator asks of its operands.
    open spec fn div_req(self, rhs: U) -> bool {
        self.wf() && division_defined(self@.buffer, rhs)
    }

    /// Left open: see `obeys_div_spec`.
    open spec fn div_spec(self, rhs: U) -> Array<'a, O, D> {
        arbitrary()
    }
}

impl<'a, U: Clone, O: 'a + Clone, T: Clone + Div<U, Output = O>, const D: usize>
    Div<U> for Array<'a, T, D>
{
    type Output = Array<'a, O, D>;

    /// A new array over a buffer of the quotients of every element of the
    /// buffer by `rhs`; shape, strides and affine maps stay as they are.
    fn div(self, rhs: U) -> (r: Array<'a, O, D>)
        ensures
            r.wf(),
            r@ == self@.rebased(r@.buffer),
            r@.buffer.len() == self@.buffer.len(),
            forall|i: int|
                0 <= i < r@.buffer.len() ==> divided(
                    self@.buffer[i],
                    rhs,
                    #[trigger] r@.buffer[i],
                ),
    {
        (&self).div(rhs)
    }
}

} // verus!
