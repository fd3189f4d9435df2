//! The element types that the numeric reductions and the constructors of
//! constant arrays work on.

use vstd::prelude::*;

verus! {

/// An element type with a zero, a one and a conversion from element counts.
pub trait Scalar: Copy {
    /// The additive identity.
    spec fn zero_value() -> Self;

    /// The multiplicative identity.
    spec fn one_value() -> Self;

    /// The count `n` as a value of the type, where the type can hold it.
    spec fn count_value(n: usize) -> Option<Self>;

    /// The additive identity.
    fn zero() -> (r: Self)
        ensures
            r == Self::zero_value(),
    ;

    /// The multiplicative identity.
    fn one() -> (r: Self)
        ensures
            r == Self::one_value(),
    ;

    /// The count `n` as a value of the type, or `None` where the type cannot
    /// hold it.
    fn from_usize(n: usize) -> (r: Option<Self>)
        ensures
            r == Self::count_value(n),
    ;
}

/// `<i32 as num_traits::Zero>::zero`, which returns the literal 0.
#[verifier::external_body]
fn zero_i32() -> (r: i32)
    ensures
        r == 0,
{
    <i32 as num_traits::Zero>::zero()
}

/// `<i32 as num_traits::One>::one`, which returns the literal 1.
#[verifier::external_body]
fn one_i32() -> (r: i32)
    ensures
        r == 1,
{
    <i32 as num_traits::One>::one()
}

/// `<i32 as num_traits::FromPrimitive>::from_usize`, which casts `n` where it
/// is at most `i32::MAX` and returns `None` otherwise.
#[verifier::external_body]
fn count_i32(n: usize) -> (r: Option<i32>)
    ensures
        n <= i32::MAX ==> r == Some(n as i32),
        n > i32::MAX ==> r is None,
{
    <i32 as num_traits::FromPrimitive>::from_usize(n)
}

impl Scalar for i32 {
    open spec fn zero_value() -> i32 {
        0
    }

    open spec fn one_value() -> i32 {
        1
    }

    open spec fn count_value(n: usize) -> Option<i32> {
        if n <= i32::MAX {
            Some(n as i32)
        } else {
            None
        }
    }

    fn zero() -> (r: i32) {
        zero_i32()
    }

    fn one() -> (r: i32) {
        one_i32()
    }

    fn from_usize(n: usize) -> (r: Option<i32>) {
        count_i32(n)
    }
}

/// `<i64 as num_traits::Zero>::zero`, which returns the literal 0.
#[verifier::external_body]
fn zero_i64() -> (r: i64)
    ensures
        r == 0,
{
    <i64 as num_traits::Zero>::zero()
}

/// `<i64 as num_traits::One>::one`, which returns the literal 1.
#[verifier::external_body]
fn one_i64() -> (r: i64)
    ensures
        r == 1,
{
    <i64 as num_traits::One>::one()
}

/// `<i64 as num_traits::FromPrimitive>::from_usize`, which casts `n` where it
/// is at most `i64::MAX` and returns `None` otherwise.
#[verifier::external_body]
fn count_i64(n: usize) -> (r: Option<i64>)
    ensures
        n <= i64::MAX ==> r == Some(n as i64),
        n > i64::MAX ==> r is None,
{
    <i64 as num_traits::FromPrimitive>::from_usize(n)
}

impl Scalar for i64 {
    open spec fn zero_value() -> i64 {
        0
    }

    open spec fn one_value() -> i64 {
        1
    }

    open spec fn count_value(n: usize) -> Option<i64> {
        if n <= i64::MAX {
            Some(n as i64)
        } else {
            None
        }
    }

    fn zero() -> (r: i64) {
        zero_i64()
    }

    fn one() -> (r: i64) {
        one_i64()
    }

    fn from_usize(n: usize) -> (r: Option<i64>) {
        count_i64(n)
    }
}

/// `<u64 as num_traits::Zero>::zero`, which returns the literal 0.
#[verifier::external_body]
fn zero_u64() -> (r: u64)
    ensures
        r == 0,
{
    <u64 as num_traits::Zero>::zero()
}

/// `<u64 as num_traits::One>::one`, which returns the literal 1.
#[verifier::external_body]
fn one_u64() -> (r: u64)
    ensures
        r == 1,
{
    <u64 as num_traits::One>::one()
}

/// `<u64 as num_traits::FromPrimitive>::from_usize`, which casts `n`: a
/// `usize` is never wider than a `u64`.
#[verifier::external_body]
fn count_u64(n: usize) -> (r: Option<u64>)
    ensures
        r == Some(n as u64),
{
    <u64 as num_traits::FromPrimitive>::from_usize(n)
}

impl Scalar for u64 {
    open spec fn zero_value() -> u64 {
        0
    }

    open spec fn one_value() -> u64 {
        1
    }

    open spec fn count_value(n: usize) -> Option<u64> {
        Some(n as u64)
    }

    fn zero() -> (r: u64) {
        zero_u64()
    }

    fn one() -> (r: u64) {
        one_u64()
    }

    fn from_usize(n: usize) -> (r: Option<u64>) {
        count_u64(n)
    }
}

/// `<usize as num_traits::Zero>::zero`, which returns the literal 0.
#[verifier::external_body]
fn zero_usize() -> (r: usize)
    ensures
        r == 0,
{
    <usize as num_traits::Zero>::zero()
}

/// `<usize as num_traits::One>::one`, which returns the literal 1.
#[verifier::external_body]
fn one_usize() -> (r: usize)
    ensures
        r == 1,
{
    <usize as num_traits::One>::one()
}

/// `<usize as num_traits::FromPrimitive>::from_usize`, which returns `n` itself.
#[verifier::external_body]
fn count_usize(n: usize) -> (r: Option<usize>)
    ensures
        r == Some(n),
{
    <usize as num_traits::FromPrimitive>::from_usize(n)
}

impl Scalar for usize {
    open spec fn zero_value() -> usize {
        0
    }

    open spec fn one_value() -> usize {
        1
    }

    open spec fn count_value(n: usize) -> Option<usize> {
        Some(n)
    }

    fn zero() -> (r: usize) {
        zero_usize()
    }

    fn one() -> (r: usize) {
        one_usize()
    }

    fn from_usize(n: usize) -> (r: Option<usize>) {
        count_usize(n)
    }
}

} // verus!
