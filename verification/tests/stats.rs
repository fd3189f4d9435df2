use ndarray::{Array, Scalar};
use std::ops::{Add, Div, Mul, Sub};

/// A floating value as an element type.
#[derive(Debug, Clone, Copy, PartialEq)]
struct Real(f64);

impl Add for Real {
    type Output = Real;

    fn add(self, rhs: Real) -> Real {
        Real(self.0 + rhs.0)
    }
}

impl Sub for Real {
    type Output = Real;

    fn sub(self, rhs: Real) -> Real {
        Real(self.0 - rhs.0)
    }
}

impl Mul for Real {
    type Output = Real;

    fn mul(self, rhs: Real) -> Real {
        Real(self.0 * rhs.0)
    }
}

impl Div for Real {
    type Output = Real;

    fn div(self, rhs: Real) -> Real {
        Real(self.0 / rhs.0)
    }
}

impl Scalar for Real {
    fn zero_value() -> Real {
        Real(0.0)
    }

    fn one_value() -> Real {
        Real(1.0)
    }

    fn count_value(n: usize) -> Option<Real> {
        Some(Real(n as f64))
    }

    fn zero() -> Real {
        Real(0.0)
    }

    fn one() -> Real {
        Real(1.0)
    }

    fn from_usize(n: usize) -> Option<Real> {
        Some(Real(n as f64))
    }
}

#[test]
fn var() {
    // 1 2
    // 3 4
    let array = Array::init(vec![Real(1.0), Real(2.0), Real(3.0), Real(4.0)], [2, 2]);

    assert_eq!(array.var(), Real(1.25));
}

#[test]
fn var_across() {
    // 1 2
    // 3 4
    let array = Array::init(vec![Real(1.0), Real(2.0), Real(3.0), Real(4.0)], [2, 2]);

    assert_eq!(array.var_across(0), vec![Real(0.25), Real(0.25)]);
    assert_eq!(array.var_across(1), vec![Real(1.0), Real(1.0)]);
}

#[test]
fn mean_and_variance_of_floating_values() {
    let array = Array::init(vec![Real(1.0), Real(2.0), Real(3.0), Real(4.0)], [2, 2]);

    assert_eq!(array.mean(), Real(2.5));
    assert_eq!(array.var(), Real(1.25));
    assert_eq!(array.sum(), Real(10.0));
    assert_eq!(array.prod(), Real(24.0));
}

#[test]
fn variance_of_integers_divides_as_integers_do() {
    // mean 10 / 4 = 2; squares 1 + 0 + 1 + 4 = 6; 6 / 4 = 1
    let array = Array::init(vec![1i64, 2, 3, 4], [4]);

    assert_eq!(array.mean(), 2);
    assert_eq!(array.var(), 1);
}

#[test]
fn sum_and_product_of_no_elements_are_the_identities() {
    let empty = Array::<i32, 2>::init(vec![], [0, 3]);

    assert_eq!(empty.sum(), 0);
    assert_eq!(empty.prod(), 1);
}

#[test]
fn reductions_follow_the_view() {
    // 1 2 3
    // 4 5 6
    let array = Array::init(vec![1u64, 2, 3, 4, 5, 6], [2, 3]);
    let right = array.slice(&[0..2, 1..3]);

    // 2 3
    // 5 6
    assert_eq!(right.sum(), 16);
    assert_eq!(right.prod(), 180);
    assert_eq!(right.mean(), 4);
    assert_eq!(right.sum_across(0), vec![5, 11]);
    assert_eq!(right.sum_across(1), vec![7, 9]);
}

#[test]
fn identities_of_the_integer_types() {
    assert_eq!(<i32 as Scalar>::zero(), 0);
    assert_eq!(<i32 as Scalar>::one(), 1);
    assert_eq!(<i64 as Scalar>::zero(), 0);
    assert_eq!(<i64 as Scalar>::one(), 1);
    assert_eq!(<u64 as Scalar>::zero(), 0);
    assert_eq!(<u64 as Scalar>::one(), 1);
    assert_eq!(<usize as Scalar>::zero(), 0);
    assert_eq!(<usize as Scalar>::one(), 1);
}

#[test]
fn counts_as_values_of_the_integer_types() {
    assert_eq!(<i32 as Scalar>::from_usize(7), Some(7));
    assert_eq!(<i32 as Scalar>::from_usize(i32::MAX as usize), Some(i32::MAX));
    assert_eq!(<i32 as Scalar>::from_usize(i32::MAX as usize + 1), None);
    assert_eq!(<i64 as Scalar>::from_usize(7), Some(7));
    assert_eq!(<i64 as Scalar>::from_usize(usize::MAX), None);
    assert_eq!(<u64 as Scalar>::from_usize(usize::MAX), Some(usize::MAX as u64));
    assert_eq!(<usize as Scalar>::from_usize(usize::MAX), Some(usize::MAX));
}

#[test]
fn the_mean_divides_by_the_number_of_elements() {
    let words = Array::init(vec![2usize, 4, 6, 8, 10], [5]);
    let wide = Array::init(vec![-3i64, 3, 9], [3, 1]);
    let small = Array::init(vec![7i32, 8], [1, 2]);

    assert_eq!(words.mean(), 6);
    assert_eq!(wide.mean(), 3);
    assert_eq!(small.mean(), 7);
    assert_eq!(words.mean_across(0), vec![2, 4, 6, 8, 10]);
    assert_eq!(wide.var_across(1), vec![24]);
}
