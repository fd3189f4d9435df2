//! An N-dimensional array whose transposes, flips, axis swaps and slices are
//! views over one shared buffer.
//!
//! An [`Array`] holds a flat buffer, a shape, the strides of the buffer and
//! one affine map per axis. A structural transform never touches the buffer:
//! it rearranges shape, strides and maps, and hands out a new array that
//! borrows the elements. Walking an array, reducing it and combining two
//! arrays all go through the view, so they see what the view shows, in
//! row-major order.
//!
//! Every array has a mathematical model, an [`model::ArrayView`], and every
//! operation says what it does in terms of that model:
//!
//! - `layout` and `series` hold the arithmetic of shapes and row-major order;
//! - `model` defines the views and `laws` proves what the transforms do to
//!   them;
//! - `array`, `access`, `transformation`, `iter` and `create` build, read and
//!   rearrange arrays;
//! - `calc` and `order` hold the reductions by order, `stats` and `scalar`
//!   the numeric ones, `ops` the arithmetic on whole arrays;
//! - `util` brings range notations into the form that slicing takes, and
//!   `matrix` is a small matrix of fixed size.
//!
//! No operation panics. Where one cannot be carried out on an input (a buffer
//! that does not match its shape, an axis that the array does not have, a
//! range beyond its axis, operands of different shape), its precondition
//! leaves that input out. [`checked_volume`] and [`Array::same_shape`] let a
//! caller find out at run time whether a shape or a pair of operands is
//! admitted.

pub mod access;
pub mod array;
mod arrays;
pub mod calc;
pub mod create;
pub mod iter;
pub mod laws;
pub mod layout;
pub mod matrix;
pub mod model;
pub mod ops;
pub mod order;
pub mod scalar;
pub mod series;
pub mod stats;
pub mod transformation;
pub mod util;

pub use array::Array;
pub use iter::{Axes, Iter};
pub use matrix::Matrix;
pub use scalar::Scalar;
pub use layout::checked_volume;
pub use util::{bounded_range_of, range_between, range_of_edges, Edge};
