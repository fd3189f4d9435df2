//! Row-major arithmetic on shapes: how many index tuples a shape admits, where
//! each of them stands in row-major order, and the strides of a dense buffer.

use vstd::arithmetic::div_mod::{
    lemma_div_pos_is_pos, lemma_fundamental_div_mod, lemma_fundamental_div_mod_converse,
    lemma_mod_bound, lemma_multiply_divide_lt,
};
use vstd::arithmetic::mul::lemma_mul_is_commutative;
use vstd::prelude::*;
use crate::series::{
    lemma_product_monotonic, lemma_product_pick, lemma_product_single, lemma_product_split,
    product, sum,
};

verus! {

/// The extents of a shape as mathematical integers.
pub open spec fn extents(shape: Seq<usize>) -> Seq<int> {
    Seq::new(shape.len(), |a: int| shape[a] as int)
}

/// The number of index tuples of a shape: the product of its extents.
pub open spec fn volume(shape: Seq<usize>) -> int {
    product(extents(shape))
}

/// The row-major stride of `axis`: the product of the extents behind it.
pub open spec fn dense_stride(shape: Seq<usize>, axis: int) -> int {
    product(extents(shape).skip(axis + 1))
}

/// Whether the element count and every row-major stride of a shape fit in a
/// machine word.
pub open spec fn representable(shape: Seq<usize>) -> bool {
    &&& volume(shape) <= usize::MAX
    &&& forall|a: int| 0 <= a < shape.len() ==> #[trigger] dense_stride(shape, a) <= usize::MAX
}

/// Per axis, the coordinate of `idx` times the row-major stride of the axis:
/// the terms whose sum is the offset of `idx` in a dense row-major buffer.
pub open spec fn dense_terms(shape: Seq<usize>, idx: Seq<usize>) -> Seq<int> {
    Seq::new(shape.len(), |a: int| idx[a] * dense_stride(shape, a))
}

/// Whether `idx` names an element of an array of this shape.
pub open spec fn in_bounds(shape: Seq<usize>, idx: Seq<usize>) -> bool {
    &&& idx.len() == shape.len()
    &&& forall|a: int| 0 <= a < shape.len() ==> idx[a] < shape[a]
}

/// The place of `idx` in row-major order, the last axis varying fastest.
pub open spec fn rank(shape: Seq<usize>, idx: Seq<usize>) -> int
    decreases shape.len(),
{
    if shape.len() == 0 {
        0
    } else {
        rank(shape.drop_last(), idx.drop_last()) * shape.last() + idx.last()
    }
}

/// The index tuple that stands at place `k` in row-major order.
pub open spec fn unrank(shape: Seq<usize>, k: int) -> Seq<usize>
    decreases shape.len(),
{
    if shape.len() == 0 {
        Seq::empty()
    } else {
        unrank(shape.drop_last(), k / (shape.last() as int)).push(
            (k % (shape.last() as int)) as usize,
        )
    }
}

/// The index tuple of all zeros.
pub open spec fn origin(dims: nat) -> Seq<usize> {
    Seq::new(dims, |a: int| 0usize)
}

/// Entries that are at least one give a product that is at least one.
proof fn lemma_product_at_least_one(s: Seq<int>)
    requires
        forall|i: int| 0 <= i < s.len() ==> s[i] >= 1,
    ensures
        product(s) >= 1,
    decreases s.len(),
{
    if s.len() > 0 {
        lemma_product_at_least_one(s.drop_last());
        lemma_mul_lower_bound(product(s.drop_last()), s.last());
    }
}

/// Two factors that are at least one give a product that is at least one.
proof fn lemma_mul_lower_bound(x: int, y: int)
    by (nonlinear_arith)
    requires
        x >= 1,
        y >= 1,
    ensures
        x * y >= 1,
{
}

/// The volume of a shape, from that of the shape without its last axis.
pub proof fn lemma_volume_step(shape: Seq<usize>)
    ensures
        shape.len() == 0 ==> volume(shape) == 1,
        shape.len() > 0 ==> volume(shape) == volume(shape.drop_last()) * shape.last(),
{
    if shape.len() > 0 {
        assert(extents(shape).drop_last() =~= extents(shape.drop_last()));
    }
}

/// The volume is never negative, and is zero just when some axis is empty.
pub proof fn lemma_volume_sign(shape: Seq<usize>)
    ensures
        0 <= volume(shape),
        volume(shape) > 0 <==> (forall|a: int| 0 <= a < shape.len() ==> shape[a] > 0),
    decreases shape.len(),
{
    if shape.len() > 0 {
        let front = shape.drop_last();
        lemma_volume_sign(front);
        lemma_volume_step(shape);
        lemma_mul_sign(volume(front), shape.last() as int);
        if volume(shape) > 0 {
            assert forall|a: int| 0 <= a < shape.len() implies shape[a] > 0 by {
                if a < shape.len() - 1 {
                    assert(front[a] > 0);
                }
            }
        }
        if forall|a: int| 0 <= a < shape.len() ==> shape[a] > 0 {
            assert forall|a: int| 0 <= a < front.len() implies front[a] > 0 by {
                assert(shape[a] > 0);
            }
        }
    }
}

/// A product of non-negative factors is positive just when both are.
proof fn lemma_mul_sign(x: int, y: int)
    by (nonlinear_arith)
    requires
        x >= 0,
        y >= 0,
    ensures
        x * y >= 0,
        x * y > 0 <==> (x > 0 && y > 0),
{
}

/// The volume of a shape whose extents are no larger is no larger.
pub proof fn lemma_volume_monotonic(small: Seq<usize>, large: Seq<usize>)
    requires
        small.len() == large.len(),
        forall|a: int| 0 <= a < small.len() ==> small[a] <= large[a],
    ensures
        volume(small) <= volume(large),
{
    lemma_product_monotonic(extents(small), extents(large));
}

/// The product of the extents from `axis` on is the extent of `axis` times its stride.
pub proof fn lemma_dense_stride_step(shape: Seq<usize>, axis: int)
    requires
        0 <= axis < shape.len(),
    ensures
        product(extents(shape).skip(axis)) == shape[axis] * dense_stride(shape, axis),
        axis == shape.len() - 1 ==> dense_stride(shape, axis) == 1,
        axis > 0 ==> dense_stride(shape, axis - 1) == shape[axis] * dense_stride(shape, axis),
{
    let tail = extents(shape).skip(axis);
    lemma_product_pick(tail, 0);
    assert(tail.take(0) =~= Seq::<int>::empty());
    assert(tail.skip(1) =~= extents(shape).skip(axis + 1));
    assert(product(tail.take(0)) == 1);
    assert(1 * (shape[axis] as int) == shape[axis]);
    if axis == shape.len() - 1 {
        assert(extents(shape).skip(axis + 1) =~= Seq::<int>::empty());
    }
}

/// In a shape without an empty axis, no leading and no trailing product of
/// the extents exceeds the volume.
pub proof fn lemma_within_volume(shape: Seq<usize>, axis: int)
    requires
        volume(shape) > 0,
        0 <= axis <= shape.len(),
    ensures
        1 <= product(extents(shape).take(axis)) <= volume(shape),
        1 <= product(extents(shape).skip(axis)) <= volume(shape),
{
    let e = extents(shape);
    lemma_volume_sign(shape);
    assert forall|i: int| 0 <= i < e.len() implies e[i] >= 1 by {
        assert(shape[i] > 0);
    }
    lemma_product_at_least_one(e.take(axis));
    lemma_product_at_least_one(e.skip(axis));
    lemma_product_split(e, axis);
    lemma_mul_grows(product(e.take(axis)), product(e.skip(axis)));
}

/// Among factors that are at least one, the product is no less than either.
proof fn lemma_mul_grows(x: int, y: int)
    by (nonlinear_arith)
    requires
        x >= 1,
        y >= 1,
    ensures
        x * y >= x,
        x * y >= y,
{
}

/// The product of the extents from `axis` on is the volume for the first
/// axis and the stride of the axis before for every other, so it fits in a
/// machine word where the shape is representable.
pub proof fn lemma_representable_suffix(shape: Seq<usize>, axis: int)
    requires
        representable(shape),
        0 <= axis <= shape.len(),
    ensures
        0 <= product(extents(shape).skip(axis)) <= usize::MAX,
{
    let e = extents(shape);
    lemma_product_monotonic(e.skip(axis), e.skip(axis));
    if axis == 0 {
        assert(e.skip(0) =~= e);
    } else {
        assert(dense_stride(shape, axis - 1) <= usize::MAX);
    }
}

/// A shape without an empty axis whose volume fits in a machine word is
/// representable.
pub proof fn lemma_nonempty_representable(shape: Seq<usize>)
    requires
        0 < volume(shape) <= usize::MAX,
    ensures
        representable(shape),
{
    assert forall|a: int| 0 <= a < shape.len() implies #[trigger] dense_stride(shape, a)
        <= usize::MAX by {
        lemma_within_volume(shape, a + 1);
    }
}

/// A valid index tuple stands at a place below the volume.
pub proof fn lemma_rank_bounds(shape: Seq<usize>, idx: Seq<usize>)
    requires
        in_bounds(shape, idx),
    ensures
        0 <= rank(shape, idx) < volume(shape),
    decreases shape.len(),
{
    if shape.len() > 0 {
        let front = shape.drop_last();
        lemma_volume_step(shape);
        lemma_rank_bounds(front, idx.drop_last());
        lemma_digit_bound(
            rank(front, idx.drop_last()),
            volume(front),
            idx.last() as int,
            shape.last() as int,
        );
    }
}

/// A rank extended by one digit stays below the volume extended by one axis.
proof fn lemma_digit_bound(r: int, v: int, i: int, s: int)
    by (nonlinear_arith)
    requires
        0 <= r < v,
        0 <= i < s,
    ensures
        0 <= r * s + i < v * s,
{
}

/// Every place below the volume is taken by a valid index tuple.
pub proof fn lemma_unrank(shape: Seq<usize>, k: int)
    requires
        0 <= k < volume(shape),
    ensures
        in_bounds(shape, unrank(shape, k)),
        rank(shape, unrank(shape, k)) == k,
    decreases shape.len(),
{
    if shape.len() > 0 {
        let front = shape.drop_last();
        let s = shape.last() as int;
        lemma_volume_step(shape);
        lemma_volume_sign(front);
        lemma_mul_sign(volume(front), s);
        lemma_fundamental_div_mod(k, s);
        lemma_mod_bound(k, s);
        lemma_div_pos_is_pos(k, s);
        lemma_mul_is_commutative(s, volume(front));
        lemma_multiply_divide_lt(k, s, volume(front));
        lemma_unrank(front, k / s);
        let u = unrank(shape, k);
        assert(u.drop_last() =~= unrank(front, k / s));
        lemma_mul_is_commutative(s, k / s);
    }
}

/// An index tuple is the one that stands at its own place.
pub proof fn lemma_unrank_rank(shape: Seq<usize>, idx: Seq<usize>)
    requires
        in_bounds(shape, idx),
    ensures
        unrank(shape, rank(shape, idx)) == idx,
    decreases shape.len(),
{
    if shape.len() > 0 {
        let front = shape.drop_last();
        let s = shape.last() as int;
        let q = rank(front, idx.drop_last());
        lemma_unrank_rank(front, idx.drop_last());
        lemma_fundamental_div_mod_converse(rank(shape, idx), s, q, idx.last() as int);
        assert(unrank(shape, rank(shape, idx)) =~= idx);
    } else {
        assert(unrank(shape, rank(shape, idx)) =~= idx);
    }
}

/// The index tuple of all zeros stands first.
pub proof fn lemma_rank_origin(shape: Seq<usize>)
    ensures
        rank(shape, origin(shape.len())) == 0,
    decreases shape.len(),
{
    if shape.len() > 0 {
        assert(origin(shape.len()).drop_last() =~= origin(shape.drop_last().len()));
        lemma_rank_origin(shape.drop_last());
    }
}

/// Counting one up at `axis`, where every axis behind it stood at its last
/// value and goes back to zero, moves one place on in row-major order.
pub proof fn lemma_rank_step(shape: Seq<usize>, idx: Seq<usize>, next: Seq<usize>, axis: int)
    requires
        in_bounds(shape, idx),
        next.len() == shape.len(),
        0 <= axis < shape.len(),
        idx[axis] + 1 < shape[axis],
        next[axis] == idx[axis] + 1,
        forall|a: int| 0 <= a < axis ==> next[a] == idx[a],
        forall|a: int| axis < a < shape.len() ==> idx[a] + 1 == shape[a] && next[a] == 0,
    ensures
        in_bounds(shape, next),
        rank(shape, next) == rank(shape, idx) + 1,
    decreases shape.len(),
{
    let front = shape.drop_last();
    if axis == shape.len() - 1 {
        assert(next.drop_last() =~= idx.drop_last());
    } else {
        lemma_rank_step(front, idx.drop_last(), next.drop_last(), axis);
        lemma_carry(rank(front, idx.drop_last()), shape.last() as int);
    }
}

/// A carry into the next digit moves the rank on by one.
proof fn lemma_carry(r: int, s: int)
    by (nonlinear_arith)
    ensures
        (r + 1) * s + 0 == r * s + (s - 1) + 1,
{
}

/// The index tuple whose every axis stands at its last value stands last.
pub proof fn lemma_rank_last(shape: Seq<usize>, idx: Seq<usize>)
    requires
        in_bounds(shape, idx),
        forall|a: int| 0 <= a < shape.len() ==> idx[a] + 1 == shape[a],
    ensures
        rank(shape, idx) == volume(shape) - 1,
    decreases shape.len(),
{
    if shape.len() > 0 {
        let front = shape.drop_last();
        lemma_volume_step(shape);
        lemma_rank_last(front, idx.drop_last());
        lemma_carry(rank(front, idx.drop_last()), shape.last() as int);
    }
}

/// A shape of one axis has the extent of that axis as its volume, and can
/// always be held in machine words.
pub proof fn lemma_single_axis(shape: Seq<usize>)
    requires
        shape.len() == 1,
    ensures
        volume(shape) == shape[0],
        representable(shape),
{
    assert(extents(shape) =~= seq![shape[0] as int]);
    lemma_product_single(shape[0] as int);
    lemma_dense_stride_step(shape, 0);
}

/// The first `n` terms of a dense offset add up to the place of the first
/// `n` coordinates among themselves, times the product of the extents behind.
proof fn lemma_dense_prefix(shape: Seq<usize>, idx: Seq<usize>, n: int)
    requires
        idx.len() == shape.len(),
        0 <= n <= shape.len(),
    ensures
        sum(dense_terms(shape, idx).take(n)) == rank(shape.take(n), idx.take(n)) * product(
            extents(shape).skip(n),
        ),
    decreases n,
{
    let terms = dense_terms(shape, idx);
    if n == 0 {
        assert(terms.take(0) =~= Seq::<int>::empty());
        assert(shape.take(0) =~= Seq::<usize>::empty());
    } else {
        lemma_dense_prefix(shape, idx, n - 1);
        assert(terms.take(n).drop_last() =~= terms.take(n - 1));
        assert(shape.take(n).drop_last() =~= shape.take(n - 1));
        assert(idx.take(n).drop_last() =~= idx.take(n - 1));
        lemma_dense_stride_step(shape, n - 1);
        lemma_horner(
            rank(shape.take(n - 1), idx.take(n - 1)),
            shape[n - 1] as int,
            idx[n - 1] as int,
            dense_stride(shape, n - 1),
        );
    }
}

/// The step by which a leading sum of dense terms takes in one more axis.
proof fn lemma_horner(r: int, s: int, i: int, p: int)
    by (nonlinear_arith)
    ensures
        r * (s * p) + i * p == (r * s + i) * p,
{
}

/// In a dense row-major buffer the offset of an index tuple is its place in
/// row-major order.
pub proof fn lemma_dense_offset(shape: Seq<usize>, idx: Seq<usize>)
    requires
        idx.len() == shape.len(),
    ensures
        sum(dense_terms(shape, idx)) == rank(shape, idx),
{
    let n = shape.len() as int;
    lemma_dense_prefix(shape, idx, n);
    assert(dense_terms(shape, idx).take(n) =~= dense_terms(shape, idx));
    assert(shape.take(n) =~= shape);
    assert(idx.take(n) =~= idx);
    assert(extents(shape).skip(n) =~= Seq::<int>::empty());
}

/// The volume of a shape, where the shape is representable.
pub fn checked_volume<const D: usize>(shape: &[usize; D]) -> (r: Option<usize>)
    ensures
        r is Some <==> representable(shape@),
        r matches Some(v) ==> v == volume(shape@),
{
    let mut acc: usize = 1;
    let mut a: usize = D;
    proof {
        assert(extents(shape@).skip(D as int) =~= Seq::<int>::empty());
    }
    while a > 0
        invariant
            0 <= a <= D,
            acc == product(extents(shape@).skip(a as int)),
            forall|j: int| a <= j < D ==> #[trigger] dense_stride(shape@, j) <= usize::MAX,
        decreases a,
    {
        a -= 1;
        proof {
            lemma_dense_stride_step(shape@, a as int);
            lemma_mul_is_commutative(acc as int, shape@[a as int] as int);
            assert(dense_stride(shape@, a as int) == acc);
        }
        match acc.checked_mul(shape[a]) {
            Some(next) => {
                acc = next;
            },
            None => {
                proof {
                    if a == 0 {
                        assert(extents(shape@).skip(0) =~= extents(shape@));
                    } else {
                        lemma_dense_stride_step(shape@, a as int);
                        assert(dense_stride(shape@, a - 1) > usize::MAX);
                    }
                }
                return None;
            },
        }
    }
    proof {
        assert(extents(shape@).skip(0) =~= extents(shape@));
    }
    Some(acc)
}

/// The volume of a shape whose volume fits in a machine word. No product is
/// taken once an axis is found to be empty.
pub(crate) fn volume_of<const D: usize>(shape: &[usize; D]) -> (r: usize)
    requires
        volume(shape@) <= usize::MAX,
    ensures
        r == volume(shape@),
{
    let mut a: usize = 0;
    while a < D
        invariant
            0 <= a <= D,
            forall|j: int| 0 <= j < a ==> shape@[j] > 0,
        decreases D - a,
    {
        if shape[a] == 0 {
            proof {
                lemma_volume_sign(shape@);
            }
            return 0;
        }
        a += 1;
    }
    proof {
        lemma_volume_sign(shape@);
    }
    let mut vol: usize = 1;
    let mut a: usize = 0;
    while a < D
        invariant
            0 <= a <= D,
            0 < volume(shape@) <= usize::MAX,
            vol == product(extents(shape@).take(a as int)),
        decreases D - a,
    {
        proof {
            assert(extents(shape@).take(a + 1).drop_last() =~= extents(shape@).take(a as int));
            lemma_within_volume(shape@, a + 1);
        }
        vol = vol * shape[a];
        a += 1;
    }
    proof {
        assert(extents(shape@).take(D as int) =~= extents(shape@));
    }
    vol
}

/// The row-major strides of a representable shape.
pub(crate) fn dense_strides_of<const D: usize>(shape: &[usize; D]) -> (r: [usize; D])
    requires
        representable(shape@),
    ensures
        forall|a: int| 0 <= a < D ==> r@[a] == dense_stride(shape@, a),
{
    let mut strides = [1usize; D];
    let mut acc: usize = 1;
    let mut a: usize = D;
    proof {
        assert(extents(shape@).skip(D as int) =~= Seq::<int>::empty());
    }
    while a > 0
        invariant
            0 <= a <= D,
            representable(shape@),
            acc == product(extents(shape@).skip(a as int)),
            forall|j: int| a <= j < D ==> strides@[j] == dense_stride(shape@, j),
        decreases a,
    {
        a -= 1;
        strides[a] = acc;
        proof {
            lemma_dense_stride_step(shape@, a as int);
            lemma_representable_suffix(shape@, a as int);
            lemma_mul_is_commutative(acc as int, shape@[a as int] as int);
        }
        acc = acc * shape[a];
    }
    strides
}

} // verus!
