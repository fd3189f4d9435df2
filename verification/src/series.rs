//! Sums and products of finite integer sequences, with the rearrangement
//! facts that the index arithmetic rests on.

use vstd::prelude::*;
use vstd::arithmetic::mul::*;

verus! {

/// The sum of the entries of `s`.
pub open spec fn sum(s: Seq<int>) -> int
    decreases s.len(),
{
    if s.len() == 0 {
        0
    } else {
        sum(s.drop_last()) + s.last()
    }
}

/// The product of the entries of `s`.
pub open spec fn product(s: Seq<int>) -> int
    decreases s.len(),
{
    if s.len() == 0 {
        1
    } else {
        product(s.drop_last()) * s.last()
    }
}

/// The sum of two sequences joined is the sum of their sums.
pub proof fn lemma_sum_concat(a: Seq<int>, b: Seq<int>)
    ensures
        sum(a + b) == sum(a) + sum(b),
    decreases b.len(),
{
    if b.len() == 0 {
        assert(a + b =~= a);
    } else {
        assert((a + b).drop_last() =~= a + b.drop_last());
        lemma_sum_concat(a, b.drop_last());
    }
}

/// The product of two sequences joined is the product of their products.
pub proof fn lemma_product_concat(a: Seq<int>, b: Seq<int>)
    ensures
        product(a + b) == product(a) * product(b),
    decreases b.len(),
{
    if b.len() == 0 {
        assert(a + b =~= a);
    } else {
        assert((a + b).drop_last() =~= a + b.drop_last());
        lemma_product_concat(a, b.drop_last());
        lemma_mul_is_associative(product(a), product(b.drop_last()), b.last());
    }
}

/// A single entry is its own sum.
pub proof fn lemma_sum_single(x: int)
    ensures
        sum(seq![x]) == x,
{
    assert(seq![x].drop_last() =~= Seq::<int>::empty());
    reveal_with_fuel(sum, 2);
}

/// A single entry is its own product.
pub proof fn lemma_product_single(x: int)
    ensures
        product(seq![x]) == x,
{
    assert(seq![x].drop_last() =~= Seq::<int>::empty());
    reveal_with_fuel(product, 2);
}

/// Reading a sequence backwards leaves its sum unchanged.
pub proof fn lemma_sum_reverse(s: Seq<int>)
    ensures
        sum(s.reverse()) == sum(s),
    decreases s.len(),
{
    if s.len() > 0 {
        assert(s.reverse() =~= seq![s.last()] + s.drop_last().reverse());
        lemma_sum_concat(seq![s.last()], s.drop_last().reverse());
        lemma_sum_single(s.last());
        lemma_sum_reverse(s.drop_last());
    }
}

/// Reading a sequence backwards leaves its product unchanged.
pub proof fn lemma_product_reverse(s: Seq<int>)
    ensures
        product(s.reverse()) == product(s),
    decreases s.len(),
{
    if s.len() > 0 {
        assert(s.reverse() =~= seq![s.last()] + s.drop_last().reverse());
        lemma_product_concat(seq![s.last()], s.drop_last().reverse());
        lemma_product_single(s.last());
        lemma_product_reverse(s.drop_last());
        lemma_mul_is_commutative(s.last(), product(s.drop_last()));
    }
}

/// Replacing one entry changes the sum by the difference of the two values.
pub proof fn lemma_sum_update(s: Seq<int>, i: int, x: int)
    requires
        0 <= i < s.len(),
    ensures
        sum(s.update(i, x)) == sum(s) - s[i] + x,
    decreases s.len(),
{
    if i == s.len() - 1 {
        assert(s.update(i, x).drop_last() =~= s.drop_last());
    } else {
        assert(s.update(i, x).drop_last() =~= s.drop_last().update(i, x));
        lemma_sum_update(s.drop_last(), i, x);
    }
}

/// A sequence cut at `i` multiplies as its two parts do.
pub proof fn lemma_product_split(s: Seq<int>, i: int)
    requires
        0 <= i <= s.len(),
    ensures
        product(s) == product(s.take(i)) * product(s.skip(i)),
{
    assert(s =~= s.take(i) + s.skip(i));
    lemma_product_concat(s.take(i), s.skip(i));
}

/// The product with the entry at `i` set aside.
pub proof fn lemma_product_pick(s: Seq<int>, i: int)
    requires
        0 <= i < s.len(),
    ensures
        product(s) == product(s.take(i)) * s[i] * product(s.skip(i + 1)),
{
    lemma_product_split(s, i);
    let tail = s.skip(i);
    lemma_product_split(tail, 1);
    assert(tail.take(1) =~= seq![s[i]]);
    assert(tail.skip(1) =~= s.skip(i + 1));
    lemma_product_single(s[i]);
    lemma_mul_is_associative(product(s.take(i)), s[i], product(s.skip(i + 1)));
}

/// Entry by entry smaller, the product is smaller.
pub proof fn lemma_product_monotonic(s: Seq<int>, t: Seq<int>)
    requires
        s.len() == t.len(),
        forall|i: int| 0 <= i < s.len() ==> 0 <= #[trigger] s[i] <= t[i],
    ensures
        0 <= product(s) <= product(t),
    decreases s.len(),
{
    if s.len() > 0 {
        lemma_product_monotonic(s.drop_last(), t.drop_last());
        lemma_mul_nonnegative(product(s.drop_last()), s.last());
        lemma_mul_upper_bound(product(s.drop_last()), product(t.drop_last()), s.last(), t.last());
    }
}

/// Exchanging two entries leaves the sum unchanged.
pub proof fn lemma_sum_swap(s: Seq<int>, i: int, j: int)
    requires
        0 <= i < s.len(),
        0 <= j < s.len(),
    ensures
        sum(s.update(i, s[j]).update(j, s[i])) == sum(s),
{
    lemma_sum_update(s, i, s[j]);
    lemma_sum_update(s.update(i, s[j]), j, s[i]);
}

/// Exchanging two entries leaves the product unchanged.
pub proof fn lemma_product_swap(s: Seq<int>, i: int, j: int)
    requires
        0 <= i < s.len(),
        0 <= j < s.len(),
    ensures
        product(s.update(i, s[j]).update(j, s[i])) == product(s),
{
    let t = s.update(i, s[j]).update(j, s[i]);
    if i == j {
        assert(t =~= s);
    } else {
        let (lo, hi) = if i < j { (i, j) } else { (j, i) };
        assert(t[lo] == s[hi] && t[hi] == s[lo]);
        lemma_product_pick(s, lo);
        lemma_product_pick(t, lo);
        assert(t.take(lo) =~= s.take(lo));
        let s2 = s.skip(lo + 1);
        let t2 = t.skip(lo + 1);
        let k = hi - lo - 1;
        lemma_product_pick(s2, k);
        lemma_product_pick(t2, k);
        assert(t2.take(k) =~= s2.take(k));
        assert(t2.skip(k + 1) =~= s2.skip(k + 1));
        let a = product(s.take(lo));
        let b = product(s2.take(k));
        let c = product(s2.skip(k + 1));
        let x = s[lo];
        let y = s[hi];
        assert(a * x * (b * y * c) == a * y * (b * x * c)) by (nonlinear_arith);
    }
}

/// With non-negative entries, no entry and no leading part exceeds the sum.
pub proof fn lemma_sum_bounds(s: Seq<int>, n: int)
    requires
        forall|i: int| 0 <= i < s.len() ==> s[i] >= 0,
        0 <= n <= s.len(),
    ensures
        0 <= sum(s.take(n)) <= sum(s),
        n < s.len() ==> sum(s.take(n)) + s[n] <= sum(s),
    decreases s.len() - n,
{
    if n == s.len() {
        assert(s.take(n) =~= s);
        lemma_sum_nonnegative(s);
    } else {
        assert(s.take(n + 1).drop_last() =~= s.take(n));
        lemma_sum_bounds(s, n + 1);
        lemma_sum_nonnegative(s.take(n));
    }
}

/// Non-negative entries give a non-negative sum.
pub proof fn lemma_sum_nonnegative(s: Seq<int>)
    requires
        forall|i: int| 0 <= i < s.len() ==> s[i] >= 0,
    ensures
        sum(s) >= 0,
    decreases s.len(),
{
    if s.len() > 0 {
        lemma_sum_nonnegative(s.drop_last());
    }
}

} // verus!
