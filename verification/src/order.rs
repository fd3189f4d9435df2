//! What the reductions by order promise: stated over the comparison that the
//! element type supplies.

use std::cmp::Ordering;
use vstd::prelude::*;
use vstd::std_specs::cmp::OrdSpec;

verus! {

/// `a` is not greater than `b`.
pub open spec fn at_most<T: Ord>(a: T, b: T) -> bool {
    a.cmp_spec(&b) != Ordering::Greater
}

/// `a` is less than `b`.
pub open spec fn below<T: Ord>(a: T, b: T) -> bool {
    a.cmp_spec(&b) == Ordering::Less
}

/// `a` and `b` compare as equal.
pub open spec fn level<T: Ord>(a: T, b: T) -> bool {
    a.cmp_spec(&b) == Ordering::Equal
}

/// The comparison that `T` carries out is the one that `cmp_spec` describes,
/// and that is a total order.
pub open spec fn total_order<T: Ord>() -> bool {
    &&& T::obeys_cmp_spec()
    &&& forall|a: T| #[trigger] level(a, a)
    &&& forall|a: T, b: T| #[trigger] below(a, b) <==> b.cmp_spec(&a) == Ordering::Greater
    &&& forall|a: T, b: T| #[trigger] level(a, b) <==> level(b, a)
    &&& forall|a: T, b: T, c: T| #[trigger]
        at_most(a, b) && #[trigger] at_most(b, c) ==> at_most(a, c)
}

/// The comparison that `T` carries out is the one that `cmp_spec` describes.
pub open spec fn compares<T: Ord>() -> bool {
    T::obeys_cmp_spec()
}

/// `v` brought into the range from `lo` to `hi`.
pub open spec fn clamped<T: Ord>(v: T, lo: T, hi: T) -> T {
    if below(v, lo) {
        lo
    } else if !at_most(v, hi) {
        hi
    } else {
        v
    }
}

/// No element of `s` is greater than the one at place `k`.
pub open spec fn greatest_at<T: Ord>(s: Seq<T>, k: int) -> bool {
    &&& 0 <= k < s.len()
    &&& forall|j: int| 0 <= j < s.len() ==> at_most(#[trigger] s[j], s[k])
}

/// No element of `s` is less than the one at place `k`.
pub open spec fn least_at<T: Ord>(s: Seq<T>, k: int) -> bool {
    &&& 0 <= k < s.len()
    &&& forall|j: int| 0 <= j < s.len() ==> at_most(s[k], #[trigger] s[j])
}

/// `k` is the last place of `s` that holds a greatest element.
pub open spec fn last_greatest<T: Ord>(s: Seq<T>, k: int) -> bool {
    &&& greatest_at(s, k)
    &&& forall|j: int| k < j < s.len() ==> below(#[trigger] s[j], s[k])
}

/// `k` is the first place of `s` that holds a greatest element.
pub open spec fn first_greatest<T: Ord>(s: Seq<T>, k: int) -> bool {
    &&& greatest_at(s, k)
    &&& forall|j: int| 0 <= j < k ==> below(#[trigger] s[j], s[k])
}

/// `k` is the first place of `s` that holds a least element.
pub open spec fn first_least<T: Ord>(s: Seq<T>, k: int) -> bool {
    &&& least_at(s, k)
    &&& forall|j: int| 0 <= j < k ==> below(s[k], #[trigger] s[j])
}

/// `m` is a copy of the element of `s` at place `k`.
pub open spec fn copy_at<T: Clone>(s: Seq<T>, k: int, m: T) -> bool {
    0 <= k < s.len() && cloned(s[k], m)
}

/// `r` is what taking the greatest element of `s` gives: nothing for an empty
/// sequence, else a copy of an element of `s`, which under a total order is
/// the last of its greatest elements.
pub open spec fn greatest_of<T: Ord + Clone>(s: Seq<T>, r: Option<T>) -> bool {
    if r is None {
        s.len() == 0
    } else {
        exists|k: int|
            #[trigger] copy_at(s, k, r->Some_0) && (total_order::<T>() ==> last_greatest(s, k))
    }
}

/// `r` is what taking the least element of `s` gives: nothing for an empty
/// sequence, else a copy of an element of `s`, which under a total order is
/// the first of its least elements.
pub open spec fn least_of<T: Ord + Clone>(s: Seq<T>, r: Option<T>) -> bool {
    if r is None {
        s.len() == 0
    } else {
        exists|k: int|
            #[trigger] copy_at(s, k, r->Some_0) && (total_order::<T>() ==> first_least(s, k))
    }
}

/// `places` lists, in rising order, every place of `s` that holds a greatest
/// element, and no other place.
pub open spec fn lists_greatest<T: Ord>(places: Seq<usize>, s: Seq<T>) -> bool {
    &&& forall|i: int, j: int| 0 <= i < j < places.len() ==> places[i] < places[j]
    &&& forall|i: int| 0 <= i < places.len() ==> greatest_at(s, #[trigger] places[i] as int)
    &&& forall|k: int| #[trigger]
        greatest_at(s, k) ==> exists|i: int| 0 <= i < places.len() && #[trigger] places[i] == k
}

/// `places` lists, in rising order, every place of `s` that holds a least
/// element, and no other place.
pub open spec fn lists_least<T: Ord>(places: Seq<usize>, s: Seq<T>) -> bool {
    &&& forall|i: int, j: int| 0 <= i < j < places.len() ==> places[i] < places[j]
    &&& forall|i: int| 0 <= i < places.len() ==> least_at(s, #[trigger] places[i] as int)
    &&& forall|k: int| #[trigger]
        least_at(s, k) ==> exists|i: int| 0 <= i < places.len() && #[trigger] places[i] == k
}

/// `r` is the first place of `s` that holds a greatest element, if `s` has
/// any element.
pub open spec fn first_greatest_of<T: Ord>(s: Seq<T>, r: Option<usize>) -> bool {
    match r {
        None => s.len() == 0,
        Some(k) => k < s.len() && (total_order::<T>() ==> first_greatest(s, k as int)),
    }
}

/// `r` is the first place of `s` that holds a least element, if `s` has any
/// element.
pub open spec fn first_least_of<T: Ord>(s: Seq<T>, r: Option<usize>) -> bool {
    match r {
        None => s.len() == 0,
        Some(k) => k < s.len() && (total_order::<T>() ==> first_least(s, k as int)),
    }
}

/// A copy of the element at the last greatest place is what taking the
/// greatest element gives.
pub proof fn lemma_greatest_of<T: Ord + Clone>(s: Seq<T>, k: int, m: T)
    requires
        copy_at(s, k, m),
        total_order::<T>() ==> last_greatest(s, k),
    ensures
        greatest_of(s, Some(m)),
{
    assert(copy_at(s, k, Some(m)->Some_0));
}

/// A copy of the element at the first least place is what taking the least
/// element gives.
pub proof fn lemma_least_of<T: Ord + Clone>(s: Seq<T>, k: int, m: T)
    requires
        copy_at(s, k, m),
        total_order::<T>() ==> first_least(s, k),
    ensures
        least_of(s, Some(m)),
{
    assert(copy_at(s, k, Some(m)->Some_0));
}

/// Under a total order, what is not below another is at least the other.
pub proof fn lemma_not_below<T: Ord>(a: T, b: T)
    requires
        total_order::<T>(),
    ensures
        below(a, b) ==> at_most(a, b) && !at_most(b, a),
        !below(a, b) ==> at_most(b, a),
        level(a, b) <==> at_most(a, b) && at_most(b, a),
        at_most(a, a),
{
    assert(level(a, a));
    assert(below(a, b) <==> !at_most(b, a));
    assert(below(b, a) <==> !at_most(a, b));
    assert(level(a, b) <==> level(b, a));
}

/// Under a total order, being below passes along what is at most.
pub proof fn lemma_below_chain<T: Ord>(a: T, b: T, c: T)
    requires
        total_order::<T>(),
    ensures
        at_most(a, b) && at_most(b, c) ==> at_most(a, c),
        below(a, b) && at_most(b, c) ==> below(a, c),
        at_most(a, b) && below(b, c) ==> below(a, c),
{
    lemma_not_below(a, b);
    lemma_not_below(b, c);
    lemma_not_below(a, c);
    lemma_not_below(c, a);
    if at_most(a, b) && at_most(b, c) {
        assert(at_most(a, c));
        if at_most(c, a) {
            assert(at_most(c, a) && at_most(a, b) ==> at_most(c, b));
            assert(at_most(b, c) && at_most(c, a) ==> at_most(b, a));
        }
    }
}

/// Whether `a` is less than `b`.
pub(crate) fn is_below<T: Ord>(a: &T, b: &T) -> (r: bool)
    ensures
        T::obeys_cmp_spec() ==> r == below(*a, *b),
{
    match a.cmp(b) {
        Ordering::Less => true,
        Ordering::Equal => false,
        Ordering::Greater => false,
    }
}

/// Whether `a` and `b` compare as equal.
pub(crate) fn is_level<T: Ord>(a: &T, b: &T) -> (r: bool)
    ensures
        T::obeys_cmp_spec() ==> r == level(*a, *b),
{
    match a.cmp(b) {
        Ordering::Less => false,
        Ordering::Equal => true,
        Ordering::Greater => false,
    }
}

/// Whether `a` is greater than `b`.
pub(crate) fn is_above<T: Ord>(a: &T, b: &T) -> (r: bool)
    ensures
        T::obeys_cmp_spec() ==> r == !at_most(*a, *b),
{
    match a.cmp(b) {
        Ordering::Less => false,
        Ordering::Equal => false,
        Ordering::Greater => true,
    }
}

} // verus!
