//! Reductions over the elements that an array shows, taken in row-major
//! order, and the same reductions along one axis.

use std::borrow::Cow;
use std::ops::Sub;
use vstd::prelude::*;
use vstd::std_specs::ops::SubSpec;
use crate::array::Array;
use crate::order::{
    at_most, below, clamped, compares, first_greatest_of, first_least_of, greatest_at,
    greatest_of, is_above, is_below, is_level, last_greatest, least_at, least_of,
    lemma_below_chain, lemma_greatest_of, lemma_least_of, lemma_not_below, level, lists_greatest,
    lists_least, total_order,
};

verus! {

/// Whether `elements` refers, place by place, to the entries of `s`.
pub open spec fn refers_to<T>(elements: Seq<&T>, s: Seq<T>) -> bool {
    &&& elements.len() == s.len()
    &&& forall|k: int| 0 <= k < s.len() ==> *elements[k] == s[k]
}

/// `d` is what subtracting `n`, a copy of the least element of `s`, from `m`,
/// a copy of its greatest, gives.
pub open spec fn spread_by<T: Ord + Clone + Sub<Output = T>>(s: Seq<T>, m: T, n: T, d: T) -> bool {
    &&& greatest_of(s, Some(m))
    &&& least_of(s, Some(n))
    &&& T::obeys_sub_spec() ==> d == m.sub_spec(n)
}

/// `r` is what the distance from the least to the greatest element of `s`
/// gives: nothing for an empty sequence, else the difference of copies of
/// the two.
pub open spec fn spread_of<T: Ord + Clone + Sub<Output = T>>(s: Seq<T>, r: Option<T>) -> bool {
    if r is None {
        s.len() == 0
    } else {
        exists|m: T, n: T| #[trigger] spread_by(s, m, n, r->Some_0)
    }
}

/// Whether the element type can subtract any copy of the least element of
/// `s` from any copy of its greatest.
pub open spec fn spread_defined<T: Ord + Clone + Sub<Output = T>>(s: Seq<T>) -> bool {
    forall|m: T, n: T| greatest_of(s, Some(m)) && least_of(s, Some(n)) ==> #[trigger] m.sub_req(n)
}

/// The difference of a copy of the greatest and a copy of the least element
/// is what taking the spread gives.
proof fn lemma_spread_of<T: Ord + Clone + Sub<Output = T>>(s: Seq<T>, m: T, n: T, d: T)
    requires
        spread_by(s, m, n, d),
    ensures
        spread_of(s, Some(d)),
{
    assert(spread_by(s, m, n, Some(d)->Some_0));
}

/// The last place that holds a greatest element.
fn last_greatest_place<T: Ord>(elements: &Vec<&T>, Ghost(s): Ghost<Seq<T>>) -> (r: Option<usize>)
    requires
        refers_to(elements@, s),
    ensures
        r is None <==> s.len() == 0,
        r matches Some(k) ==> k < s.len() && (total_order::<T>() ==> last_greatest(s, k as int)),
{
    if elements.len() == 0 {
        return None;
    }
    let mut best: usize = 0;
    let mut k: usize = 1;
    proof {
        if total_order::<T>() {
            lemma_not_below(s[0], s[0]);
        }
    }
    while k < elements.len()
        invariant
            1 <= k <= s.len(),
            best < k,
            refers_to(elements@, s),
            total_order::<T>() ==> forall|j: int|
                0 <= j < k ==> at_most(#[trigger] s[j], s[best as int]),
            total_order::<T>() ==> forall|j: int|
                best < j < k ==> below(#[trigger] s[j], s[best as int]),
        decreases s.len() - k,
    {
        if !is_below(elements[k], elements[best]) {
            proof {
                if total_order::<T>() {
                    lemma_not_below(s[k as int], s[best as int]);
                    lemma_not_below(s[k as int], s[k as int]);
                    assert forall|j: int| 0 <= j < k + 1 implies at_most(
                        #[trigger] s[j],
                        s[k as int],
                    ) by {
                        if j < k {
                            lemma_below_chain(s[j], s[best as int], s[k as int]);
                        }
                    }
                }
            }
            best = k;
        } else {
            proof {
                if total_order::<T>() {
                    lemma_not_below(s[k as int], s[best as int]);
                }
            }
        }
        k += 1;
    }
    Some(best)
}

/// The first place that holds a greatest element.
fn first_greatest_place<T: Ord>(elements: &Vec<&T>, Ghost(s): Ghost<Seq<T>>) -> (r: Option<usize>)
    requires
        refers_to(elements@, s),
    ensures
        first_greatest_of(s, r),
{
    if elements.len() == 0 {
        return None;
    }
    let mut best: usize = 0;
    let mut k: usize = 1;
    proof {
        if total_order::<T>() {
            lemma_not_below(s[0], s[0]);
        }
    }
    while k < elements.len()
        invariant
            1 <= k <= s.len(),
            best < k,
            refers_to(elements@, s),
            total_order::<T>() ==> forall|j: int|
                0 <= j < k ==> at_most(#[trigger] s[j], s[best as int]),
            total_order::<T>() ==> forall|j: int|
                0 <= j < best ==> below(#[trigger] s[j], s[best as int]),
        decreases s.len() - k,
    {
        if is_above(elements[k], elements[best]) {
            proof {
                if total_order::<T>() {
                    lemma_not_below(s[best as int], s[k as int]);
                    lemma_not_below(s[k as int], s[k as int]);
                    assert forall|j: int| 0 <= j < k implies below(
                        #[trigger] s[j],
                        s[k as int],
                    ) by {
                        lemma_below_chain(s[j], s[best as int], s[k as int]);
                    }
                    assert forall|j: int| 0 <= j < k + 1 implies at_most(
                        #[trigger] s[j],
                        s[k as int],
                    ) by {
                        if j < k {
                            lemma_not_below(s[j], s[k as int]);
                        }
                    }
                }
            }
            best = k;
        }
        k += 1;
    }
    Some(best)
}

/// The first place that holds a least element.
fn first_least_place<T: Ord>(elements: &Vec<&T>, Ghost(s): Ghost<Seq<T>>) -> (r: Option<usize>)
    requires
        refers_to(elements@, s),
    ensures
        first_least_of(s, r),
{
    if elements.len() == 0 {
        return None;
    }
    let mut best: usize = 0;
    let mut k: usize = 1;
    proof {
        if total_order::<T>() {
            lemma_not_below(s[0], s[0]);
        }
    }
    while k < elements.len()
        invariant
            1 <= k <= s.len(),
            best < k,
            refers_to(elements@, s),
            total_order::<T>() ==> forall|j: int|
                0 <= j < k ==> at_most(s[best as int], #[trigger] s[j]),
            total_order::<T>() ==> forall|j: int|
                0 <= j < best ==> below(s[best as int], #[trigger] s[j]),
        decreases s.len() - k,
    {
        if is_below(elements[k], elements[best]) {
            proof {
                if total_order::<T>() {
                    lemma_not_below(s[k as int], s[best as int]);
                    lemma_not_below(s[k as int], s[k as int]);
                    assert forall|j: int| 0 <= j < k implies below(
                        s[k as int],
                        #[trigger] s[j],
                    ) by {
                        lemma_below_chain(s[k as int], s[best as int], s[j]);
                    }
                    assert forall|j: int| 0 <= j < k + 1 implies at_most(
                        s[k as int],
                        #[trigger] s[j],
                    ) by {
                        if j < k {
                            lemma_not_below(s[k as int], s[j]);
                        }
                    }
                }
            }
            best = k;
        } else {
            proof {
                if total_order::<T>() {
                    lemma_not_below(s[k as int], s[best as int]);
                }
            }
        }
        k += 1;
    }
    Some(best)
}

/// Under a total order the places of the greatest elements are those whose
/// element is level with one of them.
proof fn lemma_greatest_level<T: Ord>(s: Seq<T>, best: int, k: int)
    requires
        total_order::<T>(),
        greatest_at(s, best),
        0 <= k < s.len(),
    ensures
        greatest_at(s, k) <==> level(s[k], s[best]),
{
    lemma_not_below(s[k], s[best]);
    if level(s[k], s[best]) {
        assert forall|j: int| 0 <= j < s.len() implies at_most(#[trigger] s[j], s[k]) by {
            lemma_below_chain(s[j], s[best], s[k]);
        }
    }
    if greatest_at(s, k) {
        assert(at_most(s[best], s[k]));
        assert(at_most(s[k], s[best]));
    }
}

/// Under a total order the places of the least elements are those whose
/// element is level with one of them.
proof fn lemma_least_level<T: Ord>(s: Seq<T>, best: int, k: int)
    requires
        total_order::<T>(),
        least_at(s, best),
        0 <= k < s.len(),
    ensures
        least_at(s, k) <==> level(s[k], s[best]),
{
    lemma_not_below(s[k], s[best]);
    if level(s[k], s[best]) {
        assert forall|j: int| 0 <= j < s.len() implies at_most(s[k], #[trigger] s[j]) by {
            lemma_below_chain(s[k], s[best], s[j]);
        }
    }
    if least_at(s, k) {
        assert(at_most(s[best], s[k]));
        assert(at_most(s[k], s[best]));
    }
}

/// The places whose element is level with the one at `best`, in rising order.
fn level_places<T: Ord>(elements: &Vec<&T>, best: usize, Ghost(s): Ghost<Seq<T>>) -> (r: Vec<usize>)
    requires
        refers_to(elements@, s),
        best < s.len(),
    ensures
        forall|i: int, j: int| 0 <= i < j < r@.len() ==> r@[i] < r@[j],
        forall|i: int| 0 <= i < r@.len() ==> r@[i] < s.len(),
        total_order::<T>() ==> forall|i: int|
            0 <= i < r@.len() ==> level(s[#[trigger] r@[i] as int], s[best as int]),
        total_order::<T>() ==> forall|k: int|
            0 <= k < s.len() && level(#[trigger] s[k], s[best as int]) ==> exists|i: int|
                0 <= i < r@.len() && #[trigger] r@[i] == k,
{
    let mut places: Vec<usize> = Vec::new();
    let mut k: usize = 0;
    while k < elements.len()
        invariant
            0 <= k <= s.len(),
            best < s.len(),
            refers_to(elements@, s),
            forall|i: int, j: int| 0 <= i < j < places@.len() ==> places@[i] < places@[j],
            forall|i: int| 0 <= i < places@.len() ==> places@[i] < k,
            total_order::<T>() ==> forall|i: int|
                0 <= i < places@.len() ==> level(s[#[trigger] places@[i] as int], s[best as int]),
            total_order::<T>() ==> forall|j: int|
                0 <= j < k && level(#[trigger] s[j], s[best as int]) ==> exists|i: int|
                    0 <= i < places@.len() && #[trigger] places@[i] == j,
        decreases s.len() - k,
    {
        if is_level(elements[k], elements[best]) {
            let ghost before = places@;
            places.push(k);
            proof {
                if total_order::<T>() {
                    assert forall|j: int|
                        0 <= j < k + 1 && level(
                            #[trigger] s[j],
                            s[best as int],
                        ) implies exists|i: int|
                        0 <= i < places@.len() && #[trigger] places@[i] == j by {
                        if j < k {
                            let i = choose|i: int|
                                0 <= i < before.len() && #[trigger] before[i] == j;
                            assert(places@[i] == j);
                        } else {
                            assert(places@[before.len() as int] == j);
                        }
                    }
                }
            }
        }
        k += 1;
    }
    places
}

impl<'a, T: Clone + Ord, const D: usize> Array<'a, T, D> {
    /// A copy of the greatest element, or `None` where the array shows no
    /// element. Of several greatest elements the last in row-major order is
    /// taken.
    pub fn max(&self) -> (r: Option<T>)
        requires
            self.wf(),
        ensures
            greatest_of(self@.flat(), r),
    {
        let elements = self.flat();
        match last_greatest_place(&elements, Ghost(self@.flat())) {
            None => None,
            Some(k) => {
                let m = elements[k].clone();
                proof {
                    lemma_greatest_of(self@.flat(), k as int, m);
                }
                Some(m)
            },
        }
    }

    /// The places, in row-major order, of all the greatest elements.
    pub fn arg_max(&self) -> (r: Vec<usize>)
        requires
            self.wf(),
        ensures
            forall|i: int, j: int| 0 <= i < j < r@.len() ==> r@[i] < r@[j],
            forall|i: int| 0 <= i < r@.len() ==> r@[i] < self@.flat().len(),
            total_order::<T>() ==> lists_greatest(r@, self@.flat()),
    {
        let elements = self.flat();
        let ghost s = self@.flat();
        match last_greatest_place(&elements, Ghost(s)) {
            None => Vec::new(),
            Some(best) => {
                let places = level_places(&elements, best, Ghost(s));
                proof {
                    if total_order::<T>() {
                        lemma_not_below(s[best as int], s[best as int]);
                        assert forall|i: int| 0 <= i < places@.len() implies greatest_at(
                            s,
                            #[trigger] places@[i] as int,
                        ) by {
                            lemma_greatest_level(s, best as int, places@[i] as int);
                        }
                        assert forall|k: int| #[trigger] greatest_at(s, k) implies exists|i: int|
                            0 <= i < places@.len() && #[trigger] places@[i] == k by {
                            lemma_greatest_level(s, best as int, k);
                        }
                    }
                }
                places
            },
        }
    }

    /// A copy of the least element, or `None` where the array shows no
    /// element. Of several least elements the first in row-major order is
    /// taken.
    pub fn min(&self) -> (r: Option<T>)
        requires
            self.wf(),
        ensures
            least_of(self@.flat(), r),
    {
        let elements = self.flat();
        match first_least_place(&elements, Ghost(self@.flat())) {
            None => None,
            Some(k) => {
                let m = elements[k].clone();
                proof {
                    lemma_least_of(self@.flat(), k as int, m);
                }
                Some(m)
            },
        }
    }

    /// The places, in row-major order, of all the least elements.
    pub fn arg_min(&self) -> (r: Vec<usize>)
        requires
            self.wf(),
        ensures
            forall|i: int, j: int| 0 <= i < j < r@.len() ==> r@[i] < r@[j],
            forall|i: int| 0 <= i < r@.len() ==> r@[i] < self@.flat().len(),
            total_order::<T>() ==> lists_least(r@, self@.flat()),
    {
        let elements = self.flat();
        let ghost s = self@.flat();
        match first_least_place(&elements, Ghost(s)) {
            None => Vec::new(),
            Some(best) => {
                let places = level_places(&elements, best, Ghost(s));
                proof {
                    if total_order::<T>() {
                        lemma_not_below(s[best as int], s[best as int]);
                        assert forall|i: int| 0 <= i < places@.len() implies least_at(
                            s,
                            #[trigger] places@[i] as int,
                        ) by {
                            lemma_least_level(s, best as int, places@[i] as int);
                        }
                        assert forall|k: int| #[trigger] least_at(s, k) implies exists|i: int|
                            0 <= i < places@.len() && #[trigger] places@[i] == k by {
                            lemma_least_level(s, best as int, k);
                        }
                    }
                }
                places
            },
        }
    }

    /// Along `axis`, a copy of the greatest element of each part of the array.
    pub fn max_across(&self, axis: usize) -> (r: Vec<Option<T>>)
        requires
            self.wf(),
            axis < D,
        ensures
            r@.len() == self@.parts(axis as int).len(),
            forall|k: int|
                0 <= k < r@.len() ==> greatest_of(
                    self@.parts(axis as int)[k],
                    #[trigger] r@[k],
                ),
    {
        let views = self.axis_view(axis);
        let ghost parts = self@.parts(axis as int);
        let mut out: Vec<Option<T>> = Vec::new();
        let mut k: usize = 0;
        while k < views.len()
            invariant
                0 <= k <= views@.len(),
                views@.len() == parts.len(),
                forall|j: int|
                    0 <= j < views@.len() ==> (#[trigger] views@[j]).wf() && views@[j]@.flat()
                        == parts[j],
                out@.len() == k,
                forall|j: int| 0 <= j < k ==> greatest_of(parts[j], #[trigger] out@[j]),
            decreases views@.len() - k,
        {
            out.push(views[k].max());
            k += 1;
        }
        out
    }

    /// Along `axis`, the first place of a greatest element within each part
    /// of the array.
    pub fn arg_max_across(&self, axis: usize) -> (r: Vec<Option<usize>>)
        requires
            self.wf(),
            axis < D,
        ensures
            r@.len() == self@.parts(axis as int).len(),
            forall|k: int|
                0 <= k < r@.len() ==> first_greatest_of(
                    self@.parts(axis as int)[k],
                    #[trigger] r@[k],
                ),
    {
        let views = self.axis_view(axis);
        let ghost parts = self@.parts(axis as int);
        let mut out: Vec<Option<usize>> = Vec::new();
        let mut k: usize = 0;
        while k < views.len()
            invariant
                0 <= k <= views@.len(),
                views@.len() == parts.len(),
                forall|j: int|
                    0 <= j < views@.len() ==> (#[trigger] views@[j]).wf() && views@[j]@.flat()
                        == parts[j],
                out@.len() == k,
                forall|j: int| 0 <= j < k ==> first_greatest_of(parts[j], #[trigger] out@[j]),
            decreases views@.len() - k,
        {
            let elements = views[k].flat();
            out.push(first_greatest_place(&elements, Ghost(parts[k as int])));
            k += 1;
        }
        out
    }

    /// Along `axis`, a copy of the least element of each part of the array.
    pub fn min_across(&self, axis: usize) -> (r: Vec<Option<T>>)
        requires
            self.wf(),
            axis < D,
        ensures
            r@.len() == self@.parts(axis as int).len(),
            forall|k: int|
                0 <= k < r@.len() ==> least_of(
                    self@.parts(axis as int)[k],
                    #[trigger] r@[k],
                ),
    {
        let views = self.axis_view(axis);
        let ghost parts = self@.parts(axis as int);
        let mut out: Vec<Option<T>> = Vec::new();
        let mut k: usize = 0;
        while k < views.len()
            invariant
                0 <= k <= views@.len(),
                views@.len() == parts.len(),
                forall|j: int|
                    0 <= j < views@.len() ==> (#[trigger] views@[j]).wf() && views@[j]@.flat()
                        == parts[j],
                out@.len() == k,
                forall|j: int| 0 <= j < k ==> least_of(parts[j], #[trigger] out@[j]),
            decreases views@.len() - k,
        {
            out.push(views[k].min());
            k += 1;
        }
        out
    }

    /// Along `axis`, the first place of a least element within each part of
    /// the array.
    pub fn arg_min_across(&self, axis: usize) -> (r: Vec<Option<usize>>)
        requires
            self.wf(),
            axis < D,
        ensures
            r@.len() == self@.parts(axis as int).len(),
            forall|k: int|
                0 <= k < r@.len() ==> first_least_of(
                    self@.parts(axis as int)[k],
                    #[trigger] r@[k],
                ),
    {
        let views = self.axis_view(axis);
        let ghost parts = self@.parts(axis as int);
        let mut out: Vec<Option<usize>> = Vec::new();
        let mut k: usize = 0;
        while k < views.len()
            invariant
                0 <= k <= views@.len(),
                views@.len() == parts.len(),
                forall|j: int|
                    0 <= j < views@.len() ==> (#[trigger] views@[j]).wf() && views@[j]@.flat()
                        == parts[j],
                out@.len() == k,
                forall|j: int| 0 <= j < k ==> first_least_of(parts[j], #[trigger] out@[j]),
            decreases views@.len() - k,
        {
            let elements = views[k].flat();
            out.push(first_least_place(&elements, Ghost(parts[k as int])));
            k += 1;
        }
        out
    }

    /// A new array over a copy of the buffer in which every element has been
    /// brought into the range from `min` to `max`; shape, strides and affine
    /// maps stay as they are.
    pub fn clip(&self, min: &T, max: &T) -> (r: Array<'a, T, D>)
        requires
            self.wf(),
            at_most(*min, *max),
        ensures
            r.wf(),
            r@ == self@.rebased(r@.buffer),
            r@.buffer.len() == self@.buffer.len(),
            forall|i: int|
                0 <= i < r@.buffer.len() ==> cloned(self@.buffer[i], #[trigger] r@.buffer[i])
                    || cloned(*min, r@.buffer[i]) || cloned(*max, r@.buffer[i]),
            compares::<T>() ==> forall|i: int|
                0 <= i < r@.buffer.len() ==> cloned(
                    clamped(self@.buffer[i], *min, *max),
                    #[trigger] r@.buffer[i],
                ),
    {
        let data = self.data();
        let mut vec: Vec<T> = Vec::new();
        let mut i: usize = 0;
        while i < data.len()
            invariant
                0 <= i <= data@.len(),
                data@ == self@.buffer,
                vec@.len() == i,
                forall|j: int|
                    0 <= j < i ==> cloned(self@.buffer[j], #[trigger] vec@[j]) || cloned(
                        *min,
                        vec@[j],
                    ) || cloned(*max, vec@[j]),
                compares::<T>() ==> forall|j: int|
                    0 <= j < i ==> cloned(
                        clamped(self@.buffer[j], *min, *max),
                        #[trigger] vec@[j],
                    ),
            decreases data@.len() - i,
        {
            let val = &data[i];
            let kept = if is_below(val, min) {
                min.clone()
            } else if is_above(val, max) {
                max.clone()
            } else {
                val.clone()
            };
            vec.push(kept);
            i += 1;
        }
        let ghost buffer = vec@;
        let r = Array {
            vec: Cow::Owned(vec),
            shape: self.shape,
            strides: self.strides,
            idx_maps: self.idx_maps,
        };
        proof {
            assert(r@.axes =~= self@.axes);
            self@.lemma_rebased(buffer);
        }
        r
    }
}

impl<'a, T: Clone + Ord + Sub<Output = T>, const D: usize> Array<'a, T, D> {
    /// The distance from the least to the greatest element, or `None` where
    /// the array shows no element.
    pub fn ptp(&self) -> (r: Option<T>)
        requires
            self.wf(),
            spread_defined(self@.flat()),
        ensures
            spread_of(self@.flat(), r),
    {
        let greatest = self.max();
        let least = self.min();
        match (greatest, least) {
            (Some(m), Some(n)) => {
                let d = m - n;
                proof {
                    lemma_spread_of(self@.flat(), m, n, d);
                }
                Some(d)
            },
            _ => None,
        }
    }

    /// Along `axis`, the distance from the least to the greatest element of
    /// each part of the array.
    pub fn ptp_across(&self, axis: usize) -> (r: Vec<Option<T>>)
        requires
            self.wf(),
            axis < D,
            forall|k: int|
                0 <= k < self@.parts(axis as int).len() ==> spread_defined(
                    #[trigger] self@.parts(axis as int)[k],
                ),
        ensures
            r@.len() == self@.parts(axis as int).len(),
            forall|k: int|
                0 <= k < r@.len() ==> spread_of(
                    self@.parts(axis as int)[k],
                    #[trigger] r@[k],
                ),
    {
        let views = self.axis_view(axis);
        let ghost parts = self@.parts(axis as int);
        let mut out: Vec<Option<T>> = Vec::new();
        let mut k: usize = 0;
        while k < views.len()
            invariant
                0 <= k <= views@.len(),
                views@.len() == parts.len(),
                forall|j: int|
                    0 <= j < views@.len() ==> (#[trigger] views@[j]).wf() && views@[j]@.flat()
                        == parts[j],
                forall|j: int| 0 <= j < parts.len() ==> spread_defined(#[trigger] parts[j]),
                out@.len() == k,
                forall|j: int| 0 <= j < k ==> spread_of(parts[j], #[trigger] out@[j]),
            decreases views@.len() - k,
        {
            assert(spread_defined(parts[k as int]));
            out.push(views[k].ptp());
            k += 1;
        }
        out
    }
}

} // verus!
