//! Sums, products, means and variances of the elements that an array shows,
//! taken in row-major order, and the same along one axis.

use std::ops::Add;
use std::ops::Div;
use std::ops::Mul;
use std::ops::Sub;
use vstd::prelude::*;
use vstd::std_specs::ops::AddSpec;
use vstd::std_specs::ops::DivSpec;
use vstd::std_specs::ops::MulSpec;
use vstd::std_specs::ops::SubSpec;
use crate::array::Array;
use crate::calc::refers_to;
use crate::scalar::Scalar;

verus! {

/// The entries of `s` added to `seed` one after the other.
pub open spec fn sum_from<T: Add<Output = T>>(seed: T, s: Seq<T>) -> T
    decreases s.len(),
{
    if s.len() == 0 {
        seed
    } else {
        sum_from(seed, s.drop_last()).add_spec(s.last())
    }
}

/// Whether each addition on the way to `sum_from(seed, s)` is one that the
/// element type can carry out.
pub open spec fn sum_defined<T: Add<Output = T>>(seed: T, s: Seq<T>) -> bool
    decreases s.len(),
{
    s.len() == 0 || (sum_defined(seed, s.drop_last()) && sum_from(seed, s.drop_last()).add_req(
        s.last(),
    ))
}

/// `seed` multiplied by the entries of `s` one after the other.
pub open spec fn product_from<T: Mul<Output = T>>(seed: T, s: Seq<T>) -> T
    decreases s.len(),
{
    if s.len() == 0 {
        seed
    } else {
        product_from(seed, s.drop_last()).mul_spec(s.last())
    }
}

/// Whether each multiplication on the way to `product_from(seed, s)` is one
/// that the element type can carry out.
pub open spec fn product_defined<T: Mul<Output = T>>(seed: T, s: Seq<T>) -> bool
    decreases s.len(),
{
    s.len() == 0 || (product_defined(seed, s.drop_last()) && product_from(
        seed,
        s.drop_last(),
    ).mul_req(s.last()))
}

/// The square of the distance of `x` from `centre`.
pub open spec fn square_off<T: Sub<Output = T> + Mul<Output = T>>(x: T, centre: T) -> T {
    x.sub_spec(centre).mul_spec(x.sub_spec(centre))
}

/// Whether the element type can carry out the subtraction and the
/// multiplication of `square_off(x, centre)`.
pub open spec fn square_off_defined<T: Sub<Output = T> + Mul<Output = T>>(x: T, centre: T) -> bool {
    x.sub_req(centre) && x.sub_spec(centre).mul_req(x.sub_spec(centre))
}

/// The squares of the distances of the entries of `s` from `centre`, added
/// to `seed` one after the other.
pub open spec fn squares_from<T: Add<Output = T> + Sub<Output = T> + Mul<Output = T>>(
    seed: T,
    centre: T,
    s: Seq<T>,
) -> T
    decreases s.len(),
{
    if s.len() == 0 {
        seed
    } else {
        squares_from(seed, centre, s.drop_last()).add_spec(square_off(s.last(), centre))
    }
}

/// Whether each step on the way to `squares_from(seed, centre, s)` is one
/// that the element type can carry out.
pub open spec fn squares_defined<T: Add<Output = T> + Sub<Output = T> + Mul<Output = T>>(
    seed: T,
    centre: T,
    s: Seq<T>,
) -> bool
    decreases s.len(),
{
    s.len() == 0 || (squares_defined(seed, centre, s.drop_last()) && square_off_defined(
        s.last(),
        centre,
    ) && squares_from(seed, centre, s.drop_last()).add_req(square_off(s.last(), centre)))
}

/// The number of entries of `s` as a value of the element type.
pub open spec fn count_of<T: Scalar>(s: Seq<T>) -> Option<T> {
    T::count_value(s.len() as usize)
}

/// The sum of `s` divided by the number of its entries.
pub open spec fn mean_of<T: Scalar + Add<Output = T> + Div<Output = T>>(s: Seq<T>) -> T {
    sum_from(T::zero_value(), s).div_spec(count_of(s)->Some_0)
}

/// Whether the element type can carry out each step on the way to `mean_of(s)`.
pub open spec fn mean_defined<T: Scalar + Add<Output = T> + Div<Output = T>>(s: Seq<T>) -> bool {
    &&& sum_defined(T::zero_value(), s)
    &&& count_of(s) is Some
    &&& sum_from(T::zero_value(), s).div_req(count_of(s)->Some_0)
}

/// The population variance of `s`: the mean of the squares of the distances
/// of its entries from their mean.
pub open spec fn var_of<
    T: Scalar + Add<Output = T> + Sub<Output = T> + Mul<Output = T> + Div<Output = T>,
>(s: Seq<T>) -> T {
    squares_from(T::zero_value(), mean_of(s), s).div_spec(count_of(s)->Some_0)
}

/// Whether the element type can carry out each step on the way to `var_of(s)`.
pub open spec fn var_defined<
    T: Scalar + Add<Output = T> + Sub<Output = T> + Mul<Output = T> + Div<Output = T>,
>(s: Seq<T>) -> bool {
    &&& mean_defined(s)
    &&& squares_defined(T::zero_value(), mean_of(s), s)
    &&& squares_from(T::zero_value(), mean_of(s), s).div_req(count_of(s)->Some_0)
}

/// Where a sum is defined, so is the sum of each leading part.
proof fn lemma_sum_prefix<T: Add<Output = T>>(seed: T, s: Seq<T>, n: int)
    requires
        sum_defined(seed, s),
        0 <= n <= s.len(),
    ensures
        sum_defined(seed, s.take(n)),
    decreases s.len() - n,
{
    if n == s.len() {
        assert(s.take(n) =~= s);
    } else {
        lemma_sum_prefix(seed, s, n + 1);
        assert(s.take(n + 1).drop_last() =~= s.take(n));
    }
}

/// Where a product is defined, so is the product of each leading part.
proof fn lemma_product_prefix<T: Mul<Output = T>>(seed: T, s: Seq<T>, n: int)
    requires
        product_defined(seed, s),
        0 <= n <= s.len(),
    ensures
        product_defined(seed, s.take(n)),
    decreases s.len() - n,
{
    if n == s.len() {
        assert(s.take(n) =~= s);
    } else {
        lemma_product_prefix(seed, s, n + 1);
        assert(s.take(n + 1).drop_last() =~= s.take(n));
    }
}

/// Where a sum of squares is defined, so is that of each leading part.
proof fn lemma_squares_prefix<T: Add<Output = T> + Sub<Output = T> + Mul<Output = T>>(
    seed: T,
    centre: T,
    s: Seq<T>,
    n: int,
)
    requires
        squares_defined(seed, centre, s),
        0 <= n <= s.len(),
    ensures
        squares_defined(seed, centre, s.take(n)),
    decreases s.len() - n,
{
    if n == s.len() {
        assert(s.take(n) =~= s);
    } else {
        lemma_squares_prefix(seed, centre, s, n + 1);
        assert(s.take(n + 1).drop_last() =~= s.take(n));
    }
}

/// The elements added to `seed` one after the other.
fn add_up<T: Copy + Add<Output = T>>(seed: T, elements: &Vec<&T>, Ghost(s): Ghost<Seq<T>>) -> (r: T)
    requires
        refers_to(elements@, s),
        T::obeys_add_spec(),
        sum_defined(seed, s),
    ensures
        r == sum_from(seed, s),
{
    let mut acc = seed;
    let mut k: usize = 0;
    proof {
        assert(s.take(0) =~= Seq::<T>::empty());
    }
    while k < elements.len()
        invariant
            0 <= k <= s.len(),
            refers_to(elements@, s),
            T::obeys_add_spec(),
            sum_defined(seed, s),
            acc == sum_from(seed, s.take(k as int)),
        decreases s.len() - k,
    {
        proof {
            lemma_sum_prefix(seed, s, k + 1);
            assert(s.take(k + 1).drop_last() =~= s.take(k as int));
        }
        acc = acc + *elements[k];
        k += 1;
    }
    proof {
        assert(s.take(s.len() as int) =~= s);
    }
    acc
}

/// `seed` multiplied by the elements one after the other.
fn multiply_up<T: Copy + Mul<Output = T>>(
    seed: T,
    elements: &Vec<&T>,
    Ghost(s): Ghost<Seq<T>>,
) -> (r: T)
    requires
        refers_to(elements@, s),
        T::obeys_mul_spec(),
        product_defined(seed, s),
    ensures
        r == product_from(seed, s),
{
    let mut acc = seed;
    let mut k: usize = 0;
    proof {
        assert(s.take(0) =~= Seq::<T>::empty());
    }
    while k < elements.len()
        invariant
            0 <= k <= s.len(),
            refers_to(elements@, s),
            T::obeys_mul_spec(),
            product_defined(seed, s),
            acc == product_from(seed, s.take(k as int)),
        decreases s.len() - k,
    {
        proof {
            lemma_product_prefix(seed, s, k + 1);
            assert(s.take(k + 1).drop_last() =~= s.take(k as int));
        }
        acc = acc * *elements[k];
        k += 1;
    }
    proof {
        assert(s.take(s.len() as int) =~= s);
    }
    acc
}

/// The squares of the distances of the elements from `centre`, added to
/// `seed` one after the other.
fn add_up_squares<T: Copy + Add<Output = T> + Sub<Output = T> + Mul<Output = T>>(
    seed: T,
    centre: T,
    elements: &Vec<&T>,
    Ghost(s): Ghost<Seq<T>>,
) -> (r: T)
    requires
        refers_to(elements@, s),
        T::obeys_add_spec(),
        T::obeys_sub_spec(),
        T::obeys_mul_spec(),
        squares_defined(seed, centre, s),
    ensures
        r == squares_from(seed, centre, s),
{
    let mut acc = seed;
    let mut k: usize = 0;
    proof {
        assert(s.take(0) =~= Seq::<T>::empty());
    }
    while k < elements.len()
        invariant
            0 <= k <= s.len(),
            refers_to(elements@, s),
            T::obeys_add_spec(),
            T::obeys_sub_spec(),
            T::obeys_mul_spec(),
            squares_defined(seed, centre, s),
            acc == squares_from(seed, centre, s.take(k as int)),
        decreases s.len() - k,
    {
        proof {
            lemma_squares_prefix(seed, centre, s, k + 1);
            assert(s.take(k + 1).drop_last() =~= s.take(k as int));
        }
        let x = *elements[k];
        acc = acc + (x - centre) * (x - centre);
        k += 1;
    }
    proof {
        assert(s.take(s.len() as int) =~= s);
    }
    acc
}

impl<'a, T: Scalar + Add<Output = T>, const D: usize> Array<'a, T, D> {
    /// The sum of the elements, added to the zero of the element type in
    /// row-major order. The sum of no elements is that zero.
    pub fn sum(&self) -> (r: T)
        requires
            self.wf(),
            T::obeys_add_spec(),
            sum_defined(T::zero_value(), self@.flat()),
        ensures
            r == sum_from(T::zero_value(), self@.flat()),
    {
        let elements = self.flat();
        add_up(T::zero(), &elements, Ghost(self@.flat()))
    }

    /// Along `axis`, the sum of each part of the array.
    pub fn sum_across(&self, axis: usize) -> (r: Vec<T>)
        requires
            self.wf(),
            axis < D,
            T::obeys_add_spec(),
            forall|k: int|
                0 <= k < self@.parts(axis as int).len() ==> sum_defined(
                    T::zero_value(),
                    #[trigger] self@.parts(axis as int)[k],
                ),
        ensures
            r@.len() == self@.parts(axis as int).len(),
            forall|k: int|
                0 <= k < r@.len() ==> #[trigger] r@[k] == sum_from(
                    T::zero_value(),
                    self@.parts(axis as int)[k],
                ),
    {
        let views = self.axis_view(axis);
        let ghost parts = self@.parts(axis as int);
        let mut out: Vec<T> = Vec::new();
        let mut k: usize = 0;
        while k < views.len()
            invariant
                0 <= k <= views@.len(),
                views@.len() == parts.len(),
                T::obeys_add_spec(),
                forall|j: int|
                    0 <= j < views@.len() ==> (#[trigger] views@[j]).wf() && views@[j]@.flat()
                        == parts[j],
                forall|j: int|
                    0 <= j < parts.len() ==> sum_defined(T::zero_value(), #[trigger] parts[j]),
                out@.len() == k,
                forall|j: int|
                    0 <= j < k ==> #[trigger] out@[j] == sum_from(T::zero_value(), parts[j]),
            decreases views@.len() - k,
        {
            assert(sum_defined(T::zero_value(), parts[k as int]));
            out.push(views[k].sum());
            k += 1;
        }
        out
    }
}

impl<'a, T: Scalar + Mul<Output = T>, const D: usize> Array<'a, T, D> {
    /// The product of the elements, the one of the element type multiplied by
    /// each in row-major order. The product of no elements is that one.
    pub fn prod(&self) -> (r: T)
        requires
            self.wf(),
            T::obeys_mul_spec(),
            product_defined(T::one_value(), self@.flat()),
        ensures
            r == product_from(T::one_value(), self@.flat()),
    {
        let elements = self.flat();
        multiply_up(T::one(), &elements, Ghost(self@.flat()))
    }

    /// Along `axis`, the product of each part of the array.
    pub fn prod_across(&self, axis: usize) -> (r: Vec<T>)
        requires
            self.wf(),
            axis < D,
            T::obeys_mul_spec(),
            forall|k: int|
                0 <= k < self@.parts(axis as int).len() ==> product_defined(
                    T::one_value(),
                    #[trigger] self@.parts(axis as int)[k],
                ),
        ensures
            r@.len() == self@.parts(axis as int).len(),
            forall|k: int|
                0 <= k < r@.len() ==> #[trigger] r@[k] == product_from(
                    T::one_value(),
                    self@.parts(axis as int)[k],
                ),
    {
        let views = self.axis_view(axis);
        let ghost parts = self@.parts(axis as int);
        let mut out: Vec<T> = Vec::new();
        let mut k: usize = 0;
        while k < views.len()
            invariant
                0 <= k <= views@.len(),
                views@.len() == parts.len(),
                T::obeys_mul_spec(),
                forall|j: int|
                    0 <= j < views@.len() ==> (#[trigger] views@[j]).wf() && views@[j]@.flat()
                        == parts[j],
                forall|j: int|
                    0 <= j < parts.len() ==> product_defined(T::one_value(), #[trigger] parts[j]),
                out@.len() == k,
                forall|j: int|
                    0 <= j < k ==> #[trigger] out@[j] == product_from(T::one_value(), parts[j]),
            decreases views@.len() - k,
        {
            assert(product_defined(T::one_value(), parts[k as int]));
            out.push(views[k].prod());
            k += 1;
        }
        out
    }
}

impl<'a, T: Scalar + Add<Output = T> + Div<Output = T>, const D: usize> Array<'a, T, D> {
    /// The mean of the elements: their sum divided by their number, as the
    /// element type divides.
    pub fn mean(&self) -> (r: T)
        requires
            self.wf(),
            T::obeys_add_spec(),
            T::obeys_div_spec(),
            mean_defined(self@.flat()),
        ensures
            r == mean_of(self@.flat()),
    {
        let elements = self.flat();
        let total = add_up(T::zero(), &elements, Ghost(self@.flat()));
        match T::from_usize(elements.len()) {
            Some(count) => total / count,
            None => vstd::pervasive::unreached(),
        }
    }

    /// Along `axis`, the mean of each part of the array.
    pub fn mean_across(&self, axis: usize) -> (r: Vec<T>)
        requires
            self.wf(),
            axis < D,
            T::obeys_add_spec(),
            T::obeys_div_spec(),
            forall|k: int|
                0 <= k < self@.parts(axis as int).len() ==> mean_defined(
                    #[trigger] self@.parts(axis as int)[k],
                ),
        ensures
            r@.len() == self@.parts(axis as int).len(),
            forall|k: int|
                0 <= k < r@.len() ==> #[trigger] r@[k] == mean_of(
                    self@.parts(axis as int)[k],
                ),
    {
        let views = self.axis_view(axis);
        let ghost parts = self@.parts(axis as int);
        let mut out: Vec<T> = Vec::new();
        let mut k: usize = 0;
        while k < views.len()
            invariant
                0 <= k <= views@.len(),
                views@.len() == parts.len(),
                T::obeys_add_spec(),
                T::obeys_div_spec(),
                forall|j: int|
                    0 <= j < views@.len() ==> (#[trigger] views@[j]).wf() && views@[j]@.flat()
                        == parts[j],
                forall|j: int|
                    0 <= j < parts.len() ==> mean_defined(#[trigger] parts[j]),
                out@.len() == k,
                forall|j: int|
                    0 <= j < k ==> #[trigger] out@[j] == mean_of(parts[j]),
            decreases views@.len() - k,
        {
            assert(mean_defined(parts[k as int]));
            out.push(views[k].mean());
            k += 1;
        }
        out
    }
}

impl<
    'a,
    T: Scalar + Add<Output = T> + Sub<Output = T> + Mul<Output = T> + Div<Output = T>,
    const D: usize,
> Array<'a, T, D> {
    /// The population variance of the elements: the mean of the squares of
    /// their distances from their mean.
    pub fn var(&self) -> (r: T)
        requires
            self.wf(),
            T::obeys_add_spec(),
            T::obeys_sub_spec(),
            T::obeys_mul_spec(),
            T::obeys_div_spec(),
            var_defined(self@.flat()),
        ensures
            r == var_of(self@.flat()),
    {
        let elements = self.flat();
        let total = add_up(T::zero(), &elements, Ghost(self@.flat()));
        match T::from_usize(elements.len()) {
            Some(count) => {
                let mean = total / count;
                let squares = add_up_squares(T::zero(), mean, &elements, Ghost(self@.flat()));
                squares / count
            },
            None => vstd::pervasive::unreached(),
        }
    }

    /// Along `axis`, the population variance of each part of the array.
    pub fn var_across(&self, axis: usize) -> (r: Vec<T>)
        requires
            self.wf(),
            axis < D,
            T::obeys_add_spec(),
            T::obeys_sub_spec(),
            T::obeys_mul_spec(),
            T::obeys_div_spec(),
            forall|k: int|
                0 <= k < self@.parts(axis as int).len() ==> var_defined(
                    #[trigger] self@.parts(axis as int)[k],
                ),
        ensures
            r@.len() == self@.parts(axis as int).len(),
            forall|k: int|
                0 <= k < r@.len() ==> #[trigger] r@[k] == var_of(
                    self@.parts(axis as int)[k],
                ),
    {
        let views = self.axis_view(axis);
        let ghost parts = self@.parts(axis as int);
        let mut out: Vec<T> = Vec::new();
        let mut k: usize = 0;
        while k < views.len()
            invariant
                0 <= k <= views@.len(),
                views@.len() == parts.len(),
                T::obeys_add_spec(),
                T::obeys_sub_spec(),
                T::obeys_mul_spec(),
                T::obeys_div_spec(),
                forall|j: int|
                    0 <= j < views@.len() ==> (#[trigger] views@[j]).wf() && views@[j]@.flat()
                        == parts[j],
                forall|j: int|
                    0 <= j < parts.len() ==> var_defined(#[trigger] parts[j]),
                out@.len() == k,
                forall|j: int|
                    0 <= j < k ==> #[trigger] out@[j] == var_of(parts[j]),
            decreases views@.len() - k,
        {
            assert(var_defined(parts[k as int]));
            out.push(views[k].var());
            k += 1;
        }
        out
    }
}

} // verus!
