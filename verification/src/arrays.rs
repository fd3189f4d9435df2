//! Rearranging fixed-size arrays.

use vstd::prelude::*;

verus! {

/// The entries of `a` in the opposite order.
pub(crate) fn reversed<U: Copy, const D: usize>(a: &[U; D]) -> (r: [U; D])
    ensures
        r@ == a@.reverse(),
{
    let mut r = *a;
    let mut i: usize = 0;
    while i < D
        invariant
            0 <= i <= D,
            forall|j: int| 0 <= j < i ==> r@[j] == a@[D - 1 - j],
        decreases D - i,
    {
        r[i] = a[D - 1 - i];
        i += 1;
    }
    assert(r@ =~= a@.reverse());
    r
}

/// The entries of `a` with those at `i` and `j` exchanged.
pub(crate) fn with_exchanged<U: Copy, const D: usize>(a: &[U; D], i: usize, j: usize) -> (r: [U; D])
    requires
        i < D,
        j < D,
    ensures
        r@ == a@.update(i as int, a@[j as int]).update(j as int, a@[i as int]),
{
    let mut r = *a;
    r[i] = a[j];
    r[j] = a[i];
    r
}

} // verus!
