//! Bringing the range notations of the language into the one form that
//! slicing takes: a start and an end that is not part of the range.

use std::ops::Bound;
use std::ops::Range;
use std::ops::RangeBounds;
use vstd::prelude::*;

verus! {

/// One end of a range as it was written down.
#[derive(Debug, Clone, Copy, PartialEq, Eq, Structural)]
pub enum Edge {
    /// The range reaches up to this coordinate and holds it.
    Included(usize),
    /// The range reaches up to this coordinate and leaves it out.
    Excluded(usize),
    /// The range has no bound on this side.
    Unbounded,
}

/// The first coordinate of a range that starts at `start`.
pub open spec fn first_of(start: Edge) -> int {
    match start {
        Edge::Included(s) => s as int,
        Edge::Excluded(s) => s + 1,
        Edge::Unbounded => 0,
    }
}

/// The coordinate behind the last one of a range that ends at `end`. Where
/// an inclusive end is the largest machine word, and where the range has no
/// end, that is `upper_bound`.
pub open spec fn behind_of(upper_bound: usize, end: Edge) -> int {
    match end {
        Edge::Included(e) => if e < usize::MAX {
            e + 1
        } else {
            upper_bound as int
        },
        Edge::Excluded(e) => e as int,
        Edge::Unbounded => upper_bound as int,
    }
}

/// Whether `r` is the range from `start` to `end` in the form of a start
/// and an end that is left out.
pub open spec fn bounds(r: Range<usize>, upper_bound: usize, start: Edge, end: Edge) -> bool {
    r.start == first_of(start) && r.end == behind_of(upper_bound, end)
}

/// `RangeBounds::start_bound`, with the bound it returns carried over
/// variant by variant.
#[verifier::external_body]
fn start_of<R: RangeBounds<usize>>(range: &R) -> (r: Edge) {
    match range.start_bound() {
        Bound::Included(s) => Edge::Included(*s),
        Bound::Excluded(s) => Edge::Excluded(*s),
        Bound::Unbounded => Edge::Unbounded,
    }
}

/// `RangeBounds::end_bound`, with the bound it returns carried over variant
/// by variant.
#[verifier::external_body]
fn end_of<R: RangeBounds<usize>>(range: &R) -> (r: Edge) {
    match range.end_bound() {
        Bound::Included(e) => Edge::Included(*e),
        Bound::Excluded(e) => Edge::Excluded(*e),
        Bound::Unbounded => Edge::Unbounded,
    }
}

/// The range from `start` to `end` in the form of a start and an end that is
/// left out, with `upper_bound` standing in for an end that is missing or
/// cannot be counted past. A start behind the largest machine word cannot
/// be written in that form.
pub fn range_between(upper_bound: usize, start: Edge, end: Edge) -> (r: Range<usize>)
    requires
        start != Edge::Excluded(usize::MAX),
    ensures
        bounds(r, upper_bound, start, end),
{
    let first = match start {
        Edge::Included(s) => s,
        Edge::Excluded(s) => s + 1,
        Edge::Unbounded => 0,
    };
    let behind = match end {
        Edge::Included(e) => match e.checked_add(1) {
            Some(next) => next,
            None => upper_bound,
        },
        Edge::Excluded(e) => e,
        Edge::Unbounded => upper_bound,
    };
    first..behind
}

/// Whether `r` is what the range from `start` to `end` comes to: nothing
/// where the start lies behind the largest machine word, else the range in
/// the form of a start and an end that is left out.
pub open spec fn comes_to(
    r: Option<Range<usize>>,
    upper_bound: usize,
    start: Edge,
    end: Edge,
) -> bool {
    &&& r is None <==> start == Edge::Excluded(usize::MAX)
    &&& r is Some ==> bounds(r->Some_0, upper_bound, start, end)
}

/// The range from `start` to `end` in the form of a start and an end that is
/// left out, with `upper_bound` standing in for an end that is missing or
/// cannot be counted past; `None` where the start lies behind the largest
/// machine word.
pub fn range_of_edges(upper_bound: usize, start: Edge, end: Edge) -> (r: Option<Range<usize>>)
    ensures
        r is None <==> start == Edge::Excluded(usize::MAX),
        r matches Some(x) ==> bounds(x, upper_bound, start, end),
        comes_to(r, upper_bound, start, end),
{
    match start {
        Edge::Excluded(s) => {
            if s == usize::MAX {
                return None;
            }
        },
        _ => {},
    }
    Some(range_between(upper_bound, start, end))
}

/// The given range in the form of a start and an end that is left out: what
/// `range_of_edges` makes of the two bounds that the range reports.
pub fn bounded_range_of<R: RangeBounds<usize>>(upper_bound: usize, range: &R) -> (r: Option<
    Range<usize>,
>)
    ensures
        exists|start: Edge, end: Edge| #[trigger] comes_to(r, upper_bound, start, end),
{
    let start = start_of(range);
    let end = end_of(range);
    let r = range_of_edges(upper_bound, start, end);
    assert(comes_to(r, upper_bound, start, end));
    r
}

} // verus!
