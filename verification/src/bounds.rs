//! Size estimates: what the pipelines' iterators report of how much is still to come.
use vstd::prelude::*;

verus! {

/// The size estimate of `iter`, as `Iterator::size_hint` reports it: a lower bound and,
/// where there is one, an upper bound. An estimate binds the iterator to nothing, so
/// nothing is claimed of it.
#[verifier::external_body]
fn size_hint_of<I: Iterator>(iter: &I) -> (hint: (usize, Option<usize>)) {
    iter.size_hint()
}

/// Whether `hint` is a size estimate that `iter` gives of itself: one that a call of
/// `Iterator::size_hint` on `iter` returns. Nothing more is known of such an estimate, and
/// two calls on one iterator need not agree.
pub closed spec fn reports<I: Iterator>(iter: &I, hint: (usize, Option<usize>)) -> bool {
    call_ensures(size_hint_of::<I>, (iter,), hint)
}

/// Asks `iter` for its size estimate.
pub(crate) fn reported_hint<I: Iterator>(iter: &I) -> (hint: (usize, Option<usize>))
    ensures
        reports(iter, hint),
{
    size_hint_of(iter)
}

/// The larger of two upper bounds. A missing bound stands for a stream without a known
/// end, so where either is missing there is no upper bound.
pub open spec fn larger_bound(first: Option<usize>, second: Option<usize>) -> Option<usize> {
    match (first, second) {
        (Some(a), Some(b)) => if a >= b {
            Some(a)
        } else {
            Some(b)
        },
        _ => None,
    }
}

/// The size estimate of a stream that hands out some of the items of a source with the
/// estimate `source_hint` and none of its own: every item may be held back, so the lower
/// bound is 0, and the upper bound is the source's.
pub fn unwrapped_hint(source_hint: (usize, Option<usize>)) -> (hint: (usize, Option<usize>))
    ensures
        hint == (0usize, source_hint.1),
{
    let (_, high) = source_hint;
    (0, high)
}

/// The size estimate of a recombined stream: no lower bound, and as upper bound the
/// larger of `transformed_max`, the upper bound of the transformed stream, and
/// `original_max`, that of the source before any of it was pulled. Where either has no
/// upper bound, neither has the recombined stream.
pub fn rewrapped_hint(transformed_max: Option<usize>, original_max: Option<usize>) -> (hint: (
    usize,
    Option<usize>,
))
    ensures
        hint == (0usize, larger_bound(transformed_max, original_max)),
{
    let max_size = match (transformed_max, original_max) {
        (Some(a), Some(b)) => if a >= b {
            Some(a)
        } else {
            Some(b)
        },
        _ => None,
    };
    (0, max_size)
}

} // verus!
