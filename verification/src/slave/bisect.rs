//! Bisection of a slice by a threshold.
use vstd::prelude::*;

verus! {

/// Bisection of `slice` between `start` and `end` can land at `at`, given what
/// `threshold` may answer: at each step the middle item is asked; on `true` the search
/// goes on before it, on `false` behind it.
pub open spec fn bisect_lands<T, F: Fn(&T) -> bool>(
    slice: Seq<T>,
    threshold: F,
    start: int,
    end: int,
    at: int,
) -> bool
    decreases end - start,
{
    if start >= end {
        at == end
    } else {
        let mid = start + (end - start) / 2;
        ||| (threshold.ensures((&slice[mid],), true) && bisect_lands(
            slice,
            threshold,
            start,
            mid,
            at,
        ))
        ||| (threshold.ensures((&slice[mid],), false) && bisect_lands(
            slice,
            threshold,
            mid + 1,
            end,
            at,
        ))
    }
}

/// Where bisection between `start` and `end` lands when the threshold answers
/// `flags[i]` for item `i`.
pub open spec fn spec_bisect(flags: Seq<bool>, start: int, end: int) -> int
    decreases end - start,
{
    if start >= end {
        end
    } else {
        let mid = start + (end - start) / 2;
        if flags[mid] {
            spec_bisect(flags, start, mid)
        } else {
            spec_bisect(flags, mid + 1, end)
        }
    }
}

/// Bisects a slice: the first `i` at which `threshold(slice[i])` is true, where the
/// threshold is false up to some item and true from it on.
///
/// On a threshold that goes back and forth it still lands between an item where it is
/// false and one where it is true; `bisect_lands` says where.
pub fn bisect_slice<T, F: Fn(&T) -> bool>(slice: &[T], threshold: F) -> (end: usize)
    requires
        forall|i: int| 0 <= i < slice@.len() ==> threshold.requires((&#[trigger] slice@[i],)),
    ensures
        end <= slice@.len(),
        bisect_lands(slice@, threshold, 0, slice@.len() as int, end as int),
        end < slice@.len() ==> threshold.ensures((&slice@[end as int],), true),
        end > 0 ==> threshold.ensures((&slice@[end - 1],), false),
{
    let mut start: usize = 0;
    let mut end: usize = slice.len();
    while start < end
        invariant
            start <= end <= slice@.len(),
            forall|i: int| 0 <= i < slice@.len() ==> threshold.requires((&#[trigger] slice@[i],)),
            forall|at: int|
                bisect_lands(slice@, threshold, start as int, end as int, at) ==> bisect_lands(
                    slice@,
                    threshold,
                    0,
                    slice@.len() as int,
                    at,
                ),
            end < slice@.len() ==> threshold.ensures((&slice@[end as int],), true),
            start > 0 ==> threshold.ensures((&slice@[start - 1],), false),
        decreases end - start,
    {
        let mid: usize = start + (end - start) / 2;
        let ghost before_start = start as int;
        let ghost before_end = end as int;
        if threshold(&slice[mid]) {
            end = mid;
        } else {
            start = mid + 1;
        }
        assert forall|at: int|
            bisect_lands(slice@, threshold, start as int, end as int, at) implies bisect_lands(
            slice@,
            threshold,
            0,
            slice@.len() as int,
            at,
        ) by {
            assert(bisect_lands(slice@, threshold, before_start, before_end, at));
        }
    }
    assert(bisect_lands(slice@, threshold, start as int, end as int, end as int));
    end
}

/// Bisection stays between its bounds.
pub proof fn lemma_bisect_bounds(flags: Seq<bool>, start: int, end: int)
    requires
        start <= end,
    ensures
        start <= spec_bisect(flags, start, end) <= end,
    decreases end - start,
{
    if start < end {
        let mid = start + (end - start) / 2;
        if flags[mid] {
            lemma_bisect_bounds(flags, start, mid);
        } else {
            lemma_bisect_bounds(flags, mid + 1, end);
        }
    }
}

/// Bisection lands between an item that is below the threshold and one that is not.
pub proof fn lemma_bisect_edge(flags: Seq<bool>, start: int, end: int)
    requires
        0 <= start <= end <= flags.len(),
        start > 0 ==> !flags[start - 1],
        end < flags.len() ==> flags[end],
    ensures
        spec_bisect(flags, start, end) > 0 ==> !flags[spec_bisect(flags, start, end) - 1],
        spec_bisect(flags, start, end) < flags.len() ==> flags[spec_bisect(flags, start, end)],
    decreases end - start,
{
    if start < end {
        let mid = start + (end - start) / 2;
        if flags[mid] {
            lemma_bisect_edge(flags, start, mid);
        } else {
            lemma_bisect_edge(flags, mid + 1, end);
        }
    }
}

/// Where the threshold is false up to some item and true from it on, bisection lands on
/// that item: the first at which the threshold is true.
pub proof fn lemma_bisect_first(flags: Seq<bool>)
    requires
        forall|i: int, j: int| 0 <= i <= j < flags.len() && flags[i] ==> flags[j],
    ensures
        0 <= spec_bisect(flags, 0, flags.len() as int) <= flags.len(),
        forall|i: int| 0 <= i < spec_bisect(flags, 0, flags.len() as int) ==> !flags[i],
        forall|i: int| spec_bisect(flags, 0, flags.len() as int) <= i < flags.len() ==> flags[i],
{
    let at = spec_bisect(flags, 0, flags.len() as int);
    lemma_bisect_bounds(flags, 0, flags.len() as int);
    lemma_bisect_edge(flags, 0, flags.len() as int);
    assert forall|i: int| 0 <= i < at implies !flags[i] by {
        if flags[i] {
            assert(flags[at - 1]);
        }
    }
    assert forall|i: int| at <= i < flags.len() implies flags[i] by {
        assert(flags[at]);
    }
}

/// Bisection by a threshold that answers `flags[i]` for item `i`, and nothing else,
/// lands where `spec_bisect` says.
pub proof fn lemma_bisect_lands<T, F: Fn(&T) -> bool>(
    slice: Seq<T>,
    threshold: F,
    flags: Seq<bool>,
    start: int,
    end: int,
    at: int,
)
    requires
        0 <= start <= end <= slice.len(),
        flags.len() == slice.len(),
        forall|i: int|
            0 <= i < slice.len() ==> (threshold.ensures((&#[trigger] slice[i],), true)
                ==> flags[i]),
        forall|i: int|
            0 <= i < slice.len() ==> (threshold.ensures((&#[trigger] slice[i],), false)
                ==> !flags[i]),
        bisect_lands(slice, threshold, start, end, at),
    ensures
        at == spec_bisect(flags, start, end),
    decreases end - start,
{
    if start < end {
        let mid = start + (end - start) / 2;
        if threshold.ensures((&slice[mid],), true) && bisect_lands(
            slice,
            threshold,
            start,
            mid,
            at,
        ) {
            lemma_bisect_lands(slice, threshold, flags, start, mid, at);
        } else {
            lemma_bisect_lands(slice, threshold, flags, mid + 1, end, at);
        }
    }
}

} // verus!
