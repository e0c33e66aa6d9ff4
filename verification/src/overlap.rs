//! The overlap of two adjacent readings.
//!
//! Two mora sequences overlap by `d` when the last `d` morae of the left one
//! are the first `d` morae of the right one. Morae are compared whole: two
//! morae are the same when they hold the same characters.

use vstd::prelude::*;

verus! {

/// The last `d` morae of `left` are the first `d` morae of `right`.
pub open spec fn overlaps_by(left: Seq<Seq<char>>, right: Seq<Seq<char>>, d: int) -> bool {
    &&& 0 <= d <= left.len()
    &&& d <= right.len()
    &&& left.subrange(left.len() - d, left.len() as int) == right.subrange(0, d)
}

/// The two overlap by `d`, and by nothing greater.
pub open spec fn is_longest_overlap(left: Seq<Seq<char>>, right: Seq<Seq<char>>, d: int) -> bool {
    &&& overlaps_by(left, right, d)
    &&& forall|e: int| #[trigger] overlaps_by(left, right, e) ==> e <= d
}

/// The number of morae that the end of `left` shares with the start of
/// `right`: the greatest `d` by which the two overlap.
pub open spec fn overlap_of(left: Seq<Seq<char>>, right: Seq<Seq<char>>) -> int {
    choose|d: int| is_longest_overlap(left, right, d)
}

/// Two sequences always overlap by nothing.
pub proof fn lemma_overlaps_by_zero(left: Seq<Seq<char>>, right: Seq<Seq<char>>)
    ensures
        overlaps_by(left, right, 0),
{
    assert(left.subrange(left.len() - 0, left.len() as int) =~= right.subrange(0, 0));
}

/// Finds the greatest `d` up to `limit` by which the two overlap.
proof fn longest_overlap_within(left: Seq<Seq<char>>, right: Seq<Seq<char>>, limit: int) -> (d:
    int)
    requires
        0 <= limit,
    ensures
        0 <= d <= limit,
        overlaps_by(left, right, d),
        forall|e: int| d < e <= limit ==> !overlaps_by(left, right, e),
    decreases limit,
{
    if limit == 0 {
        lemma_overlaps_by_zero(left, right);
        0
    } else if overlaps_by(left, right, limit) {
        limit
    } else {
        longest_overlap_within(left, right, limit - 1)
    }
}

/// Two mora sequences have one longest overlap, and `overlap_of` is it. It
/// is no longer than either sequence, the two overlap by it, and they
/// overlap by nothing greater.
pub proof fn lemma_overlap_is_longest(left: Seq<Seq<char>>, right: Seq<Seq<char>>)
    ensures
        is_longest_overlap(left, right, overlap_of(left, right)),
        0 <= overlap_of(left, right) <= left.len(),
        overlap_of(left, right) <= right.len(),
        overlaps_by(left, right, overlap_of(left, right)),
        forall|d: int| overlap_of(left, right) < d ==> !overlaps_by(left, right, d),
        forall|d: int| is_longest_overlap(left, right, d) ==> d == overlap_of(left, right),
{
    let d = longest_overlap_within(left, right, left.len() as int);
    assert(is_longest_overlap(left, right, d));
}

/// Tells whether the last `d` morae of `left` are the first `d` of `right`.
fn suffix_is_prefix(left: &Vec<String>, right: &Vec<String>, d: usize) -> (b: bool)
    requires
        d <= left.len(),
        d <= right.len(),
    ensures
        b == overlaps_by(left.deep_view(), right.deep_view(), d as int),
{
    let start = left.len() - d;
    let ghost tail = left.deep_view().subrange(start as int, left.len() as int);
    let ghost head = right.deep_view().subrange(0, d as int);
    for k in 0..d
        invariant
            start + d == left.len(),
            d <= right.len(),
            tail == left.deep_view().subrange(start as int, left.len() as int),
            head == right.deep_view().subrange(0, d as int),
            forall|j: int| 0 <= j < k ==> tail[j] == head[j],
    {
        if left[start + k] != right[k] {
            assert(tail[k as int] != head[k as int]);
            return false;
        }
    }
    assert(tail =~= head);
    true
}

/// The number of morae that the end of `left` shares with the start of
/// `right`.
///
/// Every length from the shorter sequence's down to one is tried, and the
/// first that fits is the answer; zero if none fits.
pub fn find_overlap(left: &Vec<String>, right: &Vec<String>) -> (degree: usize)
    ensures
        degree == overlap_of(left.deep_view(), right.deep_view()),
        degree <= left.len(),
        degree <= right.len(),
        overlaps_by(left.deep_view(), right.deep_view(), degree as int),
        forall|d: int| degree < d ==> !overlaps_by(left.deep_view(), right.deep_view(), d),
{
    let limit = if left.len() <= right.len() {
        left.len()
    } else {
        right.len()
    };
    let mut d = limit;
    while d > 0
        invariant
            d <= left.len(),
            d <= right.len(),
            forall|e: int| d < e ==> !overlaps_by(left.deep_view(), right.deep_view(), e),
        decreases d,
    {
        if suffix_is_prefix(left, right, d) {
            proof {
                assert(is_longest_overlap(left.deep_view(), right.deep_view(), d as int));
                lemma_overlap_is_longest(left.deep_view(), right.deep_view());
            }
            return d;
        }
        d -= 1;
    }
    proof {
        lemma_overlaps_by_zero(left.deep_view(), right.deep_view());
        assert(is_longest_overlap(left.deep_view(), right.deep_view(), 0));
        lemma_overlap_is_longest(left.deep_view(), right.deep_view());
    }
    0
}

} // verus!
