//! The junctions of a phrase.
//!
//! A phrase is the sequence of its words' readings. Between every two
//! neighbours lies a junction; its degree is the overlap of the two
//! readings' morae. The phrase's ary is the number of junctions with a degree
//! above zero, and its degree is the greatest degree among its junctions.

use crate::mora::{into_moras, lemma_moras_len, moras_of};
use crate::overlap::{find_overlap, lemma_overlap_is_longest, overlap_of};
use itertools::Itertools;
use vstd::prelude::*;
use vstd::string::StrSliceExecFns;

verus! {

/// The number of junctions between the readings.
pub open spec fn junction_count(readings: Seq<Seq<char>>) -> nat {
    if readings.len() == 0 {
        0
    } else {
        (readings.len() - 1) as nat
    }
}

/// The degree of each junction, from the first pair of neighbours to the
/// last.
pub open spec fn junction_degrees(readings: Seq<Seq<char>>) -> Seq<int> {
    Seq::new(
        junction_count(readings),
        |i: int| overlap_of(moras_of(readings[i]), moras_of(readings[i + 1])),
    )
}

/// What it takes for a junction to count.
pub open spec fn is_overlapping() -> spec_fn(int) -> bool {
    |degree: int| degree > 0
}

/// The number of junctions whose degree is above zero.
pub open spec fn ary_of(readings: Seq<Seq<char>>) -> nat {
    junction_degrees(readings).filter(is_overlapping()).len()
}

/// The greatest of the degrees; zero where there is none.
pub open spec fn greatest(degrees: Seq<int>) -> int
    decreases degrees.len(),
{
    if degrees.len() == 0 {
        0
    } else {
        let before = greatest(degrees.drop_last());
        if degrees.last() > before {
            degrees.last()
        } else {
            before
        }
    }
}

/// The greatest degree among the junctions; zero where there is no junction.
pub open spec fn degree_of(readings: Seq<Seq<char>>) -> int {
    greatest(junction_degrees(readings))
}

/// Appending one degree raises the greatest to it, if it is greater.
proof fn lemma_greatest_push(s: Seq<int>, x: int)
    ensures
        greatest(s.push(x)) == if x > greatest(s) {
            x
        } else {
            greatest(s)
        },
{
    assert(s.push(x).drop_last() =~= s);
}

/// Appending one degree adds one to the count of those above zero, if it is
/// above zero itself.
proof fn lemma_count_push(s: Seq<int>, x: int)
    ensures
        s.push(x).filter(is_overlapping()).len() == s.filter(is_overlapping()).len() + if x > 0 {
            1int
        } else {
            0int
        },
{
    reveal(Seq::filter);
    assert(s.push(x).drop_last() =~= s);
}

/// The junctions of a phrase and its two numbers.
///
/// No degree is negative, and none is above the phrase's degree. The ary is
/// at most the number of junctions. The ary is zero exactly when the degree
/// is zero, which is when no junction overlaps. Where the ary is above zero,
/// some junction has the phrase's degree.
pub proof fn lemma_junctions(readings: Seq<Seq<char>>)
    ensures
        forall|i: int|
            0 <= i < junction_count(readings) ==> 0 <= (#[trigger] junction_degrees(readings)[i])
                <= degree_of(readings),
        ary_of(readings) <= junction_count(readings),
        degree_of(readings) >= 0,
        ary_of(readings) == 0 <==> degree_of(readings) == 0,
        ary_of(readings) == 0 <==> forall|i: int|
            0 <= i < junction_count(readings) ==> (#[trigger] junction_degrees(readings)[i]) == 0,
        ary_of(readings) > 0 ==> exists|i: int|
            0 <= i < junction_count(readings) && (#[trigger] junction_degrees(readings)[i])
                == degree_of(readings),
{
    let degrees = junction_degrees(readings);
    assert forall|i: int| 0 <= i < degrees.len() implies (#[trigger] degrees[i]) >= 0 by {
        lemma_overlap_is_longest(moras_of(readings[i]), moras_of(readings[i + 1]));
    }
    lemma_prefix_numbers(degrees, degrees.len() as int);
    assert(degrees.take(degrees.len() as int) =~= degrees);
    degrees.lemma_filter_len(is_overlapping());
}

/// Of the first `n` degrees, none of them negative: the greatest is one of
/// them and none is above it, and none is above zero exactly when the
/// greatest is zero, which is when each of them is zero.
proof fn lemma_prefix_numbers(s: Seq<int>, n: int)
    requires
        0 <= n <= s.len(),
        forall|i: int| 0 <= i < s.len() ==> s[i] >= 0,
    ensures
        greatest(s.take(n)) >= 0,
        forall|i: int| 0 <= i < n ==> s[i] <= greatest(s.take(n)),
        n > 0 ==> exists|i: int| 0 <= i < n && s[i] == greatest(s.take(n)),
        s.take(n).filter(is_overlapping()).len() == 0 <==> greatest(s.take(n)) == 0,
        greatest(s.take(n)) == 0 <==> forall|i: int| 0 <= i < n ==> s[i] == 0,
    decreases n,
{
    if n == 0 {
        reveal(Seq::filter);
    } else {
        lemma_prefix_numbers(s, n - 1);
        assert(s.take(n) =~= s.take(n - 1).push(s[n - 1]));
        lemma_greatest_push(s.take(n - 1), s[n - 1]);
        lemma_count_push(s.take(n - 1), s[n - 1]);
        if n > 1 && s[n - 1] <= greatest(s.take(n - 1)) {
            let i = choose|i: int| 0 <= i < n - 1 && s[i] == greatest(s.take(n - 1));
            assert(s[i] == greatest(s.take(n)));
        } else {
            assert(s[n - 1] == greatest(s.take(n)));
        }
    }
}

/// The ary and the degree of the phrase can be told in an `i32`.
pub open spec fn numbers_fit(readings: Seq<Seq<char>>) -> bool {
    ary_of(readings) <= i32::MAX && degree_of(readings) <= i32::MAX
}

/// The phrase has no more junctions than an `i32` can count, and no reading
/// of more characters than that.
pub open spec fn sizes_fit(readings: Seq<Seq<char>>) -> bool {
    &&& junction_count(readings) <= i32::MAX
    &&& forall|i: int| 0 <= i < readings.len() ==> (#[trigger] readings[i]).len() <= i32::MAX
}

/// The numbers of a phrase fit wherever its sizes do.
pub proof fn lemma_numbers_fit(readings: Seq<Seq<char>>)
    requires
        sizes_fit(readings),
    ensures
        numbers_fit(readings),
{
    lemma_junctions(readings);
    if ary_of(readings) > 0 {
        let i = choose|i: int|
            0 <= i < junction_count(readings) && (#[trigger] junction_degrees(readings)[i])
                == degree_of(readings);
        lemma_overlap_is_longest(moras_of(readings[i]), moras_of(readings[i + 1]));
        lemma_moras_len(readings[i]);
    }
}

/// Tells whether the sizes of a phrase fit, so that its numbers do.
pub fn check_sizes(pronounciations: &[String]) -> (fit: bool)
    ensures
        fit == sizes_fit(pronounciations.deep_view()),
        fit ==> numbers_fit(pronounciations.deep_view()),
{
    let ghost readings = pronounciations.deep_view();
    if pronounciations.len() > 0 && pronounciations.len() - 1 > i32::MAX as usize {
        return false;
    }
    for i in 0..pronounciations.len()
        invariant
            readings == pronounciations.deep_view(),
            junction_count(readings) <= i32::MAX,
            forall|j: int| 0 <= j < i ==> (#[trigger] readings[j]).len() <= i32::MAX,
    {
        if pronounciations[i].as_str().unicode_len() > i32::MAX as usize {
            assert(readings[i as int].len() > i32::MAX);
            return false;
        }
    }
    proof {
        lemma_numbers_fit(readings);
    }
    true
}

/// `Itertools::tuple_windows` for pairs, over clones of the items: it hands
/// out every item together with the one after it, in the items' order, so
/// one pair fewer than there are items, and none where there are fewer than
/// two.
#[verifier::external_body]
fn tuple_windows(items: &Vec<Vec<String>>) -> (windows: Vec<(Vec<String>, Vec<String>)>)
    ensures
        windows.len() == if items.len() == 0 {
            0
        } else {
            items.len() - 1
        },
        forall|i: int|
            0 <= i < windows.len() ==> (#[trigger] windows[i]).0.deep_view()
                == items[i].deep_view() && windows[i].1.deep_view() == items[i + 1].deep_view(),
{
    items.iter().cloned().tuple_windows().collect()
}

/// The ary and the degree of a phrase, given by its words' readings.
///
/// Both are handed out as `i32`, so they have to fit. They do wherever the
/// phrase's sizes fit, which `check_sizes` tells.
pub fn compute_ary_and_degree(pronounciations: &[String]) -> (numbers: (i32, i32))
    requires
        numbers_fit(pronounciations.deep_view()),
    ensures
        numbers.0 == ary_of(pronounciations.deep_view()),
        numbers.1 == degree_of(pronounciations.deep_view()),
        0 <= numbers.0 <= junction_count(pronounciations.deep_view()),
        numbers.0 == 0 <==> numbers.1 == 0,
        numbers.0 > 0 ==> numbers.1 > 0,
        pronounciations.len() <= 1 ==> numbers == (0i32, 0i32),
{
    let ghost readings = pronounciations.deep_view();
    let ghost degrees = junction_degrees(readings);

    let mut moras: Vec<Vec<String>> = Vec::new();
    for i in 0..pronounciations.len()
        invariant
            readings == pronounciations.deep_view(),
            moras.len() == i,
            forall|j: int| 0 <= j < i ==> (#[trigger] moras[j]).deep_view() == moras_of(readings[j]),
    {
        moras.push(into_moras(pronounciations[i].as_str()));
    }

    let windows = tuple_windows(&moras);
    assert forall|j: int| 0 <= j < degrees.len() implies degrees[j] >= 0 by {
        lemma_overlap_is_longest(moras_of(readings[j]), moras_of(readings[j + 1]));
    }
    let mut ary: usize = 0;
    let mut max_degree: usize = 0;
    for i in 0..windows.len()
        invariant
            degrees == junction_degrees(readings),
            windows.len() == degrees.len(),
            forall|j: int|
                0 <= j < windows.len() ==> (#[trigger] windows[j]).0.deep_view() == moras_of(
                    readings[j],
                ) && windows[j].1.deep_view() == moras_of(readings[j + 1]),
            forall|j: int| 0 <= j < degrees.len() ==> degrees[j] >= 0,
            ary == degrees.take(i as int).filter(is_overlapping()).len(),
            ary <= i,
            max_degree == greatest(degrees.take(i as int)),
    {
        let degree = find_overlap(&windows[i].0, &windows[i].1);
        proof {
            assert(degree == degrees[i as int]);
            assert(degrees.take(i + 1) =~= degrees.take(i as int).push(degrees[i as int]));
            lemma_greatest_push(degrees.take(i as int), degrees[i as int]);
            lemma_count_push(degrees.take(i as int), degrees[i as int]);
        }
        if degree > 0 {
            if degree > max_degree {
                max_degree = degree;
            }
            ary += 1;
        }
    }
    proof {
        assert(degrees.take(degrees.len() as int) =~= degrees);
        lemma_junctions(readings);
    }
    (ary as i32, max_degree as i32)
}

} // verus!
