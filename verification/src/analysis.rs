//! The analysis of a phrase: its readings and what kind of gomamayo it is.

use crate::error::{GomamayoError, GomamayoResult};
use crate::junction::{
    ary_of, compute_ary_and_degree, degree_of, junction_count, lemma_junctions, lemma_numbers_fit,
    numbers_fit, sizes_fit,
};
use crate::reading::{
    all_resolved, first_unresolved, readings_of, token_reading, token_views,
    tokens_to_pronounciations, Token, TokenView,
};
use vstd::prelude::*;
use vstd::string::StrSliceExecFns;

verus! {

/// The outcome of an analysis.
#[derive(Debug, Clone, PartialEq, Eq, Hash, PartialOrd, Ord)]
pub struct Gomamayo {
    /// What kind of gomamayo the phrase is; none where it is not one.
    pub kind: Option<GomamayoKind>,
    /// The readings of the phrase's words, in their order.
    pub pronounciations: Vec<String>,
}

/// How much of a gomamayo a phrase is.
#[derive(Debug, Clone, PartialEq, Eq, Hash, PartialOrd, Ord)]
pub struct GomamayoKind {
    /// The number of junctions at which the neighbours overlap.
    pub ary: i32,
    /// The greatest number of morae that two neighbours share.
    pub degree: i32,
}

/// `kind` is the kind of the phrase with these readings: none where no
/// junction overlaps, else the phrase's ary and degree.
pub open spec fn is_kind_of(kind: Option<GomamayoKind>, readings: Seq<Seq<char>>) -> bool {
    match kind {
        Some(kind) => {
            &&& ary_of(readings) > 0
            &&& kind.ary == ary_of(readings)
            &&& kind.degree == degree_of(readings)
        },
        None => ary_of(readings) == 0,
    }
}

impl Gomamayo {
    /// The kind is the kind of the phrase with these readings.
    pub open spec fn wf(&self) -> bool {
        is_kind_of(self.kind, self.pronounciations.deep_view())
    }
}

/// A phrase of one word has no junction: its ary and its degree are zero, and
/// it is no gomamayo. The same holds of the empty phrase.
pub proof fn lemma_single_reading(readings: Seq<Seq<char>>)
    requires
        readings.len() <= 1,
    ensures
        ary_of(readings) == 0,
        degree_of(readings) == 0,
        is_kind_of(None, readings),
        forall|kind: Option<GomamayoKind>| is_kind_of(kind, readings) ==> kind is None,
{
    lemma_junctions(readings);
}

/// A phrase has one kind, and it is none exactly when the ary is zero.
pub proof fn lemma_kind_unique(
    first: Option<GomamayoKind>,
    second: Option<GomamayoKind>,
    readings: Seq<Seq<char>>,
)
    requires
        is_kind_of(first, readings),
        is_kind_of(second, readings),
    ensures
        first == second,
        first is None <==> ary_of(readings) == 0,
{
}

/// There are no more junctions between the tokens than an `i32` can count,
/// and no token has a reading of more characters than that.
pub open spec fn token_sizes_fit(tokens: Seq<TokenView>) -> bool {
    &&& tokens.len() <= 1 || tokens.len() - 1 <= i32::MAX
    &&& forall|i: int|
        0 <= i < tokens.len() ==> match (#[trigger] tokens[i]).reading() {
            Some(reading) => reading.len() <= i32::MAX,
            None => true,
        }
}

/// Where the sizes of the tokens fit, so do the numbers of the phrase that
/// they make.
pub proof fn lemma_token_numbers_fit(tokens: Seq<TokenView>)
    requires
        token_sizes_fit(tokens),
        all_resolved(tokens),
    ensures
        numbers_fit(readings_of(tokens)),
{
    let readings = readings_of(tokens);
    assert(junction_count(readings) <= i32::MAX);
    assert forall|i: int| 0 <= i < readings.len() implies (#[trigger] readings[i]).len()
        <= i32::MAX by {
        assert(tokens[i].reading() is Some);
    }
    assert(sizes_fit(readings));
    lemma_numbers_fit(readings);
}

/// Tells whether the sizes of the tokens fit, so that `analyze` can take
/// them.
pub fn check_token_sizes(tokens: &Vec<Token>) -> (fit: bool)
    ensures
        fit == token_sizes_fit(token_views(tokens@)),
        fit && all_resolved(token_views(tokens@)) ==> numbers_fit(
            readings_of(token_views(tokens@)),
        ),
{
    let ghost views = token_views(tokens@);
    if tokens.len() > 1 && tokens.len() - 1 > i32::MAX as usize {
        return false;
    }
    for i in 0..tokens.len()
        invariant
            views == token_views(tokens@),
            tokens.len() <= 1 || tokens.len() - 1 <= i32::MAX,
            forall|j: int|
                0 <= j < i ==> match (#[trigger] views[j]).reading() {
                    Some(reading) => reading.len() <= i32::MAX,
                    None => true,
                },
    {
        match token_reading(&tokens[i]) {
            Some(reading) => {
                if reading.as_str().unicode_len() > i32::MAX as usize {
                    assert(views[i as int].reading().unwrap().len() > i32::MAX);
                    return false;
                }
            },
            None => {},
        }
    }
    proof {
        if all_resolved(views) {
            lemma_token_numbers_fit(views);
        }
    }
    true
}

/// Classifies a phrase, given by the readings of its words.
///
/// The phrase is a gomamayo when at least one junction overlaps; its kind
/// then tells the ary and the degree.
pub fn classify(pronounciations: Vec<String>) -> (gomamayo: Gomamayo)
    requires
        numbers_fit(pronounciations.deep_view()),
    ensures
        gomamayo.pronounciations == pronounciations,
        gomamayo.wf(),
        gomamayo.kind is None <==> ary_of(pronounciations.deep_view()) == 0,
        pronounciations.len() <= 1 ==> gomamayo.kind is None,
{
    let (ary, degree) = compute_ary_and_degree(pronounciations.as_slice());
    let kind = if ary > 0 {
        Some(GomamayoKind { ary, degree })
    } else {
        None
    };
    Gomamayo { kind, pronounciations }
}

/// Analyzes a phrase, given by the tokens that a tokenizer made of it.
///
/// It succeeds exactly when every token has a reading, with the readings and
/// the kind of the phrase. Otherwise it fails with the first token that has
/// none.
pub fn analyze(tokens: &Vec<Token>) -> (r: GomamayoResult<Gomamayo>)
    requires
        all_resolved(token_views(tokens@)) ==> numbers_fit(readings_of(token_views(tokens@))),
    ensures
        r is Ok <==> all_resolved(token_views(tokens@)),
        match r {
            Ok(gomamayo) => {
                &&& gomamayo.pronounciations.deep_view() == readings_of(token_views(tokens@))
                &&& gomamayo.wf()
            },
            Err(GomamayoError::UnknownPronounciationError(e)) => exists|k: int|
                #[trigger] first_unresolved(token_views(tokens@), k) && e.text@ == tokens[k].text@,
            Err(_) => false,
        },
{
    match tokens_to_pronounciations(tokens) {
        Ok(pronounciations) => Ok(classify(pronounciations)),
        Err(e) => Err(GomamayoError::UnknownPronounciationError(e)),
    }
}

} // verus!
