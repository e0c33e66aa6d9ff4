//! From a tokenizer's output to the readings of a phrase.
//!
//! A tokenizer hands out, for each word it found, the word's text and a row
//! of details from its dictionary. Two columns of that row may hold how the
//! word is said. This module picks the reading of each token, or names the
//! first token that has none.

use crate::error::UnknownPronounciationError;
use vstd::prelude::*;
use vstd::string::StrSliceExecFns;

verus! {

/// The column that holds a word's reading as it is written in kana.
pub const LINDERA_DETAIL_READING_COLUMN: usize = 6;

/// The column that holds a word's reading as it is spoken.
pub const LINDERA_DETAIL_PRONOUNCIATION_COLUMN: usize = 9;

/// One word of the input as the tokenizer found it.
#[derive(Debug, Clone, PartialEq, Eq)]
pub struct Token {
    /// The word as it stands in the input.
    pub text: String,
    /// The dictionary's row for the word, if it has one.
    pub details: Option<Vec<String>>,
}

/// A token as the contracts see it.
pub struct TokenView {
    pub text: Seq<char>,
    pub details: Option<Seq<Seq<char>>>,
}

impl View for Token {
    type V = TokenView;

    open spec fn view(&self) -> TokenView {
        TokenView { text: self.text@, details: self.details.deep_view() }
    }
}

/// What a column holds in place of a value.
pub open spec fn placeholder() -> Seq<char> {
    seq!['*']
}

/// The value in one column of a row: none where the row is too short or the
/// column holds the placeholder.
pub open spec fn column_value(details: Seq<Seq<char>>, column: int) -> Option<Seq<char>> {
    if 0 <= column < details.len() && details[column] != placeholder() {
        Some(details[column])
    } else {
        None
    }
}

/// The reading that a row of details gives: the spoken form where the row
/// has one, else the written form, else none.
pub open spec fn reading_of_details(details: Seq<Seq<char>>) -> Option<Seq<char>> {
    match column_value(details, LINDERA_DETAIL_PRONOUNCIATION_COLUMN as int) {
        Some(spoken) => Some(spoken),
        None => column_value(details, LINDERA_DETAIL_READING_COLUMN as int),
    }
}

impl TokenView {
    /// The token's reading, if its details give one.
    pub open spec fn reading(self) -> Option<Seq<char>> {
        match self.details {
            Some(details) => reading_of_details(details),
            None => None,
        }
    }
}

/// The tokens as the contracts see them.
pub open spec fn token_views(tokens: Seq<Token>) -> Seq<TokenView> {
    Seq::new(tokens.len(), |i: int| tokens[i]@)
}

/// Every token has a reading.
pub open spec fn all_resolved(tokens: Seq<TokenView>) -> bool {
    forall|i: int| 0 <= i < tokens.len() ==> (#[trigger] tokens[i]).reading() is Some
}

/// Token `k` has no reading, and every token before it has one.
pub open spec fn first_unresolved(tokens: Seq<TokenView>, k: int) -> bool {
    &&& 0 <= k < tokens.len()
    &&& tokens[k].reading() is None
    &&& forall|i: int| 0 <= i < k ==> (#[trigger] tokens[i]).reading() is Some
}

/// The readings of the tokens, in their order. It is meant for tokens that
/// all have one.
pub open spec fn readings_of(tokens: Seq<TokenView>) -> Seq<Seq<char>> {
    Seq::new(tokens.len(), |i: int| tokens[i].reading().unwrap())
}

/// Tells whether a column holds the placeholder.
fn is_placeholder(entry: &str) -> (b: bool)
    ensures
        b == (entry@ == placeholder()),
{
    let b = entry.unicode_len() == 1 && entry.get_char(0) == '*';
    assert(b ==> entry@ =~= placeholder());
    b
}

/// Reads one column of a row of details.
fn read_column(details: &Vec<String>, index: usize) -> (value: Option<&String>)
    ensures
        value.deep_view() == column_value(details.deep_view(), index as int),
{
    if index < details.len() && !is_placeholder(details[index].as_str()) {
        Some(&details[index])
    } else {
        None
    }
}

/// The reading of one token, where it has one.
pub fn token_reading(token: &Token) -> (reading: Option<&String>)
    ensures
        reading.deep_view() == token@.reading(),
{
    match &token.details {
        Some(details) => {
            match read_column(details, LINDERA_DETAIL_PRONOUNCIATION_COLUMN) {
                Some(spoken) => Some(spoken),
                None => read_column(details, LINDERA_DETAIL_READING_COLUMN),
            }
        },
        None => None,
    }
}

/// The reading of one token.
///
/// It is the token's spoken form, else its written form. A token with
/// neither is reported by its text.
pub fn token_pronounciation(token: &Token) -> (r: Result<String, UnknownPronounciationError>)
    ensures
        match r {
            Ok(reading) => token@.reading() == Some(reading@),
            Err(e) => token@.reading() is None && e.text@ == token@.text,
        },
{
    match token_reading(token) {
        Some(reading) => Ok(reading.clone()),
        None => Err(UnknownPronounciationError { text: token.text.clone() }),
    }
}

/// The readings of the tokens of a phrase, in their order.
///
/// It succeeds exactly when every token has a reading. Otherwise the error
/// names the first token without one.
pub fn tokens_to_pronounciations(tokens: &Vec<Token>) -> (r: Result<
    Vec<String>,
    UnknownPronounciationError,
>)
    ensures
        r is Ok <==> all_resolved(token_views(tokens@)),
        match r {
            Ok(pronounciations) => pronounciations.deep_view() == readings_of(token_views(tokens@)),
            Err(e) => exists|k: int|
                #[trigger] first_unresolved(token_views(tokens@), k) && e.text@ == tokens[k].text@,
        },
{
    let ghost views = token_views(tokens@);
    let mut pronounciations: Vec<String> = Vec::new();
    for i in 0..tokens.len()
        invariant
            views == token_views(tokens@),
            pronounciations.len() == i,
            forall|j: int| 0 <= j < i ==> (#[trigger] views[j]).reading() is Some,
            forall|j: int|
                0 <= j < i ==> (#[trigger] pronounciations[j])@ == views[j].reading().unwrap(),
    {
        match token_pronounciation(&tokens[i]) {
            Ok(reading) => {
                pronounciations.push(reading);
            },
            Err(e) => {
                assert(first_unresolved(views, i as int));
                return Err(e);
            },
        }
    }
    assert(pronounciations.deep_view() =~= readings_of(views));
    Ok(pronounciations)
}

} // verus!
