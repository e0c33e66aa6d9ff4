//! The errors of an analysis.

use lindera_core::error::LinderaError;
use vstd::prelude::*;
use vstd::std_specs::convert::FromSpecImpl;

verus! {

/// `lindera_core::error::LinderaError`, the tokenizer's error. A value is
/// carried through as it is; nothing is said of what it holds.
#[verifier::external_type_specification]
#[verifier::external_body]
pub struct ExLinderaError(LinderaError);

/// `std::io::Error`. A value is carried through as it is; nothing is said of
/// what it holds.
#[verifier::external_type_specification]
#[verifier::external_body]
pub struct ExIoError(std::io::Error);

pub type GomamayoResult<T, E = GomamayoError> = Result<T, E>;

/// A token for which no reading is known.
#[derive(Debug)]
pub struct UnknownPronounciationError {
    /// The token's text as it stands in the input.
    pub text: String,
}

/// What can stop an analysis.
#[derive(Debug)]
#[non_exhaustive]
pub enum GomamayoError {
    /// The input could not be obtained or prepared.
    IoError(std::io::Error),
    /// The tokenizer could not split the input.
    LinderaError(LinderaError),
    /// A token was found, but no reading for it.
    UnknownPronounciationError(UnknownPronounciationError),
}

impl From<LinderaError> for GomamayoError {
    fn from(value: LinderaError) -> (e: Self) {
        GomamayoError::LinderaError(value)
    }
}

impl FromSpecImpl<LinderaError> for GomamayoError {
    open spec fn obeys_from_spec() -> bool {
        true
    }

    open spec fn from_spec(value: LinderaError) -> Self {
        GomamayoError::LinderaError(value)
    }
}

impl From<std::io::Error> for GomamayoError {
    fn from(value: std::io::Error) -> (e: Self) {
        GomamayoError::IoError(value)
    }
}

impl FromSpecImpl<std::io::Error> for GomamayoError {
    open spec fn obeys_from_spec() -> bool {
        true
    }

    open spec fn from_spec(value: std::io::Error) -> Self {
        GomamayoError::IoError(value)
    }
}

} // verus!
