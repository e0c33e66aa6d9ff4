//! Detection of "gomamayo": phrases in which the reading of a word ends with
//! the sounds that the reading of the next word begins with, as in ゴマ and
//! マヨ, which share マ.
//!
//! A phrase comes as the readings of its words, or as the tokens that a
//! tokenizer made of it. Each reading is split into morae (`mora`); for every
//! two neighbours the longest overlap of their morae is found (`overlap`);
//! the number of overlapping junctions, the ary, and the longest overlap, the
//! degree, make the kind of the phrase (`junction`, `analysis`). `reading`
//! picks the readings out of a tokenizer's output.

pub mod analysis;
pub mod error;
pub mod junction;
pub mod mora;
pub mod overlap;
pub mod reading;

pub use analysis::{analyze, check_token_sizes, classify, Gomamayo, GomamayoKind};
pub use error::{GomamayoError, GomamayoResult, UnknownPronounciationError};
pub use junction::{check_sizes, compute_ary_and_degree};
pub use mora::into_moras;
pub use overlap::find_overlap;
pub use reading::{token_pronounciation, token_reading, tokens_to_pronounciations, Token};
