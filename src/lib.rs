//! Parsing-independent model of academic citations, and an engine that finds the records
//! of a list that describe the same work.
use vstd::prelude::*;

pub mod cluster;
pub mod dedupe;
pub mod edit;
pub mod error;
pub mod model;
pub mod normalize;
pub mod score;
pub mod select;
pub mod tokens;

pub use error::{CitationError, Result};
pub use model::{Author, Citation, CitationParser, DuplicateGroup};

verus! {

} // verus!
