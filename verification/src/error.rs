//! Why a resolution can fail.

use crate::parser::ParseError;
use vstd::prelude::*;

verus! {

/// The failures of the resolution engine.
#[derive(Clone, Copy, Debug, PartialEq, Eq, Structural)]
pub enum RepositoryError {
    /// No candidate source was resolved for the coordinates asked for.
    NotFound,
    /// A file that was located holds content that is malformed for its format.
    Parse(ParseError),
    /// The git mirror could not be cloned, fetched or checked out.
    BackendUnavailable,
}

} // verus!
