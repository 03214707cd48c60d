//! The error taxonomy of the data-handling layer.

use vstd::prelude::*;

verus! {

/// Why a tabular file's contents could not be turned into records: a
/// required column is missing from the header, or a row's cells cannot be
/// coerced into the schema's field types.
#[derive(Clone, Copy, Debug, PartialEq, Eq, Structural)]
pub enum LoadError {
    SchemaError,
    ParseError,
}

} // verus!
