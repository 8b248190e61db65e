use vstd::prelude::*;

verus! {

/// Failure of the validating constructor: the input has no rows, an empty
/// first row, or rows whose lengths disagree.
#[derive(Clone, Copy, Debug, PartialEq, Eq, Structural)]
pub enum ConstructionError {
    RaggedRows,
}

/// Failure of multiplication: the left operand's column count must equal the
/// right operand's row count; both counts are carried for diagnostics.
#[derive(Clone, Copy, Debug, PartialEq, Eq, Structural)]
pub struct DimensionError {
    pub left_cols: usize,
    pub right_rows: usize,
}

} // verus!
