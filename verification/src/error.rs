//! The failures that the tree's operations report.

use vstd::prelude::*;

verus! {

/// Why an operation on a tree did not produce its result.
#[derive(Clone, Copy, Debug, PartialEq, Eq, Structural)]
pub enum TreeError {
    /// A level was zero or above the tree's depth.
    InvalidDepth,
    /// No node is stored at the level and index asked for.
    NodeNotFound,
    /// A leaf index, or that of its sibling, is past the last leaf.
    IndexOutOfBounds,
    /// No entry carries the identifier looked up.
    DataNotFound,
    /// The number of leaves is not two to the power of the depth.
    InvalidLeafCount,
    /// A proof's path is empty or its sibling list does not match the path.
    MalformedProof,
    /// A record has no first column.
    MissingDataColumn,
    /// More entries than a tree can pad to a power of two.
    TooManyEntries,
    /// The record source could not be parsed.
    Ingestion,
}

impl TreeError {
    /// A short description of the failure.
    pub fn message(&self) -> (r: String)
        ensures
            r@ == match *self {
                TreeError::InvalidDepth => "Invalid depth"@,
                TreeError::NodeNotFound => "Node not found"@,
                TreeError::IndexOutOfBounds => "Index out of bounds"@,
                TreeError::DataNotFound => "Data not found"@,
                TreeError::InvalidLeafCount => "Leaf count is not a power of two"@,
                TreeError::MalformedProof => "Malformed proof"@,
                TreeError::MissingDataColumn => "Missing data column in CSV"@,
                TreeError::TooManyEntries => "Too many entries"@,
                TreeError::Ingestion => "Unreadable record source"@,
            },
    {
        match self {
            TreeError::InvalidDepth => "Invalid depth".to_owned(),
            TreeError::NodeNotFound => "Node not found".to_owned(),
            TreeError::IndexOutOfBounds => "Index out of bounds".to_owned(),
            TreeError::DataNotFound => "Data not found".to_owned(),
            TreeError::InvalidLeafCount => "Leaf count is not a power of two".to_owned(),
            TreeError::MalformedProof => "Malformed proof".to_owned(),
            TreeError::MissingDataColumn => "Missing data column in CSV".to_owned(),
            TreeError::TooManyEntries => "Too many entries".to_owned(),
            TreeError::Ingestion => "Unreadable record source".to_owned(),
        }
    }
}

} // verus!
