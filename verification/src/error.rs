//! Conditions that the storage layer reports to its caller.
use vstd::prelude::*;

verus! {

/// Why an operation on a table or a pool did not take place.
#[derive(Clone, Copy, Debug, PartialEq, Eq, Structural)]
pub enum TableError {
    /// A fixed-capacity table is full and cannot take another row.
    CapacityExceeded,
    /// A slot index lies beyond the storage that was allocated.
    IndexOutOfBounds,
    /// The latest row of a table without rows was asked for.
    EmptyCollectionAccess,
}

impl TableError {
    /// A short description of the condition.
    pub fn message(&self) -> (text: &'static str)
        ensures
            text@ == self.spec_message(),
    {
        match self {
            TableError::CapacityExceeded => "capacity exceeded",
            TableError::IndexOutOfBounds => "index out of bounds",
            TableError::EmptyCollectionAccess => "empty collection access",
        }
    }

    /// The text that [`TableError::message`] returns.
    pub open spec fn spec_message(&self) -> Seq<char> {
        match self {
            TableError::CapacityExceeded => "capacity exceeded"@,
            TableError::IndexOutOfBounds => "index out of bounds"@,
            TableError::EmptyCollectionAccess => "empty collection access"@,
        }
    }
}

} // verus!
