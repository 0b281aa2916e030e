//! Why an extraction is refused.

use vstd::prelude::*;
use vstd::string::StringExecFns;

verus! {

/// The classes of failure that planning an extraction can end in.
#[derive(Debug, Clone, Copy, PartialEq, Eq, Structural)]
pub enum ErrorKind {
    /// The container is not a usable archive.
    Format,
    /// An entry would land outside the destination.
    PathSafety,
}

/// A refusal to extract. No write is planned once one is returned.
#[derive(Debug, Clone, Copy, PartialEq, Eq, Structural)]
pub enum ExtractError {
    /// The bytes do not parse as a ZIP container.
    InvalidArchive,
    /// The container parses and holds no entry.
    EmptyArchive,
    /// The record or the content of the entry at `index` cannot be read.
    CorruptEntry { index: usize },
    /// The name of the entry at `index` does not stay inside the destination.
    UnsafePath { index: usize },
}

impl ExtractError {
    /// The class of this failure.
    pub open spec fn spec_kind(self) -> ErrorKind {
        match self {
            ExtractError::UnsafePath { .. } => ErrorKind::PathSafety,
            _ => ErrorKind::Format,
        }
    }

    /// The class of this failure: an unsafe entry name is a path-safety
    /// failure, everything else a format failure.
    #[verifier::when_used_as_spec(spec_kind)]
    pub fn kind(self) -> (k: ErrorKind)
        ensures
            k == self.spec_kind(),
    {
        match self {
            ExtractError::UnsafePath { .. } => ErrorKind::PathSafety,
            _ => ErrorKind::Format,
        }
    }

    /// A sentence for the user.
    pub fn message(self) -> (text: String)
        ensures
            text@ == match self {
                ExtractError::InvalidArchive => "Zip archive cannot be read."@,
                ExtractError::EmptyArchive => "Zip archive is empty."@,
                ExtractError::CorruptEntry { .. } => "Zip archive holds an unreadable entry."@,
                ExtractError::UnsafePath { .. } => "Zip archive holds an entry outside the destination."@,
            },
    {
        match self {
            ExtractError::InvalidArchive => String::from_str("Zip archive cannot be read."),
            ExtractError::EmptyArchive => String::from_str("Zip archive is empty."),
            ExtractError::CorruptEntry { .. } => String::from_str(
                "Zip archive holds an unreadable entry.",
            ),
            ExtractError::UnsafePath { .. } => String::from_str(
                "Zip archive holds an entry outside the destination.",
            ),
        }
    }
}

} // verus!
