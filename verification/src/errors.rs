//! The failure taxonomy: identifier resolution failures, the refused
//! start-while-working transition, and corrupt-store decoding failures.

use vstd::prelude::*;

verus! {

/// Resolving a user-typed identifier prefix failed.
#[derive(Debug, Clone, Copy, PartialEq, Eq, Structural)]
pub enum IdentificationError {
    /// No task's id starts with the prefix.
    NoMatch,
    /// Two or more tasks' ids start with the prefix; the resolver must not
    /// guess.
    AmbiguousMatch,
}

/// Starting a work interval was refused.
#[derive(Debug, Clone, Copy, PartialEq, Eq, Structural)]
pub enum StartError {
    /// Another task is already ongoing; the transition mutates nothing.
    AlreadyWorking,
    /// The identifier prefix did not resolve to exactly one task.
    Identification(IdentificationError),
}

/// A required persisted field failed to parse: the store is corrupt and
/// there is no recovery path.
#[derive(Debug, Clone, Copy, PartialEq, Eq, Structural)]
pub enum ParseError {
    /// A line has the wrong number of fields.
    MissingField,
    /// The id field is not a canonical hyphenated id.
    BadUuid,
    /// A counter field is not a decimal number in range.
    BadNumber,
    /// A non-empty timestamp field is not a readable date.
    BadDate,
}

impl IdentificationError {
    /// A short diagnostic for the command-line layer.
    pub fn message(&self) -> (r: &'static str)
        ensures
            r@ == match self {
                IdentificationError::NoMatch => "no task matches this identifier"@,
                IdentificationError::AmbiguousMatch => "several tasks match this identifier"@,
            },
    {
        match self {
            IdentificationError::NoMatch => "no task matches this identifier",
            IdentificationError::AmbiguousMatch => "several tasks match this identifier",
        }
    }
}

impl ParseError {
    /// A short diagnostic for the command-line layer.
    pub fn message(&self) -> (r: &'static str)
        ensures
            r@ == match self {
                ParseError::MissingField => "task file is corrupt: a field is missing"@,
                ParseError::BadUuid => "task file is corrupt: uuid not parsable"@,
                ParseError::BadNumber => "task file is corrupt: pomodori count not parsable"@,
                ParseError::BadDate => "task file is corrupt: date not parsable"@,
            },
    {
        match self {
            ParseError::MissingField => "task file is corrupt: a field is missing",
            ParseError::BadUuid => "task file is corrupt: uuid not parsable",
            ParseError::BadNumber => "task file is corrupt: pomodori count not parsable",
            ParseError::BadDate => "task file is corrupt: date not parsable",
        }
    }
}

} // verus!
