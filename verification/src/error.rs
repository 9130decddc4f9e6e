use vstd::prelude::*;

verus! {

/// The error kinds of the library.
///
/// Storage, I/O, scripting and serialization failures originate outside the
/// verified core; callers that wrap the library report them through the same
/// enum, carrying the foreign error's message as plain text. The core itself
/// only ever produces `Validation` (a filter expression names an unusable
/// field) and `Internal` (an internal invariant such as a position bound
/// would be violated).
#[derive(Debug, Clone, PartialEq, Eq)]
pub enum TaskVimError {
    DbError(String),
    IoError(String),
    LuaError(String),
    SerializationError(String),
    Internal(String),
    Validation(String),
}

} // verus!
