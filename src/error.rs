use vstd::prelude::*;

verus! {

/// The failures of the library and of the programs built on it.
#[derive(Debug, Clone, PartialEq, Eq)]
pub enum YAPCCError {
    /// A data file could not be read; holds the system's message.
    IOError(String),
    /// A structured document or an ability-score token is malformed.
    DecodeError(String),
    /// Neither layer of a race supplies a field that a finished race needs;
    /// holds the field's name.
    MissingRequiredField(String),
    /// A parse failed after its diagnostics were shown.
    GenericError,
}

pub type YAPCCResult<T> = Result<T, YAPCCError>;

} // verus!
