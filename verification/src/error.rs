use vstd::prelude::*;

verus! {

/// The failure kinds that evaluation, schema computation and execution
/// surface to their immediate caller. No retries, no partial recovery: the
/// first failure aborts the batch being produced.
#[derive(Clone, Copy, Debug, PartialEq, Eq, Structural)]
pub enum Error {
    /// Operand or result logical types disagree.
    TypeMismatch,
    /// An expression references a field index outside the schema.
    ColumnIndexOutOfRange,
    /// A row index lies beyond an array's length.
    OutOfRange,
    /// An operator or data-type path that is deliberately unhandled.
    NotImplemented,
}

impl Error {
    /// A short, stable description of the failure kind.
    pub fn message(&self) -> (s: String)
        ensures
            s@ == match *self {
                Error::TypeMismatch => "type mismatch"@,
                Error::ColumnIndexOutOfRange => "column index out of range"@,
                Error::OutOfRange => "row index out of range"@,
                Error::NotImplemented => "not implemented"@,
            },
    {
        match self {
            Error::TypeMismatch => "type mismatch".to_owned(),
            Error::ColumnIndexOutOfRange => "column index out of range".to_owned(),
            Error::OutOfRange => "row index out of range".to_owned(),
            Error::NotImplemented => "not implemented".to_owned(),
        }
    }
}

} // verus!
