//! Transcoding of CSV text into packed rows, driven by a textual schema.
//!
//! A schema such as `Float32 Nullable, Int32` is read by [`schema::parse`] into
//! an ordered list of columns. The decimal codec of integer fields lives in
//! [`decimal`], and [`encoder`] walks a CSV payload against a schema and packs
//! the rendered fields into a caller-supplied buffer.
use vstd::prelude::*;

pub mod decimal;
pub mod encoder;
pub mod schema;

verus! {

/// The one error that the parsing and codec entry points report.
///
/// It carries no detail: which condition made an operation fail is told by
/// [`Fault`], for the operations that report one.
#[derive(Clone, Copy, Debug, PartialEq, Eq, Structural)]
pub struct KbtError;

impl KbtError {
    /// A fixed, human-readable name of the error.
    pub fn description(&self) -> (text: &'static str)
        ensures
            text@ == "Kobuta error"@,
    {
        "Kobuta error"
    }
}

/// The conditions under which reading a schema or encoding a payload fails.
#[derive(Clone, Copy, Debug, PartialEq, Eq, Structural)]
pub enum Fault {
    /// The schema text at the current position starts with no known type name.
    UnknownTypeLiteral,
    /// A column was read, text remains, and it does not begin with the separator.
    MissingSeparator,
    /// A column was expected where the text ends or a separator stands.
    EmptyColumn,
    /// The text of a field is not a literal of its column's type.
    ScalarParseError,
    /// The output buffer has no room for the bytes that a field renders to.
    BufferTooSmall,
    /// A row has fewer or more fields than the schema has columns.
    FieldCountMismatch,
}

impl Fault {
    /// Forgets the condition, leaving the opaque error.
    pub fn into_error(self) -> (error: KbtError)
        ensures
            error == KbtError,
    {
        KbtError
    }
}

} // verus!
