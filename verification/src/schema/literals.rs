//! The vocabulary of the schema language.
use vstd::prelude::*;

verus! {

/// The type name of 32-bit floating point columns.
pub const FLOAT32: &'static str = "Float32";

/// The type name of 32-bit signed integer columns.
pub const INT32: &'static str = "Int32";

/// The word that marks a column as nullable.
pub const NULLABLE: &'static str = "Nullable";

/// The comma, which parts the columns of a schema and the fields of a row.
pub const SEPARATOR: u8 = 0x2C;

} // verus!
