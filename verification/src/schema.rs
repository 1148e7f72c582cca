//! The schema language: column descriptors and the parser of their textual form.
//!
//! ```text
//! schema       := column ( ',' column )*
//! column       := type_literal [ 'Nullable' ]
//! type_literal := 'Float32' | 'Int32'
//! ```
//!
//! Whitespace is skipped at the start of the text and after every literal.
//! The grammar is stated once over sequences of characters (`schema_spec` and
//! the functions it is built from); the executable parser walks the text with
//! a cursor and is proved to compute exactly that.
use crate::decimal::{decimal_text, int32_of, lemma_int32_round_trip, parse_int32, put, render_int32};
use crate::{Fault, KbtError};
use vstd::prelude::*;
use vstd::string::{StrSliceExecFns, StringSliceAdditionalSpecFns};

pub mod laws;
pub mod literals;

verus! {

/// The scalar type of a column.
#[derive(Clone, Copy, Debug, PartialEq, Eq, Structural)]
pub enum DataType {
    Float32,
    Int32,
}

impl DataType {
    /// The width in bytes of a value of the type.
    pub open spec fn spec_size(&self) -> u16 {
        match self {
            DataType::Int32 => 4,
            DataType::Float32 => 4,
        }
    }

    /// The width in bytes of a value of the type.
    #[verifier::when_used_as_spec(spec_size)]
    pub fn size(&self) -> (width: u16)
        ensures
            width == self.spec_size(),
    {
        match self {
            DataType::Int32 => 4,
            DataType::Float32 => 4,
        }
    }

    /// The characters of the type's name in the schema language.
    pub open spec fn name(&self) -> Seq<char> {
        match self {
            DataType::Float32 => literals::FLOAT32@,
            DataType::Int32 => literals::INT32@,
        }
    }

    /// The type's name in the schema language.
    pub fn literal(&self) -> (text: &'static str)
        ensures
            text@ == self.name(),
    {
        match self {
            DataType::Float32 => literals::FLOAT32,
            DataType::Int32 => literals::INT32,
        }
    }
}

/// One position of a row: the type of its values and whether they may be absent.
#[derive(Clone, Copy, Debug, PartialEq, Eq, Structural)]
pub struct Column {
    pub dtype: DataType,
    pub nullable: bool,
}

/// Whether a character has the Unicode property White_Space.
pub open spec fn spec_is_whitespace(c: char) -> bool {
    let code = c as u32;
    ||| 0x09 <= code <= 0x0D
    ||| code == 0x20
    ||| code == 0x85
    ||| code == 0xA0
    ||| code == 0x1680
    ||| 0x2000 <= code <= 0x200A
    ||| code == 0x2028
    ||| code == 0x2029
    ||| code == 0x202F
    ||| code == 0x205F
    ||| code == 0x3000
}

/// Whether a character has the Unicode property White_Space.
#[verifier::when_used_as_spec(spec_is_whitespace)]
pub fn is_whitespace(c: char) -> (white: bool)
    ensures
        white == spec_is_whitespace(c),
{
    let code: u32 = c as u32;
    (0x09 <= code && code <= 0x0D) || code == 0x20 || code == 0x85 || code == 0xA0 || code
        == 0x1680 || (0x2000 <= code && code <= 0x200A) || code == 0x2028 || code == 0x2029 || code
        == 0x202F || code == 0x205F || code == 0x3000
}

/// The text without its leading whitespace.
pub open spec fn trim_start(s: Seq<char>) -> Seq<char>
    decreases s.len(),
{
    if s.len() > 0 && is_whitespace(s[0]) {
        trim_start(s.skip(1))
    } else {
        s
    }
}

/// The reading of one type name: if `literal` starts the text, the type it
/// names and the text after the name and the whitespace that follows it.
pub open spec fn single_datatype_spec(s: Seq<char>, literal: Seq<char>, datatype: DataType)
    -> Option<(DataType, Seq<char>)> {
    if literal.is_prefix_of(s) {
        Some((datatype, trim_start(s.skip(literal.len() as int))))
    } else {
        None
    }
}

/// The reading of a type name: the known names are tried in a fixed order,
/// `Float32` first, and the first that starts the text is taken.
pub open spec fn datatype_spec(s: Seq<char>) -> Result<(DataType, Seq<char>), Fault> {
    match single_datatype_spec(s, DataType::Float32.name(), DataType::Float32) {
        Some(found) => Ok(found),
        None => match single_datatype_spec(s, DataType::Int32.name(), DataType::Int32) {
            Some(found) => Ok(found),
            None => Err(Fault::UnknownTypeLiteral),
        },
    }
}

/// The reading of the optional `Nullable`: whether it starts the text, and
/// the text after it and the whitespace that follows.
pub open spec fn nullable_spec(s: Seq<char>) -> (bool, Seq<char>) {
    if literals::NULLABLE@.is_prefix_of(s) {
        (true, trim_start(s.skip(literals::NULLABLE@.len() as int)))
    } else {
        (false, trim_start(s))
    }
}

/// The reading of one column: a type name, then the optional `Nullable`.
///
/// Text that is empty, or that starts with the separator, holds no column.
pub open spec fn column_spec(s: Seq<char>) -> Result<(Column, Seq<char>), Fault> {
    if s.len() == 0 || s[0] == literals::SEPARATOR as char {
        Err(Fault::EmptyColumn)
    } else {
        match datatype_spec(s) {
            Err(fault) => Err(fault),
            Ok((dtype, after_type)) => {
                let (nullable, rest) = nullable_spec(after_type);
                Ok((Column { dtype, nullable }, rest))
            },
        }
    }
}

/// The reading of the separator: it must be the very first character; the
/// whitespace after it is skipped.
pub open spec fn separator_spec(s: Seq<char>) -> Result<Seq<char>, Fault> {
    if s.len() > 0 && s[0] == literals::SEPARATOR as char {
        Ok(trim_start(s.skip(1)))
    } else {
        Err(Fault::MissingSeparator)
    }
}

/// The reading of a list of columns from text that starts with a column.
pub open spec fn columns_spec(s: Seq<char>) -> Result<Seq<Column>, Fault>
    decreases s.len(),
    via columns_spec_decreases
{
    match column_spec(s) {
        Err(fault) => Err(fault),
        Ok((column, rest)) => {
            if rest.len() == 0 {
                Ok(seq![column])
            } else {
                match separator_spec(rest) {
                    Err(fault) => Err(fault),
                    Ok(more) => match columns_spec(more) {
                        Err(fault) => Err(fault),
                        Ok(columns) => Ok(seq![column] + columns),
                    },
                }
            }
        },
    }
}

#[via_fn]
proof fn columns_spec_decreases(s: Seq<char>) {
    if let Ok((column, rest)) = column_spec(s) {
        lemma_column_consumes(s);
        if let Ok(more) = separator_spec(rest) {
            lemma_trim_start_is_suffix(rest.skip(1));
        }
    }
}

/// What a schema text denotes: its columns in order, or the reason why it
/// denotes none.
pub open spec fn schema_spec(s: Seq<char>) -> Result<Seq<Column>, Fault> {
    columns_spec(trim_start(s))
}

/// Trimming removes a prefix: what is left is the text from some index on.
pub proof fn lemma_trim_start_is_suffix(s: Seq<char>)
    ensures
        trim_start(s).len() <= s.len(),
        trim_start(s) == s.skip(s.len() - trim_start(s).len()),
        trim_start(s).len() > 0 ==> !is_whitespace(trim_start(s)[0]),
    decreases s.len(),
{
    if s.len() > 0 && is_whitespace(s[0]) {
        let tail = s.skip(1);
        lemma_trim_start_is_suffix(tail);
        let k = tail.len() - trim_start(tail).len();
        assert(tail.skip(k) =~= s.skip(k + 1));
    } else {
        assert(s.skip(0) =~= s);
    }
}

/// The names of the types, character by character.
pub proof fn lemma_literals()
    ensures
        literals::FLOAT32@ == seq!['F', 'l', 'o', 'a', 't', '3', '2'],
        literals::INT32@ == seq!['I', 'n', 't', '3', '2'],
        literals::NULLABLE@ == seq!['N', 'u', 'l', 'l', 'a', 'b', 'l', 'e'],
        literals::SEPARATOR as char == ',',
{
    reveal_strlit("Float32");
    reveal_strlit("Int32");
    reveal_strlit("Nullable");
    assert(literals::FLOAT32@ =~= seq!['F', 'l', 'o', 'a', 't', '3', '2']);
    assert(literals::INT32@ =~= seq!['I', 'n', 't', '3', '2']);
    assert(literals::NULLABLE@ =~= seq!['N', 'u', 'l', 'l', 'a', 'b', 'l', 'e']);
}

/// A column takes at least one character, and what it leaves is a suffix of
/// the text that starts with no whitespace.
pub proof fn lemma_column_consumes(s: Seq<char>)
    ensures
        column_spec(s) matches Ok((column, rest)) ==> {
            &&& rest.len() < s.len()
            &&& rest == s.skip(s.len() - rest.len())
            &&& rest.len() > 0 ==> !is_whitespace(rest[0])
        },
{
    if let Ok((column, rest)) = column_spec(s) {
        lemma_literals();
        let (dtype, after_type) = datatype_spec(s)->Ok_0;
        let n = dtype.name().len() as int;
        lemma_trim_start_is_suffix(s.skip(n));
        let a = s.len() - after_type.len();
        assert(after_type == s.skip(a)) by {
            let k = s.skip(n).len() - after_type.len();
            assert(s.skip(n).skip(k) =~= s.skip(n + k));
        }
        if literals::NULLABLE@.is_prefix_of(after_type) {
            let m = literals::NULLABLE@.len() as int;
            lemma_trim_start_is_suffix(after_type.skip(m));
            let k = after_type.skip(m).len() - rest.len();
            assert(after_type.skip(m).skip(k) =~= after_type.skip(m + k));
            assert(s.skip(a).skip(m + k) =~= s.skip(a + m + k));
        } else {
            lemma_trim_start_is_suffix(after_type);
            let k = after_type.len() - rest.len();
            assert(s.skip(a).skip(k) =~= s.skip(a + k));
        }
    }
}

/// The characters of a text, in order.
pub fn to_chars(string: &str) -> (text: Vec<char>)
    ensures
        text@ == string@,
{
    let mut text: Vec<char> = Vec::new();
    for c in chars: string.chars()
        invariant
            chars.seq() == string@,
            text@ == chars.seq().take(chars.index() as int),
    {
        text.push(c);
    }
    text
}

/// The index of the first character at or after `from` that is no whitespace.
fn skip_whitespace(text: &[char], from: usize) -> (to: usize)
    requires
        from <= text@.len(),
    ensures
        from <= to <= text@.len(),
        text@.skip(to as int) == trim_start(text@.skip(from as int)),
{
    let mut to: usize = from;
    while to < text.len() && is_whitespace(text[to])
        invariant
            from <= to <= text@.len(),
            trim_start(text@.skip(to as int)) == trim_start(text@.skip(from as int)),
        decreases text@.len() - to,
    {
        assert(text@.skip(to as int).skip(1) =~= text@.skip(to + 1));
        to += 1;
    }
    to
}

/// Whether `literal` stands in the text at index `at`.
fn starts_with(text: &[char], at: usize, literal: &str) -> (found: bool)
    requires
        at <= text@.len(),
    ensures
        found == literal@.is_prefix_of(text@.skip(at as int)),
{
    let n = literal.unicode_len();
    if n > text.len() - at {
        return false;
    }
    let mut i: usize = 0;
    while i < n
        invariant
            i <= n == literal@.len(),
            at + n <= text@.len() <= usize::MAX,
            forall|j: int| 0 <= j < i ==> text@[at + j] == literal@[j],
        decreases n - i,
    {
        if text[at + i] != literal.get_char(i) {
            assert(text@.skip(at as int)[i as int] != literal@[i as int]);
            return false;
        }
        i += 1;
    }
    assert(literal@ =~= text@.skip(at as int).subrange(0, n as int));
    true
}

impl Column {
    /// Reads the type name `literal` at index `at`: where it stands there,
    /// the type it names and the index after it and the whitespace behind it.
    fn parse_single_datatype(text: &[char], at: usize, literal: &str, datatype: DataType) -> (found:
        Option<(DataType, usize)>)
        requires
            at <= text@.len(),
        ensures
            match found {
                Some((dtype, next)) => {
                    &&& at <= next <= text@.len()
                    &&& single_datatype_spec(text@.skip(at as int), literal@, datatype) == Some(
                        (dtype, text@.skip(next as int)),
                    )
                },
                None => single_datatype_spec(text@.skip(at as int), literal@, datatype) is None,
            },
    {
        if starts_with(text, at, literal) {
            assert(at + literal@.len() <= text@.len() == text.len());
            let after = at + literal.unicode_len();
            assert(text@.skip(at as int).skip(literal@.len() as int) =~= text@.skip(after as int));
            Some((datatype, skip_whitespace(text, after)))
        } else {
            None
        }
    }

    /// Reads a type name at index `at`, trying the known names in their order.
    fn parse_datatype(text: &[char], at: usize) -> (found: Result<(DataType, usize), Fault>)
        requires
            at <= text@.len(),
        ensures
            match found {
                Ok((dtype, next)) => {
                    &&& at <= next <= text@.len()
                    &&& datatype_spec(text@.skip(at as int)) == Ok::<_, Fault>(
                        (dtype, text@.skip(next as int)),
                    )
                },
                Err(fault) => datatype_spec(text@.skip(at as int)) == Err::<(DataType, Seq<char>), _>(
                    fault,
                ),
            },
    {
        let float32 = DataType::Float32;
        let int32 = DataType::Int32;
        match Column::parse_single_datatype(text, at, float32.literal(), float32) {
            Some(found) => Ok(found),
            None => match Column::parse_single_datatype(text, at, int32.literal(), int32) {
                Some(found) => Ok(found),
                None => Err(Fault::UnknownTypeLiteral),
            },
        }
    }

    /// Reads the optional `Nullable` at index `at`: whether it stands there,
    /// and the index after it and the whitespace behind it.
    fn parse_nullable(text: &[char], at: usize) -> (found: (bool, usize))
        requires
            at <= text@.len(),
        ensures
            at <= found.1 <= text@.len(),
            nullable_spec(text@.skip(at as int)) == (found.0, text@.skip(found.1 as int)),
    {
        if starts_with(text, at, literals::NULLABLE) {
            assert(at + literals::NULLABLE@.len() <= text@.len() == text.len());
            let after = at + literals::NULLABLE.unicode_len();
            assert(text@.skip(at as int).skip(literals::NULLABLE@.len() as int) =~= text@.skip(
                after as int,
            ));
            (true, skip_whitespace(text, after))
        } else {
            (false, skip_whitespace(text, at))
        }
    }

    /// Reads one column at index `at`, and gives the index behind it.
    fn parse_at(text: &[char], at: usize) -> (found: Result<(Column, usize), Fault>)
        requires
            at <= text@.len(),
        ensures
            match found {
                Ok((column, next)) => {
                    &&& at < next <= text@.len()
                    &&& column_spec(text@.skip(at as int)) == Ok::<_, Fault>(
                        (column, text@.skip(next as int)),
                    )
                },
                Err(fault) => column_spec(text@.skip(at as int)) == Err::<(Column, Seq<char>), _>(
                    fault,
                ),
            },
    {
        if at == text.len() || text[at] == literals::SEPARATOR as char {
            return Err(Fault::EmptyColumn);
        }
        match Column::parse_datatype(text, at) {
            Err(fault) => Err(fault),
            Ok((dtype, after_type)) => {
                let (nullable, next) = Column::parse_nullable(text, after_type);
                proof {
                    lemma_column_consumes(text@.skip(at as int));
                }
                Ok((Column { dtype, nullable }, next))
            },
        }
    }

    /// Reads one column from the start of `string`.
    ///
    /// Returns the column and the text that follows it, without the
    /// whitespace between the two. No whitespace is skipped before the column.
    /// Fails where the text starts with no column: see `column_spec`.
    pub fn parse(string: &str) -> (found: Result<(Column, &str), KbtError>)
        ensures
            match found {
                Ok((column, rest)) => column_spec(string@) == Ok::<_, Fault>((column, rest@)),
                Err(_) => column_spec(string@) is Err,
            },
    {
        let text = to_chars(string);
        assert(text@.skip(0) =~= string@);
        match Column::parse_at(text.as_slice(), 0) {
            Err(_) => Err(KbtError),
            Ok((column, next)) => {
                let rest = string.substring_char(next, text.len());
                Ok((column, rest))
            },
        }
    }
}

/// Reads the separator at index `at`, and gives the index after it and the
/// whitespace behind it.
fn parse_separator(text: &[char], at: usize) -> (found: Result<usize, Fault>)
    requires
        at <= text@.len(),
    ensures
        match found {
            Ok(next) => {
                &&& at < next <= text@.len()
                &&& separator_spec(text@.skip(at as int)) == Ok::<_, Fault>(text@.skip(next as int))
            },
            Err(fault) => separator_spec(text@.skip(at as int)) == Err::<Seq<char>, _>(fault),
        },
{
    if at < text.len() && text[at] == literals::SEPARATOR as char {
        assert(text@.skip(at as int).skip(1) =~= text@.skip(at + 1));
        Ok(skip_whitespace(text, at + 1))
    } else {
        Err(Fault::MissingSeparator)
    }
}

/// Reads a list of columns from index `at` to the end of the text.
fn parse_columns(text: &[char], at: usize) -> (found: Result<Vec<Column>, Fault>)
    requires
        at <= text@.len(),
    ensures
        match found {
            Ok(columns) => columns_spec(text@.skip(at as int)) == Ok::<_, Fault>(columns@),
            Err(fault) => columns_spec(text@.skip(at as int)) == Err::<Seq<Column>, _>(fault),
        },
        found matches Ok(columns) ==> columns@.len() >= 1,
{
    let mut columns: Vec<Column> = Vec::new();
    let mut cursor: usize = at;
    let ghost start = text@.skip(at as int);
    assert(Seq::<Column>::empty() + columns_spec(start)->Ok_0 =~= columns_spec(start)->Ok_0);
    loop
        invariant
            cursor <= text@.len(),
            start == text@.skip(at as int),
            columns_spec(start) == match columns_spec(text@.skip(cursor as int)) {
                Ok(more) => Ok::<_, Fault>(columns@ + more),
                Err(fault) => Err(fault),
            },
        decreases text@.len() - cursor,
    {
        let ghost here = text@.skip(cursor as int);
        let (column, next) = match Column::parse_at(text, cursor) {
            Ok(found) => found,
            Err(fault) => {
                assert(columns_spec(here) == Err::<Seq<Column>, _>(fault));
                return Err(fault);
            },
        };
        if next == text.len() {
            assert(columns_spec(here) == Ok::<_, Fault>(seq![column]));
            assert(columns@ + seq![column] =~= columns@.push(column));
            columns.push(column);
            return Ok(columns);
        }
        let more = match parse_separator(text, next) {
            Ok(more) => more,
            Err(fault) => {
                assert(columns_spec(here) == Err::<Seq<Column>, _>(fault));
                return Err(fault);
            },
        };
        proof {
            let rest = columns_spec(text@.skip(more as int));
            if let Ok(tail) = rest {
                assert(columns@ + (seq![column] + tail) =~= columns@.push(column) + tail);
            }
        }
        columns.push(column);
        cursor = more;
    }
}

/// Whether `found` is what reading the schema `text` gives: its columns
/// where it denotes some, and the error where it denotes none.
pub open spec fn is_parse_of(text: Seq<char>, found: Result<Vec<Column>, KbtError>) -> bool {
    match found {
        Ok(columns) => schema_spec(text) == Ok::<_, Fault>(columns@),
        Err(_) => schema_spec(text) is Err,
    }
}

/// Reads a schema.
///
/// Returns the columns that `string` describes, in their order: at least
/// one. Whitespace may stand before the first column, after each literal and
/// at the end. Fails where `string` is no schema: see `schema_spec`.
pub fn parse(string: &str) -> (found: Result<Vec<Column>, KbtError>)
    ensures
        is_parse_of(string@, found),
        found matches Ok(columns) ==> columns@.len() >= 1,
{
    match check(string) {
        Ok(columns) => Ok(columns),
        Err(fault) => Err(fault.into_error()),
    }
}

/// Reads a schema as `parse` does, and tells why where it fails.
pub fn check(string: &str) -> (found: Result<Vec<Column>, Fault>)
    ensures
        match found {
            Ok(columns) => schema_spec(string@) == Ok::<_, Fault>(columns@),
            Err(fault) => schema_spec(string@) == Err::<Seq<Column>, _>(fault),
        },
        found matches Ok(columns) ==> columns@.len() >= 1,
{
    let text = to_chars(string);
    let start = skip_whitespace(text.as_slice(), 0);
    assert(text@.skip(0) =~= string@);
    parse_columns(text.as_slice(), start)
}

/// The codec of one scalar type: reading a value from its text, and writing
/// the text of a value.
///
/// A new type of column takes these two operations and nothing else.
pub trait Parse: Sized {
    /// The value that a text denotes, where it is a literal of the type.
    spec fn denoted(text: Seq<u8>) -> Option<Self>;

    /// The text that a value is rendered to.
    spec fn rendering(&self) -> Seq<u8>;

    /// Rendering a value and reading the text gives the value back.
    proof fn lemma_round_trip(value: Self)
        ensures
            Self::denoted(value.rendering()) == Some(value),
    ;

    /// Reads a value from the bytes of `bytes`.
    ///
    /// The whole text must be a literal of the type: whitespace around it is
    /// not skipped. Fails where the text denotes no value in range.
    fn parse(bytes: &str) -> (value: Result<Self, KbtError>)
        ensures
            match value {
                Ok(value) => Self::denoted(bytes.spec_bytes()) == Some(value),
                Err(_) => Self::denoted(bytes.spec_bytes()) is None,
            },
    ;

    /// Writes the text of the value to the front of `output`.
    ///
    /// Returns what is left of the buffer behind the text. Where the buffer
    /// is shorter than the text, nothing is written and the call fails.
    fn write<'o>(&self, output: &'o mut [u8]) -> (rest: Result<&'o mut [u8], KbtError>)
        ensures
            match rest {
                Ok(rest) => {
                    &&& self.rendering().len() <= old(output)@.len()
                    &&& rest@ == old(output)@.skip(self.rendering().len() as int)
                    &&& final(output)@ == self.rendering() + final(rest)@
                },
                Err(_) => {
                    &&& self.rendering().len() > old(output)@.len()
                    &&& final(output)@ == old(output)@
                },
            },
    ;
}

impl Parse for i32 {
    open spec fn denoted(text: Seq<u8>) -> Option<i32> {
        int32_of(text)
    }

    open spec fn rendering(&self) -> Seq<u8> {
        decimal_text(*self as int)
    }

    proof fn lemma_round_trip(value: i32) {
        lemma_int32_round_trip(value);
    }

    fn parse(bytes: &str) -> (value: Result<i32, KbtError>) {
        match parse_int32(bytes.as_bytes()) {
            Some(value) => Ok(value),
            None => Err(KbtError),
        }
    }

    fn write<'o>(&self, output: &'o mut [u8]) -> (rest: Result<&'o mut [u8], KbtError>) {
        let text = render_int32(*self);
        match put(output, 0, text.as_slice()) {
            Err(_) => Err(KbtError),
            Ok(end) => {
                assert(output@.take(0) + text@ + output@.skip(end as int) =~= output@);
                let (head, rest) = output.split_at_mut(end);
                Ok(rest)
            },
        }
    }
}

} // verus!
