//! The row encoder: it walks a CSV payload against a schema and packs what
//! the fields render to into a buffer.
//!
//! # Input
//!
//! The payload is a sequence of rows. A row ends at a line feed or at the end
//! of the payload; a payload that is empty, or that ends with a line feed,
//! has no row after that. The fields of a row are parted by the separator and
//! must be as many as the schema has columns. ASCII whitespace around a
//! field does not belong to its text.
//!
//! # Output
//!
//! Fields are written one after the other, with nothing between them:
//!
//! * for a nullable column, one flag byte first: `ABSENT` for a field with
//!   empty text, which stands for no value and is followed by nothing, and
//!   `PRESENT` before a value;
//! * for an `Int32` value, the decimal text of the value;
//! * for a `Float32` value, the text that the caller renders the field to.
//!
//! # Floating point
//!
//! Rendering a `Float32` field is left to the caller. [`Encoder::advance`]
//! encodes fields until it meets one that needs such a rendering, and then
//! says which; the caller hands the rendering to the next call.
use crate::decimal::{decimal_text, int32_of, overwritten, parse_int32, put, render_int32};
use crate::schema::literals::SEPARATOR;
use crate::schema::{Column, DataType};
use crate::Fault;
use vstd::prelude::*;
use vstd::slice::slice_subrange;

pub mod laws;

verus! {

/// The line feed, which ends a row.
pub const NEWLINE: u8 = 0x0A;

/// The flag byte of a nullable field without a value.
pub const ABSENT: u8 = 0;

/// The flag byte before the value of a nullable field.
pub const PRESENT: u8 = 1;

/// Whether a byte is ASCII whitespace: space, tab, line feed, form feed or
/// carriage return.
pub open spec fn spec_is_blank(b: u8) -> bool {
    b == 0x20 || b == 0x09 || b == 0x0A || b == 0x0C || b == 0x0D
}

/// Whether a byte is ASCII whitespace: space, tab, line feed, form feed or
/// carriage return.
#[verifier::when_used_as_spec(spec_is_blank)]
pub fn is_blank(b: u8) -> (blank: bool)
    ensures
        blank == spec_is_blank(b),
{
    b == 0x20 || b == 0x09 || b == 0x0A || b == 0x0C || b == 0x0D
}

/// The index at which the field that starts at `from` stops: that of the
/// next separator or line feed, or the length of the payload.
pub open spec fn stop_of(csv: Seq<u8>, from: nat) -> nat
    decreases csv.len() - from,
{
    if from < csv.len() && csv[from as int] != SEPARATOR && csv[from as int] != NEWLINE {
        stop_of(csv, from + 1)
    } else {
        from
    }
}

/// The index of the first byte from `start` on and before `stop` that is no
/// whitespace, or `stop`.
pub open spec fn trim_front(csv: Seq<u8>, start: nat, stop: nat) -> nat
    decreases stop - start,
{
    if start < stop <= csv.len() && is_blank(csv[start as int]) {
        trim_front(csv, start + 1, stop)
    } else {
        start
    }
}

/// The index behind the last byte from `start` on and before `stop` that is
/// no whitespace, or `start`.
pub open spec fn trim_back(csv: Seq<u8>, start: nat, stop: nat) -> nat
    decreases stop - start,
{
    if start < stop <= csv.len() && is_blank(csv[stop - 1]) {
        trim_back(csv, start, (stop - 1) as nat)
    } else {
        stop
    }
}

/// Where the text of the field that starts at `from` starts.
pub open spec fn text_start(csv: Seq<u8>, from: nat) -> nat {
    trim_front(csv, from, stop_of(csv, from))
}

/// Where the text of the field that starts at `from` ends.
pub open spec fn text_end(csv: Seq<u8>, from: nat) -> nat {
    trim_back(csv, text_start(csv, from), stop_of(csv, from))
}

/// The text of the field that starts at `from`: its bytes without the
/// whitespace around them.
pub open spec fn field_text(csv: Seq<u8>, from: nat) -> Seq<u8> {
    if text_start(csv, from) < text_end(csv, from) <= csv.len() {
        csv.subrange(text_start(csv, from) as int, text_end(csv, from) as int)
    } else {
        Seq::<u8>::empty()
    }
}

/// Whether the field that starts at `from` is the last of its row: it is
/// unless a separator stops it.
pub open spec fn ends_row(csv: Seq<u8>, from: nat) -> bool {
    let stop = stop_of(csv, from);
    !(stop < csv.len() && csv[stop as int] == SEPARATOR)
}

/// Where the field after the one that starts at `from` starts: behind the
/// byte that stops this one, or where the payload ends.
pub open spec fn next_field(csv: Seq<u8>, from: nat) -> nat {
    let stop = stop_of(csv, from);
    if stop < csv.len() {
        stop + 1
    } else {
        stop
    }
}

/// A field stops at or behind its start, within the payload.
pub proof fn lemma_stop_of(csv: Seq<u8>, from: nat)
    requires
        from <= csv.len(),
    ensures
        from <= stop_of(csv, from) <= csv.len(),
        from < csv.len() ==> from < next_field(csv, from) <= csv.len(),
    decreases csv.len() - from,
{
    if from < csv.len() && csv[from as int] != SEPARATOR && csv[from as int] != NEWLINE {
        lemma_stop_of(csv, from + 1);
    }
}

/// The text of a field lies between its start and its stop.
pub proof fn lemma_trim(csv: Seq<u8>, start: nat, stop: nat)
    requires
        start <= stop <= csv.len(),
    ensures
        start <= trim_front(csv, start, stop) <= stop,
        start <= trim_back(csv, start, stop) <= stop,
    decreases stop - start,
{
    if start < stop {
        if is_blank(csv[start as int]) {
            lemma_trim(csv, start + 1, stop);
        }
        if is_blank(csv[stop - 1]) {
            lemma_trim(csv, start, (stop - 1) as nat);
        }
    }
}

/// One field of the payload, as the encoder finds it.
#[derive(Clone, Copy, Debug, PartialEq, Eq, Structural)]
pub struct Field {
    /// The index of the first byte of the field's text.
    pub start: usize,
    /// The index behind the last byte of the field's text.
    pub end: usize,
    /// The index at which the next field starts.
    pub next: usize,
    /// Whether the field is the last of its row.
    pub last: bool,
}

impl Field {
    /// Whether this is the field that starts at `from` in `csv`.
    pub open spec fn is_at(self, csv: Seq<u8>, from: nat) -> bool {
        &&& self.start == text_start(csv, from)
        &&& self.end == text_end(csv, from)
        &&& self.next == next_field(csv, from)
        &&& self.last == ends_row(csv, from)
        &&& from <= self.start <= self.end
        &&& self.end <= csv.len() || self.start == self.end
    }
}

/// Finds the field that starts at index `from` of the payload.
pub fn read_field(csv: &[u8], from: usize) -> (field: Field)
    ensures
        field.is_at(csv@, from as nat),
{
    let len = csv.len();
    if from >= len {
        return Field { start: from, end: from, next: from, last: true };
    }
    let mut stop: usize = from;
    while stop < len && csv[stop] != SEPARATOR && csv[stop] != NEWLINE
        invariant
            from <= stop <= len == csv@.len(),
            stop_of(csv@, stop as nat) == stop_of(csv@, from as nat),
        decreases len - stop,
    {
        stop += 1;
    }
    let mut start: usize = from;
    while start < stop && is_blank(csv[start])
        invariant
            from <= start <= stop <= len == csv@.len(),
            trim_front(csv@, start as nat, stop as nat) == trim_front(
                csv@,
                from as nat,
                stop as nat,
            ),
        decreases stop - start,
    {
        start += 1;
    }
    let mut end: usize = stop;
    while start < end && is_blank(csv[end - 1])
        invariant
            start <= end <= stop <= len == csv@.len(),
            trim_back(csv@, start as nat, end as nat) == trim_back(
                csv@,
                start as nat,
                stop as nat,
            ),
        decreases end - start,
    {
        end -= 1;
    }
    if stop < len {
        Field { start, end, next: stop + 1, last: csv[stop] != SEPARATOR }
    } else {
        Field { start, end, next: stop, last: true }
    }
}

/// What a field holds for its column.
#[derive(Clone, Copy, Debug, PartialEq, Eq, Structural)]
pub enum Cell {
    /// No value.
    Null,
    /// An integer.
    Int32(i32),
    /// A floating point number, which the encoder does not read.
    Float32,
}

/// What a field with the text `text` holds for `column`: nothing where the
/// column is nullable and the text is empty, and else a value of the
/// column's type.
pub open spec fn cell_of(column: Column, text: Seq<u8>) -> Result<Cell, Fault> {
    if column.nullable && text.len() == 0 {
        Ok(Cell::Null)
    } else {
        match column.dtype {
            DataType::Int32 => match int32_of(text) {
                Some(value) => Ok(Cell::Int32(value)),
                None => Err(Fault::ScalarParseError),
            },
            DataType::Float32 => Ok(Cell::Float32),
        }
    }
}

/// Reads what a field with the text `text` holds for `column`.
///
/// Fails with `ScalarParseError` where the column holds integers and the
/// text is no literal of a 32-bit integer.
pub fn read_cell(column: Column, text: &[u8]) -> (cell: Result<Cell, Fault>)
    ensures
        cell == cell_of(column, text@),
{
    if column.nullable && text.len() == 0 {
        Ok(Cell::Null)
    } else {
        match column.dtype {
            DataType::Int32 => match parse_int32(text) {
                Some(value) => Ok(Cell::Int32(value)),
                None => Err(Fault::ScalarParseError),
            },
            DataType::Float32 => Ok(Cell::Float32),
        }
    }
}

/// The flag that stands before a value of `column`: `PRESENT` where the
/// column is nullable, and nothing where it is not.
pub open spec fn presence(column: Column) -> Seq<u8> {
    if column.nullable {
        seq![PRESENT]
    } else {
        Seq::<u8>::empty()
    }
}

/// The bytes that a cell of `column` is written as, where `rendered` is the
/// text of the floating point number that the cell holds, if it holds one.
pub open spec fn encoded(column: Column, cell: Cell, rendered: Seq<u8>) -> Seq<u8> {
    match cell {
        Cell::Null => seq![ABSENT],
        Cell::Int32(value) => presence(column) + decimal_text(value as int),
        Cell::Float32 => presence(column) + rendered,
    }
}

/// Writes a cell of `column` into `output` from index `at` on.
///
/// Returns the index behind the bytes written, which are those of
/// `encoded`. Where they do not fit, nothing is written and the call fails
/// with `BufferTooSmall`.
pub fn write_cell(column: Column, cell: Cell, rendered: &[u8], output: &mut [u8], at: usize) -> (end:
    Result<usize, Fault>)
    ensures
        final(output)@.len() == old(output)@.len(),
        match end {
            Ok(end) => {
                &&& end == at + encoded(column, cell, rendered@).len()
                &&& end <= old(output)@.len()
                &&& final(output)@ == overwritten(
                    old(output)@,
                    at as int,
                    encoded(column, cell, rendered@),
                )
            },
            Err(fault) => {
                &&& fault == Fault::BufferTooSmall
                &&& at + encoded(column, cell, rendered@).len() > old(output)@.len()
                &&& final(output)@ == old(output)@
            },
        },
{
    let mut bytes: Vec<u8> = Vec::new();
    match cell {
        Cell::Null => {
            bytes.push(ABSENT);
        },
        Cell::Int32(value) => {
            if column.nullable {
                bytes.push(PRESENT);
            }
            let mut text = render_int32(value);
            bytes.append(&mut text);
        },
        Cell::Float32 => {
            if column.nullable {
                bytes.push(PRESENT);
            }
            bytes.extend_from_slice(rendered);
        },
    }
    assert(bytes@ =~= encoded(column, cell, rendered@));
    put(output, at, bytes.as_slice())
}

/// How far the encoding of a payload has come.
#[derive(Clone, Copy, Debug, PartialEq, Eq, Structural)]
pub struct Encoder {
    /// The index in the payload at which the next field starts.
    pub input: usize,
    /// The index in the schema of the column of the next field.
    pub column: usize,
    /// The number of bytes written to the output.
    pub output: usize,
}

/// The position of an encoder, in mathematical integers.
pub struct Position {
    /// The index in the payload at which the next field starts.
    pub input: nat,
    /// The index in the schema of the column of the next field.
    pub column: nat,
    /// The number of bytes written to the output.
    pub output: nat,
}

impl View for Encoder {
    type V = Position;

    open spec fn view(&self) -> Position {
        Position { input: self.input as nat, column: self.column as nat, output: self.output as nat }
    }
}

/// Why the encoder has stopped without a failure.
#[derive(Clone, Copy, Debug, PartialEq, Eq, Structural)]
pub enum Step {
    /// The payload is encoded to its end.
    Done,
    /// The next field holds a floating point number, and no rendering was
    /// given for it. Its text is the bytes of the payload from `start` to
    /// `end`.
    Float32 { start: usize, end: usize },
}

/// Why a run of the encoder ends.
pub enum Stop {
    /// The payload is encoded to its end.
    Done,
    /// The next field holds a floating point number, and no rendering was
    /// given for it. Its text is the bytes of the payload from `start` to
    /// `end`.
    Float32 { start: nat, end: nat },
    /// The next field cannot be encoded.
    Failed(Fault),
}

/// What the result of `Encoder::advance` says of the end of the run.
pub open spec fn stop_of_step(step: Result<Step, Fault>) -> Stop {
    match step {
        Ok(Step::Done) => Stop::Done,
        Ok(Step::Float32 { start, end }) => Stop::Float32 { start: start as nat, end: end as nat },
        Err(fault) => Stop::Failed(fault),
    }
}

/// Where a run of the encoder ends: its position, the contents of the
/// output buffer, and why it stopped.
pub struct Outcome {
    pub at: Position,
    pub output: Seq<u8>,
    pub stop: Stop,
}

/// The text that the caller rendered, or none.
pub open spec fn rendered_text(rendered: Option<&[u8]>) -> Option<Seq<u8>> {
    match rendered {
        Some(text) => Some(text@),
        None => None,
    }
}

/// Whether the encoding is at its end: no row is open, and nothing is left
/// of the payload.
pub open spec fn is_done(csv: Seq<u8>, at: Position) -> bool {
    at.column == 0 && at.input >= csv.len()
}

/// Whether the field at the position breaks the length of its row: it has
/// no column in the schema, or it is the last of its row although columns
/// are left, or it is not the last although none is left.
pub open spec fn is_mismatch(csv: Seq<u8>, schema: Seq<Column>, at: Position) -> bool {
    at.column >= schema.len() || ends_row(csv, at.input) != (at.column + 1 == schema.len())
}

/// The position behind the field at `at`, after `written` bytes were
/// written for it.
pub open spec fn behind(csv: Seq<u8>, at: Position, written: nat) -> Position {
    Position {
        input: next_field(csv, at.input),
        column: if ends_row(csv, at.input) {
            0
        } else {
            at.column + 1
        },
        output: at.output + written,
    }
}

/// The run of the encoder from the position `at`: what `Encoder::advance`
/// does, field by field.
///
/// At each field, in this order:
/// 1. where no row is open and nothing is left of the payload, the run is
///    done;
/// 2. where the field has no column in the schema, or is the last of its row
///    although columns are left, or is not the last although none is left,
///    the run fails with `FieldCountMismatch`;
/// 3. where the field is no value of its column's type, the run fails with
///    `ScalarParseError`;
/// 4. where the field holds a floating point number and `rendered` is used
///    up, the run stops and asks for its rendering;
/// 5. where the bytes of the field do not fit into the output, the run fails
///    with `BufferTooSmall`;
/// 6. else the bytes are written and the run goes on behind the field.
///
/// A run that stops or fails leaves the position at the field that made it
/// so, and the output as the fields before it left it.
pub open spec fn run(
    csv: Seq<u8>,
    schema: Seq<Column>,
    rendered: Option<Seq<u8>>,
    at: Position,
    output: Seq<u8>,
) -> Outcome
    decreases
        (if at.input < csv.len() { csv.len() - at.input } else { 0 }),
        (if at.column > 0 { 1int } else { 0int }),
    via run_decreases
{
    if is_done(csv, at) {
        Outcome { at, output, stop: Stop::Done }
    } else if is_mismatch(csv, schema, at) {
        Outcome { at, output, stop: Stop::Failed(Fault::FieldCountMismatch) }
    } else {
        let column = schema[at.column as int];
        match cell_of(column, field_text(csv, at.input)) {
            Err(fault) => Outcome { at, output, stop: Stop::Failed(fault) },
            Ok(cell) => {
                if cell == Cell::Float32 && rendered is None {
                    Outcome {
                        at,
                        output,
                        stop: Stop::Float32 {
                            start: text_start(csv, at.input),
                            end: text_end(csv, at.input),
                        },
                    }
                } else {
                    let text = match rendered {
                        Some(text) => text,
                        None => Seq::<u8>::empty(),
                    };
                    let bytes = encoded(column, cell, text);
                    if at.output + bytes.len() > output.len() {
                        Outcome { at, output, stop: Stop::Failed(Fault::BufferTooSmall) }
                    } else {
                        run(
                            csv,
                            schema,
                            if cell == Cell::Float32 {
                                None
                            } else {
                                rendered
                            },
                            behind(csv, at, bytes.len()),
                            overwritten(output, at.output as int, bytes),
                        )
                    }
                }
            },
        }
    }
}

#[via_fn]
proof fn run_decreases(
    csv: Seq<u8>,
    schema: Seq<Column>,
    rendered: Option<Seq<u8>>,
    at: Position,
    output: Seq<u8>,
) {
    if at.input < csv.len() {
        lemma_stop_of(csv, at.input);
    }
}

impl Encoder {
    /// The position before the first field of a payload, with nothing
    /// written.
    pub fn new() -> (start: Encoder)
        ensures
            start == (Encoder { input: 0, column: 0, output: 0 }),
    {
        Encoder { input: 0, column: 0, output: 0 }
    }

    /// Encodes the fields of `csv` from this position on into `output`.
    ///
    /// Goes on until the payload is encoded, a field needs a rendering that
    /// was not given, or a field fails; `run` says what that means field by
    /// field. `rendered` is the text of the first field met that holds a
    /// floating point number; the next such field stops the call with
    /// `Step::Float32`, and the call after that takes its rendering.
    /// The position is left at the field that stopped the call, and the
    /// output holds every field before it.
    pub fn advance(
        &mut self,
        csv: &[u8],
        schema: &[Column],
        rendered: Option<&[u8]>,
        output: &mut [u8],
    ) -> (step: Result<Step, Fault>)
        ensures
            final(output)@.len() == old(output)@.len(),
            ({
                let outcome = run(csv@, schema@, rendered_text(rendered), old(self)@, old(output)@);
                &&& final(self)@ == outcome.at
                &&& final(output)@ == outcome.output
                &&& stop_of_step(step) == outcome.stop
            }),
    {
        let mut pending = rendered;
        loop
            invariant
                output@.len() == old(output)@.len(),
                run(csv@, schema@, rendered_text(rendered), old(self)@, old(output)@) == run(
                    csv@,
                    schema@,
                    rendered_text(pending),
                    self@,
                    output@,
                ),
            decreases
                (if self.input < csv@.len() { csv@.len() - self.input } else { 0 }),
                (if self.column > 0 { 1int } else { 0int }),
        {
            if self.column == 0 && self.input >= csv.len() {
                return Ok(Step::Done);
            }
            let field = read_field(csv, self.input);
            if self.column >= schema.len() || field.last != (self.column + 1 == schema.len()) {
                return Err(Fault::FieldCountMismatch);
            }
            let column = schema[self.column];
            let text = if field.start < field.end {
                slice_subrange(csv, field.start, field.end)
            } else {
                slice_subrange(csv, 0, 0)
            };
            assert(text@ =~= field_text(csv@, self.input as nat));
            let cell = match read_cell(column, text) {
                Ok(cell) => cell,
                Err(fault) => {
                    return Err(fault);
                },
            };
            let float = match cell {
                Cell::Float32 => true,
                _ => false,
            };
            if float && pending.is_none() {
                return Ok(Step::Float32 { start: field.start, end: field.end });
            }
            let given: &[u8] = match pending {
                Some(given) => given,
                None => slice_subrange(csv, 0, 0),
            };
            assert(given@ =~= match rendered_text(pending) {
                Some(text) => text,
                None => Seq::<u8>::empty(),
            });
            let end = match write_cell(column, cell, given, output, self.output) {
                Ok(end) => end,
                Err(fault) => {
                    return Err(fault);
                },
            };
            proof {
                if self.input < csv@.len() {
                    lemma_stop_of(csv@, self.input as nat);
                }
            }
            if float {
                pending = None;
            }
            self.input = field.next;
            self.column = if field.last {
                0
            } else {
                self.column + 1
            };
            self.output = end;
        }
    }
}

} // verus!
