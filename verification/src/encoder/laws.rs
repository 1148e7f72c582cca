//! What holds of every run of the encoder: what it leaves untouched, and
//! that runs which stop for renderings add up to the encoding of the whole
//! payload.
use crate::encoder::{
    behind, cell_of, encoded, field_text, is_done, is_mismatch, lemma_stop_of, lemma_trim,
    next_field, run, stop_of, text_end, text_start, Cell, Outcome, Position, Stop,
};
use crate::decimal::overwritten;
use crate::schema::Column;
use crate::Fault;
use vstd::prelude::*;

verus! {

/// The text of a field lies within the payload, where the field starts
/// within it.
pub proof fn lemma_field_within(csv: Seq<u8>, from: nat)
    requires
        from <= csv.len(),
    ensures
        from <= text_start(csv, from) <= text_end(csv, from) <= csv.len(),
        next_field(csv, from) <= csv.len(),
        field_text(csv, from) == csv.subrange(
            text_start(csv, from) as int,
            text_end(csv, from) as int,
        ),
{
    lemma_stop_of(csv, from);
    lemma_trim(csv, from, stop_of(csv, from));
    lemma_trim(csv, text_start(csv, from), stop_of(csv, from));
    if text_start(csv, from) == text_end(csv, from) {
        assert(csv.subrange(text_start(csv, from) as int, text_end(csv, from) as int)
            =~= Seq::<u8>::empty());
    }
}

/// A run writes from its position on and nowhere else.
///
/// It keeps the length of the buffer, moves forward in it, and changes no
/// byte before the position it starts at or behind the position it ends at.
/// From a position within the payload it ends within the payload, and the
/// field that it asks a rendering for lies within the payload.
pub proof fn lemma_run_frame(
    csv: Seq<u8>,
    schema: Seq<Column>,
    rendered: Option<Seq<u8>>,
    at: Position,
    output: Seq<u8>,
)
    requires
        at.input <= csv.len(),
    ensures
        ({
            let end = run(csv, schema, rendered, at, output);
            &&& end.output.len() == output.len()
            &&& at.output <= end.at.output
            &&& end.at.output <= output.len() || end.at.output == at.output
            &&& forall|i: int|
                0 <= i < output.len() && (i < at.output || end.at.output <= i)
                    ==> end.output[i] == output[i]
            &&& end.at.input <= csv.len()
            &&& end.stop matches Stop::Float32 { start, end: stop } ==> {
                &&& start <= stop <= csv.len()
                &&& field_text(csv, end.at.input) == csv.subrange(start as int, stop as int)
            }
        }),
    decreases
        (if at.input < csv.len() { csv.len() - at.input } else { 0 }),
        (if at.column > 0 { 1int } else { 0int }),
{
    lemma_field_within(csv, at.input);
    if !is_done(csv, at) && !is_mismatch(csv, schema, at) {
        let column = schema[at.column as int];
        if let Ok(cell) = cell_of(column, field_text(csv, at.input)) {
            if !(cell == Cell::Float32 && rendered is None) {
                let text = match rendered {
                    Some(text) => text,
                    None => Seq::<u8>::empty(),
                };
                let bytes = encoded(column, cell, text);
                if at.output + bytes.len() <= output.len() {
                    let next = behind(csv, at, bytes.len());
                    let written = overwritten(output, at.output as int, bytes);
                    let left = if cell == Cell::Float32 {
                        None
                    } else {
                        rendered
                    };
                    lemma_run_frame(csv, schema, left, next, written);
                    let end = run(csv, schema, left, next, written);
                    assert(end == run(csv, schema, rendered, at, output));
                    assert(written.len() == output.len());
                    assert forall|i: int|
                        0 <= i < output.len() && (i < at.output || end.at.output <= i)
                            implies end.output[i] == output[i] by {
                        assert(end.output[i] == written[i]);
                        assert(written[i] == output[i]);
                    }
                }
            }
        }
    }
}

/// The encoding of a payload from the position `at` to its end, where
/// `render` gives the text of each field that holds a floating point number,
/// or nothing for a field that is no such number.
///
/// It goes field by field as `run` does, but for that it never stops for a
/// rendering: it takes the field's from `render`, and fails with
/// `ScalarParseError` where there is none.
pub open spec fn encode_all(
    csv: Seq<u8>,
    schema: Seq<Column>,
    render: spec_fn(Seq<u8>) -> Option<Seq<u8>>,
    at: Position,
    output: Seq<u8>,
) -> Outcome
    decreases
        (if at.input < csv.len() { csv.len() - at.input } else { 0 }),
        (if at.column > 0 { 1int } else { 0int }),
    via encode_all_decreases
{
    if is_done(csv, at) {
        Outcome { at, output, stop: Stop::Done }
    } else if is_mismatch(csv, schema, at) {
        Outcome { at, output, stop: Stop::Failed(Fault::FieldCountMismatch) }
    } else {
        let column = schema[at.column as int];
        match cell_of(column, field_text(csv, at.input)) {
            Err(fault) => Outcome { at, output, stop: Stop::Failed(fault) },
            Ok(cell) => {
                let text = if cell == Cell::Float32 {
                    render(field_text(csv, at.input))
                } else {
                    Some(Seq::<u8>::empty())
                };
                match text {
                    None => Outcome { at, output, stop: Stop::Failed(Fault::ScalarParseError) },
                    Some(text) => {
                        let bytes = encoded(column, cell, text);
                        if at.output + bytes.len() > output.len() {
                            Outcome { at, output, stop: Stop::Failed(Fault::BufferTooSmall) }
                        } else {
                            encode_all(
                                csv,
                                schema,
                                render,
                                behind(csv, at, bytes.len()),
                                overwritten(output, at.output as int, bytes),
                            )
                        }
                    },
                }
            },
        }
    }
}

#[via_fn]
proof fn encode_all_decreases(
    csv: Seq<u8>,
    schema: Seq<Column>,
    render: spec_fn(Seq<u8>) -> Option<Seq<u8>>,
    at: Position,
    output: Seq<u8>,
) {
    if at.input < csv.len() {
        lemma_stop_of(csv, at.input);
    }
}

/// Whether a run may be given `rendered`: it is nothing, or it is what
/// `render` gives for the field at the position, which holds a floating
/// point number.
pub open spec fn is_rendering_of(
    csv: Seq<u8>,
    schema: Seq<Column>,
    render: spec_fn(Seq<u8>) -> Option<Seq<u8>>,
    at: Position,
    rendered: Option<Seq<u8>>,
) -> bool {
    rendered is Some ==> {
        &&& !is_done(csv, at)
        &&& !is_mismatch(csv, schema, at)
        &&& cell_of(schema[at.column as int], field_text(csv, at.input)) == Ok::<_, Fault>(
            Cell::Float32,
        )
        &&& render(field_text(csv, at.input)) == rendered
    }
}

/// Runs that stop for renderings add up to the encoding of the payload.
///
/// A run that is given nothing, or the rendering of the field at which it
/// starts, either ends as the whole encoding ends, or stops at a field that
/// holds a floating point number; and then the whole encoding is that of
/// the rest, from where the run stopped and with the output as it left it.
/// So a caller that answers each stop with the field's rendering, and
/// gives up with `ScalarParseError` where the field has none, computes
/// `encode_all`.
pub proof fn lemma_runs_add_up(
    csv: Seq<u8>,
    schema: Seq<Column>,
    render: spec_fn(Seq<u8>) -> Option<Seq<u8>>,
    rendered: Option<Seq<u8>>,
    at: Position,
    output: Seq<u8>,
)
    requires
        is_rendering_of(csv, schema, render, at, rendered),
    ensures
        ({
            let end = run(csv, schema, rendered, at, output);
            let all = encode_all(csv, schema, render, at, output);
            match end.stop {
                Stop::Float32 { start, end: stop } => {
                    &&& all == encode_all(csv, schema, render, end.at, end.output)
                    &&& !is_done(csv, end.at)
                    &&& !is_mismatch(csv, schema, end.at)
                    &&& cell_of(
                        schema[end.at.column as int],
                        field_text(csv, end.at.input),
                    ) == Ok::<_, Fault>(Cell::Float32)
                    &&& render(field_text(csv, end.at.input)) is None ==> all == (Outcome {
                        at: end.at,
                        output: end.output,
                        stop: Stop::Failed(Fault::ScalarParseError),
                    })
                },
                _ => all == end,
            }
        }),
    decreases
        (if at.input < csv.len() { csv.len() - at.input } else { 0 }),
        (if at.column > 0 { 1int } else { 0int }),
{
    if at.input < csv.len() {
        lemma_stop_of(csv, at.input);
    }
    if !is_done(csv, at) && !is_mismatch(csv, schema, at) {
        let column = schema[at.column as int];
        if let Ok(cell) = cell_of(column, field_text(csv, at.input)) {
            if !(cell == Cell::Float32 && rendered is None) {
                let text = match rendered {
                    Some(text) => text,
                    None => Seq::<u8>::empty(),
                };
                let bytes = encoded(column, cell, text);
                if cell != Cell::Float32 {
                    assert(rendered is None);
                    assert(bytes == encoded(column, cell, Seq::<u8>::empty()));
                }
                if at.output + bytes.len() <= output.len() {
                    lemma_runs_add_up(
                        csv,
                        schema,
                        render,
                        None,
                        behind(csv, at, bytes.len()),
                        overwritten(output, at.output as int, bytes),
                    );
                }
            }
        }
    }
}

} // verus!
