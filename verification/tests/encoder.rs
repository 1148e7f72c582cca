use kobuta::encoder::{is_blank, read_cell, read_field, write_cell, Cell, Encoder, Field, Step};
use kobuta::schema::{parse, Column, DataType};
use kobuta::Fault;

const INT: Column = Column { dtype: DataType::Int32, nullable: false };
const INT_OR_NULL: Column = Column { dtype: DataType::Int32, nullable: true };
const FLOAT: Column = Column { dtype: DataType::Float32, nullable: false };
const FLOAT_OR_NULL: Column = Column { dtype: DataType::Float32, nullable: true };

#[test]
fn blank_bytes_are_ascii_whitespace() {
    for b in 0..=255u8 {
        assert_eq!(is_blank(b), b.is_ascii_whitespace());
    }
}

#[test]
fn read_field_finds_text_and_next_field() {
    let csv = b" 12 ,\t-3\r\n4";
    assert_eq!(read_field(csv, 0), Field { start: 1, end: 3, next: 5, last: false });
    assert_eq!(read_field(csv, 5), Field { start: 6, end: 8, next: 10, last: true });
    assert_eq!(read_field(csv, 10), Field { start: 10, end: 11, next: 11, last: true });
    assert_eq!(read_field(csv, 11), Field { start: 11, end: 11, next: 11, last: true });
    assert_eq!(read_field(csv, 50), Field { start: 50, end: 50, next: 50, last: true });
}

#[test]
fn read_field_of_blank_text_is_empty() {
    assert_eq!(read_field(b"  ,1", 0), Field { start: 2, end: 2, next: 3, last: false });
    assert_eq!(read_field(b",", 0), Field { start: 0, end: 0, next: 1, last: false });
    assert_eq!(read_field(b",", 1), Field { start: 1, end: 1, next: 1, last: true });
    assert_eq!(read_field(b"\n", 0), Field { start: 0, end: 0, next: 1, last: true });
}

#[test]
fn read_cell_reads_by_the_column() {
    assert_eq!(read_cell(INT, b"12"), Ok(Cell::Int32(12)));
    assert_eq!(read_cell(INT_OR_NULL, b"-12"), Ok(Cell::Int32(-12)));
    assert_eq!(read_cell(INT_OR_NULL, b""), Ok(Cell::Null));
    assert_eq!(read_cell(FLOAT_OR_NULL, b""), Ok(Cell::Null));
    assert_eq!(read_cell(FLOAT, b"1.5"), Ok(Cell::Float32));
    assert_eq!(read_cell(FLOAT, b""), Ok(Cell::Float32));
    assert_eq!(read_cell(INT, b""), Err(Fault::ScalarParseError));
    assert_eq!(read_cell(INT, b"1.5"), Err(Fault::ScalarParseError));
    assert_eq!(read_cell(INT_OR_NULL, b"null"), Err(Fault::ScalarParseError));
}

#[test]
fn write_cell_writes_flag_and_text() {
    let mut buffer = [b'.'; 8];
    assert_eq!(write_cell(INT, Cell::Int32(-12), b"", &mut buffer, 0), Ok(3));
    assert_eq!(write_cell(INT_OR_NULL, Cell::Int32(7), b"", &mut buffer, 3), Ok(5));
    assert_eq!(write_cell(INT_OR_NULL, Cell::Null, b"", &mut buffer, 5), Ok(6));
    assert_eq!(&buffer, b"-12\x017\x00..");
    let mut buffer = [b'.'; 8];
    assert_eq!(write_cell(FLOAT, Cell::Float32, b"1.5", &mut buffer, 0), Ok(3));
    assert_eq!(write_cell(FLOAT_OR_NULL, Cell::Float32, b"2.0", &mut buffer, 3), Ok(7));
    assert_eq!(&buffer, b"1.5\x012.0.");
}

#[test]
fn write_cell_fails_one_byte_short() {
    let mut buffer = [b'.'; 3];
    assert_eq!(
        write_cell(INT_OR_NULL, Cell::Int32(123), b"", &mut buffer, 0),
        Err(Fault::BufferTooSmall)
    );
    assert_eq!(&buffer, b"...");
    assert_eq!(write_cell(INT, Cell::Int32(123), b"", &mut buffer, 0), Ok(3));
    assert_eq!(write_cell(INT_OR_NULL, Cell::Null, b"", &mut buffer, 3), Err(Fault::BufferTooSmall));
}

#[test]
fn new_encoder_is_at_the_start() {
    assert_eq!(Encoder::new(), Encoder { input: 0, column: 0, output: 0 });
}

#[test]
fn advance_encodes_integer_rows() {
    let schema = parse("Int32, Int32 Nullable").unwrap();
    let mut output = [0xEEu8; 16];
    let mut encoder = Encoder::new();
    let step = encoder.advance(b"1,2\n-3,\n 40 , 5 \r\n", &schema, None, &mut output);
    assert_eq!(step, Ok(Step::Done));
    assert_eq!(encoder, Encoder { input: 18, column: 0, output: 10 });
    assert_eq!(&output[..10], b"1\x012-3\x0040\x015");
    assert_eq!(&output[10..], &[0xEEu8; 6]);
}

#[test]
fn advance_takes_a_last_row_without_line_feed() {
    let schema = [INT, INT];
    let mut output = [0u8; 8];
    let mut encoder = Encoder::new();
    assert_eq!(encoder.advance(b"1,2\n3,4", &schema, None, &mut output), Ok(Step::Done));
    assert_eq!(&output[..encoder.output], b"1234");
}

#[test]
fn advance_on_an_empty_payload_writes_nothing() {
    let schema = [INT];
    let mut output = [7u8; 4];
    let mut encoder = Encoder::new();
    assert_eq!(encoder.advance(b"", &schema, None, &mut output), Ok(Step::Done));
    assert_eq!(encoder, Encoder::new());
    assert_eq!(output, [7u8; 4]);
}

#[test]
fn advance_reads_an_empty_line_as_one_empty_field() {
    let mut output = [9u8; 4];
    let mut encoder = Encoder::new();
    assert_eq!(encoder.advance(b"\n\n", &[INT_OR_NULL], None, &mut output), Ok(Step::Done));
    assert_eq!(&output[..encoder.output], b"\x00\x00");
    let mut encoder = Encoder::new();
    assert_eq!(
        encoder.advance(b"\n", &[INT], None, &mut output),
        Err(Fault::ScalarParseError)
    );
    let mut encoder = Encoder::new();
    assert_eq!(
        encoder.advance(b"1,2\n\n", &[INT, INT], None, &mut output),
        Err(Fault::FieldCountMismatch)
    );
}

#[test]
fn advance_rejects_rows_of_the_wrong_length() {
    let schema = [INT, INT];
    let mut output = [0u8; 16];
    let mut encoder = Encoder::new();
    assert_eq!(
        encoder.advance(b"1,2\n3\n", &schema, None, &mut output),
        Err(Fault::FieldCountMismatch)
    );
    assert_eq!(encoder, Encoder { input: 4, column: 0, output: 2 });
    let mut encoder = Encoder::new();
    assert_eq!(
        encoder.advance(b"1,2,3\n", &schema, None, &mut output),
        Err(Fault::FieldCountMismatch)
    );
    assert_eq!(encoder, Encoder { input: 2, column: 1, output: 1 });
    let mut encoder = Encoder::new();
    assert_eq!(
        encoder.advance(b"1,", &[INT], None, &mut output),
        Err(Fault::FieldCountMismatch)
    );
    let mut encoder = Encoder::new();
    assert_eq!(encoder.advance(b"1", &[], None, &mut output), Err(Fault::FieldCountMismatch));
}

#[test]
fn advance_rejects_a_field_that_is_no_integer() {
    let schema = [INT, INT];
    let mut output = [0u8; 16];
    let mut encoder = Encoder::new();
    assert_eq!(
        encoder.advance(b"1,2\n3,x\n", &schema, None, &mut output),
        Err(Fault::ScalarParseError)
    );
    assert_eq!(encoder, Encoder { input: 6, column: 1, output: 3 });
    assert_eq!(&output[..3], b"123");
}

#[test]
fn advance_rejects_a_field_that_does_not_fit() {
    let schema = [INT];
    let mut output = [b'.'; 5];
    let mut encoder = Encoder::new();
    assert_eq!(
        encoder.advance(b"12\n345\n6789\n", &schema, None, &mut output),
        Err(Fault::BufferTooSmall)
    );
    assert_eq!(encoder, Encoder { input: 7, column: 0, output: 5 });
    assert_eq!(&output, b"12345");
    let mut output = [b'.'; 4];
    let mut encoder = Encoder::new();
    assert_eq!(
        encoder.advance(b"12\n345\n", &schema, None, &mut output),
        Err(Fault::BufferTooSmall)
    );
    assert_eq!(&output, b"12..");
}

#[test]
fn advance_stops_at_a_float_and_takes_its_rendering() {
    let schema = parse("Int32, Float32 Nullable, Float32").unwrap();
    let csv = b"1, 2.50 ,3e0\n4,,-0.125\n";
    let mut output = [0u8; 32];
    let mut encoder = Encoder::new();
    let mut rendered: Option<Vec<u8>> = None;
    let mut asked: Vec<String> = Vec::new();
    loop {
        match encoder.advance(csv, &schema, rendered.as_deref(), &mut output).unwrap() {
            Step::Done => break,
            Step::Float32 { start, end } => {
                let text = std::str::from_utf8(&csv[start..end]).unwrap();
                asked.push(text.to_string());
                let value: f32 = text.parse().unwrap();
                let mut bytes = Vec::new();
                dtoa::write(&mut bytes, value).unwrap();
                rendered = Some(bytes);
            }
        }
    }
    assert_eq!(asked, vec!["2.50", "3e0", "-0.125"]);
    assert_eq!(&output[..encoder.output], b"1\x012.53.04\x00-0.125");
}

#[test]
fn advance_keeps_the_position_while_it_waits() {
    let schema = [INT, FLOAT];
    let csv = b"7, 1.5\n";
    let mut output = [0u8; 8];
    let mut encoder = Encoder::new();
    let step = encoder.advance(csv, &schema, None, &mut output);
    assert_eq!(step, Ok(Step::Float32 { start: 3, end: 6 }));
    assert_eq!(encoder, Encoder { input: 2, column: 1, output: 1 });
    assert_eq!(encoder.advance(csv, &schema, None, &mut output), step);
    assert_eq!(encoder.advance(csv, &schema, Some(b"1.5"), &mut output), Ok(Step::Done));
    assert_eq!(encoder, Encoder { input: 7, column: 0, output: 4 });
    assert_eq!(&output[..4], b"71.5");
}

#[test]
fn advance_uses_a_rendering_once() {
    let schema = [FLOAT];
    let csv = b"1\n2\n";
    let mut output = [0u8; 8];
    let mut encoder = Encoder::new();
    assert_eq!(
        encoder.advance(csv, &schema, Some(b"1.0"), &mut output),
        Ok(Step::Float32 { start: 2, end: 3 })
    );
    assert_eq!(encoder, Encoder { input: 2, column: 0, output: 3 });
    assert_eq!(&output[..3], b"1.0");
}

#[test]
fn advance_rejects_a_rendering_that_does_not_fit() {
    let schema = [FLOAT_OR_NULL];
    let mut output = [b'.'; 3];
    let mut encoder = Encoder::new();
    assert_eq!(
        encoder.advance(b"1.5", &schema, Some(b"1.5"), &mut output),
        Err(Fault::BufferTooSmall)
    );
    assert_eq!(&output, b"...");
    assert_eq!(encoder, Encoder::new());
}
