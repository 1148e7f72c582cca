use kobuta::decimal::{parse_int32, put, render_int32};
use kobuta::schema::Parse;
use kobuta::{Fault, KbtError};

#[test]
fn parse_int32_reads_literals() {
    assert_eq!(parse_int32(b"0"), Some(0));
    assert_eq!(parse_int32(b"42"), Some(42));
    assert_eq!(parse_int32(b"-42"), Some(-42));
    assert_eq!(parse_int32(b"+42"), Some(42));
    assert_eq!(parse_int32(b"-0"), Some(0));
    assert_eq!(parse_int32(b"007"), Some(7));
    assert_eq!(parse_int32(b"2147483647"), Some(i32::MAX));
    assert_eq!(parse_int32(b"-2147483648"), Some(i32::MIN));
    assert_eq!(parse_int32(b"000000000000000000002147483647"), Some(i32::MAX));
}

#[test]
fn parse_int32_rejects_what_is_no_literal() {
    assert_eq!(parse_int32(b""), None);
    assert_eq!(parse_int32(b"-"), None);
    assert_eq!(parse_int32(b"+"), None);
    assert_eq!(parse_int32(b"+-1"), None);
    assert_eq!(parse_int32(b"1-"), None);
    assert_eq!(parse_int32(b" 1"), None);
    assert_eq!(parse_int32(b"1 "), None);
    assert_eq!(parse_int32(b"1_000"), None);
    assert_eq!(parse_int32(b"1.0"), None);
    assert_eq!(parse_int32(b"0x10"), None);
    assert_eq!(parse_int32(b"12a"), None);
    assert_eq!(parse_int32("١٢".as_bytes()), None);
}

#[test]
fn parse_int32_rejects_values_out_of_range() {
    assert_eq!(parse_int32(b"2147483648"), None);
    assert_eq!(parse_int32(b"-2147483649"), None);
    assert_eq!(parse_int32(b"99999999999999999999999999"), None);
    assert_eq!(parse_int32(b"-99999999999999999999999999"), None);
}

#[test]
fn parse_int32_agrees_with_the_standard_library() {
    let texts: [&str; 12] = [
        "0", "-1", "+1", "12345", "2147483647", "2147483648", "-2147483648", "-2147483649", "",
        "-", "1e3", "00",
    ];
    for text in texts {
        assert_eq!(parse_int32(text.as_bytes()), i32::from_str_radix(text, 10).ok());
    }
}

#[test]
fn render_int32_gives_the_decimal_text() {
    assert_eq!(render_int32(0), b"0".to_vec());
    assert_eq!(render_int32(7), b"7".to_vec());
    assert_eq!(render_int32(-7), b"-7".to_vec());
    assert_eq!(render_int32(1200), b"1200".to_vec());
    assert_eq!(render_int32(i32::MAX), b"2147483647".to_vec());
    assert_eq!(render_int32(i32::MIN), b"-2147483648".to_vec());
}

#[test]
fn text_of_a_value_reads_as_the_value() {
    let values: [i32; 11] =
        [0, 1, -1, 9, 10, -10, 99, 100, 123456789, i32::MAX, i32::MIN];
    for value in values {
        assert_eq!(parse_int32(&render_int32(value)), Some(value));
    }
    let mut value: i32 = 1;
    for _ in 0..31 {
        assert_eq!(parse_int32(&render_int32(value)), Some(value));
        assert_eq!(parse_int32(&render_int32(-value)), Some(-value));
        value = value.wrapping_mul(2);
    }
}

#[test]
fn codec_of_int32_reads_and_writes() {
    assert_eq!(<i32 as Parse>::parse("-15"), Ok(-15));
    assert_eq!(<i32 as Parse>::parse("15 "), Err(KbtError));
    assert_eq!(<i32 as Parse>::parse("3000000000"), Err(KbtError));
    let mut buffer = [b'.'; 6];
    let rest = (-15i32).write(&mut buffer).unwrap();
    assert_eq!(rest.len(), 3);
    rest[0] = b'!';
    assert_eq!(&buffer, b"-15!..");
}

#[test]
fn write_then_parse_gives_the_value_back() {
    let values: [i32; 5] = [0, -1, 65536, i32::MAX, i32::MIN];
    for value in values {
        let mut buffer = [0u8; 16];
        let left = value.write(&mut buffer).unwrap().len();
        let text = std::str::from_utf8(&buffer[..16 - left]).unwrap();
        assert_eq!(<i32 as Parse>::parse(text), Ok(value));
    }
}

#[test]
fn write_fills_a_buffer_that_just_fits() {
    let mut buffer = [0u8; 11];
    let rest = i32::MIN.write(&mut buffer).unwrap();
    assert_eq!(rest.len(), 0);
    assert_eq!(&buffer, b"-2147483648");
}

#[test]
fn write_into_a_buffer_one_byte_short_fails_and_writes_nothing() {
    let mut buffer = [b'#'; 10];
    assert!(i32::MIN.write(&mut buffer).is_err());
    assert_eq!(&buffer, b"##########");
    let mut buffer = [b'#'; 2];
    assert!(123i32.write(&mut buffer).is_err());
    assert_eq!(&buffer, b"##");
    let mut buffer: [u8; 0] = [];
    assert!(0i32.write(&mut buffer).is_err());
}

#[test]
fn put_writes_at_an_index() {
    let mut buffer = *b"abcdef";
    assert_eq!(put(&mut buffer, 2, b"XY"), Ok(4));
    assert_eq!(&buffer, b"abXYef");
    assert_eq!(put(&mut buffer, 6, b""), Ok(6));
    assert_eq!(put(&mut buffer, 4, b"12"), Ok(6));
    assert_eq!(&buffer, b"abXY12");
}

#[test]
fn put_fails_where_the_bytes_do_not_fit() {
    let mut buffer = *b"abcdef";
    assert_eq!(put(&mut buffer, 5, b"XY"), Err(Fault::BufferTooSmall));
    assert_eq!(put(&mut buffer, 7, b""), Err(Fault::BufferTooSmall));
    assert_eq!(put(&mut buffer, usize::MAX, b"XY"), Err(Fault::BufferTooSmall));
    assert_eq!(&buffer, b"abcdef");
}
