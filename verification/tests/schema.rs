use kobuta::schema::literals;
use kobuta::schema::{check, is_whitespace, parse, to_chars, Column, DataType};
use kobuta::{Fault, KbtError};

const VALID_SCHEMAS: &[(&str, &[Column])] = &[
    (
        "Float32 Nullable, Int32, Float32",
        &[
            Column { dtype: DataType::Float32, nullable: true },
            Column { dtype: DataType::Int32, nullable: false },
            Column { dtype: DataType::Float32, nullable: false },
        ],
    ),
    ("Float32", &[Column { dtype: DataType::Float32, nullable: false }]),
    ("Float32   ", &[Column { dtype: DataType::Float32, nullable: false }]),
    ("  Int32   Nullable", &[Column { dtype: DataType::Int32, nullable: true }]),
];

#[test]
fn test_parse_happy_path() {
    for (schema_str, expected_schema) in VALID_SCHEMAS {
        let parsed_schema = parse(schema_str).unwrap();
        assert_eq!(*expected_schema, &*parsed_schema);
    }
}

const INVALID_SCHEMAS: &[&str] = &[
    "Float32 Nullable, Int32,, Float32",
    "Float33",
    "Float32 nullable",
    "Float32 Int32",
    "Float32,",
];

#[test]
fn test_parse_error_path() {
    for schema_str in INVALID_SCHEMAS {
        assert_eq!(Err(KbtError), parse(schema_str));
    }
}

#[test]
fn parse_three_columns() {
    assert_eq!(
        parse("Float32 Nullable, Int32, Float32"),
        Ok(vec![
            Column { dtype: DataType::Float32, nullable: true },
            Column { dtype: DataType::Int32, nullable: false },
            Column { dtype: DataType::Float32, nullable: false },
        ])
    );
}

#[test]
fn parse_tolerates_whitespace_at_both_ends() {
    let expected = Ok(vec![Column { dtype: DataType::Float32, nullable: false }]);
    assert_eq!(parse("Float32"), expected);
    assert_eq!(parse("Float32   "), expected);
    assert_eq!(parse("\t Float32 \n"), expected);
    assert_eq!(
        parse("  Int32   Nullable"),
        Ok(vec![Column { dtype: DataType::Int32, nullable: true }])
    );
}

#[test]
fn parse_tolerates_whitespace_after_every_token() {
    let expected = Ok(vec![
        Column { dtype: DataType::Int32, nullable: true },
        Column { dtype: DataType::Float32, nullable: false },
        Column { dtype: DataType::Int32, nullable: false },
    ]);
    assert_eq!(parse("Int32 Nullable,Float32,Int32"), expected);
    assert_eq!(parse(" Int32  Nullable ,  Float32 ,\tInt32  "), expected);
    assert_eq!(parse("Int32Nullable,Float32,Int32"), expected);
}

#[test]
fn parse_skips_unicode_whitespace() {
    assert_eq!(
        parse("\u{a0}Int32\u{2003}Nullable\u{3000},\u{2028}Float32\u{85}"),
        Ok(vec![
            Column { dtype: DataType::Int32, nullable: true },
            Column { dtype: DataType::Float32, nullable: false },
        ])
    );
    assert_eq!(parse("Int32\u{200b}"), Err(KbtError));
}

#[test]
fn parse_is_case_sensitive() {
    assert_eq!(parse("float32"), Err(KbtError));
    assert_eq!(parse("INT32"), Err(KbtError));
    assert_eq!(parse("Int32 NULLABLE"), Err(KbtError));
}

#[test]
fn parse_rejects_empty_text() {
    assert_eq!(parse(""), Err(KbtError));
    assert_eq!(parse("   "), Err(KbtError));
    assert_eq!(parse(","), Err(KbtError));
}

#[test]
fn parse_twice_gives_equal_schemas() {
    let text = " Float32 Nullable , Int32 ";
    assert_eq!(parse(text), parse(text));
    assert_eq!(parse("Float3"), parse("Float3"));
}

#[test]
fn parse_gives_one_column_for_each_segment() {
    let mut text = String::from("Int32");
    for count in 1..20 {
        assert_eq!(parse(&text).unwrap().len(), count);
        text.push_str(if count % 2 == 0 { " , Int32 Nullable" } else { ",Float32" });
    }
}

#[test]
fn check_tells_the_fault() {
    assert_eq!(check("Float33"), Err(Fault::UnknownTypeLiteral));
    assert_eq!(check("Int32, Double"), Err(Fault::UnknownTypeLiteral));
    assert_eq!(check("Float32 nullable"), Err(Fault::MissingSeparator));
    assert_eq!(check("Float32 Int32"), Err(Fault::MissingSeparator));
    assert_eq!(check("Int32 Nullable Nullable"), Err(Fault::MissingSeparator));
    assert_eq!(check("Float32,"), Err(Fault::EmptyColumn));
    assert_eq!(check("Float32 Nullable, Int32,, Float32"), Err(Fault::EmptyColumn));
    assert_eq!(check(""), Err(Fault::EmptyColumn));
    assert_eq!(check(",Int32"), Err(Fault::EmptyColumn));
    assert_eq!(
        check("Int32 , Float32 Nullable"),
        Ok(vec![
            Column { dtype: DataType::Int32, nullable: false },
            Column { dtype: DataType::Float32, nullable: true },
        ])
    );
}

#[test]
fn column_parse_gives_the_rest() {
    assert_eq!(
        Column::parse("Int32 Nullable , Float32"),
        Ok((Column { dtype: DataType::Int32, nullable: true }, ", Float32"))
    );
    assert_eq!(
        Column::parse("Float32   "),
        Ok((Column { dtype: DataType::Float32, nullable: false }, ""))
    );
    assert_eq!(
        Column::parse("Float32\u{a0}Int32"),
        Ok((Column { dtype: DataType::Float32, nullable: false }, "Int32"))
    );
    assert_eq!(
        Column::parse("Int32é"),
        Ok((Column { dtype: DataType::Int32, nullable: false }, "é"))
    );
}

#[test]
fn column_parse_skips_no_leading_whitespace() {
    assert_eq!(Column::parse(" Int32"), Err(KbtError));
    assert_eq!(Column::parse(""), Err(KbtError));
    assert_eq!(Column::parse(",Int32"), Err(KbtError));
    assert_eq!(Column::parse("Nullable"), Err(KbtError));
}

#[test]
fn size_is_four_bytes() {
    assert_eq!(DataType::Int32.size(), 4);
    assert_eq!(DataType::Float32.size(), 4);
}

#[test]
fn literals_are_the_vocabulary() {
    assert_eq!(literals::FLOAT32, "Float32");
    assert_eq!(literals::INT32, "Int32");
    assert_eq!(literals::NULLABLE, "Nullable");
    assert_eq!(literals::SEPARATOR, b',');
    assert_eq!(DataType::Float32.literal(), "Float32");
    assert_eq!(DataType::Int32.literal(), "Int32");
}

#[test]
fn whitespace_is_the_unicode_property() {
    for c in 0..=0x11_0000u32 {
        if let Some(c) = char::from_u32(c) {
            assert_eq!(is_whitespace(c), c.is_whitespace());
        }
    }
}

#[test]
fn to_chars_gives_the_characters() {
    assert_eq!(to_chars("aé\u{3000}"), vec!['a', 'é', '\u{3000}']);
    assert_eq!(to_chars(""), Vec::<char>::new());
}

#[test]
fn error_has_a_description() {
    assert_eq!(KbtError.description(), "Kobuta error");
    assert_eq!(Fault::BufferTooSmall.into_error(), KbtError);
}

#[test]
fn trailing_whitespace_changes_nothing() {
    let texts: [&str; 8] = [
        "Int32",
        "Int32 Nullable, Float32",
        "Float3",
        "Float32 Nullabl",
        "Float32,",
        "Int32 Float32",
        "",
        ",",
    ];
    for text in texts {
        for tail in ["", " ", "\t\n", "\u{a0} \u{2009}"] {
            assert_eq!(check(&format!("{}{}", text, tail)), check(text));
        }
    }
}
