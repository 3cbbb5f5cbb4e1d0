use vxde::chars::{is_digit, is_ident_char, is_ident_start, is_space, to_chars, trim_bounds};
use vxde::number::{is_float_literal, parse_i32, parse_i64, parse_u32, parse_u64};
use vxde::{coerce, coerce_value, FloatLiteral, ParseFailure, TypeTag, VxdValue};

const TAGS: [TypeTag; 9] = [
    TypeTag::String,
    TypeTag::I32,
    TypeTag::I64,
    TypeTag::U32,
    TypeTag::U64,
    TypeTag::F32,
    TypeTag::F64,
    TypeTag::Bool,
    TypeTag::Char,
];

fn literal(text: &str) -> FloatLiteral {
    match FloatLiteral::parse(text) {
        Some(literal) => literal,
        None => panic!("{:?} was not accepted", text),
    }
}

#[test]
fn no_value_is_null_under_every_tag() {
    for tag in TAGS {
        assert_eq!(coerce_value(tag, None), VxdValue::Null);
        for raw in ["", " ", "\t \u{a0}", "null", "  null  ", "\u{2003}null\t"] {
            assert_eq!(coerce_value(tag, Some(raw)), VxdValue::Null, "{:?} under {:?}", raw, tag);
            assert_eq!(coerce(tag.as_str(), Some(raw)), Ok(VxdValue::Null));
        }
        assert_eq!(coerce(tag.as_str(), None), Ok(VxdValue::Null));
    }
}

#[test]
fn malformed_text_is_null_and_no_failure() {
    let cases = [
        (TypeTag::I32, "12a"),
        (TypeTag::I32, "1.5"),
        (TypeTag::I32, "2147483648"),
        (TypeTag::I32, "-2147483649"),
        (TypeTag::I32, "+"),
        (TypeTag::I32, "--1"),
        (TypeTag::I32, "1 2"),
        (TypeTag::I32, "0x10"),
        (TypeTag::I32, "1_000"),
        (TypeTag::I64, "9223372036854775808"),
        (TypeTag::I64, "-9223372036854775809"),
        (TypeTag::I64, "ten"),
        (TypeTag::U32, "-1"),
        (TypeTag::U32, "+1"),
        (TypeTag::U32, "4294967296"),
        (TypeTag::U32, "1e3"),
        (TypeTag::U64, "-0"),
        (TypeTag::U64, "+0"),
        (TypeTag::U64, "18446744073709551616"),
        (TypeTag::U64, "99999999999999999999999999999999"),
        (TypeTag::F32, "abc"),
        (TypeTag::F32, "1.2.3"),
        (TypeTag::F32, "."),
        (TypeTag::F64, "1e"),
        (TypeTag::F64, "e5"),
        (TypeTag::F64, "1,5"),
        (TypeTag::F64, "0x1p3"),
        (TypeTag::Bool, "maybe"),
        (TypeTag::Bool, "1"),
        (TypeTag::Bool, "0"),
        (TypeTag::Bool, "True"),
        (TypeTag::Bool, "FALSE"),
        (TypeTag::Bool, "truefalse"),
    ];
    for (tag, raw) in cases {
        assert_eq!(coerce_value(tag, Some(raw)), VxdValue::Null, "{:?} under {:?}", raw, tag);
        assert_eq!(coerce(tag.as_str(), Some(raw)), Ok(VxdValue::Null));
    }
}

#[test]
fn unknown_tag_is_a_failure() {
    for tag in ["foo", "i32", "", "Int32", "string ", "int"] {
        assert_eq!(
            coerce(tag, Some("1")),
            Err(ParseFailure::UnsupportedType(tag.to_string())),
            "for {:?}",
            tag
        );
        assert_eq!(coerce(tag, None), Err(ParseFailure::UnsupportedType(tag.to_string())));
    }
}

#[test]
fn string_values() {
    let cases = [
        ("hello", "hello"),
        ("\"hello\"", "hello"),
        ("  \"hello\"  ", "hello"),
        ("  hello world  ", "hello world"),
        ("\"\"", ""),
        ("\"", "\""),
        ("\"a", "\"a"),
        ("a\"", "a\""),
        ("\"\"a\"\"", "\"a\""),
        ("\" padded \"", " padded "),
        ("\"null\"", "null"),
        ("\"a\\\"b\"", "a\\\"b"),
        ("'single'", "'single'"),
        ("Null", "Null"),
    ];
    for (raw, expected) in cases {
        assert_eq!(
            coerce_value(TypeTag::String, Some(raw)),
            VxdValue::String(expected.to_string()),
            "for {:?}",
            raw
        );
    }
}

#[test]
fn integer_values() {
    assert_eq!(coerce_value(TypeTag::I32, Some("30")), VxdValue::I32(30));
    assert_eq!(coerce_value(TypeTag::I32, Some(" -30 ")), VxdValue::I32(-30));
    assert_eq!(coerce_value(TypeTag::I32, Some("+30")), VxdValue::I32(30));
    assert_eq!(coerce_value(TypeTag::I32, Some("007")), VxdValue::I32(7));
    assert_eq!(coerce_value(TypeTag::I32, Some("-0")), VxdValue::I32(0));
    assert_eq!(coerce_value(TypeTag::I32, Some("2147483647")), VxdValue::I32(i32::MAX));
    assert_eq!(coerce_value(TypeTag::I32, Some("-2147483648")), VxdValue::I32(i32::MIN));
    assert_eq!(coerce_value(TypeTag::I64, Some("2147483648")), VxdValue::I64(2147483648));
    assert_eq!(coerce_value(TypeTag::I64, Some("9223372036854775807")), VxdValue::I64(i64::MAX));
    assert_eq!(coerce_value(TypeTag::I64, Some("-9223372036854775808")), VxdValue::I64(i64::MIN));
    assert_eq!(coerce_value(TypeTag::U32, Some("0")), VxdValue::U32(0));
    assert_eq!(coerce_value(TypeTag::U32, Some("4294967295")), VxdValue::U32(u32::MAX));
    assert_eq!(coerce_value(TypeTag::U64, Some("4294967296")), VxdValue::U64(4294967296));
    assert_eq!(
        coerce_value(TypeTag::U64, Some("18446744073709551615")),
        VxdValue::U64(u64::MAX)
    );
    assert_eq!(
        coerce_value(TypeTag::U64, Some("000000000000000000000000000000012")),
        VxdValue::U64(12)
    );
}

#[test]
fn integer_literals_agree_with_the_standard_parsers() {
    let samples = [
        "", "0", "1", "-1", "+1", "-", "+", "+-1", "-+1", "00", "-00", "12345", "2147483647",
        "2147483648", "-2147483648", "-2147483649", "4294967295", "4294967296",
        "9223372036854775807", "9223372036854775808", "-9223372036854775808",
        "-9223372036854775809", "18446744073709551615", "18446744073709551616", "1a", "a1",
        " 1", "1 ", "1.0", "1e3", "٣", "１", "1_0", "0x1", "--1", "++1",
    ];
    for sample in samples {
        let chars = to_chars(sample);
        assert_eq!(parse_i32(&chars), sample.parse::<i32>().ok(), "i32 of {:?}", sample);
        assert_eq!(parse_i64(&chars), sample.parse::<i64>().ok(), "i64 of {:?}", sample);
        if !sample.starts_with('+') {
            assert_eq!(parse_u32(&chars), sample.parse::<u32>().ok(), "u32 of {:?}", sample);
            assert_eq!(parse_u64(&chars), sample.parse::<u64>().ok(), "u64 of {:?}", sample);
        } else {
            assert_eq!(parse_u32(&chars), None, "u32 of {:?}", sample);
            assert_eq!(parse_u64(&chars), None, "u64 of {:?}", sample);
        }
    }
}

#[test]
fn float_values_keep_their_literal() {
    assert_eq!(coerce_value(TypeTag::F32, Some(" 3.14 ")), VxdValue::F32(literal("3.14")));
    assert_eq!(coerce_value(TypeTag::F64, Some("-2.5E-10")), VxdValue::F64(literal("-2.5E-10")));
    match coerce_value(TypeTag::F64, Some("  6.02e23")) {
        VxdValue::F64(kept) => {
            assert_eq!(kept.as_str(), "6.02e23");
            assert_eq!(kept.as_str().parse::<f64>(), Ok(6.02e23));
            assert_eq!(kept.clone(), kept);
        }
        other => panic!("not a float: {:?}", other),
    }
    match coerce_value(TypeTag::F32, Some("0.5")) {
        VxdValue::F32(kept) => assert_eq!(kept.as_str().parse::<f32>(), Ok(0.5f32)),
        other => panic!("not a float: {:?}", other),
    }
    assert_eq!(FloatLiteral::parse("1.5x"), None);
    assert_eq!(FloatLiteral::parse(" 1.5"), None);
    assert_eq!(FloatLiteral::parse(""), None);
}

#[test]
fn float_literals_agree_with_the_standard_parser() {
    let samples = [
        "", "0", "1", "-1", "+1", "1.", ".1", ".", "+.", "-.", "1.5", "-1.5", "+1.5", "1e5",
        "1E5", "1e+5", "1e-5", "1e", "1e+", "1e-", "e5", ".e5", "1.e5", ".5e5", "1.5e5.5",
        "1.5e5e5", "inf", "-inf", "+inf", "INF", "Inf", "iNf", "infinity", "-Infinity",
        "INFINITY", "infinit", "infinityy", "nan", "NaN", "-nan", "+NAN", "nann", "na", "in",
        "1_0", "1,0", " 1", "1 ", "1f", "0x10", "١", "１", "1.5.5", "--1", "+-1", "1..5",
        "00012.500", "1e0000005", "123456789012345678901234567890", "1e400", "-1e-400",
        "+", "-", "e", "E", ".e", "1e5 ", "ınf", "İnf", "ſ", "i\u{307}nf",
    ];
    for sample in samples {
        let expected = sample.parse::<f64>().is_ok();
        assert_eq!(sample.parse::<f32>().is_ok(), expected);
        assert_eq!(is_float_literal(&to_chars(sample)), expected, "for {:?}", sample);
        assert_eq!(FloatLiteral::parse(sample).is_some(), expected, "for {:?}", sample);
    }
}

fn mixed_texts(alphabet: &[char], rounds: u32, longest: u64) -> Vec<String> {
    let mut texts: Vec<String> = Vec::new();
    let mut state: u64 = 0x9E37_79B9_7F4A_7C15;
    let mut round: u32 = 0;
    while round < rounds {
        state = state.wrapping_mul(6364136223846793005).wrapping_add(1442695040888963407);
        let length: u64 = (state >> 33) % (longest + 1);
        let mut text = String::new();
        let mut taken: u64 = 0;
        while taken < length {
            state = state.wrapping_mul(6364136223846793005).wrapping_add(1442695040888963407);
            let pick: usize = ((state >> 33) % (alphabet.len() as u64)) as usize;
            text.push(alphabet[pick]);
            taken += 1;
        }
        texts.push(text);
        round += 1;
    }
    texts
}

#[test]
fn integer_literals_agree_with_the_standard_parsers_on_mixed_texts() {
    let alphabet = ['0', '1', '2', '4', '7', '9', '9', '+', '-', ' ', '.', 'a', '_'];
    for text in mixed_texts(&alphabet, 100000, 21) {
        let chars = to_chars(&text);
        assert_eq!(parse_i32(&chars), text.parse::<i32>().ok(), "i32 of {:?}", text);
        assert_eq!(parse_i64(&chars), text.parse::<i64>().ok(), "i64 of {:?}", text);
        if text.starts_with('+') {
            assert_eq!(parse_u32(&chars), None, "u32 of {:?}", text);
            assert_eq!(parse_u64(&chars), None, "u64 of {:?}", text);
        } else {
            assert_eq!(parse_u32(&chars), text.parse::<u32>().ok(), "u32 of {:?}", text);
            assert_eq!(parse_u64(&chars), text.parse::<u64>().ok(), "u64 of {:?}", text);
        }
    }
}

#[test]
fn float_literals_agree_with_the_standard_parser_on_mixed_texts() {
    let alphabet = [
        '0', '1', '5', '9', '+', '-', '.', '.', 'e', 'E', 'i', 'n', 'f', 'I', 'N', 'F', 'a', 'A',
        't', 'y', 'T', 'Y', ' ', '_', 'x',
    ];
    for text in mixed_texts(&alphabet, 200000, 9) {
        let expected = text.parse::<f64>().is_ok();
        assert_eq!(is_float_literal(&to_chars(&text)), expected, "for {:?}", text);
    }
    let words = ['i', 'n', 'f', 'I', 'N', 'F', 'a', 'A', 't', 'y', 'T', 'Y', '+', '-'];
    for text in mixed_texts(&words, 200000, 9) {
        let expected = text.parse::<f32>().is_ok();
        assert_eq!(is_float_literal(&to_chars(&text)), expected, "for {:?}", text);
    }
}

#[test]
fn bool_and_char_values() {
    assert_eq!(coerce_value(TypeTag::Bool, Some("true")), VxdValue::Bool(true));
    assert_eq!(coerce_value(TypeTag::Bool, Some(" false ")), VxdValue::Bool(false));
    assert_eq!(coerce_value(TypeTag::Char, Some("x")), VxdValue::Char('x'));
    assert_eq!(coerce_value(TypeTag::Char, Some("  xyz  ")), VxdValue::Char('x'));
    assert_eq!(coerce_value(TypeTag::Char, Some("é")), VxdValue::Char('é'));
    assert_eq!(coerce_value(TypeTag::Char, Some("\"")), VxdValue::Char('"'));
    assert_eq!(coerce_value(TypeTag::Char, Some("nul")), VxdValue::Char('n'));
}

#[test]
fn values_can_be_cloned() {
    let values = [
        VxdValue::String("s".to_string()),
        VxdValue::I32(-1),
        VxdValue::I64(-2),
        VxdValue::U32(3),
        VxdValue::U64(4),
        VxdValue::F32(literal("1.5")),
        VxdValue::F64(literal("nan")),
        VxdValue::Bool(true),
        VxdValue::Char('c'),
        VxdValue::Null,
    ];
    for value in &values {
        assert_eq!(&value.clone(), value);
    }
}

#[test]
fn white_space_is_what_the_standard_library_calls_white_space() {
    let mut code: u32 = 0;
    while code <= 0x10FFFF {
        if let Some(c) = char::from_u32(code) {
            assert_eq!(is_space(c), c.is_whitespace(), "for U+{:04X}", code);
        }
        code += 1;
    }
}

#[test]
fn trimming_agrees_with_the_standard_library() {
    for sample in ["", " ", "a", " a", "a ", "  a b  ", "\t\n a \r\n", "\u{a0}x\u{3000}", " \u{200b} "] {
        let chars = to_chars(sample);
        assert_eq!(chars, sample.chars().collect::<Vec<char>>());
        let (from, to) = trim_bounds(&chars);
        let kept: String = chars[from..to].iter().collect();
        assert_eq!(kept, sample.trim(), "for {:?}", sample);
    }
}

#[test]
fn character_classes() {
    for c in ['a', 'z', 'A', 'Z', '_'] {
        assert!(is_ident_start(c));
        assert!(is_ident_char(c));
        assert!(!is_digit(c));
    }
    for c in ['0', '5', '9'] {
        assert!(!is_ident_start(c));
        assert!(is_ident_char(c));
        assert!(is_digit(c));
    }
    for c in ['-', ' ', ':', ';', '=', 'é', '٣', '/', ':', '@', '[', '`', '{'] {
        assert!(!is_ident_start(c));
        assert!(!is_ident_char(c));
        assert!(!is_digit(c));
    }
}
