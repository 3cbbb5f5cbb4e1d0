use vxde::{Driver, ParseFailure, VariableStore, VxdValue, VxdeParser};

fn lines(text: &[&str]) -> Vec<Result<String, String>> {
    text.iter().map(|line| Ok(line.to_string())).collect()
}

fn parse_ok(text: &[&str]) -> VxdeParser {
    match VxdeParser::parse(&lines(text)) {
        Ok(parser) => parser,
        Err(failure) => panic!("the parse failed: {:?}", failure),
    }
}

fn text_value(text: &str) -> VxdValue {
    VxdValue::String(text.to_string())
}

#[test]
fn test_valid_parsing() {
    let source = lines(&[
        "USER_NAME: string = \"someone\";",
        "USER_PASS: string = \"dhhdhdhd\";",
        "USER_AGE: int32 = 44;",
    ]);
    let parser_result = VxdeParser::parse(&source);

    match parser_result {
        Ok(parser) => {
            let variables = parser.get_variables();

            if let Some(user_pass) = variables.get("USER_PASS") {
                println!("Parsed USER_PASS: {:?}", user_pass);
            }

            assert!(variables.contains_key("USER_PASS"), "Missing key 'USER_PASS'");
            assert_eq!(
                variables.get("USER_PASS"),
                Some(&VxdValue::String("dhhdhdhd".to_string())),
                "Incorrect value for 'USER_PASS'"
            );
        }
        Err(e) => {
            panic!("Failed to parse the valid lines. Error: {:?}", e);
        }
    }
}

#[test]
fn test_invalid_parsing() {
    let source: Vec<Result<String, String>> = vec![
        Ok("USER_NAME: string = \"someone\";".to_string()),
        Err("stream did not contain valid UTF-8".to_string()),
        Ok("USER_AGE: int32 = 44;".to_string()),
    ];

    let parser_result = VxdeParser::parse(&source);

    match parser_result {
        Ok(_) => {
            panic!("Parsing should have failed for the broken source, but it succeeded.");
        }
        Err(e) => {
            println!("Correctly failed to parse the broken source. Error: {:?}", e);
            assert_eq!(e, ParseFailure::Io("stream did not contain valid UTF-8".to_string()));
            assert_eq!(e.message(), "stream did not contain valid UTF-8");
        }
    }
}

#[test]
fn string_declaration_gives_the_text_without_its_quotes() {
    let parser = parse_ok(&["NAME: string = \"hello\";"]);
    assert_eq!(parser.get("NAME"), Some(&text_value("hello")));
    assert_eq!(parser.get_variables().len(), 1);
}

#[test]
fn int32_declaration_gives_the_number() {
    let parser = parse_ok(&["AGE: int32 = 30;"]);
    assert_eq!(parser.get("AGE"), Some(&VxdValue::I32(30)));
    assert_eq!(parser.get_variables().len(), 1);
}

#[test]
fn bool_text_that_is_neither_true_nor_false_gives_null() {
    let parser = parse_ok(&["FLAG: bool = maybe;"]);
    assert_eq!(parser.get("FLAG"), Some(&VxdValue::Null));
    assert_eq!(parser.get_variables().len(), 1);
}

#[test]
fn unknown_type_tag_is_a_failure_when_declared() {
    let driver = match Driver::new().declare("A", "int32", Some("1")) {
        Ok(driver) => driver,
        Err(failure) => panic!("the tag `int32` was refused: {:?}", failure),
    };
    match driver.declare("X", "foo", Some("1")) {
        Ok(_) => panic!("the tag `foo` was accepted"),
        Err(failure) => {
            assert_eq!(failure, ParseFailure::UnsupportedType("foo".to_string()));
            assert_eq!(failure.message(), "Unsupported type: foo");
        }
    }
}

#[test]
fn declared_parts_give_the_name_its_value() {
    let mut driver = Driver::new();
    let parts = [
        ("A", "int32", Some("1")),
        ("B", "string", Some(" \"b\" ")),
        ("C", "bool", None),
        ("A", "uint32", Some("7")),
        ("not a name", "char", Some("q")),
    ];
    for (name, type_tag, raw_value) in parts {
        driver = match driver.declare(name, type_tag, raw_value) {
            Ok(driver) => driver,
            Err(failure) => panic!("{:?} was refused: {:?}", type_tag, failure),
        };
    }
    let parser = driver.finish();
    assert_eq!(parser.get("A"), Some(&VxdValue::U32(7)));
    assert_eq!(parser.get("B"), Some(&text_value("b")));
    assert_eq!(parser.get("C"), Some(&VxdValue::Null));
    assert_eq!(parser.get("not a name"), Some(&VxdValue::Char('q')));
    assert_eq!(parser.get_variables().len(), 4);
}

#[test]
fn unknown_type_keyword_in_a_line_is_no_declaration() {
    let parser = parse_ok(&["X: foo = 1;"]);
    assert_eq!(parser.get("X"), None);
    assert!(parser.get_variables().is_empty());
}

#[test]
fn two_declarations_on_one_line_are_both_taken() {
    let parser = parse_ok(&["A: int32 = 1; B: string = \"x\";"]);
    assert_eq!(parser.get("A"), Some(&VxdValue::I32(1)));
    assert_eq!(parser.get("B"), Some(&text_value("x")));
    assert_eq!(parser.get_variables().len(), 2);
}

#[test]
fn value_cannot_run_over_a_line_break() {
    let parser = parse_ok(&["USER_PARR: string = reanore", "flkkllkkll;"]);
    assert_eq!(parser.get("USER_PARR"), None);
    assert!(parser.get_variables().is_empty());
}

#[test]
fn empty_input_gives_an_empty_store() {
    let source: Vec<Result<String, String>> = Vec::new();
    match VxdeParser::parse(&source) {
        Ok(parser) => {
            assert!(parser.get_variables().is_empty());
            assert_eq!(parser.get_variables().len(), 0);
            assert!(parser.get_variables().snapshot().is_empty());
        }
        Err(failure) => panic!("the parse failed: {:?}", failure),
    }
}

#[test]
fn empty_lines_give_an_empty_store() {
    let parser = parse_ok(&["", "   ", "\t"]);
    assert!(parser.get_variables().is_empty());
}

#[test]
fn later_declaration_replaces_the_earlier_one() {
    let parser = parse_ok(&[
        "A: int32 = 1; B: bool = true;",
        "A: string = \"two\";",
        "C: char = c; A: uint64 = 3;",
    ]);
    assert_eq!(parser.get("A"), Some(&VxdValue::U64(3)));
    assert_eq!(parser.get("B"), Some(&VxdValue::Bool(true)));
    assert_eq!(parser.get("C"), Some(&VxdValue::Char('c')));
    assert_eq!(parser.get_variables().len(), 3);
    let snapshot = parser.get_variables().snapshot();
    let held: Vec<&(String, VxdValue)> = snapshot.iter().filter(|entry| entry.0 == "A").collect();
    assert_eq!(held.len(), 1);
    assert_eq!(held[0].1, VxdValue::U64(3));
}

#[test]
fn later_declaration_on_the_same_line_replaces_the_earlier_one() {
    let parser = parse_ok(&["A: int32 = 1; A: int32 = 2;"]);
    assert_eq!(parser.get("A"), Some(&VxdValue::I32(2)));
    assert_eq!(parser.get_variables().len(), 1);
}

#[test]
fn later_null_replaces_an_earlier_value() {
    let parser = parse_ok(&["A: int32 = 1;", "A: int32;"]);
    assert_eq!(parser.get("A"), Some(&VxdValue::Null));
    assert_eq!(parser.get_variables().len(), 1);
}

#[test]
fn line_without_colon_or_terminator_declares_nothing() {
    let parser = parse_ok(&[
        "A int32 = 1;",
        "B: int32 = 2",
        "just some words",
        ": int32 = 3;",
        "9: int32 = 3;",
        "C: = 3;",
        "D: int32 3;",
        "E: int32x = 3;",
        "F: Int32 = 3;",
    ]);
    assert!(parser.get_variables().is_empty());
}

#[test]
fn failure_of_the_source_discards_what_was_read() {
    let source: Vec<Result<String, String>> = vec![
        Ok("A: int32 = 1;".to_string()),
        Err("first".to_string()),
        Err("second".to_string()),
    ];
    assert_eq!(
        VxdeParser::parse(&source).map(|parser| parser.get_variables().len()),
        Err(ParseFailure::Io("first".to_string()))
    );
}

#[test]
fn feed_line_adds_to_what_was_declared() {
    let driver = Driver::new()
        .feed_line("A: int32 = 1;")
        .feed_line("no declaration here")
        .feed_line("B: int64 = -2; A: int32 = 5;");
    let parser = driver.finish();
    assert_eq!(parser.get("A"), Some(&VxdValue::I32(5)));
    assert_eq!(parser.get("B"), Some(&VxdValue::I64(-2)));
    assert_eq!(parser.get_variables().len(), 2);
}

#[test]
fn driver_that_read_nothing_holds_nothing() {
    let parser = Driver::new().finish();
    assert!(parser.get_variables().is_empty());
    assert_eq!(parser.get("A"), None);
}

#[test]
fn store_insert_get_and_snapshot() {
    let mut store = VariableStore::new();
    assert!(store.is_empty());
    assert_eq!(store.len(), 0);
    assert_eq!(store.get("a"), None);
    store.insert("a".to_string(), VxdValue::I32(1));
    store.insert("b".to_string(), VxdValue::Null);
    store.insert("a".to_string(), VxdValue::Bool(false));
    assert!(!store.is_empty());
    assert_eq!(store.len(), 2);
    assert!(store.contains_key("a"));
    assert!(store.contains_key("b"));
    assert!(!store.contains_key("c"));
    assert_eq!(store.get("a"), Some(&VxdValue::Bool(false)));
    assert_eq!(store.get("b"), Some(&VxdValue::Null));
    let mut snapshot = store.snapshot();
    snapshot.sort_by(|left, right| left.0.cmp(&right.0));
    assert_eq!(
        snapshot,
        vec![("a".to_string(), VxdValue::Bool(false)), ("b".to_string(), VxdValue::Null)]
    );
}

#[test]
fn failure_messages() {
    assert_eq!(ParseFailure::Io("disk gone".to_string()).message(), "disk gone");
    assert_eq!(
        ParseFailure::UnsupportedType("i32".to_string()).message(),
        "Unsupported type: i32"
    );
    let failure = ParseFailure::UnsupportedType("x".to_string());
    assert_eq!(failure.clone(), failure);
}
