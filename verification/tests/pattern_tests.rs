use regex::Regex;
use vxde::{match_line, Declaration, TypeTag};

/// The form of a declaration, written as a pattern.
const PATTERN: &str = r"\s*([A-Za-z_][A-Za-z0-9_]*)\s*:\s*(string|int32|int64|uint32|uint64|float32|float64|bool|char)\s*(=\s*([^;]*))?\s*;";

fn by_pattern(pattern: &Regex, line: &str) -> Vec<Declaration> {
    let mut found: Vec<Declaration> = Vec::new();
    for captures in pattern.captures_iter(line) {
        let type_tag = match TypeTag::from_keyword(&captures[2]) {
            Some(tag) => tag,
            None => panic!("{:?} is no keyword", &captures[2]),
        };
        found.push(Declaration {
            name: captures[1].to_string(),
            type_tag,
            raw_value: captures.get(4).map(|value| value.as_str().trim().to_string()),
        });
    }
    found
}

fn is_identifier(name: &str) -> bool {
    let mut chars = name.chars();
    match chars.next() {
        Some(first) => {
            (first.is_ascii_alphabetic() || first == '_')
                && chars.all(|c| c.is_ascii_alphanumeric() || c == '_')
        }
        None => false,
    }
}

fn is_well_formed(declaration: &Declaration) -> bool {
    is_identifier(&declaration.name)
        && match &declaration.raw_value {
            Some(raw) => raw.trim() == raw && !raw.contains(';'),
            None => true,
        }
}

fn pattern() -> Regex {
    match Regex::new(PATTERN) {
        Ok(pattern) => pattern,
        Err(error) => panic!("the pattern does not compile: {}", error),
    }
}

#[test]
fn matcher_agrees_with_the_pattern_on_chosen_lines() {
    let pattern = pattern();
    let lines = [
        "",
        "NAME: string = \"hello\";",
        "AGE: int32 = 30;",
        "FLAG: bool = maybe;",
        "X: foo = 1;",
        "A: int32 = 1; B: string = \"x\";",
        "A:int32;B:int64;C:uint32;D:uint64;E:float32;F:float64;G:bool;H:char;I:string;",
        "  A  :  int32  =  1  ;  ",
        "A: int32 = 1",
        "A: int32 = ;",
        "A: int32 ==;",
        "A: int32 = = ;",
        "junk A: int32 = 1; junk",
        "9A: int32 = 1;",
        "A B: int32 = 1;",
        "A: int32: int64 = 1;",
        "A: string = B: int32 = 1; C: bool;",
        "A: foo = B: int32 = 1; C: bool;",
        "A: int32int64 = 1;",
        "A: int32 int64 = 1;",
        "A:\u{a0}int32\u{2003}=\u{3000}1\u{2028};",
        "A: int32 = \u{a0}1\u{a0};",
        "é: int32 = 1;",
        "Aé: int32 = 1;",
        "A: string = é;;;B: char = ;;",
        "A: int32 = 1;\nB: int32 = 2;",
        "A:\nint32\n=\n1\n;",
        ";;;:::===",
        "a:b:c:string;",
        "a: string = x = y;",
    ];
    for line in lines {
        assert_eq!(match_line(line), by_pattern(&pattern, line), "in {:?}", line);
    }
}

#[test]
fn matcher_agrees_with_the_pattern_on_mixed_lines() {
    let pattern = pattern();
    let pieces = [
        "A", "b1", "_", "x_9", "9", ":", ":", ";", ";", "=", "=", " ", " ", "\t", "\u{a0}",
        "\u{2003}", "\n", "string", "int32", "int64", "uint32", "uint64", "float32", "float64",
        "bool", "char", "foo", "int", "32", "\"", "é", "-1.5", "null", "true",
    ];
    let mut state: u64 = 0x2545_F491_4F6C_DD1D;
    let mut round: u32 = 0;
    while round < 20000 {
        let mut line = String::new();
        state = state.wrapping_mul(6364136223846793005).wrapping_add(1442695040888963407);
        let length: u64 = (state >> 33) % 16;
        let mut taken: u64 = 0;
        while taken < length {
            state = state.wrapping_mul(6364136223846793005).wrapping_add(1442695040888963407);
            let pick: usize = ((state >> 33) % (pieces.len() as u64)) as usize;
            line.push_str(pieces[pick]);
            taken += 1;
        }
        let found = match_line(&line);
        assert!(found.iter().all(is_well_formed), "in {:?}", line);
        assert_eq!(found, by_pattern(&pattern, &line), "in {:?}", line);
        round += 1;
    }
}
