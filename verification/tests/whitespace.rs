use zlang::{parse_ast, Expr, ParseError, ParseErrorKind};

fn tree(text: &str) -> Result<Vec<Expr>, ParseError> {
    parse_ast(text)
}

fn outcome(text: &str) -> Result<Vec<Expr>, ParseErrorKind> {
    parse_ast(text).map_err(|e| e.kind)
}

fn word(c: u8) -> bool {
    c.is_ascii_alphanumeric() || c == b'+' || c == b'-' || c == b'.'
}

fn loose(x: u8, y: u8) -> bool {
    !(word(x) && word(y)) && y != b'(' && !(x == b'(' && y == b')') && !(x == b':' && y == b'=')
}

#[test]
fn longer_and_shorter_runs_give_the_same_tree() {
    let plain = tree("fn main() { name := \"World\" printf(name) }").unwrap();
    assert_eq!(
        tree("fn \t main()\n\n{\r\n\tname   :=\n\"World\"\n\n\tprintf(name)\n}").unwrap(),
        plain
    );
    assert_eq!(tree("fn\nmain() {\nname := \"World\"\nprintf(name)\n}").unwrap(), plain);
}

#[test]
fn whitespace_around_a_program_gives_the_same_tree() {
    let plain = tree("x := 1 f(x)").unwrap();
    assert_eq!(tree("  \n x := 1 f(x)").unwrap(), plain);
    assert_eq!(tree("x := 1 f(x) \n\n").unwrap(), plain);
    assert_eq!(tree("\tx := 1 f(x)\t").unwrap(), plain);
}

#[test]
fn whitespace_between_loose_bytes_gives_the_same_tree() {
    let dense = tree("fn main(a,b){x:=\"s\"f(x,1,\"t\")}fn other(){}").unwrap();
    let airy = tree(
        "fn main( a , b ) { x := \"s\" f( x , 1 , \"t\" ) } fn other() { }",
    )
    .unwrap();
    assert_eq!(dense, airy);
    assert_eq!(dense.len(), 2);
}

#[test]
fn whitespace_inside_a_string_is_kept() {
    assert_ne!(tree("s := \"a b\"").unwrap(), tree("s := \"a  b\"").unwrap());
}

#[test]
fn runs_between_arguments_may_vary() {
    let plain = tree("f(a , b , c)").unwrap();
    assert_eq!(tree("f(a  ,\tb\n,\r\nc)").unwrap(), plain);
    assert_eq!(tree("f(a,b,c)").unwrap(), plain);
}

#[test]
fn a_fault_stays_a_fault_of_the_same_kind() {
    assert_eq!(outcome("x := 99999999999999999999"), Err(ParseErrorKind::NumberOutOfRange));
    assert_eq!(outcome("x   :=\n\n99999999999999999999"), Err(ParseErrorKind::NumberOutOfRange));
    assert_eq!(outcome("x:=99999999999999999999"), Err(ParseErrorKind::NumberOutOfRange));
    assert_eq!(outcome("a ) b"), Err(ParseErrorKind::UnexpectedInput));
    assert_eq!(outcome("a \n ) \t b"), Err(ParseErrorKind::UnexpectedInput));
    assert_eq!(outcome("a)b"), Err(ParseErrorKind::UnexpectedInput));
}

#[test]
fn whitespace_between_bytes_that_are_not_loose_may_change_the_tree() {
    assert!(!loose(b'f', b'('));
    assert!(tree("f()").is_ok());
    assert!(tree("f ()").is_err());
    assert!(!loose(b'(', b')'));
    assert!(tree("f( )").is_err());
    assert!(!loose(b'a', b'b'));
    assert_ne!(tree("ab").unwrap(), tree("a b").unwrap());
    assert!(!loose(b':', b'='));
    assert!(tree("x:=1").is_ok());
    assert!(tree("x: =1").is_err());
    assert!(!loose(b'-', b'1'));
    assert!(tree("x := -1").is_ok());
    assert!(tree("x := - 1").is_err());
    assert!(!loose(b'n', b'm'));
    assert!(tree("fn main() {}").is_ok());
    assert!(tree("fnmain() {}").is_err());
}

#[test]
fn whitespace_at_every_loose_place_keeps_the_outcome() {
    let pieces: &[&str] = &[
        "fn", "fn ", "main", "f", "x", "(", ")", "()", "{", "}", "{}", ",", ":=", "\"s\"",
        "\"a b\"", "1", "-2", "+1.5", "+1e5", " ", "\n", "e", "E", ".", "+", "-", "f(x)",
        "f(x, 1)", "x := 1", "fn f() {", "fn f(a){x}", ":", "=", "99999999999999999999",
    ];
    let mut state: u64 = 0x2545F4914F6CDD1D;
    let mut next = || {
        state ^= state << 13;
        state ^= state >> 7;
        state ^= state << 17;
        state
    };
    let mut programs = 0;
    let mut places = 0;
    for _ in 0..4000 {
        let count = (next() % 9) as usize;
        let mut text: Vec<u8> = Vec::new();
        for _ in 0..count {
            text.extend_from_slice(pieces[(next() % pieces.len() as u64) as usize].as_bytes());
        }
        let plain = String::from_utf8(text.clone()).unwrap();
        let expected = outcome(&plain);
        if expected.is_ok() {
            programs += 1;
        }
        for cut in 0..=text.len() {
            let (a, b) = text.split_at(cut);
            if a.iter().filter(|c| **c == b'"').count() % 2 != 0 {
                continue;
            }
            if !(a.is_empty() || b.is_empty() || loose(a[a.len() - 1], b[0])) {
                continue;
            }
            let mut changed = a.to_vec();
            changed.extend_from_slice(if next() % 2 == 0 { b" " } else { b"\n\t" });
            changed.extend_from_slice(b);
            let changed = String::from_utf8(changed).unwrap();
            assert_eq!(outcome(&changed), expected, "{:?} and {:?}", plain, changed);
            places += 1;
        }
    }
    assert!(programs > 100);
    assert!(places > 10000);
}
