use lassie::eval::describe;
use lassie::failure::{label, locate, mask, token_at, Expected, Furthest, ParseError, Token, TOKENS};
use lassie::parse::exprs;

#[test]
fn labels_are_sorted_by_rank() {
    let mut labels = Vec::new();
    for i in 0..TOKENS {
        labels.push(label(token_at(i)));
    }
    let mut sorted = labels.clone();
    sorted.sort();
    assert_eq!(labels, sorted);
    assert_eq!(labels.len(), 19);
    assert_eq!(labels[0], "\"(\"");
    assert_eq!(labels[5], "\"\\\"\"");
    assert_eq!(labels[6], "\"\\\\\"");
    assert_eq!(labels[12], "[^ '\"']");
    assert_eq!(labels[18], "symbol");
}

#[test]
fn masks_follow_ranks() {
    for i in 0..TOKENS {
        assert_eq!(mask(token_at(i)), 1u32 << i);
    }
}

#[test]
fn expected_set_operations() {
    let none = Expected::empty();
    assert!(!none.contains(Token::Eof));
    let a = none.with(Token::Eof).with(Token::Comma);
    assert!(a.contains(Token::Eof));
    assert!(a.contains(Token::Comma));
    assert!(!a.contains(Token::Symbol));
    let b = Expected::empty().with(Token::Symbol);
    let c = a.union(b);
    assert!(c.contains(Token::Symbol) && c.contains(Token::Eof) && c.contains(Token::Comma));
    assert_eq!(c, b.union(a));
}

#[test]
fn expected_set_reads_as_a_list() {
    assert_eq!(Expected::empty().to_string(), "<unreported>");
    assert_eq!(Expected::empty().with(Token::Eof).to_string(), "EOF");
    assert_eq!(Expected::empty().with(Token::CloseParen).to_string(), "\")\"");
    let e = Expected::empty().with(Token::Symbol).with(Token::Eof).with(Token::OpenParen);
    assert_eq!(e.to_string(), "one of \"(\", EOF, symbol");
}

#[test]
fn furthest_failure_wins() {
    let a = Furthest::note(3, Token::Comma);
    let b = Furthest::note(5, Token::Eof);
    assert_eq!(a.join(b), b);
    assert_eq!(b.join(a), b);
    let c = Furthest::note(5, Token::Symbol);
    let both = b.join(c);
    assert_eq!(both.at, 5);
    assert_eq!(both.expected, Expected::empty().with(Token::Eof).with(Token::Symbol));
    assert_eq!(Furthest::start().join(a), a);
}

#[test]
fn locate_counts_bytes_lines_and_columns() {
    let s: Vec<char> = "a\u{e9}\n\u{4e16}b".chars().collect();
    let e = locate(&s, 0, Expected::empty());
    assert_eq!((e.offset, e.line, e.column), (0, 1, 1));
    let e = locate(&s, 2, Expected::empty());
    assert_eq!((e.offset, e.line, e.column), (3, 1, 3));
    let e = locate(&s, 3, Expected::empty());
    assert_eq!((e.offset, e.line, e.column), (4, 2, 1));
    let e = locate(&s, 5, Expected::empty());
    assert_eq!((e.offset, e.line, e.column), (8, 2, 3));
}

#[test]
fn failure_reads_with_its_place() {
    let e = exprs("(1 2").unwrap_err();
    assert_eq!(
        e.to_string(),
        "error at 1:5: expected one of \"(\", \")\", \",\", \"[\", \"\\\"\", \"{\", float, integer, prefix, symbol"
    );
}

#[test]
fn complaint_at_the_end() {
    let text = "(1 2";
    let e = exprs(text).unwrap_err();
    assert_eq!(
        describe(text, &e),
        "error: got: EOF at: 1:5 expected: one of \"(\", \")\", \",\", \"[\", \"\\\"\", \"{\", float, integer, prefix, symbol"
    );
}

#[test]
fn complaint_shows_the_rest_of_the_line() {
    let text = "a\n  ) b c\r\nd";
    let e = exprs(text).unwrap_err();
    assert_eq!(e.offset, 4);
    assert_eq!(
        describe(text, &e),
        "error: got: ) b c at: 2:3 expected: one of \"(\", \";\", \"[\", \"\\\"\", \"{\", EOF, float, integer, prefix, symbol"
    );
}

#[test]
fn complaint_keeps_a_carriage_return_that_ends_the_text() {
    let e = ParseError { offset: 1, line: 1, column: 2, expected: Expected::empty().with(Token::Eof) };
    assert_eq!(describe("a)\r", &e), "error: got: )\r at: 1:2 expected: EOF");
    assert_eq!(describe("a)\r\n", &e), "error: got: ) at: 1:2 expected: EOF");
    assert_eq!(describe("a\n", &e), "error: got:  at: 1:2 expected: EOF");
}

#[test]
fn complaint_inside_a_character() {
    let e = ParseError { offset: 1, line: 1, column: 1, expected: Expected::empty() };
    assert_eq!(describe("\u{e9}a", &e), "error: got: nothing at: 1:1 expected: <unreported>");
    let e = ParseError { offset: 2, line: 7, column: 12, expected: Expected::empty() };
    assert_eq!(describe("\u{e9}a", &e), "error: got: a at: 7:12 expected: <unreported>");
    let e = ParseError { offset: 3, line: 1, column: 1, expected: Expected::empty() };
    assert_eq!(describe("\u{e9}a", &e), "error: got: EOF at: 1:1 expected: <unreported>");
}
