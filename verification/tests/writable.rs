use lassie::expr::{Expr, ExprType};
use lassie::parse::exprs;
use lassie::print::{escape, print};
use lassie::unescape::unescape;
use lassie::roundtrip::{is_writable, reads_back};

fn bare(expr: ExprType) -> Expr {
    Expr::new(None, expr)
}

fn with(prefix: &str, expr: ExprType) -> Expr {
    Expr::new(Some(prefix.to_string()), expr)
}

fn sym(s: &str) -> Expr {
    bare(ExprType::Symbol(s.to_string()))
}

#[test]
fn escape_writes_three_escapes() {
    assert_eq!(escape("plain text\n\t"), "plain text\n\t");
    assert_eq!(escape("a\"b"), "a\\\"b");
    assert_eq!(escape("a\\b"), "a\\\\b");
    assert_eq!(escape("a\rb"), "a\\rb");
    assert_eq!(escape(""), "");
}

#[test]
fn what_the_reader_gives_is_writable() {
    let forest = exprs("'(a [b {c \"d e\"}] 1.5 -2 ~@x ^y) 7").unwrap();
    assert!(reads_back(&forest));
    assert_eq!(exprs(&print(&forest)).unwrap(), forest);
}

#[test]
fn symbols_that_read_otherwise_are_not_writable() {
    assert!(is_writable(&sym("a-1")));
    assert!(is_writable(&sym("-")));
    assert!(is_writable(&sym(".5")));
    assert!(!is_writable(&sym("")));
    assert!(!is_writable(&sym("a b")));
    assert!(!is_writable(&sym("12")));
    assert!(!is_writable(&sym("12ab")));
    assert!(!is_writable(&sym("-1")));
    assert!(!is_writable(&sym("@a")));
    assert!(!is_writable(&sym("^a")));
    assert!(!is_writable(&sym("a(")));
    assert_eq!(exprs("12ab").unwrap().len(), 2);
}

#[test]
fn floats_must_read_as_one_float() {
    assert!(is_writable(&bare(ExprType::Float("1.".to_string()))));
    assert!(is_writable(&bare(ExprType::Float("-12.50".to_string()))));
    assert!(!is_writable(&bare(ExprType::Float("1".to_string()))));
    assert!(!is_writable(&bare(ExprType::Float(".5".to_string()))));
    assert!(!is_writable(&bare(ExprType::Float("1.5e3".to_string()))));
    assert!(!is_writable(&bare(ExprType::Float("1.5.".to_string()))));
    assert!(!is_writable(&bare(ExprType::Float("".to_string()))));
}

#[test]
fn prefixes_must_be_runs_of_prefix_characters() {
    assert!(is_writable(&with("'", ExprType::Int(1))));
    assert!(is_writable(&with("~@^,`'", ExprType::Int(1))));
    assert!(!is_writable(&with("", ExprType::Int(1))));
    assert!(!is_writable(&with("'x", ExprType::Int(1))));
    assert!(!is_writable(&with(" ", ExprType::Int(1))));
}

#[test]
fn strings_without_escapes_are_writable() {
    assert!(is_writable(&bare(ExprType::String("".to_string()))));
    assert!(is_writable(&bare(ExprType::String("a b \n \t \u{e9}".to_string()))));
    assert!(!is_writable(&bare(ExprType::String("a\"b".to_string()))));
    assert!(!is_writable(&bare(ExprType::String("a\\b".to_string()))));
    assert!(!is_writable(&bare(ExprType::String("a\\\\b".to_string()))));
    assert!(!is_writable(&bare(ExprType::String("a\\".to_string()))));
    assert!(!is_writable(&bare(ExprType::String("a\rb".to_string()))));
}

#[test]
fn a_read_string_with_escapes_does_not_read_back() {
    let forest = exprs(r#""2 is \"two\"""#).unwrap();
    assert!(!reads_back(&forest));
    assert_eq!(print(&forest), r#""2 is "two"""#);
    assert_eq!(exprs(&print(&forest)).unwrap().len(), 3);
    let forest = exprs(r#""a\\nb""#).unwrap();
    assert!(!reads_back(&forest));
    assert_ne!(exprs(&print(&forest)).unwrap(), forest);
}

#[test]
fn escaped_text_unescapes_to_the_text() {
    let text = "a \"b\" \\ \r \n \t \u{e9} \\n";
    assert_eq!(unescape(&escape(text)).unwrap(), text);
}

#[test]
fn comments_are_not_writable() {
    assert!(!is_writable(&bare(ExprType::Comment("; x".to_string()))));
    assert!(!is_writable(&bare(ExprType::List(vec![bare(ExprType::Comment("; x".to_string()))]))));
    assert!(!reads_back(&vec![sym("a"), bare(ExprType::Comment(";".to_string()))]));
}

#[test]
fn comma_prefix_inside_a_list_is_read_as_a_separator() {
    let second = with(",", ExprType::Symbol("b".to_string()));
    let list = bare(ExprType::List(vec![sym("a"), second.clone()]));
    assert!(!is_writable(&list));
    let text = list.to_string();
    assert_eq!(text, "(a ,b)");
    assert_eq!(exprs(&text).unwrap(), vec![bare(ExprType::List(vec![sym("a"), sym("b")]))]);

    let first = bare(ExprType::List(vec![second.clone(), sym("a")]));
    assert!(is_writable(&first));
    assert!(reads_back(&vec![first]));

    let vector = bare(ExprType::Vector(vec![sym("a"), second.clone()]));
    assert!(!is_writable(&vector));
    let hashmap = bare(ExprType::Hashmap(vec![second.clone(), second.clone()]));
    assert!(!is_writable(&hashmap));
    assert!(reads_back(&vec![sym("a"), second]));
}

#[test]
fn empty_forest_reads_back() {
    assert!(reads_back(&vec![]));
    assert_eq!(exprs(&print(&vec![])).unwrap(), vec![]);
}
