use lassie::expr::{Expr, ExprType};
use lassie::parse::exprs;
use lassie::print::print;
use lassie::text::{chars_of, count_within, i64_text, text_of, u64_text, usize_text, width};
use lassie::unescape::{collect, unescape};
use rustc_ap_rustc_lexer::unescape::EscapeError;

fn sym(s: &str) -> Expr {
    Expr::new(None, ExprType::Symbol(s.to_string()))
}

#[test]
fn forms_print_in_their_brackets() {
    let items = vec![sym("a"), Expr::new(None, ExprType::Int(-3)), sym("c")];
    assert_eq!(ExprType::List(items.clone()).to_string(), "(a -3 c)");
    assert_eq!(ExprType::Vector(items.clone()).to_string(), "[a -3 c]");
    assert_eq!(ExprType::Hashmap(items).to_string(), "{a -3 c}");
    assert_eq!(ExprType::List(vec![]).to_string(), "()");
    assert_eq!(ExprType::Float("1.50".to_string()).to_string(), "1.50");
    assert_eq!(ExprType::Comment("; x".to_string()).to_string(), "");
    assert_eq!(ExprType::Int(i64::MIN).to_string(), "-9223372036854775808");
}

#[test]
fn prefix_prints_before_the_form() {
    let e = Expr::new(Some("~@".to_string()), ExprType::List(vec![sym("a")]));
    assert_eq!(e.to_string(), "~@(a)");
}

#[test]
fn strings_print_as_they_are() {
    let e = ExprType::String(r#"a"b"#.to_string());
    assert_eq!(e.to_string(), r#""a"b""#);
    let e = ExprType::String("a\"b\\c\rd\ne".to_string());
    assert_eq!(e.to_string(), "\"a\"b\\c\rd\ne\"");
    assert_eq!(ExprType::String(String::new()).to_string(), "\"\"");
}

#[test]
fn read_strings_print_without_their_escapes() {
    let forest = exprs(r#""\\\\" "2 is \"two\"""#).unwrap();
    assert_eq!(print(&forest), r#""\\" "2 is "two"""#);
}

#[test]
fn forest_prints_with_spaces() {
    assert_eq!(print(&vec![]), "");
    assert_eq!(print(&vec![sym("a")]), "a");
    assert_eq!(print(&vec![sym("a"), sym("b"), sym("c")]), "a b c");
}

#[test]
fn printed_forest_reads_back() {
    let forest = vec![
        Expr::new(
            Some("'".to_string()),
            ExprType::List(vec![
                sym("a"),
                Expr::new(None, ExprType::Int(-42)),
                Expr::new(None, ExprType::Float("-0.5".to_string())),
                Expr::new(Some("~@".to_string()), ExprType::Vector(vec![])),
                Expr::new(None, ExprType::String("x y\n\t z \u{e9}".to_string())),
            ]),
        ),
        Expr::new(None, ExprType::Hashmap(vec![sym(":k"), Expr::new(Some("^".to_string()), ExprType::Int(0))])),
        sym("end"),
    ];
    let text = print(&forest);
    assert_eq!(exprs(&text).unwrap(), forest);
}

#[test]
fn unescape_resolves_escapes() {
    assert_eq!(unescape("a\\nb").unwrap(), "a\nb");
    assert_eq!(unescape("\\\\ \\\" \\t \\r \\0 \\x41 \\u{1F600}").unwrap(), "\\ \" \t \r \0 A \u{1F600}");
    assert_eq!(unescape("").unwrap(), "");
    assert_eq!(unescape("a\\\n   b").unwrap(), "ab");
}

#[test]
fn unescape_reports_the_first_bad_escape() {
    assert_eq!(unescape("ab\\qcd\\z"), Err((2..4, EscapeError::InvalidEscape)));
    assert_eq!(unescape("\\"), Err((0..1, EscapeError::LoneSlash)));
    assert_eq!(unescape("\u{e9}\""), Err((2..3, EscapeError::EscapeOnlyChar)));
    assert_eq!(unescape("a\rb"), Err((1..2, EscapeError::BareCarriageReturn)));
}

#[test]
fn collect_gathers_or_stops_at_the_first_error() {
    assert_eq!(collect(vec![]).unwrap(), "");
    assert_eq!(collect(vec![(0..1, Ok('a')), (1..3, Ok('\n'))]).unwrap(), "a\n");
    assert_eq!(
        collect(vec![
            (0..1, Ok('a')),
            (1..3, Err(EscapeError::InvalidEscape)),
            (3..4, Ok('b')),
            (4..5, Err(EscapeError::LoneSlash)),
        ]),
        Err((1..3, EscapeError::InvalidEscape))
    );
}

#[test]
fn numerals() {
    assert_eq!(u64_text(0), "0");
    assert_eq!(u64_text(7), "7");
    assert_eq!(u64_text(10), "10");
    assert_eq!(u64_text(u64::MAX), "18446744073709551615");
    assert_eq!(usize_text(1205), "1205");
    assert_eq!(i64_text(0), "0");
    assert_eq!(i64_text(-1), "-1");
    assert_eq!(i64_text(i64::MAX), "9223372036854775807");
    assert_eq!(i64_text(i64::MIN), "-9223372036854775808");
}

#[test]
fn characters_and_bytes() {
    assert_eq!(chars_of("a\u{e9}\u{4e16}\u{1F600}"), vec!['a', '\u{e9}', '\u{4e16}', '\u{1F600}']);
    assert_eq!(width('a'), 1);
    assert_eq!(width('\u{7f}'), 1);
    assert_eq!(width('\u{80}'), 2);
    assert_eq!(width('\u{7ff}'), 2);
    assert_eq!(width('\u{800}'), 3);
    assert_eq!(width('\u{ffff}'), 3);
    assert_eq!(width('\u{10000}'), 4);
    let s = chars_of("a\u{e9}\u{4e16}b");
    assert_eq!(text_of(&s, 1, 3), "\u{e9}\u{4e16}");
    assert_eq!(text_of(&s, 2, 2), "");
    assert_eq!(count_within(&s, 0, 4, 0), 0);
    assert_eq!(count_within(&s, 0, 4, 1), 1);
    assert_eq!(count_within(&s, 0, 4, 2), 1);
    assert_eq!(count_within(&s, 0, 4, 3), 2);
    assert_eq!(count_within(&s, 0, 4, 6), 3);
    assert_eq!(count_within(&s, 0, 4, 100), 4);
    assert_eq!(count_within(&s, 1, 3, 2), 1);
}

#[test]
fn clone_copies_the_whole_tree() {
    let forest = exprs("'(a [b {c \"d\"}] 1.5 -2) ;e").unwrap();
    let copy = forest.clone();
    assert_eq!(copy, forest);
    assert_eq!(forest[0].expr.clone(), forest[0].expr);
}
