use lassie::expr::{Expr, ExprType};
use lassie::failure::{Expected, ParseError, Token};
use lassie::parse::{expr, exprs};

fn parse(s: &str) -> String {
    exprs(s)
        .unwrap()
        .iter()
        .map(|a| a.to_string())
        .collect::<String>()
}

fn sym(s: &str) -> Expr {
    Expr::new(None, ExprType::Symbol(s.to_string()))
}

fn num(n: i64) -> Expr {
    Expr::new(None, ExprType::Int(n))
}

fn failure(s: &str) -> ParseError {
    exprs(s).unwrap_err()
}

fn set(tokens: &[Token]) -> Expected {
    let mut e = Expected::empty();
    for t in tokens {
        e = e.with(*t);
    }
    e
}

#[test]
fn test1() {
    let s = (
        r#"   ( ( ) "\\\\" '1, "2 is \"two\"" 3.14 test? ([{ :yes true }]) ) ;x"#,
        r#"(() "\\" '1 "2 is "two"" 3.14 test? ([{:yes true}]))"#,
    );

    assert_eq!(&parse(s.0), s.1);
}

#[test]
fn end_to_end_forest_shape() {
    let forest = exprs(r#"   ( ( ) "\\\\" '1, "2 is \"two\"" 3.14 test? ([{ :yes true }]) ) ;x"#).unwrap();
    let inner = vec![
        Expr::new(None, ExprType::List(vec![])),
        Expr::new(None, ExprType::String("\\\\".to_string())),
        Expr::new(Some("'".to_string()), ExprType::Int(1)),
        Expr::new(None, ExprType::String("2 is \"two\"".to_string())),
        Expr::new(None, ExprType::Float("3.14".to_string())),
        sym("test?"),
        Expr::new(
            None,
            ExprType::List(vec![Expr::new(
                None,
                ExprType::Vector(vec![Expr::new(
                    None,
                    ExprType::Hashmap(vec![sym(":yes"), sym("true")]),
                )]),
            )]),
        ),
    ];
    let want = vec![
        Expr::new(None, ExprType::List(inner)),
        Expr::new(None, ExprType::Comment(";x".to_string())),
    ];
    assert_eq!(forest, want);
}

#[test]
fn empty_text_is_empty_forest() {
    assert_eq!(exprs("").unwrap(), vec![]);
    assert_eq!(exprs(" \t\r\n\0\u{0B}\u{0C}").unwrap(), vec![]);
}

#[test]
fn separators_are_equivalent() {
    let a = exprs("(1 2 3)").unwrap();
    let b = exprs("(1, 2, 3)").unwrap();
    let c = exprs("(1,2,3)").unwrap();
    assert_eq!(a, b);
    assert_eq!(b, c);
    assert_eq!(a, vec![Expr::new(None, ExprType::List(vec![num(1), num(2), num(3)]))]);
}

#[test]
fn trailing_commas_in_a_list_are_dropped() {
    let a = exprs("(1 2, 3,,,,)").unwrap();
    assert_eq!(a, vec![Expr::new(None, ExprType::List(vec![num(1), num(2), num(3)]))]);
    let b = exprs("( 1 , 2 , )").unwrap();
    assert_eq!(b, vec![Expr::new(None, ExprType::List(vec![num(1), num(2)]))]);
}

#[test]
fn vectors_and_hashmaps_take_the_same_separators() {
    let want = vec![Expr::new(None, ExprType::Vector(vec![num(1), num(2), num(3)]))];
    assert_eq!(exprs("[1 2 3]").unwrap(), want);
    assert_eq!(exprs("[1, 2, 3]").unwrap(), want);
    assert_eq!(exprs("[ 1 ,2,3 ,, ]").unwrap(), want);
    let want = vec![Expr::new(None, ExprType::Hashmap(vec![sym("a"), num(1), sym("b"), num(2)]))];
    assert_eq!(exprs("{a 1 b 2}").unwrap(), want);
    assert_eq!(exprs("{a 1, b 2,}").unwrap(), want);
}

#[test]
fn second_comma_in_a_gap_is_a_prefix() {
    let a = exprs("[1 ,,2]").unwrap();
    let want = vec![Expr::new(
        None,
        ExprType::Vector(vec![num(1), Expr::new(Some(",".to_string()), ExprType::Int(2))]),
    )];
    assert_eq!(a, want);
    let a = exprs("(1,,2)").unwrap();
    let want = vec![Expr::new(
        None,
        ExprType::List(vec![num(1), Expr::new(Some(",".to_string()), ExprType::Int(2))]),
    )];
    assert_eq!(a, want);
}

#[test]
fn comma_is_a_prefix_outside_brackets() {
    let a = exprs("a ,b").unwrap();
    assert_eq!(a, vec![sym("a"), Expr::new(Some(",".to_string()), ExprType::Symbol("b".to_string()))]);
}

#[test]
fn comma_is_a_prefix_at_the_head_of_a_list() {
    let a = exprs("(,a b)").unwrap();
    let want = vec![Expr::new(
        None,
        ExprType::List(vec![Expr::new(Some(",".to_string()), ExprType::Symbol("a".to_string())), sym("b")]),
    )];
    assert_eq!(a, want);
}

#[test]
fn float_wins_over_integer() {
    let forest = exprs("3.14").unwrap();
    assert_eq!(forest.len(), 1);
    match &forest[0].expr {
        ExprType::Float(text) => {
            assert_eq!(text, "3.14");
            assert_eq!(text.parse::<f64>().unwrap(), 3.14);
        }
        other => panic!("not a float: {:?}", other),
    }
}

#[test]
fn floats_keep_their_text() {
    assert_eq!(exprs("1.").unwrap(), vec![Expr::new(None, ExprType::Float("1.".to_string()))]);
    assert_eq!(exprs("-0.50").unwrap(), vec![Expr::new(None, ExprType::Float("-0.50".to_string()))]);
}

#[test]
fn two_dots_make_no_float() {
    assert_eq!(exprs("1..2").unwrap(), vec![num(1), sym("..2")]);
}

#[test]
fn integers() {
    assert_eq!(exprs("0 7 -5 007 -0").unwrap(), vec![num(0), num(7), num(-5), num(7), num(0)]);
    assert_eq!(exprs("9223372036854775807").unwrap(), vec![num(i64::MAX)]);
    assert_eq!(exprs("-9223372036854775808").unwrap(), vec![num(i64::MIN)]);
}

#[test]
fn integer_then_symbol() {
    assert_eq!(exprs("12abc").unwrap(), vec![num(12), sym("abc")]);
}

#[test]
fn a_lone_minus_is_a_symbol() {
    assert_eq!(exprs("- -a -.5").unwrap(), vec![sym("-"), sym("-a"), sym("-.5")]);
}

#[test]
fn integer_that_does_not_fit_is_refused() {
    let e = failure("(1 9223372036854775808)");
    assert_eq!(e.offset, 3);
    assert_eq!(e.line, 1);
    assert_eq!(e.column, 4);
    assert_eq!(e.expected, set(&[Token::Int64]));
    let e = failure("-9223372036854775809");
    assert_eq!(e.offset, 0);
    assert_eq!(e.expected, set(&[Token::Int64]));
    let e = failure("99999999999999999999999999999999999999999");
    assert_eq!(e.expected.to_string(), "64-bit integer");
}

#[test]
fn prefixes_are_one_run() {
    let forest = exprs("~@x '`a ^,~y").unwrap();
    let want = vec![
        Expr::new(Some("~@".to_string()), ExprType::Symbol("x".to_string())),
        Expr::new(Some("'`".to_string()), ExprType::Symbol("a".to_string())),
        Expr::new(Some("^,~".to_string()), ExprType::Symbol("y".to_string())),
    ];
    assert_eq!(forest, want);
}

#[test]
fn prefix_chars_inside_a_symbol_belong_to_it() {
    assert_eq!(exprs("a@b^c").unwrap(), vec![sym("a@b^c")]);
}

#[test]
fn prefix_needs_its_expression_at_once() {
    let e = failure("' a");
    assert_eq!(e.offset, 1);
    assert_eq!(
        e.expected,
        set(&[
            Token::OpenParen,
            Token::OpenBracket,
            Token::OpenBrace,
            Token::Quote,
            Token::Float,
            Token::Integer,
            Token::Symbol,
        ])
    );
}

#[test]
fn strings_are_unescaped() {
    let forest = exprs(r#""a\nb\t\"c\" \\ \x41 \u{e9}""#).unwrap();
    assert_eq!(
        forest,
        vec![Expr::new(None, ExprType::String("a\nb\t\"c\" \\ A \u{e9}".to_string()))]
    );
}

#[test]
fn string_may_span_lines() {
    let forest = exprs("\"a\nb\"").unwrap();
    assert_eq!(forest, vec![Expr::new(None, ExprType::String("a\nb".to_string()))]);
}

#[test]
fn bad_escape_is_located() {
    let e = failure(r#"(1 "a\zb")"#);
    assert_eq!(e.offset, 5);
    assert_eq!(e.line, 1);
    assert_eq!(e.column, 6);
    assert_eq!(e.expected, set(&[Token::Escape]));
    assert_eq!(e.expected.to_string(), "escape");
}

#[test]
fn bad_escape_after_wide_characters_is_located() {
    let e = failure("\n \"\u{e9}\u{4e16}\\q\"");
    assert_eq!(e.offset, 8);
    assert_eq!(e.line, 2);
    assert_eq!(e.column, 5);
    assert_eq!(e.expected, set(&[Token::Escape]));
}

#[test]
fn bare_carriage_return_in_a_string_is_refused() {
    let e = failure("\"a\rb\"");
    assert_eq!(e.offset, 2);
    assert_eq!(e.expected, set(&[Token::Escape]));
}

#[test]
fn unclosed_list_fails_at_the_end() {
    let text = "(1 2";
    let e = failure(text);
    assert_eq!(e.offset, text.len());
    assert_eq!(e.line, 1);
    assert_eq!(e.column, 5);
    assert_eq!(
        e.expected,
        set(&[
            Token::OpenParen,
            Token::CloseParen,
            Token::Comma,
            Token::OpenBracket,
            Token::Quote,
            Token::OpenBrace,
            Token::Float,
            Token::Integer,
            Token::Prefix,
            Token::Symbol,
        ])
    );
}

#[test]
fn unclosed_vector_and_hashmap() {
    let e = failure("[1");
    assert_eq!(e.offset, 2);
    assert!(e.expected.contains(Token::CloseBracket));
    assert!(e.expected.contains(Token::Comma));
    assert!(!e.expected.contains(Token::CloseParen));
    let e = failure("{:a 1");
    assert_eq!(e.offset, 5);
    assert!(e.expected.contains(Token::CloseBrace));
}

#[test]
fn unclosed_string() {
    let e = failure("\"abc");
    assert_eq!(e.offset, 4);
    assert_eq!(e.expected, set(&[Token::Quote, Token::Backslash, Token::NotQuote]));
    let e = failure("\"abc\\");
    assert_eq!(e.offset, 5);
    assert_eq!(
        e.expected,
        set(&[Token::Quote, Token::Backslash, Token::NotQuote, Token::AnyChar])
    );
}

#[test]
fn stray_closing_bracket() {
    let e = failure(")");
    assert_eq!(e.offset, 0);
    assert_eq!(e.line, 1);
    assert_eq!(e.column, 1);
    assert_eq!(
        e.expected,
        set(&[
            Token::OpenParen,
            Token::Semicolon,
            Token::OpenBracket,
            Token::Quote,
            Token::OpenBrace,
            Token::Eof,
            Token::Float,
            Token::Integer,
            Token::Prefix,
            Token::Symbol,
        ])
    );
}

#[test]
fn failure_counts_lines_and_columns_in_characters() {
    let e = failure("(1\n 2\n");
    assert_eq!(e.offset, 6);
    assert_eq!(e.line, 3);
    assert_eq!(e.column, 1);
    let e = failure("\"\u{e9}\" )");
    assert_eq!(e.offset, 5);
    assert_eq!(e.line, 1);
    assert_eq!(e.column, 5);
}

#[test]
fn comments() {
    let forest = exprs("; hello\n(a) ; bye").unwrap();
    let want = vec![
        Expr::new(None, ExprType::Comment("; hello".to_string())),
        Expr::new(None, ExprType::List(vec![sym("a")])),
        Expr::new(None, ExprType::Comment("; bye".to_string())),
    ];
    assert_eq!(forest, want);
    let forest = exprs(";a\r\nb").unwrap();
    assert_eq!(
        forest,
        vec![Expr::new(None, ExprType::Comment(";a".to_string())), sym("b")]
    );
}

#[test]
fn comment_inside_a_list_is_refused() {
    let e = failure("(a ; b\n)");
    assert_eq!(e.offset, 3);
}

#[test]
fn comment_after_comment_is_refused() {
    let e = failure(";a\n;b");
    assert_eq!(e.offset, 3);
    assert!(e.expected.contains(Token::Eof));
}

#[test]
fn backslash_newline_is_white_space() {
    assert_eq!(exprs("a\\\nb \\\r\n c").unwrap(), vec![sym("a"), sym("b"), sym("c")]);
}

#[test]
fn hashmap_keeps_order_and_duplicates() {
    let forest = exprs("{b 1 a 2 b 3}").unwrap();
    let want = vec![Expr::new(
        None,
        ExprType::Hashmap(vec![sym("b"), num(1), sym("a"), num(2), sym("b"), num(3)]),
    )];
    assert_eq!(forest, want);
}

#[test]
fn one_expression() {
    assert_eq!(expr(" 'a ").unwrap(), Expr::new(Some("'".to_string()), ExprType::Symbol("a".to_string())));
    let e = expr("a b").unwrap_err();
    assert_eq!(e.offset, 2);
    assert!(e.expected.contains(Token::Eof));
    let e = expr("").unwrap_err();
    assert_eq!(e.offset, 0);
    assert!(e.expected.contains(Token::Symbol));
    assert!(!e.expected.contains(Token::Semicolon));
}

#[test]
fn from_str_reads_a_forest() {
    assert_eq!(lassie::from_str("a 1").unwrap(), vec![sym("a"), num(1)]);
}

#[test]
fn reading_is_a_function_of_the_text() {
    let text = "(a [b {c \"d\"}] 1.5 -2) ;e";
    assert_eq!(exprs(text), exprs(text));
}
