use lassie::eval::{Eval, Parser};
use lassie::expand::{
    empty, expand, expand_items, head_for, list, rewrite_for, symbol, unwrap, wrap, Rewrite, Siblings,
};
use lassie::expr::{Expr, ExprType};
use lassie::parse::exprs;

fn eval(s: &str) -> String {
    Parser.eval(s).unwrap()
}

fn sym(s: &str) -> Expr {
    Expr::new(None, ExprType::Symbol(s.to_string()))
}

#[test]
fn metadata_takes_the_next_sibling() {
    assert_eq!(eval("^{:a 1} x"), "(with-meta x {:a 1})");
    assert_eq!(eval("^{:a 1} x y"), "(with-meta x {:a 1}) y");
    assert_eq!(eval("(a ^b c d)"), "(a (with-meta c b) d)");
}

#[test]
fn metadata_without_a_sibling_gets_an_empty_list() {
    assert_eq!(eval("^x"), "(with-meta () x)");
    assert_eq!(eval("(a ^x)"), "(a (with-meta () x))");
}

#[test]
fn metadata_takes_its_sibling_as_it_stands() {
    assert_eq!(eval("(^a 'b)"), "((with-meta 'b a))");
    assert_eq!(eval("(^a ^b c)"), "((with-meta ^b a) c)");
}

#[test]
fn each_prefix_has_its_form() {
    assert_eq!(eval("'a"), "(quote a)");
    assert_eq!(eval("~a"), "(unquote a)");
    assert_eq!(eval("`a"), "(quasiquote a)");
    assert_eq!(eval(",a"), "(quasiquote a)");
    assert_eq!(eval("~@a"), "(splice-unquote a)");
    assert_eq!(eval("@a"), "(deref a)");
}

#[test]
fn unknown_prefix_stays() {
    assert_eq!(eval("''x"), "''x");
    assert_eq!(eval("'@(a 'b)"), "'@(a (quote b))");
}

#[test]
fn children_are_expanded_first() {
    assert_eq!(eval("`(a ~b ~@(c 'd))"), "(quasiquote (a (unquote b) (splice-unquote (c (quote d)))))");
    assert_eq!(eval("['a {'b @c}]"), "[(quote a) {(quote b) (deref c)}]");
}

#[test]
fn plain_forms_pass_through() {
    assert_eq!(eval("(1 2.5 \"s\" sym [a] {b c})"), "(1 2.5 \"s\" sym [a] {b c})");
    assert_eq!(eval(""), "");
    assert_eq!(eval("a b"), "a b");
}

#[test]
fn expansion_is_idempotent_once_settled() {
    let once = eval("`(a ~b '(c @d)) ^m x");
    assert_eq!(eval(&once), once);
    let unsettled = eval("(^a 'b)");
    assert_eq!(unsettled, "((with-meta 'b a))");
    assert_eq!(eval(&unsettled), "((with-meta (quote b) a))");
}

#[test]
fn node_level_expansion_moves_the_cursor() {
    let mut forest = exprs("^{:a 1} x y").unwrap();
    let first = forest.remove(0);
    let mut next = Siblings::new(forest);
    let out = expand(first, &mut next);
    assert_eq!(out.to_string(), "(with-meta x {:a 1})");
    assert_eq!(next.next(), Some(sym("y")));
    assert!(next.is_empty());
    assert_eq!(next.next(), None);

    let mut next = Siblings::new(vec![sym("y")]);
    let out = expand(Expr::new(Some("'".to_string()), ExprType::Int(1)), &mut next);
    assert_eq!(out.to_string(), "(quote 1)");
    assert_eq!(next.next(), Some(sym("y")));
}

#[test]
fn siblings_come_in_source_order() {
    let mut next = Siblings::new(vec![sym("a"), sym("b"), sym("c")]);
    assert!(!next.is_empty());
    assert_eq!(next.next(), Some(sym("a")));
    assert_eq!(next.next(), Some(sym("b")));
    assert_eq!(next.next(), Some(sym("c")));
    assert_eq!(next.next(), None);
    assert!(Siblings::empty().is_empty());
}

#[test]
fn expand_items_keeps_order() {
    let items = exprs("'a b ^c d e").unwrap();
    let out = expand_items(items);
    let texts: Vec<String> = out.iter().map(|e| e.to_string()).collect();
    assert_eq!(texts, vec!["(quote a)", "b", "(with-meta d c)", "e"]);
}

#[test]
fn builders() {
    assert_eq!(symbol("a"), sym("a"));
    assert_eq!(list(vec![sym("a")]), Expr::new(None, ExprType::List(vec![sym("a")])));
    assert_eq!(empty(), Expr::new(None, ExprType::List(vec![])));
    let wrapped = wrap(Expr::new(Some("'".to_string()), ExprType::Int(1)), "quote");
    assert_eq!(
        wrapped,
        Expr::new(None, ExprType::List(vec![sym("quote"), Expr::new(None, ExprType::Int(1))]))
    );
}

#[test]
fn unwrap_gives_the_elements_of_a_list() {
    assert_eq!(unwrap(list(vec![sym("a"), sym("b")])), vec![sym("a"), sym("b")]);
    assert_eq!(unwrap(sym("a")), vec![sym("a")]);
    let v = Expr::new(None, ExprType::Vector(vec![sym("a")]));
    assert_eq!(unwrap(v.clone()), vec![v]);
}

#[test]
fn rewrites() {
    assert_eq!(rewrite_for("'"), Some(Rewrite::Quote));
    assert_eq!(rewrite_for("~"), Some(Rewrite::Unquote));
    assert_eq!(rewrite_for("`"), Some(Rewrite::Quasiquote));
    assert_eq!(rewrite_for(","), Some(Rewrite::Quasiquote));
    assert_eq!(rewrite_for("~@"), Some(Rewrite::SpliceUnquote));
    assert_eq!(rewrite_for("@"), Some(Rewrite::Deref));
    assert_eq!(rewrite_for("^"), Some(Rewrite::WithMeta));
    assert_eq!(rewrite_for("@~"), None);
    assert_eq!(rewrite_for("''"), None);
    assert_eq!(rewrite_for(""), None);
    assert_eq!(rewrite_for("x"), None);
    assert_eq!(head_for(Rewrite::Quote), "quote");
    assert_eq!(head_for(Rewrite::Unquote), "unquote");
    assert_eq!(head_for(Rewrite::Quasiquote), "quasiquote");
    assert_eq!(head_for(Rewrite::SpliceUnquote), "splice-unquote");
    assert_eq!(head_for(Rewrite::Deref), "deref");
    assert_eq!(head_for(Rewrite::WithMeta), "with-meta");
}

#[test]
fn evaluator_reports_failures() {
    let mut p = Parser;
    assert_eq!(
        p.eval("(1 2").unwrap_err(),
        "error: got: EOF at: 1:5 expected: one of \"(\", \")\", \",\", \"[\", \"\\\"\", \"{\", float, integer, prefix, symbol"
    );
    assert_eq!(p.eval("\"\\q\"").unwrap_err(), "error: got: \\q\" at: 1:2 expected: escape");
}
