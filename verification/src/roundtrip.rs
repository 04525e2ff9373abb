use crate::expr::{node_of, nodes_of, Expr, ExprType, Form, Node};
use crate::failure::ParseError;
use crate::grammar::{
    at, blank_end, bracketed, closer, comment_at, commas, digits_end, expr_at, float_at,
    float_end, forest, form_at, group_at, in_class, integer_at, is_blank, is_prefix_char, items,
    opener, quoted, read_all, read_one, span_end, string_at, symbol_at, Bracket, Class, Outcome,
};
use crate::parse::{digits_stop, float_stop, prefix_char, read_quoted, span};
use crate::print::{prefix_text, print_all, print_form, print_node};
use crate::text::{chars_of, decimal, int_text, int_value, is_digit, lemma_decimal_value};
use crate::unescape::{unescape, unescaped};
use vstd::prelude::*;

verus! {

/// Whether the text `x` stands in `s` at `i`.
pub open spec fn stands(s: Seq<char>, i: int, x: Seq<char>) -> bool {
    0 <= i && i + x.len() <= s.len() && s.subrange(i, i + x.len()) == x
}

/// Whether `c` closes a bracketed form.
pub open spec fn is_closer(c: char) -> bool {
    c == ')' || c == ']' || c == '}'
}

/// Whether the elements of a sequence end at `i`: the text ends there, or a
/// closing bracket stands there.
pub open spec fn halts(s: Seq<char>, i: int) -> bool {
    i == s.len() || (0 <= i < s.len() && is_closer(s[i]))
}

/// Whether a printed node ends at `i`: the elements end there, or a space
/// stands there.
pub open spec fn stops(s: Seq<char>, i: int) -> bool {
    halts(s, i) || at(s, i, ' ')
}

/// Whether `c` is neither white space nor a backslash.
pub open spec fn solid(c: char) -> bool {
    !is_blank(c) && c != '\\'
}

/// Whether `o` is a match of `value` that ends at `end`.
pub open spec fn hits<T>(o: Outcome<T>, value: T, end: int) -> bool {
    o matches Outcome::Match { value: v, end: e, .. } && v == value && e == end
}

/// Whether a prefix is one that the reader gives: none, or a run of prefix
/// characters.
pub open spec fn plain_prefix(p: Option<Seq<char>>) -> bool {
    p matches Some(t) ==> t.len() > 0 && span_end(t, 0, Class::Prefix) == t.len()
}

/// Whether `t` reads as one symbol: a run of symbol characters that starts
/// neither as a prefix nor as a number.
pub open spec fn symbol_text(t: Seq<char>) -> bool {
    &&& t.len() > 0
    &&& span_end(t, 0, Class::Symbol) == t.len()
    &&& !is_prefix_char(t[0])
    &&& digits_end(t, 0) is None
}

/// Whether `t` reads as the text of one string: between double quotes its
/// contents end at the closing quote, and unescaping leaves it as it is.
pub open spec fn string_text(t: Seq<char>) -> bool {
    &&& quoted(t.push('"'), 0).0 == t.len()
    &&& unescaped(t) == Ok::<
        Seq<char>,
        (core::ops::Range<usize>, rustc_ap_rustc_lexer::unescape::EscapeError),
    >(t)
}

/// Whether the prefix of `n` starts with a comma.
pub open spec fn leads_with_comma(n: Node) -> bool {
    n.prefix matches Some(p) && p.len() > 0 && p[0] == ','
}

/// Whether the reader gives `n` back from its printed text: it is no
/// comment and holds none; its prefixes are runs of prefix characters; its
/// symbols and floats read as one symbol and one float; its integers fit in
/// 64 bits; its strings read as one string that holds no escape; and
/// in a list, vector or hashmap no element but the first has a prefix that
/// starts with a comma, which the reader would take for a separator.
pub open spec fn writable(n: Node) -> bool
    decreases n, 1nat,
{
    plain_prefix(n.prefix) && writable_form(n.form)
}

/// Whether the reader gives `f` back from its printed text.
pub open spec fn writable_form(f: Form) -> bool
    decreases f, 0nat,
{
    match f {
        Form::List(v) => all_writable(v) && commas_lead_only(v, 1),
        Form::Vector(v) => all_writable(v) && commas_lead_only(v, 1),
        Form::Hashmap(v) => all_writable(v) && commas_lead_only(v, 1),
        Form::String(t) => string_text(t),
        Form::Symbol(t) => symbol_text(t),
        Form::Comment(_) => false,
        Form::Float(t) => float_end(t, 0) == Some(t.len() as int),
        Form::Int(n) => i64::MIN <= n <= i64::MAX,
    }
}

/// Whether the reader gives each node of `v` back from its printed text.
pub open spec fn all_writable(v: Seq<Node>) -> bool
    decreases v,
{
    forall|k: int| 0 <= k < v.len() ==> writable(#[trigger] v[k])
}

/// Whether no node of `v` from `from` on has a prefix that starts with a
/// comma.
pub open spec fn commas_lead_only(v: Seq<Node>, from: int) -> bool {
    forall|k: int| from <= k < v.len() ==> !leads_with_comma(#[trigger] v[k])
}

/// A character of a text that stands in `s` is the character of `s` there.
pub proof fn lemma_stands_char(s: Seq<char>, i: int, x: Seq<char>, k: int)
    requires
        stands(s, i, x),
        0 <= k < x.len(),
    ensures
        0 <= i + k < s.len(),
        s[i + k] == x[k],
{
    assert(s.subrange(i, i + x.len())[k] == s[i + k]);
}

/// Where a text of two parts stands, both parts stand, one after the other.
pub proof fn lemma_stands_split(s: Seq<char>, i: int, a: Seq<char>, b: Seq<char>)
    requires
        stands(s, i, a + b),
    ensures
        stands(s, i, a),
        stands(s, i + a.len(), b),
{
    let whole = s.subrange(i, i + (a + b).len());
    assert(s.subrange(i, i + a.len()) =~= whole.subrange(0, a.len() as int));
    assert(whole.subrange(0, a.len() as int) =~= a);
    assert(s.subrange(i + a.len(), i + a.len() + b.len()) =~= whole.subrange(
        a.len() as int,
        (a + b).len() as int,
    ));
    assert(whole.subrange(a.len() as int, (a + b).len() as int) =~= b);
}

/// White space that starts at a solid character, or at the end, is empty.
pub proof fn lemma_no_blank(s: Seq<char>, i: int)
    requires
        0 <= i <= s.len(),
        i < s.len() ==> solid(s[i]),
    ensures
        blank_end(s, i) == i,
{
}

/// A run inside a text that stands in `s` ends in `s` where it ends in the
/// text, if it ends before the end of the text or the run cannot go on in `s`
/// after the text.
pub proof fn lemma_span_carries(s: Seq<char>, b: int, t: Seq<char>, j: int, k: Class)
    requires
        stands(s, b, t),
        0 <= j <= t.len(),
        span_end(t, j, k) < t.len() || b + t.len() == s.len() || !in_class(s[b + t.len()], k),
    ensures
        span_end(s, b + j, k) == b + span_end(t, j, k),
    decreases t.len() - j,
{
    if j < t.len() {
        lemma_stands_char(s, b, t, j);
        if in_class(t[j], k) {
            lemma_span_carries(s, b, t, j + 1, k);
        }
    }
}

/// A run goes on to the end of a text whose characters from `j` on are all
/// of its class.
pub proof fn lemma_span_all(t: Seq<char>, j: int, k: Class)
    requires
        0 <= j <= t.len(),
        forall|x: int| j <= x < t.len() ==> in_class(#[trigger] t[x], k),
    ensures
        span_end(t, j, k) == t.len(),
    decreases t.len() - j,
{
    if j < t.len() {
        lemma_span_all(t, j + 1, k);
    }
}

/// A run holds characters of its class only.
pub proof fn lemma_span_holds(t: Seq<char>, j: int, k: Class, x: int)
    requires
        0 <= j <= x < span_end(t, j, k),
    ensures
        x < t.len(),
        in_class(t[x], k),
    decreases t.len() - j,
{
    if j < t.len() && in_class(t[j], k) {
        if x > j {
            lemma_span_holds(t, j + 1, k, x);
        }
    }
}

/// No expression stands where the elements of a sequence end.
pub proof fn lemma_no_expr_at_halt(s: Seq<char>, q: int)
    requires
        0 <= q <= s.len(),
        halts(s, q),
    ensures
        expr_at(s, q) is Fail,
        comment_at(s, q) is Fail,
        blank_end(s, q) == q,
        !at(s, q, ','),
{
    lemma_no_blank(s, q);
    assert(span_end(s, q, Class::Prefix) == q);
    assert(span_end(s, q, Class::Digit) == q);
    assert(span_end(s, q, Class::Symbol) == q);
    assert(group_at(s, q, Bracket::Paren) is Fail);
    assert(group_at(s, q, Bracket::Square) is Fail);
    assert(group_at(s, q, Bracket::Curly) is Fail);
    assert(string_at(s, q) is Fail);
    assert(digits_end(s, q) is None);
    assert(float_at(s, q) is Fail);
    assert(integer_at(s, q) is Fail);
    assert(symbol_at(s, q) is Fail);
    assert(form_at(s, q) is Fail);
}

/// The decimal numeral of an integer starts with a minus sign or a digit,
/// holds digits only after that, and denotes the integer.
pub proof fn lemma_int_text(n: int)
    ensures
        int_text(n).len() >= 1,
        n < 0 ==> int_text(n)[0] == '-' && int_text(n).len() >= 2,
        n >= 0 ==> is_digit(int_text(n)[0]),
        forall|x: int|
            (if n < 0 {
                1int
            } else {
                0int
            }) <= x < int_text(n).len() ==> is_digit(#[trigger] int_text(n)[x]),
        int_value(int_text(n)) == n,
{
    if n < 0 {
        let m = (-n) as nat;
        lemma_decimal_value(m);
        let t = int_text(n);
        assert(t.skip(1) =~= decimal(m));
        assert forall|x: int| 1 <= x < t.len() implies is_digit(#[trigger] t[x]) by {
            assert(t[x] == decimal(m)[x - 1]);
        }
    } else {
        lemma_decimal_value(n as nat);
        assert(is_digit(decimal(n as nat)[0]));
    }
}

/// The printed text of a form that the reader gives back is not empty, and
/// starts with a solid character that is not a prefix character and starts no
/// comment.
pub proof fn lemma_form_text_starts(f: Form)
    requires
        writable_form(f),
    ensures
        print_form(f).len() > 0,
        solid(print_form(f)[0]),
        !is_prefix_char(print_form(f)[0]),
        print_form(f)[0] != ';',
        !is_closer(print_form(f)[0]),
{
    match f {
        Form::List(v) => {},
        Form::Vector(v) => {},
        Form::Hashmap(v) => {},
        Form::String(t) => {},
        Form::Symbol(t) => {
            assert(in_class(t[0], Class::Symbol));
        },
        Form::Comment(_) => {},
        Form::Float(t) => {
            let j: int = if at(t, 0, '-') {
                1
            } else {
                0
            };
            assert(span_end(t, j, Class::Digit) > j);
            if j == 0 {
                assert(in_class(t[0], Class::Digit));
            }
        },
        Form::Int(n) => {
            lemma_int_text(n);
        },
    }
}

/// The printed text of a node that the reader gives back is not empty, and
/// starts with a solid character that starts no comment; it starts with a
/// comma only where the prefix of the node does.
pub proof fn lemma_node_text_starts(n: Node)
    requires
        writable(n),
    ensures
        print_node(n).len() > 0,
        solid(print_node(n)[0]),
        print_node(n)[0] != ';',
        !is_closer(print_node(n)[0]),
        print_node(n)[0] == ',' <==> leads_with_comma(n),
{
    lemma_form_text_starts(n.form);
    match n.prefix {
        Some(p) => {
            assert(in_class(p[0], Class::Prefix));
            assert(print_node(n)[0] == p[0]);
        },
        None => {
            assert(print_node(n) =~= print_form(n.form));
        },
    }
}

/// The contents of a string inside a text that stands in `s` end in `s`
/// where they end in the text, if they end before the end of the text.
pub proof fn lemma_quoted_carries(s: Seq<char>, i: int, u: Seq<char>, j: int)
    requires
        stands(s, i, u),
        0 <= j <= u.len(),
        quoted(u, j).0 < u.len(),
    ensures
        quoted(s, i + j).0 == i + quoted(u, j).0,
    decreases u.len() - j,
{
    if j < u.len() {
        lemma_stands_char(s, i, u, j);
        if u[j] == '\\' {
            if j + 1 < u.len() {
                lemma_stands_char(s, i, u, j + 1);
                lemma_quoted_carries(s, i, u, j + 2);
            } else {
                assert(quoted(u, j + 1).0 == j + 1);
            }
        } else if u[j] != '"' {
            lemma_quoted_carries(s, i, u, j + 1);
        }
    }
}

/// A symbol is read back from its text.
proof fn lemma_reads_symbol(s: Seq<char>, b: int, t: Seq<char>)
    requires
        symbol_text(t),
        stands(s, b, t),
        stops(s, b + t.len()),
    ensures
        hits(form_at(s, b), Form::Symbol(t), b + t.len()),
{
    lemma_stands_char(s, b, t, 0);
    lemma_span_holds(t, 0, Class::Symbol, 0);
    lemma_span_carries(s, b, t, 0, Class::Symbol);
    let j: int = if at(t, 0, '-') {
        1
    } else {
        0
    };
    assert(span_end(t, j, Class::Digit) <= j);
    lemma_span_carries(s, b, t, j, Class::Digit);
    assert(digits_end(s, b) is None);
    assert(group_at(s, b, Bracket::Paren) is Fail);
    assert(group_at(s, b, Bracket::Square) is Fail);
    assert(group_at(s, b, Bracket::Curly) is Fail);
    assert(string_at(s, b) is Fail);
    assert(float_at(s, b) is Fail);
    assert(integer_at(s, b) is Fail);
    assert(hits(symbol_at(s, b), Form::Symbol(t), b + t.len()));
}

/// A float is read back from its text.
proof fn lemma_reads_float(s: Seq<char>, b: int, t: Seq<char>)
    requires
        float_end(t, 0) == Some(t.len() as int),
        stands(s, b, t),
        stops(s, b + t.len()),
    ensures
        hits(form_at(s, b), Form::Float(t), b + t.len()),
{
    let j: int = if at(t, 0, '-') {
        1
    } else {
        0
    };
    let d = span_end(t, j, Class::Digit);
    assert(d > j);
    assert(at(t, d, '.'));
    lemma_stands_char(s, b, t, 0);
    lemma_stands_char(s, b, t, d);
    if j == 0 {
        assert(in_class(t[0], Class::Digit));
    }
    lemma_span_carries(s, b, t, j, Class::Digit);
    if d + 1 < t.len() {
        lemma_stands_char(s, b, t, d + 1);
    }
    lemma_span_carries(s, b, t, d + 1, Class::Digit);
    assert(digits_end(s, b) == Some(b + d));
    assert(float_end(s, b) == Some(b + t.len()));
    assert(group_at(s, b, Bracket::Paren) is Fail);
    assert(group_at(s, b, Bracket::Square) is Fail);
    assert(group_at(s, b, Bracket::Curly) is Fail);
    assert(string_at(s, b) is Fail);
    assert(hits(float_at(s, b), Form::Float(t), b + t.len()));
}

/// An integer is read back from its numeral.
proof fn lemma_reads_integer(s: Seq<char>, b: int, n: int)
    requires
        i64::MIN <= n <= i64::MAX,
        stands(s, b, int_text(n)),
        stops(s, b + int_text(n).len()),
    ensures
        hits(form_at(s, b), Form::Int(n), b + int_text(n).len()),
{
    let t = int_text(n);
    lemma_int_text(n);
    let j: int = if n < 0 {
        1
    } else {
        0
    };
    lemma_stands_char(s, b, t, 0);
    assert(at(s, b, '-') == (n < 0));
    assert forall|x: int| j <= x < t.len() implies in_class(#[trigger] t[x], Class::Digit) by {
        assert(is_digit(t[x]));
    }
    lemma_span_all(t, j, Class::Digit);
    lemma_span_carries(s, b, t, j, Class::Digit);
    assert(digits_end(s, b) == Some(b + t.len()));
    assert(float_end(s, b) is None);
    assert(group_at(s, b, Bracket::Paren) is Fail);
    assert(group_at(s, b, Bracket::Square) is Fail);
    assert(group_at(s, b, Bracket::Curly) is Fail);
    assert(string_at(s, b) is Fail);
    assert(float_at(s, b) is Fail);
    assert(hits(integer_at(s, b), Form::Int(n), b + t.len()));
}

/// A string is read back from its text between double quotes.
proof fn lemma_reads_string(s: Seq<char>, b: int, t: Seq<char>)
    requires
        writable_form(Form::String(t)),
        stands(s, b, print_form(Form::String(t))),
    ensures
        hits(form_at(s, b), Form::String(t), b + print_form(Form::String(t)).len()),
{
    let closed = t.push('"');
    let text = print_form(Form::String(t));
    assert(text =~= seq!['"'] + closed);
    assert(closed =~= t + seq!['"']);
    lemma_stands_split(s, b, seq!['"'], closed);
    lemma_stands_split(s, b + 1, t, seq!['"']);
    lemma_stands_char(s, b, seq!['"'], 0);
    lemma_quoted_carries(s, b + 1, closed, 0);
    assert(quoted(s, b + 1).0 == b + 1 + t.len());
    assert(s.subrange(b + 1, b + 1 + t.len()) == t);
    assert(group_at(s, b, Bracket::Paren) is Fail);
    assert(group_at(s, b, Bracket::Square) is Fail);
    assert(group_at(s, b, Bracket::Curly) is Fail);
    assert(hits(string_at(s, b), Form::String(t), b + text.len()));
}

/// A node is read back from its printed text, up to the white space after it.
pub proof fn lemma_reads_node(s: Seq<char>, i: int, n: Node)
    requires
        writable(n),
        stands(s, i, print_node(n)),
        stops(s, i + print_node(n).len()),
    ensures
        hits(expr_at(s, i), n, blank_end(s, i + print_node(n).len())),
    decreases n, 2nat,
{
    let p = prefix_text(n.prefix);
    let body = print_form(n.form);
    lemma_node_text_starts(n);
    lemma_form_text_starts(n.form);
    lemma_stands_char(s, i, print_node(n), 0);
    lemma_no_blank(s, i);
    lemma_stands_split(s, i, p, body);
    lemma_stands_char(s, i + p.len(), body, 0);
    lemma_span_carries(s, i, p, 0, Class::Prefix);
    let b = i + p.len();
    assert(span_end(s, i, Class::Prefix) == b);
    lemma_reads_form(s, b, n.form);
    match n.prefix {
        Some(t) => {
            assert(s.subrange(i, b) == t);
        },
        None => {},
    }
}

/// A form is read back from its printed text.
pub proof fn lemma_reads_form(s: Seq<char>, b: int, f: Form)
    requires
        writable_form(f),
        stands(s, b, print_form(f)),
        stops(s, b + print_form(f).len()),
    ensures
        hits(form_at(s, b), f, b + print_form(f).len()),
    decreases f, 1nat,
{
    match f {
        Form::List(v) => {
            lemma_reads_group(s, b, Bracket::Paren, v);
        },
        Form::Vector(v) => {
            lemma_reads_group(s, b, Bracket::Square, v);
            lemma_stands_char(s, b, print_form(f), 0);
            assert(group_at(s, b, Bracket::Paren) is Fail);
        },
        Form::Hashmap(v) => {
            lemma_reads_group(s, b, Bracket::Curly, v);
            lemma_stands_char(s, b, print_form(f), 0);
            assert(group_at(s, b, Bracket::Paren) is Fail);
            assert(group_at(s, b, Bracket::Square) is Fail);
        },
        Form::String(t) => {
            lemma_reads_string(s, b, t);
        },
        Form::Symbol(t) => {
            lemma_reads_symbol(s, b, t);
        },
        Form::Comment(_) => {},
        Form::Float(t) => {
            lemma_reads_float(s, b, t);
        },
        Form::Int(n) => {
            lemma_reads_integer(s, b, n);
        },
    }
}

/// A bracketed form is read back from its printed text.
pub proof fn lemma_reads_group(s: Seq<char>, b: int, br: Bracket, v: Seq<Node>)
    requires
        all_writable(v),
        commas_lead_only(v, 1),
        stands(s, b, seq![opener(br)] + print_all(v) + seq![closer(br)]),
    ensures
        hits(group_at(s, b, br), bracketed(br, v), b + print_all(v).len() + 2),
    decreases v, 1nat,
{
    let inner = print_all(v);
    let text = seq![opener(br)] + inner + seq![closer(br)];
    assert(text =~= seq![opener(br)] + (inner + seq![closer(br)]));
    lemma_stands_split(s, b, seq![opener(br)], inner + seq![closer(br)]);
    lemma_stands_split(s, b + 1, inner, seq![closer(br)]);
    lemma_stands_char(s, b, seq![opener(br)], 0);
    let q = b + 1 + inner.len();
    lemma_stands_char(s, q, seq![closer(br)], 0);
    assert(halts(s, q));
    lemma_no_expr_at_halt(s, q);
    if v.len() > 0 {
        lemma_node_text_starts(v[0]);
        assert(inner[0] == print_node(v[0])[0]);
        lemma_stands_char(s, b + 1, inner, 0);
    }
    lemma_no_blank(s, b + 1);
    lemma_reads_items(s, b + 1, v, true);
    assert(commas(s, q).0 == q);
}

/// The elements of a bracketed form are read back from their printed text.
pub proof fn lemma_reads_items(s: Seq<char>, p: int, v: Seq<Node>, first: bool)
    requires
        all_writable(v),
        commas_lead_only(
            v,
            if first {
                1
            } else {
                0
            },
        ),
        stands(s, p, print_all(v)),
        halts(s, p + print_all(v).len()),
    ensures
        hits(items(s, p, first), v, p + print_all(v).len()),
    decreases v, 0nat,
{
    if v.len() == 0 {
        lemma_no_expr_at_halt(s, p);
        assert(items(s, p, first) matches Outcome::Match { value, end, .. } && value =~= v && end
            == p);
    } else {
        let x = v[0];
        let rest = v.subrange(1, v.len() as int);
        let head = print_node(x);
        lemma_node_text_starts(x);
        assert(writable(x));
        assert forall|k: int| 0 <= k < rest.len() implies writable(#[trigger] rest[k]) by {
            assert(rest[k] == v[k + 1]);
        }
        assert forall|k: int| 0 <= k < rest.len() implies !leads_with_comma(
            #[trigger] rest[k],
        ) by {
            assert(rest[k] == v[k + 1]);
        }
        let after = p + head.len();
        if rest.len() == 0 {
            assert(print_all(v) == head);
            assert(print_all(rest) =~= Seq::<char>::empty());
            assert(stands(s, after, print_all(rest))) by {
                assert(s.subrange(after, after) =~= Seq::<char>::empty());
            }
        } else {
            assert(rest.len() == v.len() - 1);
            assert(print_all(v) =~= head + (seq![' '] + print_all(rest)));
            lemma_stands_split(s, p, head, seq![' '] + print_all(rest));
            lemma_stands_split(s, after, seq![' '], print_all(rest));
            lemma_stands_char(s, after, seq![' '], 0);
            lemma_node_text_starts(rest[0]);
            assert(print_all(rest)[0] == print_node(rest[0])[0]) by {
                if rest.len() == 1 {
                } else {
                    assert(print_all(rest) =~= print_node(rest[0]) + (seq![' '] + print_all(
                        rest.subrange(1, rest.len() as int),
                    )));
                }
            }
            assert(print_all(rest).len() > 0) by {
                if rest.len() == 1 {
                } else {
                    assert(print_all(rest) =~= print_node(rest[0]) + (seq![' '] + print_all(
                        rest.subrange(1, rest.len() as int),
                    )));
                }
            }
            lemma_stands_char(s, after + 1, print_all(rest), 0);
            lemma_no_blank(s, after + 1);
        }
        lemma_stands_char(s, p, print_all(v), 0);
        assert(print_all(v)[0] == head[0]);
        lemma_no_blank(s, p);
        assert(stands(s, p, head));
        lemma_reads_node(s, p, x);
        let end = blank_end(s, after);
        if rest.len() == 0 {
            lemma_no_expr_at_halt(s, after);
            assert(end == after);
        } else {
            assert(end == after + 1);
        }
        lemma_reads_items(s, end, rest, false);
        assert(seq![x] + rest =~= v);
        assert(!first ==> !at(s, p, ','));
    }
}

/// A forest is read back from its printed text.
pub proof fn lemma_reads_forest(s: Seq<char>, p: int, v: Seq<Node>)
    requires
        all_writable(v),
        stands(s, p, print_all(v)),
        p + print_all(v).len() == s.len(),
    ensures
        hits(forest(s, p), v, s.len() as int),
    decreases v.len(),
{
    if v.len() == 0 {
        lemma_no_expr_at_halt(s, p);
        assert(forest(s, p) matches Outcome::Match { value, end, .. } && value =~= v && end == p);
    } else {
        let x = v[0];
        let rest = v.subrange(1, v.len() as int);
        let head = print_node(x);
        lemma_node_text_starts(x);
        assert forall|k: int| 0 <= k < rest.len() implies writable(#[trigger] rest[k]) by {
            assert(rest[k] == v[k + 1]);
        }
        let after = p + head.len();
        if rest.len() == 0 {
            assert(print_all(v) == head);
            assert(print_all(rest) =~= Seq::<char>::empty());
            assert(stands(s, after, print_all(rest))) by {
                assert(s.subrange(after, after) =~= Seq::<char>::empty());
            }
        } else {
            assert(print_all(v) =~= head + (seq![' '] + print_all(rest)));
            lemma_stands_split(s, p, head, seq![' '] + print_all(rest));
            lemma_stands_split(s, after, seq![' '], print_all(rest));
            lemma_stands_char(s, after, seq![' '], 0);
            lemma_node_text_starts(rest[0]);
            assert(print_all(rest).len() > 0 && print_all(rest)[0] == print_node(rest[0])[0]) by {
                if rest.len() == 1 {
                } else {
                    assert(print_all(rest) =~= print_node(rest[0]) + (seq![' '] + print_all(
                        rest.subrange(1, rest.len() as int),
                    )));
                }
            }
            lemma_stands_char(s, after + 1, print_all(rest), 0);
            lemma_no_blank(s, after + 1);
        }
        lemma_stands_char(s, p, print_all(v), 0);
        assert(print_all(v)[0] == head[0]);
        assert(stands(s, p, head));
        lemma_reads_node(s, p, x);
        assert(comment_at(s, p) is Fail);
        let end = blank_end(s, after);
        if rest.len() == 0 {
            lemma_no_expr_at_halt(s, after);
        }
        lemma_reads_forest(s, end, rest);
        assert(seq![x] + rest =~= v);
    }
}

/// Reading the printed text of a forest gives the forest back, for every
/// forest that the reader can give at all: one of nodes that are
/// [`writable`].
pub proof fn law_read_inverts_print(v: Seq<Node>)
    requires
        all_writable(v),
    ensures
        read_all(print_all(v)) == Ok::<Seq<Node>, ParseError>(v),
{
    let s = print_all(v);
    assert(s.subrange(0, s.len() as int) =~= s);
    if v.len() > 0 {
        lemma_node_text_starts(v[0]);
        assert(s.len() > 0 && s[0] == print_node(v[0])[0]) by {
            if v.len() == 1 {
            } else {
                assert(s =~= print_node(v[0]) + (seq![' '] + print_all(
                    v.subrange(1, v.len() as int),
                )));
            }
        }
    }
    lemma_no_blank(s, 0);
    lemma_reads_forest(s, 0, v);
    lemma_no_blank(s, s.len() as int);
}

/// Reading the printed text of a node as one expression gives the node back,
/// for every node that is [`writable`].
pub proof fn law_read_one_inverts_print(n: Node)
    requires
        writable(n),
    ensures
        read_one(print_node(n)) == Ok::<Node, ParseError>(n),
{
    let s = print_node(n);
    assert(s.subrange(0, s.len() as int) =~= s);
    lemma_reads_node(s, 0, n);
    lemma_no_blank(s, s.len() as int);
}

/// Whether a prefix is one that the reader gives.
fn prefix_is_plain(p: &Option<String>) -> (r: bool)
    ensures
        r == plain_prefix(
            match *p {
                Some(t) => Some(t@),
                None => None,
            },
        ),
{
    match p {
        Some(t) => {
            let chars = chars_of(t.as_str());
            chars.len() > 0 && span(&chars, 0, Class::Prefix) == chars.len()
        },
        None => true,
    }
}

/// Whether `t` reads as one symbol.
fn text_is_symbol(t: &str) -> (r: bool)
    ensures
        r == symbol_text(t@),
{
    let chars = chars_of(t);
    if chars.len() == 0 {
        return false;
    }
    if span(&chars, 0, Class::Symbol) != chars.len() {
        return false;
    }
    if prefix_char(chars[0]) {
        return false;
    }
    digits_stop(&chars, 0).is_none()
}

/// Whether `t` reads as one float.
fn text_is_float(t: &str) -> (r: bool)
    ensures
        r == (float_end(t@, 0) == Some(t@.len() as int)),
{
    let chars = chars_of(t);
    match float_stop(&chars, 0) {
        Some(e) => e == chars.len(),
        None => false,
    }
}

/// Whether `t` reads as the text of one string.
fn text_is_string(t: &String) -> (r: bool)
    ensures
        r == string_text(t@),
{
    let mut closed = chars_of(t.as_str());
    let n = closed.len();
    closed.push('"');
    if read_quoted(&closed, 0).0 != n {
        return false;
    }
    match unescape(t.as_str()) {
        Ok(back) => back == *t,
        Err(_) => false,
    }
}

/// Whether the prefix of `e` starts with a comma.
fn comma_leads(e: &Expr) -> (r: bool)
    ensures
        r == leads_with_comma(e@),
{
    match &e.prefix {
        Some(p) => p.as_str().unicode_len() > 0 && p.as_str().get_char(0) == ',',
        None => false,
    }
}

/// Whether the reader gives each of `v` back from its printed text, and,
/// where `no_commas` holds, no element from `from` on has a prefix that
/// starts with a comma.
fn all_are_writable(v: &Vec<Expr>, no_commas: bool, from: usize) -> (r: bool)
    ensures
        r == (all_writable(nodes_of(v@)) && (no_commas ==> commas_lead_only(
            nodes_of(v@),
            from as int,
        ))),
    decreases v, 0nat,
{
    let ghost nodes = nodes_of(v@);
    let mut i: usize = 0;
    while i < v.len()
        invariant
            i <= v.len(),
            nodes == nodes_of(v@),
            forall|k: int| 0 <= k < i ==> writable(#[trigger] nodes[k]),
            no_commas ==> forall|k: int| from <= k < i ==> !leads_with_comma(#[trigger] nodes[k]),
        decreases v.len() - i,
    {
        assert(nodes[i as int] == node_of(v@[i as int]));
        if !is_writable(&v[i]) {
            return false;
        }
        if no_commas && i >= from && comma_leads(&v[i]) {
            return false;
        }
        i = i + 1;
    }
    true
}

/// Whether the reader gives `k` back from its printed text.
fn form_is_writable(k: &ExprType) -> (r: bool)
    ensures
        r == writable_form(k@),
    decreases k, 1nat,
{
    match k {
        ExprType::List(v) => all_are_writable(v, true, 1),
        ExprType::Vector(v) => all_are_writable(v, true, 1),
        ExprType::Hashmap(v) => all_are_writable(v, true, 1),
        ExprType::String(t) => text_is_string(t),
        ExprType::Symbol(t) => text_is_symbol(t.as_str()),
        ExprType::Comment(_) => false,
        ExprType::Float(t) => text_is_float(t.as_str()),
        ExprType::Int(_) => true,
    }
}

/// Whether the reader gives `e` back from its printed text.
pub fn is_writable(e: &Expr) -> (r: bool)
    ensures
        r == writable(e@),
    decreases e, 2nat,
{
    prefix_is_plain(&e.prefix) && form_is_writable(&e.expr)
}

/// Whether the reader gives `forest` back from its printed text; where it
/// does, reading the printed text of `forest` gives just its nodes.
pub fn reads_back(forest: &Vec<Expr>) -> (r: bool)
    ensures
        r == all_writable(nodes_of(forest@)),
        r ==> read_all(print_all(nodes_of(forest@))) == Ok::<Seq<Node>, ParseError>(
            nodes_of(forest@),
        ),
{
    let r = all_are_writable(forest, false, 0);
    proof {
        if r {
            law_read_inverts_print(nodes_of(forest@));
        }
    }
    r
}

} // verus!
