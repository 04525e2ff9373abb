use crate::expr::{node_of, nodes_of, Expr, ExprType, Form, Node};
use crate::text::{i64_text, int_text};
use vstd::prelude::*;
use vstd::string::StringExecFns;

verus! {

/// One character written for the contents of a string literal: a backslash,
/// a double quote and a carriage return are written as escapes, any other
/// character as itself.
pub open spec fn escape_of(c: char) -> Seq<char> {
    if c == '\\' {
        seq!['\\', '\\']
    } else if c == '"' {
        seq!['\\', '"']
    } else if c == '\r' {
        seq!['\\', 'r']
    } else {
        seq![c]
    }
}

/// A text written for the contents of a string literal, character by
/// character. Printing a node does not do this: it writes the text of a
/// string as it is.
pub open spec fn escaped(t: Seq<char>) -> Seq<char>
    decreases t.len(),
{
    if t.len() == 0 {
        seq![]
    } else {
        escape_of(t[0]) + escaped(t.subrange(1, t.len() as int))
    }
}

/// The prefix of a node as text; nothing where it has none.
pub open spec fn prefix_text(p: Option<Seq<char>>) -> Seq<char> {
    match p {
        Some(t) => t,
        None => seq![],
    }
}

/// How a node reads: its prefix, then its form.
pub open spec fn print_node(n: Node) -> Seq<char>
    decreases n,
{
    prefix_text(n.prefix) + print_form(n.form)
}

/// How a form reads. A list, vector or hashmap is its elements between its
/// brackets; a string is its text between double quotes, as it is, with no
/// escape added; a symbol and a float are their text; an integer is its
/// decimal numeral; a comment reads as nothing.
pub open spec fn print_form(f: Form) -> Seq<char>
    decreases f,
{
    match f {
        Form::List(v) => seq!['('] + print_all(v) + seq![')'],
        Form::Vector(v) => seq!['['] + print_all(v) + seq![']'],
        Form::Hashmap(v) => seq!['{'] + print_all(v) + seq!['}'],
        Form::String(t) => seq!['"'] + t + seq!['"'],
        Form::Symbol(t) => t,
        Form::Comment(_) => seq![],
        Form::Float(t) => t,
        Form::Int(n) => int_text(n),
    }
}

/// How a sequence of nodes reads: each node, with one space between two.
pub open spec fn print_all(v: Seq<Node>) -> Seq<char>
    decreases v,
{
    if v.len() == 0 {
        seq![]
    } else if v.len() == 1 {
        print_node(v[0])
    } else {
        print_node(v[0]) + seq![' '] + print_all(v.subrange(1, v.len() as int))
    }
}

/// One more node at the end reads as a space and that node after the rest.
pub proof fn lemma_print_all_push(v: Seq<Node>, n: Node)
    ensures
        print_all(v.push(n)) == if v.len() == 0 {
            print_node(n)
        } else {
            print_all(v) + seq![' '] + print_node(n)
        },
    decreases v.len(),
{
    let w = v.push(n);
    if v.len() == 0 {
        assert(w[0] == n);
    } else if v.len() == 1 {
        assert(w.subrange(1, w.len() as int) =~= seq![n]);
        lemma_print_all_push(seq![], n);
        assert(Seq::<Node>::empty().push(n) =~= seq![n]);
    } else {
        let tail = v.subrange(1, v.len() as int);
        assert(w.subrange(1, w.len() as int) =~= tail.push(n));
        lemma_print_all_push(tail, n);
        assert(print_node(v[0]) + seq![' '] + (print_all(tail) + seq![' '] + print_node(n))
            =~= print_node(v[0]) + seq![' '] + print_all(tail) + seq![' '] + print_node(n));
    }
}

/// Writes `t` to the end of `out` as the contents of a string literal.
fn push_escaped(t: &str, out: &mut String)
    ensures
        final(out)@ == old(out)@ + escaped(t@),
{
    let ghost base = out@;
    let chars = crate::text::chars_of(t);
    let mut i: usize = 0;
    assert(chars@.subrange(0, chars@.len() as int) =~= chars@);
    while i < chars.len()
        invariant
            i <= chars.len(),
            chars@ == t@,
            out@ + escaped(chars@.subrange(i as int, chars@.len() as int)) == base + escaped(t@),
        decreases chars.len() - i,
    {
        let ghost rest = chars@.subrange(i as int, chars@.len() as int);
        let ghost before = out@;
        assert(rest.subrange(1, rest.len() as int) =~= chars@.subrange(i + 1, chars@.len() as int));
        assert(rest[0] == chars@[i as int]);
        let c = chars[i];
        if c == '\\' {
            out.push('\\');
            out.push('\\');
        } else if c == '"' {
            out.push('\\');
            out.push('"');
        } else if c == '\r' {
            out.push('\\');
            out.push('r');
        } else {
            out.push(c);
        }
        assert(out@ =~= before + escape_of(c));
        assert(before + (escape_of(c) + escaped(rest.subrange(1, rest.len() as int))) =~= out@
            + escaped(chars@.subrange(i + 1, chars@.len() as int)));
        i = i + 1;
    }
    assert(escaped(chars@.subrange(i as int, chars@.len() as int)) =~= Seq::<char>::empty());
    assert(out@ + Seq::<char>::empty() =~= out@);
}

/// `t` written for the contents of a string literal.
pub fn escape(t: &str) -> (r: String)
    ensures
        r@ == escaped(t@),
{
    let mut r = String::new();
    push_escaped(t, &mut r);
    assert(r@ =~= escaped(t@));
    r
}

/// Writes the nodes of `v` to the end of `out`, with one space between two.
fn push_all(v: &Vec<Expr>, out: &mut String)
    ensures
        final(out)@ == old(out)@ + print_all(nodes_of(v@)),
    decreases v, 0nat,
{
    let ghost base = out@;
    let ghost nodes = nodes_of(v@);
    let mut i: usize = 0;
    assert(nodes.take(0) =~= Seq::<Node>::empty());
    assert(base + Seq::<char>::empty() =~= base);
    while i < v.len()
        invariant
            i <= v.len(),
            nodes == nodes_of(v@),
            out@ == base + print_all(nodes.take(i as int)),
        decreases v.len() - i,
    {
        let ghost before = out@;
        if i > 0 {
            out.push(' ');
        }
        let ghost spaced = out@;
        push_node(&v[i], out);
        proof {
            let done = nodes.take(i as int);
            assert(nodes.take(i + 1) =~= done.push(node_of(v@[i as int])));
            lemma_print_all_push(done, node_of(v@[i as int]));
            if i > 0 {
                assert(out@ =~= base + (print_all(done) + seq![' '] + print_node(
                    node_of(v@[i as int]),
                )));
            } else {
                assert(print_all(done) =~= Seq::<char>::empty());
                assert(out@ =~= base + print_node(node_of(v@[i as int])));
            }
        }
        i = i + 1;
    }
    assert(nodes.take(i as int) =~= nodes);
}

/// Writes a form to the end of `out`.
fn push_form(k: &ExprType, out: &mut String)
    ensures
        final(out)@ == old(out)@ + print_form(k@),
    decreases k, 1nat,
{
    let ghost base = out@;
    match k {
        ExprType::List(v) => {
            out.push('(');
            push_all(v, out);
            out.push(')');
            assert(out@ =~= base + (seq!['('] + print_all(nodes_of(v@)) + seq![')']));
        },
        ExprType::Vector(v) => {
            out.push('[');
            push_all(v, out);
            out.push(']');
            assert(out@ =~= base + (seq!['['] + print_all(nodes_of(v@)) + seq![']']));
        },
        ExprType::Hashmap(v) => {
            out.push('{');
            push_all(v, out);
            out.push('}');
            assert(out@ =~= base + (seq!['{'] + print_all(nodes_of(v@)) + seq!['}']));
        },
        ExprType::String(t) => {
            out.push('"');
            out.append(t.as_str());
            out.push('"');
            assert(out@ =~= base + (seq!['"'] + t@ + seq!['"']));
        },
        ExprType::Symbol(t) => {
            out.append(t.as_str());
        },
        ExprType::Comment(_) => {
            assert(out@ =~= base + Seq::<char>::empty());
        },
        ExprType::Float(t) => {
            out.append(t.as_str());
        },
        ExprType::Int(n) => {
            out.append(i64_text(*n).as_str());
        },
    }
}

/// Writes a node to the end of `out`.
fn push_node(e: &Expr, out: &mut String)
    ensures
        final(out)@ == old(out)@ + print_node(e@),
    decreases e, 2nat,
{
    let ghost base = out@;
    match &e.prefix {
        Some(p) => {
            out.append(p.as_str());
        },
        None => {
            assert(out@ =~= base + Seq::<char>::empty());
        },
    }
    push_form(&e.expr, out);
    assert(out@ =~= base + (prefix_text(e@.prefix) + print_form(e@.form)));
}

impl ExprType {
    /// How the form reads.
    pub fn to_string(&self) -> (r: String)
        ensures
            r@ == print_form(self@),
    {
        let mut r = String::new();
        push_form(self, &mut r);
        assert(r@ =~= print_form(self@));
        r
    }
}

impl Expr {
    /// How the node reads.
    pub fn to_string(&self) -> (r: String)
        ensures
            r@ == print_node(self@),
    {
        let mut r = String::new();
        push_node(self, &mut r);
        assert(r@ =~= print_node(self@));
        r
    }
}

/// How the nodes of `v` read, with one space between two.
pub fn print(v: &Vec<Expr>) -> (r: String)
    ensures
        r@ == print_all(nodes_of(v@)),
{
    let mut r = String::new();
    push_all(v, &mut r);
    assert(r@ =~= print_all(nodes_of(v@)));
    r
}

} // verus!
