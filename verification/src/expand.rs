use crate::expr::{
    form_of, lemma_nodes_of_push, lemma_nodes_of_skip, node_of, nodes_of, Expr, ExprType, Form,
    Node,
};
use vstd::prelude::*;
use vstd::string::StringExecFns;

verus! {

/// The rewrites that a reader prefix can ask for.
#[derive(Clone, Copy, Debug, PartialEq, Eq, Structural)]
pub enum Rewrite {
    Quote,
    Unquote,
    Quasiquote,
    SpliceUnquote,
    Deref,
    WithMeta,
}

/// The rewrite that the prefix `p` asks for; `None` for a run of prefix
/// characters that is no known prefix. A comma asks for what a backquote
/// asks for.
pub open spec fn rewrite_of(p: Seq<char>) -> Option<Rewrite> {
    if p.len() == 1 {
        if p[0] == '\'' {
            Some(Rewrite::Quote)
        } else if p[0] == '~' {
            Some(Rewrite::Unquote)
        } else if p[0] == '`' || p[0] == ',' {
            Some(Rewrite::Quasiquote)
        } else if p[0] == '@' {
            Some(Rewrite::Deref)
        } else if p[0] == '^' {
            Some(Rewrite::WithMeta)
        } else {
            None
        }
    } else if p.len() == 2 && p[0] == '~' && p[1] == '@' {
        Some(Rewrite::SpliceUnquote)
    } else {
        None
    }
}

/// The symbol that heads the list a rewrite produces.
pub open spec fn head_of(r: Rewrite) -> Seq<char> {
    match r {
        Rewrite::Quote => "quote"@,
        Rewrite::Unquote => "unquote"@,
        Rewrite::Quasiquote => "quasiquote"@,
        Rewrite::SpliceUnquote => "splice-unquote"@,
        Rewrite::Deref => "deref"@,
        Rewrite::WithMeta => "with-meta"@,
    }
}

/// A bare symbol node.
pub open spec fn symbol_node(name: Seq<char>) -> Node {
    Node { prefix: None, form: Form::Symbol(name) }
}

/// A bare list node.
pub open spec fn list_node(items: Seq<Node>) -> Node {
    Node { prefix: None, form: Form::List(items) }
}

/// Whether expanding `n` takes the sibling that follows it.
pub open spec fn takes_sibling(n: Node) -> bool {
    n.prefix matches Some(p) && rewrite_of(p) == Some(Rewrite::WithMeta)
}

/// The expansion of `n`, where `next` is the sibling that follows it, if any.
///
/// Children are expanded first. A known prefix is then taken off and the node
/// is wrapped in a list headed by the prefix's symbol. The metadata prefix
/// also puts the following sibling, as it stands, in front of the node; an
/// empty list takes its place where no sibling follows.
pub open spec fn expand_node(n: Node, next: Option<Node>) -> Node
    decreases n,
{
    let form = match n.form {
        Form::List(v) => Form::List(expand_all(v)),
        Form::Vector(v) => Form::Vector(expand_all(v)),
        Form::Hashmap(v) => Form::Hashmap(expand_all(v)),
        f => f,
    };
    let bare = Node { prefix: None, form };
    match n.prefix {
        None => bare,
        Some(p) => match rewrite_of(p) {
            None => Node { prefix: Some(p), form },
            Some(Rewrite::WithMeta) => list_node(
                seq![
                    symbol_node(head_of(Rewrite::WithMeta)),
                    match next {
                        Some(m) => m,
                        None => list_node(seq![]),
                    },
                    bare,
                ],
            ),
            Some(r) => list_node(seq![symbol_node(head_of(r)), bare]),
        },
    }
}

/// The expansion of the elements of a sequence, left to right. An element
/// with the metadata prefix uses up the element after it.
pub open spec fn expand_all(v: Seq<Node>) -> Seq<Node>
    decreases v,
{
    if v.len() == 0 {
        seq![]
    } else if takes_sibling(v[0]) && v.len() >= 2 {
        seq![expand_node(v[0], Some(v[1]))] + expand_all(v.subrange(2, v.len() as int))
    } else {
        seq![expand_node(v[0], None)] + expand_all(v.subrange(1, v.len() as int))
    }
}

/// A node that takes no sibling expands the same whatever follows it.
pub proof fn lemma_expand_ignores_sibling(n: Node, a: Option<Node>, b: Option<Node>)
    requires
        !takes_sibling(n),
    ensures
        expand_node(n, a) == expand_node(n, b),
{
}

/// What is left of the siblings once `n` has been expanded in front of them.
pub open spec fn siblings_left(n: Node, rest: Seq<Node>) -> Seq<Node> {
    if takes_sibling(n) && rest.len() > 0 {
        rest.subrange(1, rest.len() as int)
    } else {
        rest
    }
}

/// The first of `rest`, if there is one.
pub open spec fn first_of(rest: Seq<Node>) -> Option<Node> {
    if rest.len() > 0 {
        Some(rest[0])
    } else {
        None
    }
}

/// Whether neither `n` nor any node below it carries a known prefix.
pub open spec fn settled(n: Node) -> bool
    decreases n,
{
    &&& n.prefix matches Some(p) ==> rewrite_of(p) is None
    &&& match n.form {
        Form::List(v) => all_settled(v),
        Form::Vector(v) => all_settled(v),
        Form::Hashmap(v) => all_settled(v),
        _ => true,
    }
}

/// Whether every node of `v` is settled.
pub open spec fn all_settled(v: Seq<Node>) -> bool
    decreases v,
{
    forall|i: int| 0 <= i < v.len() ==> settled(#[trigger] v[i])
}

/// Expansion leaves a settled node as it is, whatever follows it.
pub proof fn lemma_settled_node_is_fixed(n: Node, next: Option<Node>)
    requires
        settled(n),
    ensures
        expand_node(n, next) == n,
    decreases n,
{
    match n.form {
        Form::List(v) => lemma_settled_nodes_are_fixed(v),
        Form::Vector(v) => lemma_settled_nodes_are_fixed(v),
        Form::Hashmap(v) => lemma_settled_nodes_are_fixed(v),
        _ => {},
    }
}

/// Expansion leaves a sequence of settled nodes as it is.
pub proof fn lemma_settled_nodes_are_fixed(v: Seq<Node>)
    requires
        all_settled(v),
    ensures
        expand_all(v) == v,
    decreases v,
{
    if v.len() > 0 {
        let tail = v.subrange(1, v.len() as int);
        assert forall|i: int| 0 <= i < tail.len() implies settled(#[trigger] tail[i]) by {
            assert(tail[i] == v[i + 1]);
        }
        lemma_settled_node_is_fixed(v[0], None);
        lemma_settled_nodes_are_fixed(tail);
        assert(seq![v[0]] + tail =~= v);
    }
}

/// Expansion is idempotent once it has rewritten every known prefix: if the
/// expansion of `n` is settled, expanding it again changes nothing.
pub proof fn law_expand_is_idempotent(n: Node, next: Option<Node>, again: Option<Node>)
    requires
        settled(expand_node(n, next)),
    ensures
        expand_node(expand_node(n, next), again) == expand_node(n, next),
{
    lemma_settled_node_is_fixed(expand_node(n, next), again);
}

/// Expansion of a sequence is idempotent once it has rewritten every known
/// prefix.
pub proof fn law_expand_all_is_idempotent(v: Seq<Node>)
    requires
        all_settled(expand_all(v)),
    ensures
        expand_all(expand_all(v)) == expand_all(v),
{
    lemma_settled_nodes_are_fixed(expand_all(v));
}

/// Expansion never makes a sequence longer, and keeps its length where no
/// element takes the sibling after it.
pub proof fn law_expand_keeps_count(v: Seq<Node>)
    ensures
        expand_all(v).len() <= v.len(),
        (forall|i: int| 0 <= i < v.len() ==> !takes_sibling(#[trigger] v[i])) ==> {
            &&& expand_all(v).len() == v.len()
            &&& forall|i: int|
                0 <= i < v.len() ==> expand_all(v)[i] == expand_node(#[trigger] v[i], None)
        },
    decreases v.len(),
{
    if v.len() > 0 {
        let one = v.subrange(1, v.len() as int);
        law_expand_keeps_count(one);
        if v.len() >= 2 {
            law_expand_keeps_count(v.subrange(2, v.len() as int));
        }
        if forall|i: int| 0 <= i < v.len() ==> !takes_sibling(#[trigger] v[i]) {
            assert(!takes_sibling(v[0]));
            assert forall|i: int| 0 <= i < one.len() implies !takes_sibling(#[trigger] one[i]) by {
                assert(one[i] == v[i + 1]);
            }
            assert forall|i: int| 0 <= i < v.len() implies expand_all(v)[i] == expand_node(
                #[trigger] v[i],
                None,
            ) by {
                if i > 0 {
                    assert(expand_all(v)[i] == expand_all(one)[i - 1]);
                    assert(one[i - 1] == v[i]);
                }
            }
        }
    }
}

/// A cursor over the siblings that follow a node, in source order.
pub struct Siblings {
    stack: Vec<Expr>,
}

impl View for Siblings {
    type V = Seq<Expr>;

    closed spec fn view(&self) -> Seq<Expr> {
        self.stack@.reverse()
    }
}

impl Siblings {
    /// A cursor with nothing behind it.
    pub fn empty() -> (r: Siblings)
        ensures
            r@ == Seq::<Expr>::empty(),
    {
        let r = Siblings { stack: Vec::new() };
        assert(r.stack@.reverse() =~= Seq::<Expr>::empty());
        r
    }

    /// A cursor that stands before the first of `items`.
    pub fn new(items: Vec<Expr>) -> (r: Siblings)
        ensures
            r@ == items@,
    {
        let ghost all = items@;
        let mut items = items;
        let mut stack: Vec<Expr> = Vec::new();
        while items.len() > 0
            invariant
                items@.len() + stack@.len() == all.len(),
                items@ == all.subrange(0, items@.len() as int),
                stack@.reverse() == all.subrange(items@.len() as int, all.len() as int),
            decreases items@.len(),
        {
            let ghost before = items@;
            let ghost done = stack@;
            let e = items.pop().unwrap();
            stack.push(e);
            assert(items@ =~= all.subrange(0, items@.len() as int));
            assert(stack@.reverse() =~= seq![e] + done.reverse());
            assert(stack@.reverse() =~= all.subrange(items@.len() as int, all.len() as int));
        }
        assert(stack@.reverse() =~= all);
        Siblings { stack }
    }

    /// Takes the next sibling, if one is left.
    pub fn next(&mut self) -> (r: Option<Expr>)
        ensures
            old(self)@.len() == 0 ==> r is None && final(self)@ == old(self)@,
            old(self)@.len() > 0 ==> r == Some(old(self)@[0]) && final(self)@ == old(
                self,
            )@.subrange(1, old(self)@.len() as int),
    {
        let ghost before = self.stack@;
        let r = self.stack.pop();
        proof {
            if before.len() > 0 {
                assert(self.stack@.reverse() =~= before.reverse().subrange(
                    1,
                    before.len() as int,
                ));
            }
        }
        r
    }

    /// Whether no sibling is left.
    pub fn is_empty(&self) -> (r: bool)
        ensures
            r == (self@.len() == 0),
    {
        self.stack.len() == 0
    }
}

/// A bare symbol named `s`.
pub fn symbol(s: &str) -> (r: Expr)
    ensures
        r@ == symbol_node(s@),
{
    Expr::new(None, ExprType::Symbol(String::from_str(s)))
}

/// A bare list of `v`.
pub fn list(v: Vec<Expr>) -> (r: Expr)
    ensures
        r@ == list_node(nodes_of(v@)),
        r.prefix is None,
        r.expr == ExprType::List(v),
{
    Expr::new(None, ExprType::List(v))
}

/// The empty list.
pub fn empty() -> (r: Expr)
    ensures
        r@ == list_node(seq![]),
{
    let v: Vec<Expr> = Vec::new();
    assert(nodes_of(v@) =~= seq![]);
    list(v)
}

/// `this` without its prefix, as the one argument of a list headed by the
/// symbol `s`.
pub fn wrap(this: Expr, s: &str) -> (r: Expr)
    ensures
        r@ == list_node(seq![symbol_node(s@), Node { prefix: None, form: this@.form }]),
{
    let mut this = this;
    this.prefix = None;
    let head = symbol(s);
    let mut v: Vec<Expr> = Vec::new();
    v.push(head);
    v.push(this);
    assert(nodes_of(v@) =~= seq![symbol_node(s@), Node { prefix: None, form: this@.form }]);
    list(v)
}

/// The elements of `this` if it is a list of any prefix, else `this` alone.
pub fn unwrap(this: Expr) -> (r: Vec<Expr>)
    ensures
        nodes_of(r@) == match this@.form {
            Form::List(v) => v,
            _ => seq![this@],
        },
{
    match this.expr {
        ExprType::List(v) => v,
        expr => {
            let mut r: Vec<Expr> = Vec::new();
            let this = Expr { prefix: this.prefix, expr };
            r.push(this);
            assert(nodes_of(r@) =~= seq![node_of(this)]);
            r
        },
    }
}

/// The rewrite that the prefix `p` asks for.
pub fn rewrite_for(p: &str) -> (r: Option<Rewrite>)
    ensures
        r == rewrite_of(p@),
{
    let n = p.unicode_len();
    if n == 1 {
        let c = p.get_char(0);
        if c == '\'' {
            Some(Rewrite::Quote)
        } else if c == '~' {
            Some(Rewrite::Unquote)
        } else if c == '`' || c == ',' {
            Some(Rewrite::Quasiquote)
        } else if c == '@' {
            Some(Rewrite::Deref)
        } else if c == '^' {
            Some(Rewrite::WithMeta)
        } else {
            None
        }
    } else if n == 2 {
        if p.get_char(0) == '~' && p.get_char(1) == '@' {
            Some(Rewrite::SpliceUnquote)
        } else {
            None
        }
    } else {
        None
    }
}

/// The symbol that heads the list a rewrite produces.
pub fn head_for(r: Rewrite) -> (s: &'static str)
    ensures
        s@ == head_of(r),
{
    match r {
        Rewrite::Quote => "quote",
        Rewrite::Unquote => "unquote",
        Rewrite::Quasiquote => "quasiquote",
        Rewrite::SpliceUnquote => "splice-unquote",
        Rewrite::Deref => "deref",
        Rewrite::WithMeta => "with-meta",
    }
}

/// Expands the elements of a sequence from left to right.
pub fn expand_items(items: Vec<Expr>) -> (r: Vec<Expr>)
    ensures
        nodes_of(r@) == expand_all(nodes_of(items@)),
    decreases items, 0nat,
{
    let ghost all = items@;
    let mut next = Siblings::new(items);
    let mut out: Vec<Expr> = Vec::new();
    assert(nodes_of(out@) =~= seq![]);
    assert(all.subrange(0, all.len() as int) =~= all);
    loop
        invariant
            0 <= all.len() - next@.len(),
            next@ == all.subrange(all.len() - next@.len(), all.len() as int),
            all == items@,
            expand_all(nodes_of(all)) == nodes_of(out@) + expand_all(nodes_of(next@)),
        ensures
            nodes_of(out@) == expand_all(nodes_of(all)),
        decreases next@.len(),
    {
        let ghost rest = next@;
        let ghost done = out@;
        match next.next() {
            None => {
                assert(nodes_of(rest) =~= seq![]);
                assert(nodes_of(out@) + Seq::<Node>::empty() =~= nodes_of(out@));
                break ;
            },
            Some(e) => {
                let ghost tail = next@;
                assert(e == all[all.len() - rest.len()]);
                let x = expand(e, &mut next);
                out.push(x);
                proof {
                    let nr = nodes_of(rest);
                    lemma_nodes_of_skip(rest, 1);
                    if tail.len() > 0 {
                        lemma_nodes_of_skip(tail, 1);
                    }
                    lemma_nodes_of_push(done, x);
                    assert(nodes_of(tail) == nr.subrange(1, nr.len() as int));
                    assert(node_of(e) == nr[0]);
                    if takes_sibling(nr[0]) && nr.len() >= 2 {
                        assert(nodes_of(next@) =~= nr.subrange(2, nr.len() as int));
                        assert(first_of(nodes_of(tail)) == Some(nr[1]));
                        assert(node_of(x) == expand_node(nr[0], Some(nr[1])));
                    } else {
                        assert(nodes_of(next@) =~= nr.subrange(1, nr.len() as int));
                        if !takes_sibling(nr[0]) {
                            lemma_expand_ignores_sibling(nr[0], first_of(nodes_of(tail)), None);
                        }
                        assert(node_of(x) == expand_node(nr[0], None));
                    }
                    assert(expand_all(nr) =~= seq![node_of(x)] + expand_all(nodes_of(next@)));
                    assert(nodes_of(done).push(node_of(x)) + expand_all(nodes_of(next@))
                        =~= nodes_of(done) + expand_all(nr));
                    assert(next@ =~= all.subrange(all.len() - next@.len(), all.len() as int));
                }
            },
        }
    }
    out
}

/// Expands `this`; `next` stands before the siblings that follow it.
///
/// The children of a list, vector or hashmap are expanded first, then the
/// prefix of `this` is rewritten. Only the metadata prefix moves the cursor,
/// by the one sibling it takes.
pub fn expand(this: Expr, next: &mut Siblings) -> (r: Expr)
    ensures
        r@ == expand_node(this@, first_of(nodes_of(old(next)@))),
        nodes_of(final(next)@) == siblings_left(this@, nodes_of(old(next)@)),
        final(next)@ == old(next)@ || (old(next)@.len() > 0 && final(next)@ == old(next)@.subrange(
            1,
            old(next)@.len() as int,
        )),
    decreases this, 1nat,
{
    let ghost node = this@;
    let Expr { prefix, expr } = this;
    let inner = match expr {
        ExprType::List(a) => ExprType::List(expand_items(a)),
        ExprType::Vector(a) => ExprType::Vector(expand_items(a)),
        ExprType::Hashmap(a) => ExprType::Hashmap(expand_items(a)),
        other => other,
    };
    let ghost rest = next@;
    assert(form_of(inner) == expand_node(Node { prefix: None, form: node.form }, None).form);
    match prefix {
        None => Expr { prefix: None, expr: inner },
        Some(p) => match rewrite_for(p.as_str()) {
            None => Expr { prefix: Some(p), expr: inner },
            Some(Rewrite::WithMeta) => {
                let bare = Expr { prefix: None, expr: inner };
                let meta = match next.next() {
                    Some(m) => m,
                    None => empty(),
                };
                let head = symbol(head_for(Rewrite::WithMeta));
                let mut v: Vec<Expr> = Vec::new();
                v.push(head);
                v.push(meta);
                v.push(bare);
                proof {
                    assert(nodes_of(v@) =~= seq![node_of(head), node_of(meta), node_of(bare)]);
                    if rest.len() > 0 {
                        lemma_nodes_of_skip(rest, 1);
                        assert(node_of(meta) == nodes_of(rest)[0]);
                    }
                }
                let r = list(v);
                proof {
                    let want = expand_node(node, first_of(nodes_of(rest)));
                    let arg = match first_of(nodes_of(rest)) {
                        Some(m) => m,
                        None => list_node(seq![]),
                    };
                    assert(node_of(meta) == arg);
                    assert(node_of(head) == symbol_node(head_of(Rewrite::WithMeta)));
                    assert(node_of(bare) == Node { prefix: None, form: form_of(inner) });
                    assert(node.prefix == Some(p@));
                    assert(want.form is List);
                    assert(want.form->List_0 =~= nodes_of(v@));
                }
                r
            },
            Some(r) => wrap(Expr { prefix: None, expr: inner }, head_for(r)),
        },
    }
}

} // verus!
