use vstd::prelude::*;

verus! {

/// The kinds of expression node.
#[derive(Debug, PartialEq, Eq)]
pub enum ExprType {
    /// The elements of a form in round brackets.
    List(Vec<Expr>),
    /// The elements of a form in square brackets.
    Vector(Vec<Expr>),
    /// The keys and values of a form in curly brackets, in source order.
    Hashmap(Vec<Expr>),
    /// The text of a string, with its escapes resolved.
    String(String),
    /// The name of a symbol.
    Symbol(String),
    /// A comment, from its semicolon to the end of its line.
    Comment(String),
    /// A float, as its literal reads: a sign if any, digits, a dot, and
    /// digits if any.
    Float(String),
    /// An integer.
    Int(i64),
}

/// An expression node: a kind and an optional reader prefix.
#[derive(Debug, PartialEq, Eq)]
pub struct Expr {
    pub prefix: Option<String>,
    pub expr: ExprType,
}

/// What a node kind stands for: the mathematical model of [`ExprType`].
pub enum Form {
    List(Seq<Node>),
    Vector(Seq<Node>),
    Hashmap(Seq<Node>),
    String(Seq<char>),
    Symbol(Seq<char>),
    Comment(Seq<char>),
    Float(Seq<char>),
    Int(int),
}

/// The mathematical model of [`Expr`].
pub struct Node {
    pub prefix: Option<Seq<char>>,
    pub form: Form,
}

/// The models of a sequence of nodes, in order.
pub open spec fn nodes_of(v: Seq<Expr>) -> Seq<Node>
    decreases v,
{
    Seq::new(v.len(), |i: int| if 0 <= i < v.len() { node_of(v[i]) } else { arbitrary() })
}

/// The model of a node kind.
pub open spec fn form_of(k: ExprType) -> Form
    decreases k,
{
    match k {
        ExprType::List(v) => Form::List(nodes_of(v@)),
        ExprType::Vector(v) => Form::Vector(nodes_of(v@)),
        ExprType::Hashmap(v) => Form::Hashmap(nodes_of(v@)),
        ExprType::String(s) => Form::String(s@),
        ExprType::Symbol(s) => Form::Symbol(s@),
        ExprType::Comment(s) => Form::Comment(s@),
        ExprType::Float(s) => Form::Float(s@),
        ExprType::Int(n) => Form::Int(n as int),
    }
}

/// The model of a node.
pub open spec fn node_of(e: Expr) -> Node
    decreases e,
{
    Node {
        prefix: match e.prefix {
            Some(p) => Some(p@),
            None => None,
        },
        form: form_of(e.expr),
    }
}

impl View for ExprType {
    type V = Form;

    open spec fn view(&self) -> Form {
        form_of(*self)
    }
}

impl View for Expr {
    type V = Node;

    open spec fn view(&self) -> Node {
        node_of(*self)
    }
}

/// A deep copy of `v`, element by element.
fn clone_items(v: &Vec<Expr>) -> (r: Vec<Expr>)
    ensures
        nodes_of(r@) == nodes_of(v@),
    decreases v, 0nat,
{
    let mut r: Vec<Expr> = Vec::new();
    let mut i: usize = 0;
    while i < v.len()
        invariant
            i <= v.len(),
            r@.len() == i,
            forall|j: int| 0 <= j < i ==> node_of(r@[j]) == node_of(#[trigger] v@[j]),
        decreases v.len() - i,
    {
        let e = clone_expr(&v[i]);
        r.push(e);
        i = i + 1;
    }
    assert(nodes_of(r@) =~= nodes_of(v@));
    r
}

/// A deep copy of `k`.
fn clone_kind(k: &ExprType) -> (r: ExprType)
    ensures
        form_of(r) == form_of(*k),
    decreases k, 1nat,
{
    match k {
        ExprType::List(v) => ExprType::List(clone_items(v)),
        ExprType::Vector(v) => ExprType::Vector(clone_items(v)),
        ExprType::Hashmap(v) => ExprType::Hashmap(clone_items(v)),
        ExprType::String(s) => ExprType::String(s.clone()),
        ExprType::Symbol(s) => ExprType::Symbol(s.clone()),
        ExprType::Comment(s) => ExprType::Comment(s.clone()),
        ExprType::Float(s) => ExprType::Float(s.clone()),
        ExprType::Int(n) => ExprType::Int(*n),
    }
}

/// A deep copy of `e`.
fn clone_expr(e: &Expr) -> (r: Expr)
    ensures
        r@ == e@,
    decreases e, 2nat,
{
    let prefix = match &e.prefix {
        Some(p) => Some(p.clone()),
        None => None,
    };
    Expr { prefix, expr: clone_kind(&e.expr) }
}

impl Clone for ExprType {
    fn clone(&self) -> (r: Self)
        ensures
            r@ == self@,
    {
        clone_kind(self)
    }
}

impl Clone for Expr {
    fn clone(&self) -> (r: Self)
        ensures
            r@ == self@,
    {
        clone_expr(self)
    }
}

impl Expr {
    /// A node of kind `expr` that carries `prefix`.
    pub fn new(prefix: Option<String>, expr: ExprType) -> (r: Expr)
        ensures
            r.prefix == prefix,
            r.expr == expr,
    {
        Expr { prefix, expr }
    }
}

/// Dropping the first node commutes with taking models.
pub proof fn lemma_nodes_of_skip(v: Seq<Expr>, k: int)
    requires
        0 <= k <= v.len(),
    ensures
        nodes_of(v.subrange(k, v.len() as int)) == nodes_of(v).subrange(k, v.len() as int),
{
    assert(nodes_of(v.subrange(k, v.len() as int)) =~= nodes_of(v).subrange(k, v.len() as int));
}

/// Appending a node commutes with taking models.
pub proof fn lemma_nodes_of_push(v: Seq<Expr>, e: Expr)
    ensures
        nodes_of(v.push(e)) == nodes_of(v).push(node_of(e)),
{
    assert(nodes_of(v.push(e)) =~= nodes_of(v).push(node_of(e)));
}

} // verus!
