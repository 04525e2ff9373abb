use crate::text::{byte_len, lemma_byte_len_prefix, lemma_byte_len_step, usize_text, width};
use vstd::prelude::*;
use vstd::string::StringExecFns;

verus! {

/// What the reader can report as expected where it could not go on, listed
/// in the order in which a failure names them.
#[derive(Clone, Copy, Debug, PartialEq, Eq, Structural)]
pub enum Token {
    OpenParen,
    CloseParen,
    Comma,
    Semicolon,
    OpenBracket,
    Quote,
    Backslash,
    CloseBracket,
    OpenBrace,
    CloseBrace,
    Int64,
    Eof,
    NotQuote,
    AnyChar,
    Escape,
    Float,
    Integer,
    Prefix,
    Symbol,
}

/// How many tokens there are.
pub const TOKENS: usize = 19;

/// The token of rank `i`.
pub open spec fn ranked(i: int) -> Token {
    if i == 0 {
        Token::OpenParen
    } else if i == 1 {
        Token::CloseParen
    } else if i == 2 {
        Token::Comma
    } else if i == 3 {
        Token::Semicolon
    } else if i == 4 {
        Token::OpenBracket
    } else if i == 5 {
        Token::Quote
    } else if i == 6 {
        Token::Backslash
    } else if i == 7 {
        Token::CloseBracket
    } else if i == 8 {
        Token::OpenBrace
    } else if i == 9 {
        Token::CloseBrace
    } else if i == 10 {
        Token::Int64
    } else if i == 11 {
        Token::Eof
    } else if i == 12 {
        Token::NotQuote
    } else if i == 13 {
        Token::AnyChar
    } else if i == 14 {
        Token::Escape
    } else if i == 15 {
        Token::Float
    } else if i == 16 {
        Token::Integer
    } else if i == 17 {
        Token::Prefix
    } else {
        Token::Symbol
    }
}

/// How a failure names the token `t`: a literal in double quotes, a character
/// pattern in square brackets, or the bare name of a rule.
pub open spec fn label_of(t: Token) -> Seq<char> {
    match t {
        Token::OpenParen => "\"(\""@,
        Token::CloseParen => "\")\""@,
        Token::Comma => "\",\""@,
        Token::Semicolon => "\";\""@,
        Token::OpenBracket => "\"[\""@,
        Token::Quote => "\"\\\"\""@,
        Token::Backslash => "\"\\\\\""@,
        Token::CloseBracket => "\"]\""@,
        Token::OpenBrace => "\"{\""@,
        Token::CloseBrace => "\"}\""@,
        Token::Int64 => "64-bit integer"@,
        Token::Eof => "EOF"@,
        Token::NotQuote => "[^ '\"']"@,
        Token::AnyChar => "[_]"@,
        Token::Escape => "escape"@,
        Token::Float => "float"@,
        Token::Integer => "integer"@,
        Token::Prefix => "prefix"@,
        Token::Symbol => "symbol"@,
    }
}

/// The token of rank `i`.
pub fn token_at(i: usize) -> (t: Token)
    ensures
        t == ranked(i as int),
{
    if i == 0 {
        Token::OpenParen
    } else if i == 1 {
        Token::CloseParen
    } else if i == 2 {
        Token::Comma
    } else if i == 3 {
        Token::Semicolon
    } else if i == 4 {
        Token::OpenBracket
    } else if i == 5 {
        Token::Quote
    } else if i == 6 {
        Token::Backslash
    } else if i == 7 {
        Token::CloseBracket
    } else if i == 8 {
        Token::OpenBrace
    } else if i == 9 {
        Token::CloseBrace
    } else if i == 10 {
        Token::Int64
    } else if i == 11 {
        Token::Eof
    } else if i == 12 {
        Token::NotQuote
    } else if i == 13 {
        Token::AnyChar
    } else if i == 14 {
        Token::Escape
    } else if i == 15 {
        Token::Float
    } else if i == 16 {
        Token::Integer
    } else if i == 17 {
        Token::Prefix
    } else {
        Token::Symbol
    }
}

/// How a failure names the token `t`.
pub fn label(t: Token) -> (s: &'static str)
    ensures
        s@ == label_of(t),
{
    match t {
        Token::OpenParen => "\"(\"",
        Token::CloseParen => "\")\"",
        Token::Comma => "\",\"",
        Token::Semicolon => "\";\"",
        Token::OpenBracket => "\"[\"",
        Token::Quote => "\"\\\"\"",
        Token::Backslash => "\"\\\\\"",
        Token::CloseBracket => "\"]\"",
        Token::OpenBrace => "\"{\"",
        Token::CloseBrace => "\"}\"",
        Token::Int64 => "64-bit integer",
        Token::Eof => "EOF",
        Token::NotQuote => "[^ '\"']",
        Token::AnyChar => "[_]",
        Token::Escape => "escape",
        Token::Float => "float",
        Token::Integer => "integer",
        Token::Prefix => "prefix",
        Token::Symbol => "symbol",
    }
}

/// The bit that stands for the token `t` in a set: bit `i` for rank `i`.
pub open spec fn mask_of(t: Token) -> u32 {
    match t {
        Token::OpenParen => 0x1,
        Token::CloseParen => 0x2,
        Token::Comma => 0x4,
        Token::Semicolon => 0x8,
        Token::OpenBracket => 0x10,
        Token::Quote => 0x20,
        Token::Backslash => 0x40,
        Token::CloseBracket => 0x80,
        Token::OpenBrace => 0x100,
        Token::CloseBrace => 0x200,
        Token::Int64 => 0x400,
        Token::Eof => 0x800,
        Token::NotQuote => 0x1000,
        Token::AnyChar => 0x2000,
        Token::Escape => 0x4000,
        Token::Float => 0x8000,
        Token::Integer => 0x10000,
        Token::Prefix => 0x20000,
        Token::Symbol => 0x40000,
    }
}

/// The bit that stands for the token `t` in a set.
pub fn mask(t: Token) -> (m: u32)
    ensures
        m == mask_of(t),
{
    match t {
        Token::OpenParen => 0x1,
        Token::CloseParen => 0x2,
        Token::Comma => 0x4,
        Token::Semicolon => 0x8,
        Token::OpenBracket => 0x10,
        Token::Quote => 0x20,
        Token::Backslash => 0x40,
        Token::CloseBracket => 0x80,
        Token::OpenBrace => 0x100,
        Token::CloseBrace => 0x200,
        Token::Int64 => 0x400,
        Token::Eof => 0x800,
        Token::NotQuote => 0x1000,
        Token::AnyChar => 0x2000,
        Token::Escape => 0x4000,
        Token::Float => 0x8000,
        Token::Integer => 0x10000,
        Token::Prefix => 0x20000,
        Token::Symbol => 0x40000,
    }
}

/// A set of tokens: what was expected at the place of a failure.
#[derive(Clone, Copy, Debug, PartialEq, Eq, Structural)]
pub struct Expected {
    /// One bit for each token that is in the set.
    pub bits: u32,
}

impl Expected {
    /// Whether `t` is in the set.
    pub open spec fn has(self, t: Token) -> bool {
        self.bits & mask_of(t) != 0
    }

    /// The empty set.
    pub open spec fn none() -> Expected {
        Expected { bits: 0 }
    }

    /// The set with `t` added.
    pub open spec fn plus(self, t: Token) -> Expected {
        Expected { bits: self.bits | mask_of(t) }
    }

    /// The set with `t` alone.
    pub open spec fn only(t: Token) -> Expected {
        Expected::none().plus(t)
    }

    /// The union of two sets.
    pub open spec fn or(self, o: Expected) -> Expected {
        Expected { bits: self.bits | o.bits }
    }

    /// The labels of the tokens of rank below `n` that are in the set, by rank.
    pub open spec fn labels(self, n: int) -> Seq<Seq<char>>
        decreases n,
    {
        if n <= 0 {
            seq![]
        } else if self.has(ranked(n - 1)) {
            self.labels(n - 1).push(label_of(ranked(n - 1)))
        } else {
            self.labels(n - 1)
        }
    }

    /// How the set reads in a message: its one label, or `one of` and its
    /// labels in order with commas between; a set without tokens reads
    /// `<unreported>`.
    pub open spec fn text(self) -> Seq<char> {
        let labels = self.labels(TOKENS as int);
        if labels.len() == 0 {
            "<unreported>"@
        } else if labels.len() == 1 {
            labels[0]
        } else {
            "one of "@ + listed(labels)
        }
    }

    /// The empty set.
    pub fn empty() -> (r: Expected)
        ensures
            r == Expected::none(),
    {
        Expected { bits: 0 }
    }

    /// Whether `t` is in the set.
    pub fn contains(&self, t: Token) -> (r: bool)
        ensures
            r == self.has(t),
    {
        self.bits & mask(t) != 0
    }

    /// The set with `t` added.
    pub fn with(self, t: Token) -> (r: Expected)
        ensures
            r == self.plus(t),
    {
        Expected { bits: self.bits | mask(t) }
    }

    /// The union of two sets.
    pub fn union(self, o: Expected) -> (r: Expected)
        ensures
            r == self.or(o),
    {
        Expected { bits: self.bits | o.bits }
    }

    /// How the set reads in a message.
    pub fn to_string(&self) -> (r: String)
        ensures
            r@ == self.text(),
    {
        let mut body = String::new();
        let mut count: usize = 0;
        let mut i: usize = 0;
        while i < TOKENS
            invariant
                i <= TOKENS,
                count == self.labels(i as int).len(),
                count <= i,
                body@ == listed(self.labels(i as int)),
            decreases TOKENS - i,
        {
            let t = token_at(i);
            let ghost before = self.labels(i as int);
            if self.contains(t) {
                if count > 0 {
                    body.append(", ");
                }
                body.append(label(t));
                count = count + 1;
                proof {
                    let now = before.push(label_of(t));
                    assert(now.drop_last() =~= before);
                    if before.len() == 0 {
                        assert(body@ =~= label_of(t));
                    }
                }
            }
            i = i + 1;
        }
        if count == 0 {
            String::from_str("<unreported>")
        } else if count == 1 {
            body
        } else {
            let mut r = String::from_str("one of ");
            r.append(body.as_str());
            r
        }
    }
}

/// The texts of `labels` with a comma and a space between each two.
pub open spec fn listed(labels: Seq<Seq<char>>) -> Seq<char>
    decreases labels.len(),
{
    if labels.len() == 0 {
        seq![]
    } else if labels.len() == 1 {
        labels[0]
    } else {
        listed(labels.drop_last()) + ", "@ + labels.last()
    }
}

/// The furthest place at which the reader could not go on, as a character
/// index, and what it expected there.
pub struct Reach {
    pub at: nat,
    pub expected: Expected,
}

impl Reach {
    /// Nothing has failed yet.
    pub open spec fn start() -> Reach {
        Reach { at: 0, expected: Expected::none() }
    }

    /// One failure: `t` was expected at `at`.
    pub open spec fn note(at: int, t: Token) -> Reach {
        Reach { at: at as nat, expected: Expected::only(t) }
    }

    /// The further of two; where both are equally far, what either expected.
    pub open spec fn join(self, o: Reach) -> Reach {
        if self.at > o.at {
            self
        } else if o.at > self.at {
            o
        } else {
            Reach { at: self.at, expected: self.expected.or(o.expected) }
        }
    }
}

/// Joining is associative.
pub proof fn lemma_join_assoc(a: Reach, b: Reach, c: Reach)
    ensures
        a.join(b).join(c) == a.join(b.join(c)),
{
    let (x, y, z) = (a.expected.bits, b.expected.bits, c.expected.bits);
    assert((x | y) | z == x | (y | z)) by (bit_vector);
}

/// Joining with the start changes nothing.
pub proof fn lemma_join_start(a: Reach)
    ensures
        a.join(Reach::start()) == a,
        Reach::start().join(a) == a,
{
    let x = a.expected.bits;
    assert(x | 0 == x && 0 | x == x) by (bit_vector);
}

/// The executable form of [`Reach`].
#[derive(Clone, Copy, Debug, PartialEq, Eq, Structural)]
pub struct Furthest {
    pub at: usize,
    pub expected: Expected,
}

impl View for Furthest {
    type V = Reach;

    open spec fn view(&self) -> Reach {
        Reach { at: self.at as nat, expected: self.expected }
    }
}

impl Furthest {
    /// Nothing has failed yet.
    pub fn start() -> (r: Furthest)
        ensures
            r@ == Reach::start(),
    {
        Furthest { at: 0, expected: Expected::empty() }
    }

    /// One failure: `t` was expected at `at`.
    pub fn note(at: usize, t: Token) -> (r: Furthest)
        ensures
            r@ == Reach::note(at as int, t),
    {
        Furthest { at, expected: Expected::empty().with(t) }
    }

    /// The further of two; where both are equally far, what either expected.
    pub fn join(self, o: Furthest) -> (r: Furthest)
        ensures
            r@ == self@.join(o@),
    {
        if self.at > o.at {
            self
        } else if o.at > self.at {
            o
        } else {
            Furthest { at: self.at, expected: self.expected.union(o.expected) }
        }
    }
}

/// Why a text could not be read.
#[derive(Clone, Copy, Debug, PartialEq, Eq, Structural)]
pub struct ParseError {
    /// The byte offset of the failure in the text.
    pub offset: usize,
    /// The line of the failure, counted from 1.
    pub line: usize,
    /// The column of the failure in its line, in characters, counted from 1.
    pub column: usize,
    /// What was expected there.
    pub expected: Expected,
}

/// How many line feeds `s` holds.
pub open spec fn line_feeds(s: Seq<char>) -> nat
    decreases s.len(),
{
    if s.len() == 0 {
        0
    } else if s.last() == '\n' {
        line_feeds(s.drop_last()) + 1
    } else {
        line_feeds(s.drop_last())
    }
}

/// How many characters follow the last line feed of `s`.
pub open spec fn last_line_len(s: Seq<char>) -> nat
    decreases s.len(),
{
    if s.len() == 0 || s.last() == '\n' {
        0
    } else {
        last_line_len(s.drop_last()) + 1
    }
}

/// `n`, or the largest `usize` if `n` is beyond it.
pub open spec fn clip(n: nat) -> usize {
    if n > usize::MAX {
        usize::MAX
    } else {
        n as usize
    }
}

/// The failure at character `k` of `s` with `expected`: the byte offset of
/// that character, and its line and column counted from 1.
pub open spec fn located(s: Seq<char>, k: int, expected: Expected) -> ParseError {
    ParseError {
        offset: byte_len(s.take(k)) as usize,
        line: clip(line_feeds(s.take(k)) + 1),
        column: clip(last_line_len(s.take(k)) + 1),
        expected,
    }
}

/// The failure at character `k` of `s` with `expected`.
pub fn locate(s: &Vec<char>, k: usize, expected: Expected) -> (e: ParseError)
    requires
        k <= s.len(),
        byte_len(s@) <= usize::MAX,
    ensures
        e == located(s@, k as int, expected),
        e.offset == byte_len(s@.take(k as int)),
        e.offset <= byte_len(s@),
        e.line >= 1,
        e.column >= 1,
{
    let mut offset: usize = 0;
    let mut feeds: usize = 0;
    let mut run: usize = 0;
    let mut i: usize = 0;
    assert(s@.take(0) =~= Seq::<char>::empty());
    proof {
        lemma_byte_len_prefix(s@, 0);
    }
    while i < k
        invariant
            i <= k <= s.len(),
            byte_len(s@) <= usize::MAX,
            offset == byte_len(s@.take(i as int)),
            feeds == line_feeds(s@.take(i as int)),
            run == last_line_len(s@.take(i as int)),
            feeds <= i,
            run <= i,
        decreases k - i,
    {
        proof {
            lemma_byte_len_step(s@, i as int);
            lemma_byte_len_prefix(s@, i + 1);
            assert(s@.take(i + 1).drop_last() =~= s@.take(i as int));
        }
        let c = s[i];
        offset = offset + width(c);
        if c == '\n' {
            feeds = feeds + 1;
            run = 0;
        } else {
            run = run + 1;
        }
        i = i + 1;
    }
    proof {
        lemma_byte_len_prefix(s@, k as int);
    }
    let line = if feeds == usize::MAX {
        usize::MAX
    } else {
        feeds + 1
    };
    let column = if run == usize::MAX {
        usize::MAX
    } else {
        run + 1
    };
    ParseError { offset, line, column, expected }
}

impl ParseError {
    /// How the failure reads: its line and column, then what was expected.
    pub open spec fn text(self) -> Seq<char> {
        "error at "@ + crate::text::decimal(self.line as nat) + ":"@ + crate::text::decimal(
            self.column as nat,
        ) + ": expected "@ + self.expected.text()
    }

    /// How the failure reads.
    pub fn to_string(&self) -> (r: String)
        ensures
            r@ == self.text(),
    {
        let mut r = String::from_str("error at ");
        r.append(usize_text(self.line).as_str());
        r.append(":");
        r.append(usize_text(self.column).as_str());
        r.append(": expected ");
        r.append(self.expected.to_string().as_str());
        r
    }
}

} // verus!
