use crate::expr::{Form, Node};
use crate::failure::{located, Expected, ParseError, Reach, Token};
use crate::text::{chars_within, int_value, is_digit};
use crate::unescape::unescaped;
use vstd::prelude::*;

verus! {

/// What trying a rule at a place of the text comes to.
pub enum Outcome<T> {
    /// The rule matched up to `end` and stands for `value`; `far` is the
    /// furthest failure met on the way.
    Match { value: T, end: int, far: Reach },
    /// The rule did not match; another may be tried at the same place.
    Fail { far: Reach },
    /// The text cannot be read at all: at `at`, `what` was asked for.
    Abort { at: int, what: Token },
}

/// The classes of character that a token is a run of.
#[derive(Clone, Copy, Debug, PartialEq, Eq, Structural)]
pub enum Class {
    Prefix,
    Symbol,
    Digit,
}

/// The three bracketed forms.
#[derive(Clone, Copy, Debug, PartialEq, Eq, Structural)]
pub enum Bracket {
    Paren,
    Square,
    Curly,
}

/// Whether `c` is white space by itself.
pub open spec fn is_blank(c: char) -> bool {
    c == ' ' || c == '\t' || c == '\n' || c == '\r' || c == '\0' || c == '\u{0B}' || c == '\u{0C}'
}

/// Whether a reader prefix can hold `c`.
pub open spec fn is_prefix_char(c: char) -> bool {
    c == '\'' || c == ',' || c == '`' || c == '~' || c == '@' || c == '^'
}

/// Whether a symbol can hold `c`.
pub open spec fn is_symbol_char(c: char) -> bool {
    ||| 'a' <= c <= 'z'
    ||| 'A' <= c <= 'Z'
    ||| '0' <= c <= '9'
    ||| c == '!'
    ||| c == '$'
    ||| c == '%'
    ||| c == '&'
    ||| c == '*'
    ||| c == '+'
    ||| c == '-'
    ||| c == '.'
    ||| c == '/'
    ||| c == ':'
    ||| c == '<'
    ||| c == '?'
    ||| c == '='
    ||| c == '>'
    ||| c == '@'
    ||| c == '^'
    ||| c == '_'
}

/// Whether `c` is of the class `k`.
pub open spec fn in_class(c: char, k: Class) -> bool {
    match k {
        Class::Prefix => is_prefix_char(c),
        Class::Symbol => is_symbol_char(c),
        Class::Digit => is_digit(c),
    }
}

/// Whether the character at `i` is `c`.
pub open spec fn at(s: Seq<char>, i: int, c: char) -> bool {
    0 <= i < s.len() && s[i] == c
}

/// Where the white space that starts at `i` ends. White space is blank
/// characters and backslashes that a line end follows at once.
pub open spec fn blank_end(s: Seq<char>, i: int) -> int
    decreases s.len() - i,
{
    if i < 0 || i >= s.len() {
        i
    } else if is_blank(s[i]) {
        blank_end(s, i + 1)
    } else if s[i] == '\\' && at(s, i + 1, '\n') {
        blank_end(s, i + 2)
    } else if s[i] == '\\' && at(s, i + 1, '\r') && at(s, i + 2, '\n') {
        blank_end(s, i + 3)
    } else {
        i
    }
}

/// Where the longest run of characters of class `k` that starts at `i` ends.
pub open spec fn span_end(s: Seq<char>, i: int, k: Class) -> int
    decreases s.len() - i,
{
    if 0 <= i < s.len() && in_class(s[i], k) {
        span_end(s, i + 1, k)
    } else {
        i
    }
}

/// White space ends at or after its start, within the text.
pub proof fn lemma_blank_end_bounds(s: Seq<char>, i: int)
    requires
        0 <= i <= s.len(),
    ensures
        i <= blank_end(s, i) <= s.len(),
    decreases s.len() - i,
{
    if i < s.len() {
        if is_blank(s[i]) {
            lemma_blank_end_bounds(s, i + 1);
        } else if s[i] == '\\' && at(s, i + 1, '\n') {
            lemma_blank_end_bounds(s, i + 2);
        } else if s[i] == '\\' && at(s, i + 1, '\r') && at(s, i + 2, '\n') {
            lemma_blank_end_bounds(s, i + 3);
        }
    }
}

/// A run ends at or after its start, within the text.
pub proof fn lemma_span_end_bounds(s: Seq<char>, i: int, k: Class)
    requires
        0 <= i <= s.len(),
    ensures
        i <= span_end(s, i, k) <= s.len(),
    decreases s.len() - i,
{
    if i < s.len() && in_class(s[i], k) {
        lemma_span_end_bounds(s, i + 1, k);
    }
}

/// The second choice where the first fails; the failures of both count.
pub open spec fn or_else<T>(a: Outcome<T>, b: Outcome<T>) -> Outcome<T> {
    match a {
        Outcome::Fail { far: f } => match b {
            Outcome::Match { value, end, far } => Outcome::Match { value, end, far: f.join(far) },
            Outcome::Fail { far } => Outcome::Fail { far: f.join(far) },
            Outcome::Abort { at, what } => Outcome::Abort { at, what },
        },
        _ => a,
    }
}

/// `o` with the nodes `acc` in front of its nodes and the failure `pre`
/// before its failures.
pub open spec fn extend(acc: Seq<Node>, pre: Reach, o: Outcome<Seq<Node>>) -> Outcome<Seq<Node>> {
    match o {
        Outcome::Match { value, end, far } => Outcome::Match {
            value: acc + value,
            end,
            far: pre.join(far),
        },
        Outcome::Fail { far } => Outcome::Fail { far: pre.join(far) },
        Outcome::Abort { at, what } => Outcome::Abort { at, what },
    }
}

/// Where the optional sign and the digits of a number that starts at `i` end,
/// if there is a digit.
pub open spec fn digits_end(s: Seq<char>, i: int) -> Option<int> {
    let j = if at(s, i, '-') {
        i + 1
    } else {
        i
    };
    let d = span_end(s, j, Class::Digit);
    if d > j {
        Some(d)
    } else {
        None
    }
}

/// Where the float that starts at `i` ends: a sign if any, digits, a dot that
/// no second dot follows, and digits if any.
pub open spec fn float_end(s: Seq<char>, i: int) -> Option<int> {
    match digits_end(s, i) {
        Some(d) => if at(s, d, '.') && !at(s, d + 1, '.') {
            Some(span_end(s, d + 1, Class::Digit))
        } else {
            None
        },
        None => None,
    }
}

/// A float at `i`: its text as it stands.
pub open spec fn float_at(s: Seq<char>, i: int) -> Outcome<Form> {
    match float_end(s, i) {
        Some(e) => Outcome::Match {
            value: Form::Float(s.subrange(i, e)),
            end: e,
            far: Reach::start(),
        },
        None => Outcome::Fail { far: Reach::note(i, Token::Float) },
    }
}

/// An integer at `i`: a sign if any, and digits. One that does not fit in 64
/// bits ends the reading.
pub open spec fn integer_at(s: Seq<char>, i: int) -> Outcome<Form> {
    match digits_end(s, i) {
        Some(e) => {
            let v = int_value(s.subrange(i, e));
            if i64::MIN <= v <= i64::MAX {
                Outcome::Match { value: Form::Int(v), end: e, far: Reach::start() }
            } else {
                Outcome::Abort { at: i, what: Token::Int64 }
            }
        },
        None => Outcome::Fail { far: Reach::note(i, Token::Integer) },
    }
}

/// A symbol at `i`: the longest run of symbol characters.
pub open spec fn symbol_at(s: Seq<char>, i: int) -> Outcome<Form> {
    let e = span_end(s, i, Class::Symbol);
    if e > i {
        Outcome::Match { value: Form::Symbol(s.subrange(i, e)), end: e, far: Reach::start() }
    } else {
        Outcome::Fail { far: Reach::note(i, Token::Symbol) }
    }
}

/// What is expected where the contents of a string end.
pub open spec fn quoted_stop(i: int) -> Reach {
    Reach::note(i, Token::Backslash).join(Reach::note(i, Token::NotQuote))
}

/// Where the contents of a string that start at `i` end, and the failures met
/// on the way. The contents are backslashes with the character after them,
/// and characters other than the double quote.
pub open spec fn quoted(s: Seq<char>, i: int) -> (int, Reach)
    decreases s.len() - i,
{
    if i < 0 || i >= s.len() {
        (i, quoted_stop(i))
    } else if s[i] == '\\' {
        if i + 1 < s.len() {
            quoted(s, i + 2)
        } else {
            let (e, far) = quoted(s, i + 1);
            (e, Reach::note(i + 1, Token::AnyChar).join(far))
        }
    } else if s[i] != '"' {
        let (e, far) = quoted(s, i + 1);
        (e, Reach::note(i, Token::Backslash).join(far))
    } else {
        (i, quoted_stop(i))
    }
}

/// A string at `i`: a double quote, contents, a double quote. It stands for
/// the contents with their escapes resolved; an escape that cannot be
/// resolved ends the reading at the place of that escape.
pub open spec fn string_at(s: Seq<char>, i: int) -> Outcome<Form> {
    if !at(s, i, '"') {
        Outcome::Fail { far: Reach::note(i, Token::Quote) }
    } else {
        let (q, far) = quoted(s, i + 1);
        if q < s.len() {
            let raw = s.subrange(i + 1, q);
            match unescaped(raw) {
                Ok(t) => Outcome::Match { value: Form::String(t), end: q + 1, far },
                Err(x) => Outcome::Abort {
                    at: i + 1 + chars_within(raw, x.0.start as int),
                    what: Token::Escape,
                },
            }
        } else {
            Outcome::Fail { far: far.join(Reach::note(q, Token::Quote)) }
        }
    }
}

/// Whether a line ends at `i`: a line feed, or a carriage return and a line
/// feed.
pub open spec fn line_ends(s: Seq<char>, i: int) -> bool {
    at(s, i, '\n') || (at(s, i, '\r') && at(s, i + 1, '\n'))
}

/// Where the line that holds `i` ends: at its line end, or at the end of the
/// text.
pub open spec fn line_end(s: Seq<char>, i: int) -> int
    decreases s.len() - i,
{
    if i < 0 || i >= s.len() || line_ends(s, i) {
        i
    } else {
        line_end(s, i + 1)
    }
}

/// A comment at `i`: a semicolon and the rest of the line.
pub open spec fn comment_at(s: Seq<char>, i: int) -> Outcome<Node> {
    if !at(s, i, ';') {
        Outcome::Fail { far: Reach::note(i, Token::Semicolon) }
    } else {
        let e = line_end(s, i + 1);
        Outcome::Match {
            value: Node { prefix: None, form: Form::Comment(s.subrange(i, e)) },
            end: e,
            far: if e >= s.len() {
                Reach::note(e, Token::AnyChar)
            } else {
                Reach::start()
            },
        }
    }
}

/// The character that opens a bracketed form.
pub open spec fn opener(b: Bracket) -> char {
    match b {
        Bracket::Paren => '(',
        Bracket::Square => '[',
        Bracket::Curly => '{',
    }
}

/// The character that closes a bracketed form.
pub open spec fn closer(b: Bracket) -> char {
    match b {
        Bracket::Paren => ')',
        Bracket::Square => ']',
        Bracket::Curly => '}',
    }
}

/// What is expected where a bracketed form does not open.
pub open spec fn open_token(b: Bracket) -> Token {
    match b {
        Bracket::Paren => Token::OpenParen,
        Bracket::Square => Token::OpenBracket,
        Bracket::Curly => Token::OpenBrace,
    }
}

/// What is expected where a bracketed form does not close.
pub open spec fn close_token(b: Bracket) -> Token {
    match b {
        Bracket::Paren => Token::CloseParen,
        Bracket::Square => Token::CloseBracket,
        Bracket::Curly => Token::CloseBrace,
    }
}

/// The form that a bracket makes of its elements.
pub open spec fn bracketed(b: Bracket, items: Seq<Node>) -> Form {
    match b {
        Bracket::Paren => Form::List(items),
        Bracket::Square => Form::Vector(items),
        Bracket::Curly => Form::Hashmap(items),
    }
}

/// Where the commas that trail the elements of a bracketed form end, each
/// with white space around it, and what was expected where no further comma
/// stood.
pub open spec fn commas(s: Seq<char>, p: int) -> (int, Reach)
    decreases s.len() - p,
    via commas_decreases
{
    let a = blank_end(s, p);
    if 0 <= p <= a && at(s, a, ',') {
        commas(s, blank_end(s, a + 1))
    } else {
        (p, Reach::note(a, Token::Comma))
    }
}

#[via_fn]
proof fn commas_decreases(s: Seq<char>, p: int) {
    let a = blank_end(s, p);
    if 0 <= p <= a && at(s, a, ',') {
        lemma_blank_end_bounds(s, a + 1);
    }
}

/// An expression at `i`: white space, a prefix if any, one of the forms, and
/// white space.
pub open spec fn expr_at(s: Seq<char>, i: int) -> Outcome<Node>
    decreases s.len() - i, 2nat,
    when 0 <= i <= s.len()
    via expr_at_decreases
{
    let a = blank_end(s, i);
    let b = span_end(s, a, Class::Prefix);
    let pre = if b > a {
        Reach::start()
    } else {
        Reach::note(a, Token::Prefix)
    };
    match form_at(s, b) {
        Outcome::Match { value, end, far } => Outcome::Match {
            value: Node {
                prefix: if b > a {
                    Some(s.subrange(a, b))
                } else {
                    None
                },
                form: value,
            },
            end: blank_end(s, end),
            far: pre.join(far),
        },
        Outcome::Fail { far } => Outcome::Fail { far: pre.join(far) },
        Outcome::Abort { at, what } => Outcome::Abort { at, what },
    }
}

/// A form at `i`: the first that matches of a list, a vector, a hashmap, a
/// string, a float, an integer and a symbol.
pub open spec fn form_at(s: Seq<char>, i: int) -> Outcome<Form>
    decreases s.len() - i, 1nat,
    when 0 <= i <= s.len()
{
    or_else(
        group_at(s, i, Bracket::Paren),
        or_else(
            group_at(s, i, Bracket::Square),
            or_else(
                group_at(s, i, Bracket::Curly),
                or_else(
                    string_at(s, i),
                    or_else(float_at(s, i), or_else(integer_at(s, i), symbol_at(s, i))),
                ),
            ),
        ),
    )
}

/// A bracketed form at `i`: the opening bracket, white space, elements,
/// commas that trail them, white space and the closing bracket.
pub open spec fn group_at(s: Seq<char>, i: int, b: Bracket) -> Outcome<Form>
    decreases s.len() - i, 0nat,
    when 0 <= i <= s.len()
    via group_at_decreases
{
    if !at(s, i, opener(b)) {
        Outcome::Fail { far: Reach::note(i, open_token(b)) }
    } else {
        match items(s, blank_end(s, i + 1), true) {
            Outcome::Match { value, end, far } => {
                let (p, tail) = commas(s, end);
                let q = blank_end(s, p);
                if at(s, q, closer(b)) {
                    Outcome::Match { value: bracketed(b, value), end: q + 1, far: far.join(tail) }
                } else {
                    Outcome::Fail { far: far.join(tail).join(Reach::note(q, close_token(b))) }
                }
            },
            Outcome::Fail { far } => Outcome::Fail { far },
            Outcome::Abort { at, what } => Outcome::Abort { at, what },
        }
    }
}

/// The elements that follow `p`, up to the first place where no element
/// stands. Before each element but the first stands white space, which may
/// hold one comma. An element that takes no character ends the run.
pub open spec fn items(s: Seq<char>, p: int, first: bool) -> Outcome<Seq<Node>>
    decreases s.len() - p, 3nat,
    when 0 <= p <= s.len()
    via items_decreases
{
    let a = blank_end(s, p);
    let comma = at(s, a, ',');
    let j = if first {
        p
    } else if comma {
        blank_end(s, a + 1)
    } else {
        a
    };
    let pre = if !first && !comma {
        Reach::note(a, Token::Comma)
    } else {
        Reach::start()
    };
    match expr_at(s, j) {
        Outcome::Match { value, end, far } => if p < end <= s.len() {
            extend(seq![value], pre.join(far), items(s, end, false))
        } else {
            Outcome::Match { value: seq![value], end, far: pre.join(far) }
        },
        Outcome::Fail { far } => Outcome::Match { value: seq![], end: p, far: pre.join(far) },
        Outcome::Abort { at, what } => Outcome::Abort { at, what },
    }
}

#[via_fn]
proof fn expr_at_decreases(s: Seq<char>, i: int) {
    lemma_blank_end_bounds(s, i);
    lemma_span_end_bounds(s, blank_end(s, i), Class::Prefix);
}

#[via_fn]
proof fn group_at_decreases(s: Seq<char>, i: int, b: Bracket) {
    if i < s.len() {
        lemma_blank_end_bounds(s, i + 1);
    }
}

#[via_fn]
proof fn items_decreases(s: Seq<char>, p: int, first: bool) {
    lemma_blank_end_bounds(s, p);
    let a = blank_end(s, p);
    if a < s.len() {
        lemma_blank_end_bounds(s, a + 1);
    }
}

/// The comments and expressions that follow `p`, up to the first place where
/// neither stands.
pub open spec fn forest(s: Seq<char>, p: int) -> Outcome<Seq<Node>>
    decreases s.len() - p,
    when 0 <= p <= s.len()
{
    match or_else(comment_at(s, p), expr_at(s, p)) {
        Outcome::Match { value, end, far } => if p < end <= s.len() {
            extend(seq![value], far, forest(s, end))
        } else {
            Outcome::Match { value: seq![value], end, far }
        },
        Outcome::Fail { far } => Outcome::Match { value: seq![], end: p, far },
        Outcome::Abort { at, what } => Outcome::Abort { at, what },
    }
}

/// The failure that a reach stands for in the text `s`.
pub open spec fn failure_of(s: Seq<char>, far: Reach) -> ParseError {
    located(s, far.at as int, far.expected)
}

/// What reading the whole of `s` as a forest comes to: white space, comments
/// and expressions, white space, and the end of the text. Where the end is not
/// reached, the failure is the furthest that was met, with all that was
/// expected there.
pub open spec fn read_all(s: Seq<char>) -> Result<Seq<Node>, ParseError> {
    match forest(s, blank_end(s, 0)) {
        Outcome::Match { value, end, far } => {
            let q = blank_end(s, end);
            if q >= s.len() {
                Ok(value)
            } else {
                Err(failure_of(s, far.join(Reach::note(q, Token::Eof))))
            }
        },
        Outcome::Fail { far } => Err(failure_of(s, far)),
        Outcome::Abort { at, what } => Err(located(s, at, Expected::only(what))),
    }
}

/// What reading the whole of `s` as one expression comes to.
pub open spec fn read_one(s: Seq<char>) -> Result<Node, ParseError> {
    match expr_at(s, 0) {
        Outcome::Match { value, end, far } => {
            if end >= s.len() {
                Ok(value)
            } else {
                Err(failure_of(s, far.join(Reach::note(end, Token::Eof))))
            }
        },
        Outcome::Fail { far } => Err(failure_of(s, far)),
        Outcome::Abort { at, what } => Err(located(s, at, Expected::only(what))),
    }
}

} // verus!
