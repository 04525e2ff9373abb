use crate::expr::{lemma_nodes_of_push, nodes_of, Expr, ExprType, Form, Node};
use crate::failure::{
    lemma_join_assoc, lemma_join_start, locate, Expected, Furthest, ParseError, Reach, Token,
};
use crate::grammar::{
    at, blank_end, bracketed, close_token, closer, comment_at, commas, digits_end, expr_at, extend,
    float_at, float_end, forest, form_at, group_at, in_class, integer_at, is_blank, is_prefix_char,
    is_symbol_char, items, line_end, open_token, opener, quoted, read_all, read_one, span_end,
    string_at, symbol_at, Bracket, Class, Outcome,
};
use crate::text::{
    byte_len, chars_of, count_within, digit_value, digits_value, is_digit,
    lemma_digits_value_step, text_of,
};
use crate::unescape::unescape;
use vstd::prelude::*;

verus! {

/// The executable form of [`Outcome`].
pub enum Step<T> {
    Match { value: T, end: usize, far: Furthest },
    Fail { far: Furthest },
    Abort { at: usize, what: Token },
}

impl<T> Step<T> {
    /// Whether every place that the step names lies within a text of `n`
    /// characters.
    pub open spec fn within(self, n: usize) -> bool {
        match self {
            Step::Match { value, end, far } => end <= n && far.at <= n,
            Step::Fail { far } => far.at <= n,
            Step::Abort { at, what } => at <= n,
        }
    }
}

/// Whether `r` is the executable form of `o`.
pub open spec fn form_step(r: Step<ExprType>, o: Outcome<Form>) -> bool {
    match r {
        Step::Match { value, end, far } => o == (Outcome::Match {
            value: value@,
            end: end as int,
            far: far@,
        }),
        Step::Fail { far } => o == (Outcome::<Form>::Fail { far: far@ }),
        Step::Abort { at, what } => o == (Outcome::<Form>::Abort { at: at as int, what }),
    }
}

/// Whether `r` is the executable form of `o`.
pub open spec fn node_step(r: Step<Expr>, o: Outcome<Node>) -> bool {
    match r {
        Step::Match { value, end, far } => o == (Outcome::Match {
            value: value@,
            end: end as int,
            far: far@,
        }),
        Step::Fail { far } => o == (Outcome::<Node>::Fail { far: far@ }),
        Step::Abort { at, what } => o == (Outcome::<Node>::Abort { at: at as int, what }),
    }
}

/// Whether `r` is the executable form of `o`.
pub open spec fn nodes_step(r: Step<Vec<Expr>>, o: Outcome<Seq<Node>>) -> bool {
    match r {
        Step::Match { value, end, far } => o == (Outcome::Match {
            value: nodes_of(value@),
            end: end as int,
            far: far@,
        }),
        Step::Fail { far } => o == (Outcome::<Seq<Node>>::Fail { far: far@ }),
        Step::Abort { at, what } => o == (Outcome::<Seq<Node>>::Abort { at: at as int, what }),
    }
}

/// Whether `c` is white space by itself.
pub fn blank(c: char) -> (r: bool)
    ensures
        r == is_blank(c),
{
    c == ' ' || c == '\t' || c == '\n' || c == '\r' || c == '\0' || c == '\u{0B}' || c == '\u{0C}'
}

/// Whether a reader prefix can hold `c`.
pub fn prefix_char(c: char) -> (r: bool)
    ensures
        r == is_prefix_char(c),
{
    c == '\'' || c == ',' || c == '`' || c == '~' || c == '@' || c == '^'
}

/// Whether `c` is a decimal digit.
pub fn digit_char(c: char) -> (r: bool)
    ensures
        r == is_digit(c),
{
    '0' <= c && c <= '9'
}

/// Whether a symbol can hold `c`.
pub fn symbol_char(c: char) -> (r: bool)
    ensures
        r == is_symbol_char(c),
{
    ('a' <= c && c <= 'z') || ('A' <= c && c <= 'Z') || ('0' <= c && c <= '9') || c == '!' || c
        == '$' || c == '%' || c == '&' || c == '*' || c == '+' || c == '-' || c == '.' || c == '/'
        || c == ':' || c == '<' || c == '?' || c == '=' || c == '>' || c == '@' || c == '^' || c
        == '_'
}

/// Whether `c` is of the class `k`.
pub fn belongs(c: char, k: Class) -> (r: bool)
    ensures
        r == in_class(c, k),
{
    match k {
        Class::Prefix => prefix_char(c),
        Class::Symbol => symbol_char(c),
        Class::Digit => digit_char(c),
    }
}

/// Whether the character at `i` is `c`.
fn holds(s: &Vec<char>, i: usize, c: char) -> (r: bool)
    ensures
        r == at(s@, i as int, c),
{
    i < s.len() && s[i] == c
}

/// Where the white space that starts at `i` ends.
pub fn skip_blank(s: &Vec<char>, i: usize) -> (j: usize)
    requires
        i <= s.len(),
    ensures
        j == blank_end(s@, i as int),
        i <= j <= s.len(),
{
    let mut j: usize = i;
    loop
        invariant
            i <= j <= s.len(),
            blank_end(s@, i as int) == blank_end(s@, j as int),
        ensures
            i <= j <= s.len(),
            j == blank_end(s@, i as int),
        decreases s.len() - j,
    {
        if j >= s.len() {
            break ;
        }
        let c = s[j];
        if blank(c) {
            j = j + 1;
        } else if c == '\\' && s.len() - j > 1 && s[j + 1] == '\n' {
            j = j + 2;
        } else if c == '\\' && s.len() - j > 2 && s[j + 1] == '\r' && s[j + 2] == '\n' {
            j = j + 3;
        } else {
            break ;
        }
    }
    j
}

/// Where the longest run of characters of class `k` that starts at `i` ends.
pub fn span(s: &Vec<char>, i: usize, k: Class) -> (j: usize)
    requires
        i <= s.len(),
    ensures
        j == span_end(s@, i as int, k),
        i <= j <= s.len(),
        forall|x: int| i <= x < j ==> in_class(#[trigger] s@[x], k),
{
    let mut j: usize = i;
    while j < s.len() && belongs(s[j], k)
        invariant
            i <= j <= s.len(),
            span_end(s@, i as int, k) == span_end(s@, j as int, k),
            forall|x: int| i <= x < j ==> in_class(#[trigger] s@[x], k),
        decreases s.len() - j,
    {
        j = j + 1;
    }
    j
}

/// `r` as the second choice after a first that failed with `f`.
fn after<T>(f: Furthest, r: Step<T>) -> (res: Step<T>)
    ensures
        match (r, res) {
            (Step::Match { value, end, far }, Step::Match { value: v, end: e, far: g }) => v
                == value && e == end && g@ == f@.join(far@),
            (Step::Fail { far }, Step::Fail { far: g }) => g@ == f@.join(far@),
            (Step::Abort { at, what }, Step::Abort { at: a, what: w }) => a == at && w == what,
            _ => false,
        },
{
    match r {
        Step::Match { value, end, far } => Step::Match { value, end, far: f.join(far) },
        Step::Fail { far } => Step::Fail { far: f.join(far) },
        Step::Abort { at, what } => Step::Abort { at, what },
    }
}

/// Where the sign and digits of a number that starts at `i` end.
pub fn digits_stop(s: &Vec<char>, i: usize) -> (r: Option<usize>)
    requires
        i <= s.len(),
    ensures
        r matches Some(d) ==> digits_end(s@, i as int) == Some(d as int) && i < d <= s.len(),
        r is None ==> digits_end(s@, i as int) is None,
{
    let j = if holds(s, i, '-') {
        i + 1
    } else {
        i
    };
    let d = span(s, j, Class::Digit);
    if d > j {
        Some(d)
    } else {
        None
    }
}

/// Where the float that starts at `i` ends.
pub fn float_stop(s: &Vec<char>, i: usize) -> (r: Option<usize>)
    requires
        i <= s.len(),
    ensures
        r matches Some(e) ==> float_end(s@, i as int) == Some(e as int) && i < e <= s.len(),
        r is None ==> float_end(s@, i as int) is None,
{
    match digits_stop(s, i) {
        Some(d) => {
            if holds(s, d, '.') && !(s.len() - d > 1 && s[d + 1] == '.') {
                Some(span(s, d + 1, Class::Digit))
            } else {
                None
            }
        },
        None => None,
    }
}

/// A float at `i`.
fn read_float(s: &Vec<char>, i: usize) -> (r: Step<ExprType>)
    requires
        i <= s.len(),
    ensures
        form_step(r, float_at(s@, i as int)),
        r.within(s.len()),
        r matches Step::Match { end, .. } ==> end > i,
{
    match float_stop(s, i) {
        Some(e) => Step::Match {
            value: ExprType::Float(text_of(s, i, e)),
            end: e,
            far: Furthest::start(),
        },
        None => Step::Fail { far: Furthest::note(i, Token::Float) },
    }
}

/// The number that the digits `s[from..to]` denote, if it fits in 64 bits
/// without a sign.
fn read_digits(s: &Vec<char>, from: usize, to: usize) -> (r: Option<u64>)
    requires
        from <= to <= s.len(),
        forall|x: int| from <= x < to ==> is_digit(#[trigger] s@[x]),
    ensures
        r matches Some(m) ==> m == digits_value(s@.subrange(from as int, to as int)),
        r is None ==> digits_value(s@.subrange(from as int, to as int)) > u64::MAX,
{
    let mut m: u64 = 0;
    let mut big = false;
    let mut k: usize = from;
    assert(s@.subrange(from as int, from as int) =~= Seq::<char>::empty());
    while k < to
        invariant
            from <= k <= to <= s.len(),
            forall|x: int| from <= x < to ==> is_digit(#[trigger] s@[x]),
            !big ==> m == digits_value(s@.subrange(from as int, k as int)),
            big ==> digits_value(s@.subrange(from as int, k as int)) > u64::MAX,
        decreases to - k,
    {
        proof {
            lemma_digits_value_step(s@, from as int, k as int);
        }
        let d: u64 = (s[k] as u32 - 48) as u64;
        assert(d == digit_value(s@[k as int]));
        if !big {
            if m > (u64::MAX - d) / 10 {
                big = true;
            } else {
                m = m * 10 + d;
            }
        }
        k = k + 1;
    }
    if big {
        None
    } else {
        Some(m)
    }
}

/// An integer at `i`.
fn read_integer(s: &Vec<char>, i: usize) -> (r: Step<ExprType>)
    requires
        i <= s.len(),
    ensures
        form_step(r, integer_at(s@, i as int)),
        r.within(s.len()),
        r matches Step::Match { end, .. } ==> end > i,
{
    match digits_stop(s, i) {
        Some(e) => {
            let negative = holds(s, i, '-');
            let j = if negative {
                i + 1
            } else {
                i
            };
            let ghost lit = s@.subrange(i as int, e as int);
            proof {
                if negative {
                    assert(lit.skip(1) =~= s@.subrange(j as int, e as int));
                } else {
                    assert(lit =~= s@.subrange(j as int, e as int));
                }
                assert(lit[0] == s@[i as int]);
            }
            assert(span_end(s@, j as int, Class::Digit) == e);
            let d = span(s, j, Class::Digit);
            assert forall|x: int| j <= x < e implies is_digit(#[trigger] s@[x]) by {
                assert(in_class(s@[x], Class::Digit));
            }
            match read_digits(s, j, e) {
                Some(m) => {
                    if negative {
                        if m <= 0x7fff_ffff_ffff_ffff {
                            Step::Match {
                                value: ExprType::Int(-(m as i64)),
                                end: e,
                                far: Furthest::start(),
                            }
                        } else if m == 0x8000_0000_0000_0000 {
                            Step::Match {
                                value: ExprType::Int(i64::MIN),
                                end: e,
                                far: Furthest::start(),
                            }
                        } else {
                            Step::Abort { at: i, what: Token::Int64 }
                        }
                    } else if m <= 0x7fff_ffff_ffff_ffff {
                        Step::Match {
                            value: ExprType::Int(m as i64),
                            end: e,
                            far: Furthest::start(),
                        }
                    } else {
                        Step::Abort { at: i, what: Token::Int64 }
                    }
                },
                None => Step::Abort { at: i, what: Token::Int64 },
            }
        },
        None => Step::Fail { far: Furthest::note(i, Token::Integer) },
    }
}

/// A symbol at `i`.
fn read_symbol(s: &Vec<char>, i: usize) -> (r: Step<ExprType>)
    requires
        i <= s.len(),
    ensures
        form_step(r, symbol_at(s@, i as int)),
        r.within(s.len()),
        r matches Step::Match { end, .. } ==> end > i,
{
    let e = span(s, i, Class::Symbol);
    if e > i {
        Step::Match { value: ExprType::Symbol(text_of(s, i, e)), end: e, far: Furthest::start() }
    } else {
        Step::Fail { far: Furthest::note(i, Token::Symbol) }
    }
}

/// Where the contents of a string that start at `i` end, and the failures met
/// on the way.
pub fn read_quoted(s: &Vec<char>, i: usize) -> (r: (usize, Furthest))
    requires
        i <= s.len(),
    ensures
        quoted(s@, i as int) == (r.0 as int, r.1@),
        i <= r.0 <= s.len(),
        r.1.at <= s.len(),
{
    let mut j: usize = i;
    let mut far = Furthest::start();
    proof {
        lemma_join_start(quoted(s@, i as int).1);
    }
    loop
        invariant_except_break
            far.at <= s.len(),
            quoted(s@, i as int) == (quoted(s@, j as int).0, far@.join(quoted(s@, j as int).1)),
        invariant
            i <= j <= s.len(),
        ensures
            i <= j <= s.len(),
            far.at <= s.len(),
            quoted(s@, i as int) == (j as int, far@),
        decreases s.len() - j,
    {
        let ghost here = quoted(s@, j as int);
        if j >= s.len() || s[j] == '"' {
            far = far.join(
                Furthest::note(j, Token::Backslash).join(Furthest::note(j, Token::NotQuote)),
            );
            break ;
        }
        if s[j] == '\\' {
            if s.len() - j > 1 {
                j = j + 2;
            } else {
                proof {
                    lemma_join_assoc(
                        far@,
                        Reach::note(j + 1, Token::AnyChar),
                        quoted(s@, j + 1).1,
                    );
                }
                far = far.join(Furthest::note(j + 1, Token::AnyChar));
                j = j + 1;
            }
        } else {
            proof {
                lemma_join_assoc(
                    far@,
                    Reach::note(j as int, Token::Backslash),
                    quoted(s@, j + 1).1,
                );
            }
            far = far.join(Furthest::note(j, Token::Backslash));
            j = j + 1;
        }
    }
    (j, far)
}

/// A string at `i`.
fn read_string(s: &Vec<char>, i: usize) -> (r: Step<ExprType>)
    requires
        i <= s.len(),
    ensures
        form_step(r, string_at(s@, i as int)),
        r.within(s.len()),
        r matches Step::Match { end, .. } ==> end > i,
{
    if !holds(s, i, '"') {
        return Step::Fail { far: Furthest::note(i, Token::Quote) };
    }
    let (q, far) = read_quoted(s, i + 1);
    if q < s.len() {
        let raw = text_of(s, i + 1, q);
        match unescape(raw.as_str()) {
            Ok(t) => Step::Match { value: ExprType::String(t), end: q + 1, far },
            Err(bad) => {
                let n = count_within(s, i + 1, q, bad.0.start);
                Step::Abort { at: i + 1 + n, what: Token::Escape }
            },
        }
    } else {
        Step::Fail { far: far.join(Furthest::note(q, Token::Quote)) }
    }
}

/// Where the line that holds `i` ends.
fn skip_line(s: &Vec<char>, i: usize) -> (j: usize)
    requires
        i <= s.len(),
    ensures
        j == line_end(s@, i as int),
        i <= j <= s.len(),
{
    let mut j: usize = i;
    loop
        invariant
            i <= j <= s.len(),
            line_end(s@, i as int) == line_end(s@, j as int),
        ensures
            i <= j <= s.len(),
            j == line_end(s@, i as int),
        decreases s.len() - j,
    {
        if j >= s.len() {
            break ;
        }
        if s[j] == '\n' || (s[j] == '\r' && s.len() - j > 1 && s[j + 1] == '\n') {
            break ;
        }
        j = j + 1;
    }
    j
}

/// A comment at `i`.
fn read_comment(s: &Vec<char>, i: usize) -> (r: Step<Expr>)
    requires
        i <= s.len(),
    ensures
        node_step(r, comment_at(s@, i as int)),
        r.within(s.len()),
        r matches Step::Match { end, .. } ==> end > i,
{
    if !holds(s, i, ';') {
        return Step::Fail { far: Furthest::note(i, Token::Semicolon) };
    }
    let e = skip_line(s, i + 1);
    let far = if e >= s.len() {
        Furthest::note(e, Token::AnyChar)
    } else {
        Furthest::start()
    };
    Step::Match { value: Expr::new(None, ExprType::Comment(text_of(s, i, e))), end: e, far }
}

/// The character that opens a bracketed form.
fn opening(b: Bracket) -> (c: char)
    ensures
        c == opener(b),
{
    match b {
        Bracket::Paren => '(',
        Bracket::Square => '[',
        Bracket::Curly => '{',
    }
}

/// The character that closes a bracketed form.
fn closing(b: Bracket) -> (c: char)
    ensures
        c == closer(b),
{
    match b {
        Bracket::Paren => ')',
        Bracket::Square => ']',
        Bracket::Curly => '}',
    }
}

/// What is expected where a bracketed form does not open.
fn opening_token(b: Bracket) -> (t: Token)
    ensures
        t == open_token(b),
{
    match b {
        Bracket::Paren => Token::OpenParen,
        Bracket::Square => Token::OpenBracket,
        Bracket::Curly => Token::OpenBrace,
    }
}

/// What is expected where a bracketed form does not close.
fn closing_token(b: Bracket) -> (t: Token)
    ensures
        t == close_token(b),
{
    match b {
        Bracket::Paren => Token::CloseParen,
        Bracket::Square => Token::CloseBracket,
        Bracket::Curly => Token::CloseBrace,
    }
}

/// The form that a bracket makes of its elements.
fn enclose(b: Bracket, items: Vec<Expr>) -> (r: ExprType)
    ensures
        r@ == bracketed(b, nodes_of(items@)),
{
    match b {
        Bracket::Paren => ExprType::List(items),
        Bracket::Square => ExprType::Vector(items),
        Bracket::Curly => ExprType::Hashmap(items),
    }
}

/// Where the commas that trail the elements of a bracketed form end.
fn read_commas(s: &Vec<char>, from: usize) -> (r: (usize, Furthest))
    requires
        from <= s.len(),
    ensures
        commas(s@, from as int) == (r.0 as int, r.1@),
        from <= r.0 <= s.len(),
        r.1.at <= s.len(),
{
    let mut p: usize = from;
    loop
        invariant
            from <= p <= s.len(),
            commas(s@, from as int) == commas(s@, p as int),
        decreases s.len() - p,
    {
        let a = skip_blank(s, p);
        if holds(s, a, ',') {
            p = skip_blank(s, a + 1);
        } else {
            return (p, Furthest::note(a, Token::Comma));
        }
    }
}

/// Appending to the nodes in front and joining to the failure before comes
/// to the same as doing both at once.
proof fn lemma_extend_twice(
    a: Seq<Node>,
    x: Reach,
    b: Seq<Node>,
    y: Reach,
    o: Outcome<Seq<Node>>,
)
    ensures
        extend(a, x, extend(b, y, o)) == extend(a + b, x.join(y), o),
{
    match o {
        Outcome::Match { value, end, far } => {
            lemma_join_assoc(x, y, far);
            assert(a + (b + value) =~= (a + b) + value);
        },
        Outcome::Fail { far } => {
            lemma_join_assoc(x, y, far);
        },
        Outcome::Abort { .. } => {},
    }
}

/// Nothing in front and no failure before change nothing.
proof fn lemma_extend_nothing(o: Outcome<Seq<Node>>)
    ensures
        extend(seq![], Reach::start(), o) == o,
{
    match o {
        Outcome::Match { value, end, far } => {
            lemma_join_start(far);
            assert(Seq::<Node>::empty() + value =~= value);
        },
        Outcome::Fail { far } => {
            lemma_join_start(far);
        },
        Outcome::Abort { .. } => {},
    }
}

/// An expression at `i`.
pub fn read_expr(s: &Vec<char>, i: usize) -> (r: Step<Expr>)
    requires
        i <= s.len(),
    ensures
        node_step(r, expr_at(s@, i as int)),
        r.within(s.len()),
        r matches Step::Match { end, .. } ==> end >= i,
    decreases s.len() - i, 2nat,
{
    let a = skip_blank(s, i);
    let b = span(s, a, Class::Prefix);
    let pre = if b > a {
        Furthest::start()
    } else {
        Furthest::note(a, Token::Prefix)
    };
    match read_form(s, b) {
        Step::Match { value, end, far } => {
            let prefix = if b > a {
                Some(text_of(s, a, b))
            } else {
                None
            };
            Step::Match {
                value: Expr::new(prefix, value),
                end: skip_blank(s, end),
                far: pre.join(far),
            }
        },
        Step::Fail { far } => Step::Fail { far: pre.join(far) },
        Step::Abort { at, what } => Step::Abort { at, what },
    }
}

/// A form at `i`.
fn read_form(s: &Vec<char>, i: usize) -> (r: Step<ExprType>)
    requires
        i <= s.len(),
    ensures
        form_step(r, form_at(s@, i as int)),
        r.within(s.len()),
        r matches Step::Match { end, .. } ==> end >= i,
    decreases s.len() - i, 1nat,
{
    match read_group(s, i, Bracket::Paren) {
        Step::Fail { far: f1 } => after(
            f1,
            match read_group(s, i, Bracket::Square) {
                Step::Fail { far: f2 } => after(
                    f2,
                    match read_group(s, i, Bracket::Curly) {
                        Step::Fail { far: f3 } => after(
                            f3,
                            match read_string(s, i) {
                                Step::Fail { far: f4 } => after(
                                    f4,
                                    match read_float(s, i) {
                                        Step::Fail { far: f5 } => after(
                                            f5,
                                            match read_integer(s, i) {
                                                Step::Fail { far: f6 } => after(
                                                    f6,
                                                    read_symbol(s, i),
                                                ),
                                                other => other,
                                            },
                                        ),
                                        other => other,
                                    },
                                ),
                                other => other,
                            },
                        ),
                        other => other,
                    },
                ),
                other => other,
            },
        ),
        other => other,
    }
}

/// A bracketed form at `i`.
fn read_group(s: &Vec<char>, i: usize, b: Bracket) -> (r: Step<ExprType>)
    requires
        i <= s.len(),
    ensures
        form_step(r, group_at(s@, i as int, b)),
        r.within(s.len()),
        r matches Step::Match { end, .. } ==> end >= i,
    decreases s.len() - i, 0nat,
{
    if !holds(s, i, opening(b)) {
        return Step::Fail { far: Furthest::note(i, opening_token(b)) };
    }
    let start = skip_blank(s, i + 1);
    match read_items(s, start) {
        Step::Match { value, end, far } => {
            let (p, tail) = read_commas(s, end);
            let q = skip_blank(s, p);
            if holds(s, q, closing(b)) {
                Step::Match { value: enclose(b, value), end: q + 1, far: far.join(tail) }
            } else {
                Step::Fail { far: far.join(tail).join(Furthest::note(q, closing_token(b))) }
            }
        },
        Step::Fail { far } => Step::Fail { far },
        Step::Abort { at, what } => Step::Abort { at, what },
    }
}

/// The elements that follow `start`.
fn read_items(s: &Vec<char>, start: usize) -> (r: Step<Vec<Expr>>)
    requires
        start <= s.len(),
    ensures
        nodes_step(r, items(s@, start as int, true)),
        r.within(s.len()),
        r matches Step::Match { end, .. } ==> end >= start,
    decreases s.len() - start, 3nat,
{
    let mut out: Vec<Expr> = Vec::new();
    let mut far = Furthest::start();
    let mut p: usize = start;
    let mut first = true;
    proof {
        lemma_extend_nothing(items(s@, start as int, true));
        assert(nodes_of(out@) =~= Seq::<Node>::empty());
    }
    loop
        invariant
            start <= p <= s.len(),
            far.at <= s.len(),
            items(s@, start as int, true) == extend(
                nodes_of(out@),
                far@,
                items(s@, p as int, first),
            ),
        decreases s.len() - p,
    {
        let a = skip_blank(s, p);
        let comma = holds(s, a, ',');
        let j = if first {
            p
        } else if comma {
            skip_blank(s, a + 1)
        } else {
            a
        };
        let pre = if !first && !comma {
            Furthest::note(a, Token::Comma)
        } else {
            Furthest::start()
        };
        let ghost done = out@;
        let ghost was = far@;
        match read_expr(s, j) {
            Step::Match { value, end, far: f } => {
                let ghost node = value@;
                out.push(value);
                proof {
                    lemma_nodes_of_push(done, value);
                    assert(nodes_of(done).push(node) =~= nodes_of(done) + seq![node]);
                }
                if p < end {
                    proof {
                        lemma_extend_twice(
                            nodes_of(done),
                            was,
                            seq![node],
                            pre@.join(f@),
                            items(s@, end as int, false),
                        );
                    }
                    far = far.join(pre.join(f));
                    p = end;
                    first = false;
                } else {
                    return Step::Match { value: out, end, far: far.join(pre.join(f)) };
                }
            },
            Step::Fail { far: f } => {
                proof {
                    assert(nodes_of(done) + Seq::<Node>::empty() =~= nodes_of(done));
                }
                return Step::Match { value: out, end: p, far: far.join(pre.join(f)) };
            },
            Step::Abort { at, what } => {
                return Step::Abort { at, what };
            },
        }
    }
}

/// The comments and expressions that follow `start`.
fn read_forest(s: &Vec<char>, start: usize) -> (r: Step<Vec<Expr>>)
    requires
        start <= s.len(),
    ensures
        nodes_step(r, forest(s@, start as int)),
        r.within(s.len()),
{
    let mut out: Vec<Expr> = Vec::new();
    let mut far = Furthest::start();
    let mut p: usize = start;
    proof {
        lemma_extend_nothing(forest(s@, start as int));
        assert(nodes_of(out@) =~= Seq::<Node>::empty());
    }
    loop
        invariant
            start <= p <= s.len(),
            far.at <= s.len(),
            forest(s@, start as int) == extend(nodes_of(out@), far@, forest(s@, p as int)),
        decreases s.len() - p,
    {
        let ghost done = out@;
        let ghost was = far@;
        let one = match read_comment(s, p) {
            Step::Fail { far: f } => after(f, read_expr(s, p)),
            other => other,
        };
        match one {
            Step::Match { value, end, far: f } => {
                let ghost node = value@;
                out.push(value);
                proof {
                    lemma_nodes_of_push(done, value);
                    assert(nodes_of(done).push(node) =~= nodes_of(done) + seq![node]);
                }
                if p < end {
                    proof {
                        lemma_extend_twice(
                            nodes_of(done),
                            was,
                            seq![node],
                            f@,
                            forest(s@, end as int),
                        );
                    }
                    far = far.join(f);
                    p = end;
                } else {
                    return Step::Match { value: out, end, far: far.join(f) };
                }
            },
            Step::Fail { far: f } => {
                proof {
                    assert(nodes_of(done) + Seq::<Node>::empty() =~= nodes_of(done));
                }
                return Step::Match { value: out, end: p, far: far.join(f) };
            },
            Step::Abort { at, what } => {
                return Step::Abort { at, what };
            },
        }
    }
}

/// Whether `r` is the executable form of `want`.
pub open spec fn forest_is(
    r: Result<Vec<Expr>, ParseError>,
    want: Result<Seq<Node>, ParseError>,
) -> bool {
    match r {
        Ok(v) => want == Ok::<Seq<Node>, ParseError>(nodes_of(v@)),
        Err(e) => want == Err::<Seq<Node>, ParseError>(e),
    }
}

/// Whether `r` is the executable form of `want`.
pub open spec fn node_is(r: Result<Expr, ParseError>, want: Result<Node, ParseError>) -> bool {
    match r {
        Ok(v) => want == Ok::<Node, ParseError>(v@),
        Err(e) => want == Err::<Node, ParseError>(e),
    }
}

/// Reads the whole of `text` as a forest: the nodes in source order, or the
/// failure that kept the reader from the end of the text.
pub fn exprs(text: &str) -> (r: Result<Vec<Expr>, ParseError>)
    ensures
        forest_is(r, read_all(text@)),
        r matches Err(e) ==> e.offset <= byte_len(text@) && e.line >= 1 && e.column >= 1,
{
    let s = chars_of(text);
    let bytes = text.as_bytes().len();
    assert(byte_len(s@) == bytes);
    let start = skip_blank(&s, 0);
    match read_forest(&s, start) {
        Step::Match { value, end, far } => {
            let q = skip_blank(&s, end);
            if q >= s.len() {
                Ok(value)
            } else {
                let far = far.join(Furthest::note(q, Token::Eof));
                Err(locate(&s, far.at, far.expected))
            }
        },
        Step::Fail { far } => Err(locate(&s, far.at, far.expected)),
        Step::Abort { at, what } => Err(locate(&s, at, Expected::empty().with(what))),
    }
}

/// Reads the whole of `text` as one expression.
pub fn expr(text: &str) -> (r: Result<Expr, ParseError>)
    ensures
        node_is(r, read_one(text@)),
        r matches Err(e) ==> e.offset <= byte_len(text@) && e.line >= 1 && e.column >= 1,
{
    let s = chars_of(text);
    let bytes = text.as_bytes().len();
    assert(byte_len(s@) == bytes);
    match read_expr(&s, 0) {
        Step::Match { value, end, far } => {
            if end >= s.len() {
                Ok(value)
            } else {
                let far = far.join(Furthest::note(end, Token::Eof));
                Err(locate(&s, far.at, far.expected))
            }
        },
        Step::Fail { far } => Err(locate(&s, far.at, far.expected)),
        Step::Abort { at, what } => Err(locate(&s, at, Expected::empty().with(what))),
    }
}

} // verus!
