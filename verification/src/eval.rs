use crate::expand::{expand, expand_all, list, unwrap, Siblings};
use crate::failure::ParseError;
use crate::grammar::read_all;
use crate::parse::exprs;
use crate::print::{print, print_all};
use crate::text::{
    byte_len, char_width, chars_of, decimal, lemma_byte_len_add, lemma_byte_len_one,
    lemma_byte_len_prefix, text_of, usize_text, width,
};
use vstd::prelude::*;
use vstd::string::StringExecFns;

verus! {

/// What a read-eval-print loop asks of its evaluator: the answer to one line
/// of input, or a complaint about it.
pub trait Eval {
    /// Evaluates one line. Unless an evaluator says otherwise, a line
    /// evaluates to itself.
    fn eval(&mut self, s: &str) -> (r: Result<String, String>)
        default_ensures
            r matches Ok(t) && t@ == s@,
    {
        Ok(s.to_owned())
    }
}

/// The index of the character of `s` that starts at byte `off` of its UTF-8
/// encoding, if one starts there or the text ends there.
pub open spec fn char_at_byte(s: Seq<char>, off: int) -> Option<int>
    decreases s.len(),
{
    if off == 0 {
        Some(0)
    } else if s.len() == 0 || char_width(s[0]) > off {
        None
    } else {
        match char_at_byte(s.subrange(1, s.len() as int), off - char_width(s[0])) {
            Some(k) => Some(k + 1),
            None => None,
        }
    }
}

/// The first place at or after `i` where a line feed stands, or the end of
/// the text.
pub open spec fn feed_index(s: Seq<char>, i: int) -> int
    decreases s.len() - i,
{
    if i < 0 || i >= s.len() || s[i] == '\n' {
        i
    } else {
        feed_index(s, i + 1)
    }
}

/// The rest of the line of `s` that starts at `k`, without its line end: a
/// line feed, or a carriage return and a line feed.
pub open spec fn line_from(s: Seq<char>, k: int) -> Seq<char> {
    let j = feed_index(s, k);
    if k < j < s.len() && s[j - 1] == '\r' {
        s.subrange(k, j - 1)
    } else {
        s.subrange(k, j)
    }
}

/// What stands in `s` at byte `off`: `EOF` at or after the end, the rest of
/// the line where a character starts there, else `nothing`.
pub open spec fn got(s: Seq<char>, off: usize) -> Seq<char> {
    if off >= byte_len(s) {
        "EOF"@
    } else {
        match char_at_byte(s, off as int) {
            Some(k) => line_from(s, k),
            None => "nothing"@,
        }
    }
}

/// The complaint about the failure `e` to read `s`: what stands at the place
/// of the failure, its line and column, and what was expected there.
pub open spec fn complaint(s: Seq<char>, e: ParseError) -> Seq<char> {
    "error: got: "@ + got(s, e.offset) + " at: "@ + decimal(e.line as nat) + ":"@ + decimal(
        e.column as nat,
    ) + " expected: "@ + e.expected.text()
}

/// The character at index `k` is found at the byte where it starts.
pub proof fn lemma_char_at_its_byte(s: Seq<char>, k: int)
    requires
        0 <= k <= s.len(),
    ensures
        char_at_byte(s, byte_len(s.take(k)) as int) == Some(k),
    decreases s.len(),
{
    if k == 0 {
        assert(s.take(0) =~= Seq::<char>::empty());
    } else {
        let rest = s.subrange(1, s.len() as int);
        assert(s.take(k) =~= seq![s[0]] + rest.take(k - 1));
        lemma_byte_len_add(seq![s[0]], rest.take(k - 1));
        lemma_byte_len_one(s[0]);
        lemma_char_at_its_byte(rest, k - 1);
    }
}

/// The complaint about a failure of the reader shows the rest of the line in
/// which the failure lies, or `EOF` where it lies at the end of the text.
pub proof fn law_complaint_shows_the_line(s: Seq<char>, k: int, e: ParseError)
    requires
        0 <= k <= s.len(),
        byte_len(s) <= usize::MAX,
        e == crate::failure::located(s, k, e.expected),
    ensures
        got(s, e.offset) == if k == s.len() {
            "EOF"@
        } else {
            line_from(s, k)
        },
{
    lemma_char_at_its_byte(s, k);
    lemma_byte_len_prefix(s, k);
    if k == s.len() {
        assert(s.take(k) =~= s);
    } else {
        crate::text::lemma_byte_len_step(s, k);
        lemma_byte_len_prefix(s, k + 1);
    }
}

/// `o` moved on by `k` characters.
pub open spec fn shifted(o: Option<int>, k: int) -> Option<int> {
    match o {
        Some(i) => Some(i + k),
        None => None,
    }
}

/// The index of the character of `s` that starts at byte `off`.
fn find_char(s: &Vec<char>, off: usize) -> (r: Option<usize>)
    ensures
        r matches Some(k) ==> char_at_byte(s@, off as int) == Some(k as int) && k <= s.len(),
        r is None ==> char_at_byte(s@, off as int) is None,
{
    let mut left: usize = off;
    let mut k: usize = 0;
    assert(s@.subrange(0, s@.len() as int) =~= s@);
    loop
        invariant
            k <= s.len(),
            char_at_byte(s@, off as int) == shifted(
                char_at_byte(s@.subrange(k as int, s@.len() as int), left as int),
                k as int,
            ),
        decreases s.len() - k,
    {
        let ghost rest = s@.subrange(k as int, s@.len() as int);
        if left == 0 {
            return Some(k);
        }
        if k >= s.len() {
            return None;
        }
        assert(rest[0] == s@[k as int]);
        let w = width(s[k]);
        if w > left {
            return None;
        }
        assert(rest.subrange(1, rest.len() as int) =~= s@.subrange(k + 1, s@.len() as int));
        left = left - w;
        k = k + 1;
    }
}

/// The rest of the line of `s` that starts at `k`, without its line end.
fn rest_of_line(s: &Vec<char>, k: usize) -> (r: String)
    requires
        k <= s.len(),
    ensures
        r@ == line_from(s@, k as int),
{
    let mut j: usize = k;
    while j < s.len() && s[j] != '\n'
        invariant
            k <= j <= s.len(),
            feed_index(s@, k as int) == feed_index(s@, j as int),
        decreases s.len() - j,
    {
        j = j + 1;
    }
    if k < j && j < s.len() && s[j - 1] == '\r' {
        text_of(s, k, j - 1)
    } else {
        text_of(s, k, j)
    }
}

/// The complaint about the failure `e` to read `text`.
pub fn describe(text: &str, e: &ParseError) -> (r: String)
    ensures
        r@ == complaint(text@, *e),
{
    let s = chars_of(text);
    let total = text.as_bytes().len();
    let what = if e.offset >= total {
        String::from_str("EOF")
    } else {
        match find_char(&s, e.offset) {
            Some(k) => rest_of_line(&s, k),
            None => String::from_str("nothing"),
        }
    };
    let mut r = String::from_str("error: got: ");
    r.append(what.as_str());
    r.append(" at: ");
    r.append(usize_text(e.line).as_str());
    r.append(":");
    r.append(usize_text(e.column).as_str());
    r.append(" expected: ");
    r.append(e.expected.to_string().as_str());
    r
}

/// What evaluating the line `s` comes to: its expressions, expanded together
/// so that a metadata prefix can take the expression after it, and printed
/// with one space between two; or the complaint about the failure to read
/// them.
pub open spec fn evaluated(s: Seq<char>) -> Result<Seq<char>, Seq<char>> {
    match read_all(s) {
        Ok(v) => Ok(print_all(expand_all(v))),
        Err(e) => Err(complaint(s, e)),
    }
}

/// Whether `r` is the executable form of `want`.
pub open spec fn answer_is(r: Result<String, String>, want: Result<Seq<char>, Seq<char>>) -> bool {
    match r {
        Ok(t) => want == Ok::<Seq<char>, Seq<char>>(t@),
        Err(t) => want == Err::<Seq<char>, Seq<char>>(t@),
    }
}

/// The evaluator that reads a line, expands its prefixes and prints the
/// result.
pub struct Parser;

impl Eval for Parser {
    fn eval(&mut self, s: &str) -> (r: Result<String, String>)
        ensures
            answer_is(r, evaluated(s@)),
    {
        match exprs(s) {
            Ok(forest) => {
                let mut none = Siblings::empty();
                let whole = expand(list(forest), &mut none);
                let parts = unwrap(whole);
                Ok(print(&parts))
            },
            Err(e) => Err(describe(s, &e)),
        }
    }
}

} // verus!
