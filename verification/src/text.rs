use vstd::prelude::*;
use vstd::string::StringExecFns;
use vstd::utf8::*;

verus! {

/// `String::push` appends the one character `c` to the end of `s`.
pub assume_specification[ std::string::String::push ](s: &mut std::string::String, c: char)
    ensures
        final(s)@ == old(s)@.push(c),
;

/// The characters of `s`, in order.
pub fn chars_of(s: &str) -> (v: Vec<char>)
    ensures
        v@ == s@,
{
    let mut v: Vec<char> = Vec::new();
    for c in it: s.chars()
        invariant
            it.seq() == s@,
            v@ == it.seq().take(it.index() as int),
    {
        v.push(c);
    }
    v
}

/// The text made of the characters `s[from..to]`.
pub fn text_of(s: &Vec<char>, from: usize, to: usize) -> (r: String)
    requires
        from <= to <= s.len(),
    ensures
        r@ == s@.subrange(from as int, to as int),
{
    let mut r = String::new();
    let mut i: usize = from;
    while i < to
        invariant
            from <= i <= to <= s.len(),
            r@ == s@.subrange(from as int, i as int),
        decreases to - i,
    {
        r.push(s[i]);
        i = i + 1;
        assert(r@ =~= s@.subrange(from as int, i as int));
    }
    r
}

/// How many bytes the UTF-8 encoding of `c` takes.
pub open spec fn char_width(c: char) -> nat {
    let u = c as u32;
    if u < 0x80 {
        1
    } else if u < 0x800 {
        2
    } else if u < 0x10000 {
        3
    } else {
        4
    }
}

/// How many bytes the UTF-8 encoding of `s` takes.
pub open spec fn byte_len(s: Seq<char>) -> nat {
    encode_utf8(s).len()
}

/// The encoding of a text is as long as those of its two parts together.
pub proof fn lemma_byte_len_add(a: Seq<char>, b: Seq<char>)
    ensures
        byte_len(a + b) == byte_len(a) + byte_len(b),
    decreases a.len(),
{
    if a.len() == 0 {
        assert(a + b =~= b);
    } else {
        assert((a + b).drop_first() =~= a.drop_first() + b);
        lemma_byte_len_add(a.drop_first(), b);
    }
}

/// The encoding of one character is as long as its width.
pub proof fn lemma_byte_len_one(c: char)
    ensures
        byte_len(seq![c]) == char_width(c),
{
    reveal_with_fuel(encode_utf8, 2);
    char_is_scalar(c);
    assert(seq![c].drop_first() =~= Seq::<char>::empty());
}

/// One more character makes a prefix longer by that character's width.
pub proof fn lemma_byte_len_step(s: Seq<char>, k: int)
    requires
        0 <= k < s.len(),
    ensures
        byte_len(s.take(k + 1)) == byte_len(s.take(k)) + char_width(s[k]),
        byte_len(s.take(k + 1)) > byte_len(s.take(k)),
{
    assert(s.take(k + 1) =~= s.take(k) + seq![s[k]]);
    lemma_byte_len_add(s.take(k), seq![s[k]]);
    lemma_byte_len_one(s[k]);
}

/// A prefix takes no more bytes than the whole text, and no fewer than it has
/// characters.
pub proof fn lemma_byte_len_prefix(s: Seq<char>, k: int)
    requires
        0 <= k <= s.len(),
    ensures
        k <= byte_len(s.take(k)) <= byte_len(s),
    decreases k,
{
    assert(s =~= s.take(k) + s.skip(k));
    lemma_byte_len_add(s.take(k), s.skip(k));
    if k > 0 {
        lemma_byte_len_prefix(s, k - 1);
        lemma_byte_len_step(s, k - 1);
    } else {
        assert(s.take(0) =~= Seq::<char>::empty());
    }
}

/// How many bytes the UTF-8 encoding of `c` takes.
pub fn width(c: char) -> (n: usize)
    ensures
        n == char_width(c),
        1 <= n <= 4,
{
    let u: u32 = c as u32;
    if u < 0x80 {
        1
    } else if u < 0x800 {
        2
    } else if u < 0x10000 {
        3
    } else {
        4
    }
}

/// How many leading characters of `s` end at or before byte `bytes` of its
/// UTF-8 encoding.
pub open spec fn chars_within(s: Seq<char>, bytes: int) -> nat
    decreases s.len(),
{
    if s.len() == 0 || char_width(s[0]) > bytes {
        0
    } else {
        1 + chars_within(s.drop_first(), bytes - char_width(s[0]))
    }
}

/// How many of the characters `s[from..to]` end at or before byte `bytes` of
/// their UTF-8 encoding.
pub fn count_within(s: &Vec<char>, from: usize, to: usize, bytes: usize) -> (n: usize)
    requires
        from <= to <= s.len(),
    ensures
        n == chars_within(s@.subrange(from as int, to as int), bytes as int),
        n <= to - from,
{
    let ghost part = s@.subrange(from as int, to as int);
    let mut left: usize = bytes;
    let mut i: usize = from;
    assert(part.skip(0) =~= part);
    loop
        invariant
            from <= i <= to <= s.len(),
            part == s@.subrange(from as int, to as int),
            chars_within(part, bytes as int) == (i - from) + chars_within(
                part.skip(i - from),
                left as int,
            ),
        ensures
            from <= i <= to,
            i - from == chars_within(part, bytes as int),
        decreases to - i,
    {
        let ghost rest = part.skip(i - from);
        if i >= to {
            break ;
        }
        assert(rest[0] == s@[i as int]);
        let w = width(s[i]);
        if w > left {
            break ;
        }
        assert(rest.drop_first() =~= part.skip(i + 1 - from));
        left = left - w;
        i = i + 1;
    }
    i - from
}

/// The decimal digit for `d`.
pub open spec fn digit_char(d: int) -> char {
    (d + 48) as u8 as char
}

/// The value of the decimal digit `c`.
pub open spec fn digit_value(c: char) -> int {
    c as u8 as int - 48
}

/// Whether `c` is a decimal digit.
pub open spec fn is_digit(c: char) -> bool {
    '0' <= c <= '9'
}

/// The decimal numeral of `n`, without leading zeros.
pub open spec fn decimal(n: nat) -> Seq<char>
    decreases n,
{
    if n < 10 {
        seq![digit_char(n as int)]
    } else {
        decimal(n / 10).push(digit_char((n % 10) as int))
    }
}

/// The decimal numeral of `n`, with a minus sign in front if it is negative.
pub open spec fn int_text(n: int) -> Seq<char> {
    if n < 0 {
        seq!['-'] + decimal((-n) as nat)
    } else {
        decimal(n as nat)
    }
}

/// The number that a run of decimal digits denotes.
pub open spec fn digits_value(s: Seq<char>) -> nat
    decreases s.len(),
{
    if s.len() == 0 {
        0
    } else {
        (digits_value(s.drop_last()) * 10 + digit_value(s.last())) as nat
    }
}

/// The number that an optional minus sign and a run of decimal digits denote.
pub open spec fn int_value(s: Seq<char>) -> int {
    if s.len() > 0 && s[0] == '-' {
        -(digits_value(s.skip(1)) as int)
    } else {
        digits_value(s) as int
    }
}

/// One more digit: ten times the number so far, and the digit.
pub proof fn lemma_digits_value_step(s: Seq<char>, from: int, to: int)
    requires
        0 <= from <= to < s.len(),
        is_digit(s[to]),
    ensures
        digits_value(s.subrange(from, to + 1)) == digits_value(s.subrange(from, to)) * 10
            + digit_value(s[to]),
        0 <= digit_value(s[to]) <= 9,
{
    assert(s.subrange(from, to + 1).drop_last() =~= s.subrange(from, to));
}

/// Whether `s` holds decimal digits only.
pub open spec fn all_digits(s: Seq<char>) -> bool {
    forall|i: int| 0 <= i < s.len() ==> is_digit(#[trigger] s[i])
}

/// A decimal numeral is a non-empty run of digits that denotes its number.
pub proof fn lemma_decimal_value(n: nat)
    ensures
        decimal(n).len() >= 1,
        all_digits(decimal(n)),
        digits_value(decimal(n)) == n,
    decreases n,
{
    if n < 10 {
        let s = decimal(n);
        assert(s.drop_last() =~= Seq::<char>::empty());
        reveal_with_fuel(digits_value, 2);
    } else {
        lemma_decimal_value(n / 10);
        let s = decimal(n);
        assert(s.drop_last() =~= decimal(n / 10));
    }
}

/// The decimal digit for `d`.
fn digit(d: u8) -> (c: char)
    requires
        d < 10,
    ensures
        c == digit_char(d as int),
        is_digit(c),
{
    (48u8 + d) as char
}

/// The decimal numeral of `n`.
pub fn u64_text(n: u64) -> (r: String)
    ensures
        r@ == decimal(n as nat),
{
    let mut buf: Vec<char> = Vec::new();
    buf.push(digit((n % 10) as u8));
    let mut m: u64 = n / 10;
    assert(decimal(n as nat) =~= (if m > 0 {
        decimal(m as nat)
    } else {
        Seq::<char>::empty()
    }) + buf@.reverse());
    while m > 0
        invariant
            buf@.len() >= 1,
            decimal(n as nat) == (if m > 0 {
                decimal(m as nat)
            } else {
                Seq::<char>::empty()
            }) + buf@.reverse(),
        decreases m,
    {
        let ghost before = buf@;
        let ghost was = m;
        buf.push(digit((m % 10) as u8));
        m = m / 10;
        proof {
            assert(buf@.reverse() =~= seq![digit_char((was % 10) as int)] + before.reverse());
            if was < 10 {
                assert(decimal(was as nat) =~= seq![digit_char((was % 10) as int)]);
            } else {
                assert(decimal(was as nat) =~= decimal(m as nat) + seq![
                    digit_char((was % 10) as int),
                ]);
            }
            assert(decimal(n as nat) =~= (if m > 0 {
                decimal(m as nat)
            } else {
                Seq::<char>::empty()
            }) + buf@.reverse());
        }
    }
    let mut r = String::new();
    let mut i: usize = buf.len();
    assert(buf@.reverse().subrange(0, 0) =~= Seq::<char>::empty());
    while i > 0
        invariant
            i <= buf.len(),
            r@ == buf@.reverse().subrange(0, buf.len() - i),
        decreases i,
    {
        i = i - 1;
        r.push(buf[i]);
        assert(r@ =~= buf@.reverse().subrange(0, buf.len() - i));
    }
    assert(r@ =~= buf@.reverse());
    assert(decimal(n as nat) =~= buf@.reverse());
    r
}

/// The decimal numeral of `n`.
pub fn usize_text(n: usize) -> (r: String)
    ensures
        r@ == decimal(n as nat),
{
    u64_text(n as u64)
}

/// The decimal numeral of `n`, with a minus sign in front if it is negative.
pub fn i64_text(n: i64) -> (r: String)
    ensures
        r@ == int_text(n as int),
{
    if n < 0 {
        let m: u64 = ((-(n + 1)) as u64) + 1;
        let mut r = String::new();
        r.push('-');
        let digits = u64_text(m);
        r.append(digits.as_str());
        assert(r@ =~= seq!['-'] + decimal((-n) as nat));
        r
    } else {
        u64_text(n as u64)
    }
}

} // verus!
