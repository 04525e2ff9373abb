use core::ops::Range;
use rustc_ap_rustc_lexer::unescape::{unescape_literal, EscapeError, Mode};
use vstd::pervasive::unreached;
use vstd::prelude::*;

verus! {

/// The reason `rustc_ap_rustc_lexer` gives for refusing an escape. Nothing is
/// known of a value but that it can be handed on.
#[verifier::external_type_specification]
#[verifier::external_body]
pub struct ExEscapeError(EscapeError);

/// One step of unescaping: the bytes of the literal that the step covers, and
/// the character they stand for or the reason they stand for none.
pub type Event = (Range<usize>, Result<char, EscapeError>);

/// What `unescape_literal` of `rustc_ap_rustc_lexer` reports, in order, for the
/// contents `s` of a string literal in `Mode::Str`.
pub uninterp spec fn literal_events(s: Seq<char>) -> Seq<Event>;

/// Calls `unescape_literal` of `rustc_ap_rustc_lexer` on `s` in `Mode::Str` and
/// gathers what it hands to its callback, in the order of the calls. The steps
/// depend on `s` alone; no more is claimed of them.
#[verifier::external_body]
fn events_of(s: &str) -> (r: Vec<Event>)
    ensures
        r@ == literal_events(s@),
{
    let mut r = Vec::new();
    unescape_literal(s, Mode::Str, &mut |range, c| r.push((range, c)));
    r
}

/// `t` put in front of the text of `r`, if `r` is a text.
pub open spec fn prepend(t: Seq<char>, r: Result<Seq<char>, (Range<usize>, EscapeError)>) -> Result<
    Seq<char>,
    (Range<usize>, EscapeError),
> {
    match r {
        Ok(u) => Ok(t + u),
        Err(x) => Err(x),
    }
}

/// What a run of steps comes to: the characters in order if every step gave
/// one, else the range and reason of the first step that gave none.
pub open spec fn collected(events: Seq<Event>) -> Result<Seq<char>, (Range<usize>, EscapeError)>
    decreases events.len(),
{
    if events.len() == 0 {
        Ok(seq![])
    } else {
        match events[0].1 {
            Err(e) => Err((events[0].0, e)),
            Ok(c) => prepend(seq![c], collected(events.drop_first())),
        }
    }
}

/// The unescaped text of the literal contents `s`, or the range and reason of
/// its first bad escape.
pub open spec fn unescaped(s: Seq<char>) -> Result<Seq<char>, (Range<usize>, EscapeError)> {
    collected(literal_events(s))
}

/// Whether `r` is the executable form of `want`.
pub open spec fn agrees(
    r: Result<String, (Range<usize>, EscapeError)>,
    want: Result<Seq<char>, (Range<usize>, EscapeError)>,
) -> bool {
    match r {
        Ok(t) => want == Ok::<Seq<char>, (Range<usize>, EscapeError)>(t@),
        Err(x) => want == Err::<Seq<char>, (Range<usize>, EscapeError)>(x),
    }
}

/// Gathers the characters of a run of steps, or gives back the range and
/// reason of the first step that has no character.
pub fn collect(events: Vec<Event>) -> (r: Result<String, (Range<usize>, EscapeError)>)
    ensures
        agrees(r, collected(events@)),
{
    let ghost all = events@;
    let mut pending = events;
    let mut text = String::new();
    let mut i: usize = 0;
    assert(all.skip(0) =~= all);
    assert(text@ + Seq::<char>::empty() =~= text@);
    while i < pending.len()
        invariant
            i <= pending.len(),
            pending@ == all,
            all == events@,
            collected(all) == prepend(text@, collected(all.skip(i as int))),
        decreases pending.len() - i,
    {
        let ghost rest = all.skip(i as int);
        let ghost so_far = text@;
        assert(rest.drop_first() =~= all.skip(i + 1));
        assert(rest[0] == all[i as int]);
        match &pending[i].1 {
            Ok(c) => {
                text.push(*c);
                proof {
                    let tail = collected(rest.drop_first());
                    match tail {
                        Ok(u) => {
                            assert(so_far + (seq![*c] + u) =~= text@ + u);
                        },
                        Err(_) => {},
                    }
                }
            },
            Err(_) => {
                assert(rest[0].1 is Err);
                let bad = pending.remove(i);
                assert(bad == rest[0]);
                let (range, outcome) = bad;
                return match outcome {
                    Err(e) => {
                        assert(collected(rest) == Err::<Seq<char>, (Range<usize>, EscapeError)>(
                            (range, e),
                        ));
                        Err((range, e))
                    },
                    Ok(_) => unreached(),
                };
            },
        }
        i = i + 1;
    }
    assert(all.skip(i as int) =~= Seq::<Event>::empty());
    assert(text@ + Seq::<char>::empty() =~= text@);
    Ok(text)
}

/// Resolves the escapes of the literal contents `s`: the unescaped text, or
/// the byte range and reason of the first bad escape.
pub fn unescape(s: &str) -> (r: Result<String, (Range<usize>, EscapeError)>)
    ensures
        agrees(r, unescaped(s@)),
{
    collect(events_of(s))
}

} // verus!
