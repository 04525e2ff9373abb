use lassie::eval::{Eval, Parser};
use lassie::repl::{respond, step, Action, Input};

struct Echo;

impl Eval for Echo {}

fn shown(a: Action) -> String {
    match a {
        Action::Print(t) => format!("out: {}", t),
        Action::Complain(t) => format!("err: {}", t),
        Action::Stop => "stop".to_string(),
    }
}

#[test]
fn a_line_evaluates_to_itself_by_default() {
    assert_eq!(Echo.eval("(a 'b)").unwrap(), "(a 'b)");
}

#[test]
fn respond_prints_or_complains() {
    assert_eq!(shown(respond(Ok("a".to_string()))), "out: a");
    assert_eq!(shown(respond(Err("b".to_string()))), "err: b");
}

#[test]
fn step_answers_a_line() {
    let mut p = Parser;
    assert_eq!(shown(step(&mut p, Input::Line("'a".to_string()))), "out: (quote a)");
    assert_eq!(
        shown(step(&mut p, Input::Line("]".to_string()))),
        "err: error: got: ] at: 1:1 expected: one of \"(\", \";\", \"[\", \"\\\"\", \"{\", EOF, float, integer, prefix, symbol"
    );
    let mut e = Echo;
    assert_eq!(shown(step(&mut e, Input::Line("]".to_string()))), "out: ]");
}

#[test]
fn step_stops_without_a_line() {
    let mut p = Parser;
    assert_eq!(shown(step(&mut p, Input::Interrupted)), "stop");
    assert_eq!(shown(step(&mut p, Input::Eof)), "stop");
    assert_eq!(shown(step(&mut p, Input::Failed)), "stop");
}
