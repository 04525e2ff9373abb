use crate::eval::Eval;
use vstd::prelude::*;

verus! {

/// What reading a line from the user came to.
pub enum Input {
    /// A line of input.
    Line(String),
    /// The user interrupted the prompt.
    Interrupted,
    /// The input has ended.
    Eof,
    /// The line could not be read.
    Failed,
}

/// What the loop does next.
pub enum Action {
    /// Print an answer and prompt again.
    Print(String),
    /// Print a complaint and prompt again.
    Complain(String),
    /// Leave the loop.
    Stop,
}

/// What the loop does with what an evaluator returned: it prints the answer,
/// or the complaint, and goes on.
pub fn respond(result: Result<String, String>) -> (a: Action)
    ensures
        a == match result {
            Ok(t) => Action::Print(t),
            Err(t) => Action::Complain(t),
        },
{
    match result {
        Ok(t) => Action::Print(t),
        Err(t) => Action::Complain(t),
    }
}

/// One turn of the loop: a line is evaluated and answered with what the
/// evaluator returned for it, anything else ends the loop.
pub fn step<T: Eval>(eval: &mut T, input: Input) -> (a: Action)
    ensures
        a is Stop <==> !(input is Line),
        input matches Input::Line(l) ==> exists|e: &mut T, s: &str, r: Result<String, String>|
            s@ == l@ && #[trigger] call_ensures(T::eval, (e, s), r) && a == (match r {
                Ok(t) => Action::Print(t),
                Err(t) => Action::Complain(t),
            }),
{
    match input {
        Input::Line(line) => respond(eval.eval(line.as_str())),
        Input::Interrupted => Action::Stop,
        Input::Eof => Action::Stop,
        Input::Failed => Action::Stop,
    }
}

} // verus!
