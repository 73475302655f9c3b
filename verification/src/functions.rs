use rand::seq::IndexedRandom;
use vstd::prelude::*;

use crate::text::{concat2, decimal, usize_to_decimal};
use crate::value::{
    answer_at, answer_colour, copy_number, copy_value, read_colour, step_view, values_view, Answer,
    ColourHandle, Request, SpecRequest, SpecStep, SpecValue, Step, Value,
};

verus! {

/// Reads an argument as a colour: a colour as it is, a string by asking for it to
/// be parsed as a colour; anything else, or a string that does not parse, fails
/// with `err`.
pub open spec fn colour_arg(v: SpecValue, answers: Seq<Answer>, k: int, err: Seq<char>) -> (
    SpecStep<ColourHandle>,
    int,
) {
    match v {
        SpecValue::Colour(c) => (SpecStep::Done(Ok(c)), k),
        SpecValue::String(s) => match answer_at(answers, k) {
            None => (SpecStep::Need(SpecRequest::ParseColour(s)), k),
            Some(a) => (
                SpecStep::Done(
                    match answer_colour(a) {
                        Ok(c) => Ok(c),
                        Err(_) => Err(err),
                    },
                ),
                k + 1,
            ),
        },
        SpecValue::Number(_) => (SpecStep::Done(Err(err)), k),
    }
}

/// Asks for a colour operation; its failure message follows `prefix`.
pub open spec fn colour_op(req: SpecRequest, answers: Seq<Answer>, k: int, prefix: Seq<char>) -> (
    SpecStep<SpecValue>,
    int,
) {
    match answer_at(answers, k) {
        None => (SpecStep::Need(req), k),
        Some(a) => (
            SpecStep::Done(
                match answer_colour(a) {
                    Ok(c) => Ok(SpecValue::Colour(c)),
                    Err(m) => Err(prefix + m),
                },
            ),
            k + 1,
        ),
    }
}

pub open spec fn arity_message(name: Seq<char>, expected: Seq<char>, got: nat) -> Seq<char> {
    name + " function expects "@ + expected + " arguments, got "@ + decimal(got)
}

/// `darken(colour, amount)`.
pub open spec fn spec_darken(args: Seq<SpecValue>, answers: Seq<Answer>, k: int) -> (
    SpecStep<SpecValue>,
    int,
) {
    if args.len() != 2 {
        (SpecStep::Done(Err(arity_message("darken"@, "2"@, args.len()))), k)
    } else {
        let (c, k1) = colour_arg(args[0], answers, k, "First argument to darken must be a colour"@);
        match c {
            SpecStep::Need(r) => (SpecStep::Need(r), k1),
            SpecStep::Done(Err(m)) => (SpecStep::Done(Err(m)), k1),
            SpecStep::Done(Ok(colour)) => match args[1] {
                SpecValue::Number(n) => colour_op(
                    SpecRequest::Darken(colour, n),
                    answers,
                    k1,
                    "Failed to darken colour: "@,
                ),
                _ => (SpecStep::Done(Err("Second argument to darken must be a number"@)), k1),
            },
        }
    }
}

/// `blend(colour, other, ratio)`. Both colours are read from the first argument;
/// the second argument is not inspected.
pub open spec fn spec_blend(args: Seq<SpecValue>, answers: Seq<Answer>, k: int) -> (
    SpecStep<SpecValue>,
    int,
) {
    if args.len() != 3 {
        (SpecStep::Done(Err(arity_message("blend"@, "3"@, args.len()))), k)
    } else {
        let (c1, k1) = colour_arg(args[0], answers, k, "First argument to blend must be a colour"@);
        match c1 {
            SpecStep::Need(r) => (SpecStep::Need(r), k1),
            SpecStep::Done(Err(m)) => (SpecStep::Done(Err(m)), k1),
            SpecStep::Done(Ok(colour1)) => {
                let (c2, k2) = colour_arg(
                    args[0],
                    answers,
                    k1,
                    "Second argument to blend must be a colour"@,
                );
                match c2 {
                    SpecStep::Need(r) => (SpecStep::Need(r), k2),
                    SpecStep::Done(Err(m)) => (SpecStep::Done(Err(m)), k2),
                    SpecStep::Done(Ok(colour2)) => match args[2] {
                        SpecValue::Number(n) => colour_op(
                            SpecRequest::Blend(colour1, colour2, n),
                            answers,
                            k2,
                            "Failed to blend colours: "@,
                        ),
                        _ => (SpecStep::Done(Err("Third argument to blend must be a number"@)), k2),
                    },
                }
            },
        }
    }
}

/// `multiply_brightness(colour, multiplier)`.
pub open spec fn spec_multiply_brightness(args: Seq<SpecValue>, answers: Seq<Answer>, k: int) -> (
    SpecStep<SpecValue>,
    int,
) {
    if args.len() != 2 {
        (SpecStep::Done(Err(arity_message("multiply_brightness"@, "2"@, args.len()))), k)
    } else {
        let (c, k1) = colour_arg(
            args[0],
            answers,
            k,
            "First argument to multiply_brightness must be a colour"@,
        );
        match c {
            SpecStep::Need(r) => (SpecStep::Need(r), k1),
            SpecStep::Done(Err(m)) => (SpecStep::Done(Err(m)), k1),
            SpecStep::Done(Ok(colour)) => match args[1] {
                SpecValue::Number(n) => colour_op(
                    SpecRequest::MultiplyBrightness(colour, n),
                    answers,
                    k1,
                    "Failed to modify brightness: "@,
                ),
                _ => (
                    SpecStep::Done(Err("Second argument to multiply_brightness must be a number"@)),
                    k1,
                ),
            },
        }
    }
}

fn colour_arg_exec(v: &Value, answers: &Vec<Answer>, k: usize, err: &str) -> (r: (
    Step<ColourHandle>,
    usize,
))
    requires
        k <= answers@.len(),
    ensures
        (step_view(r.0), r.1 as int) == colour_arg(v@, answers@, k as int, err@),
        r.1 <= answers@.len(),
{
    match v {
        Value::Colour(c) => (Step::Done(Ok(*c)), k),
        Value::String(s) => {
            if k >= answers.len() {
                return (Step::Need(Request::ParseColour(s.clone())), k);
            }
            match read_colour(&answers[k]) {
                Ok(c) => (Step::Done(Ok(c)), k + 1),
                Err(_) => (Step::Done(Err(String::from_str(err))), k + 1),
            }
        },
        Value::Number(_) => (Step::Done(Err(String::from_str(err))), k),
    }
}

fn colour_op_exec(req: Request, answers: &Vec<Answer>, k: usize, prefix: &str) -> (r: (
    Step<Value>,
    usize,
))
    requires
        k <= answers@.len(),
    ensures
        (step_view(r.0), r.1 as int) == colour_op(req@, answers@, k as int, prefix@),
        r.1 <= answers@.len(),
{
    if k >= answers.len() {
        return (Step::Need(req), k);
    }
    match read_colour(&answers[k]) {
        Ok(c) => (Step::Done(Ok(Value::Colour(c))), k + 1),
        Err(m) => (Step::Done(Err(concat2(prefix, m.as_str()))), k + 1),
    }
}

fn arity_error(name: &str, expected: &str, got: usize) -> (e: String)
    ensures
        e@ == arity_message(name@, expected@, got as nat),
{
    let mut e = concat2(name, " function expects ");
    e.append(expected);
    e.append(" arguments, got ");
    let d = usize_to_decimal(got);
    e.append(d.as_str());
    e
}

/// Applies `darken`; see `spec_darken`.
pub fn builtin_darken(args: &[Value], answers: &Vec<Answer>, k: usize) -> (r: (Step<Value>, usize))
    requires
        k <= answers@.len(),
    ensures
        (step_view(r.0), r.1 as int) == spec_darken(values_view(args@), answers@, k as int),
        r.1 <= answers@.len(),
{
    if args.len() != 2 {
        return (Step::Done(Err(arity_error("darken", "2", args.len()))), k);
    }
    let (c, k1) = colour_arg_exec(&args[0], answers, k, "First argument to darken must be a colour");
    let colour = match c {
        Step::Done(Ok(colour)) => colour,
        Step::Done(Err(m)) => return (Step::Done(Err(m)), k1),
        Step::Need(r) => return (Step::Need(r), k1),
    };
    match &args[1] {
        Value::Number(n) => colour_op_exec(
            Request::Darken(colour, copy_number(n)),
            answers,
            k1,
            "Failed to darken colour: ",
        ),
        _ => (Step::Done(Err(String::from_str("Second argument to darken must be a number"))), k1),
    }
}

/// Applies `blend`; see `spec_blend`.
pub fn builtin_blend(args: &[Value], answers: &Vec<Answer>, k: usize) -> (r: (Step<Value>, usize))
    requires
        k <= answers@.len(),
    ensures
        (step_view(r.0), r.1 as int) == spec_blend(values_view(args@), answers@, k as int),
        r.1 <= answers@.len(),
{
    if args.len() != 3 {
        return (Step::Done(Err(arity_error("blend", "3", args.len()))), k);
    }
    let (c1, k1) = colour_arg_exec(&args[0], answers, k, "First argument to blend must be a colour");
    let colour1 = match c1 {
        Step::Done(Ok(colour)) => colour,
        Step::Done(Err(m)) => return (Step::Done(Err(m)), k1),
        Step::Need(r) => return (Step::Need(r), k1),
    };
    let (c2, k2) = colour_arg_exec(
        &args[0],
        answers,
        k1,
        "Second argument to blend must be a colour",
    );
    let colour2 = match c2 {
        Step::Done(Ok(colour)) => colour,
        Step::Done(Err(m)) => return (Step::Done(Err(m)), k2),
        Step::Need(r) => return (Step::Need(r), k2),
    };
    match &args[2] {
        Value::Number(n) => colour_op_exec(
            Request::Blend(colour1, colour2, copy_number(n)),
            answers,
            k2,
            "Failed to blend colours: ",
        ),
        _ => (Step::Done(Err(String::from_str("Third argument to blend must be a number"))), k2),
    }
}

/// Applies `multiply_brightness`; see `spec_multiply_brightness`.
pub fn builtin_multiply_brightness(args: &[Value], answers: &Vec<Answer>, k: usize) -> (r: (
    Step<Value>,
    usize,
))
    requires
        k <= answers@.len(),
    ensures
        (step_view(r.0), r.1 as int) == spec_multiply_brightness(
            values_view(args@),
            answers@,
            k as int,
        ),
        r.1 <= answers@.len(),
{
    if args.len() != 2 {
        return (Step::Done(Err(arity_error("multiply_brightness", "2", args.len()))), k);
    }
    let (c, k1) = colour_arg_exec(
        &args[0],
        answers,
        k,
        "First argument to multiply_brightness must be a colour",
    );
    let colour = match c {
        Step::Done(Ok(colour)) => colour,
        Step::Done(Err(m)) => return (Step::Done(Err(m)), k1),
        Step::Need(r) => return (Step::Need(r), k1),
    };
    match &args[1] {
        Value::Number(n) => colour_op_exec(
            Request::MultiplyBrightness(colour, copy_number(n)),
            answers,
            k1,
            "Failed to modify brightness: ",
        ),
        _ => (
            Step::Done(
                Err(String::from_str("Second argument to multiply_brightness must be a number")),
            ),
            k1,
        ),
    }
}

/// `IndexedRandom::choose` with the thread-local generator (`rand::rng()`): an
/// element of `args` picked at random, or `None` for an empty slice. Which element
/// comes back is left open; it is one of them.
#[verifier::external_body]
fn choose_value<'v>(args: &'v [Value]) -> (r: Option<&'v Value>)
    ensures
        r is None <==> args@.len() == 0,
        r matches Some(v) ==> args@.contains(*v),
{
    args.choose(&mut rand::rng())
}

/// Picks one of the arguments at random; fails on no arguments.
pub fn builtin_random_select(args: &[Value]) -> (r: Result<Value, String>)
    ensures
        args@.len() == 0 <==> r is Err,
        r matches Ok(v) ==> args@.contains(v),
        r matches Err(m) ==> m@ == "random_select function expects at least 1 argument"@,
{
    if args.len() == 0 {
        return Err(String::from_str("random_select function expects at least 1 argument"));
    }
    match choose_value(args) {
        Some(selected) => Ok(copy_value(selected)),
        None => Err(String::from_str("Failed to select a random value")),
    }
}

} // verus!
