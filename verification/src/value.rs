use vstd::prelude::*;

verus! {

/// A colour held by whoever performs colour requests; the library only passes
/// it along, by this handle.
#[derive(Debug, Clone, Copy, PartialEq, Eq)]
pub struct ColourHandle {
    pub id: usize,
}

impl View for ColourHandle {
    type V = ColourHandle;

    open spec fn view(&self) -> ColourHandle {
        *self
    }
}

/// A number, by where it came from; its single-precision value is what the
/// request performer computes from it.
#[derive(Debug, Clone, PartialEq)]
pub enum Number {
    /// Decimal text that `parse::<f32>` accepts.
    Literal(String),
    /// A TOML integer, converted with `as f32`.
    Integer(i64),
    /// A TOML float, by its shortest round-trip decimal text, converted with `as f32`.
    Float(String),
}

pub enum SpecNumber {
    Literal(Seq<char>),
    Integer(i64),
    Float(Seq<char>),
}

impl View for Number {
    type V = SpecNumber;

    open spec fn view(&self) -> SpecNumber {
        match self {
            Number::Literal(s) => SpecNumber::Literal(s@),
            Number::Integer(i) => SpecNumber::Integer(*i),
            Number::Float(s) => SpecNumber::Float(s@),
        }
    }
}

/// The result of evaluating an expression.
#[derive(Debug, Clone, PartialEq)]
pub enum Value {
    Colour(ColourHandle),
    Number(Number),
    String(String),
}

pub enum SpecValue {
    Colour(ColourHandle),
    Number(SpecNumber),
    String(Seq<char>),
}

impl View for Value {
    type V = SpecValue;

    open spec fn view(&self) -> SpecValue {
        match self {
            Value::Colour(c) => SpecValue::Colour(*c),
            Value::Number(n) => SpecValue::Number(n@),
            Value::String(s) => SpecValue::String(s@),
        }
    }
}

pub open spec fn values_view(vs: Seq<Value>) -> Seq<SpecValue> {
    vs.map_values(|v: Value| v@)
}

/// The textual forms of a colour.
#[derive(Debug, Clone, Copy, PartialEq, Eq)]
pub enum ColourFormat {
    Hex,
    Rgb,
    Hsv,
}

/// Work that the evaluator hands out: colour arithmetic, and reading and writing
/// single-precision numbers.
#[derive(Debug, Clone, PartialEq)]
pub enum Request {
    /// Does `text.parse::<f32>()` succeed? Answered by a flag.
    ParseNumber(String),
    /// Build a colour from `text`. Answered by a colour or an error message.
    ParseColour(String),
    /// The `to_string` of the number's single-precision value. Answered by a text.
    NumberText(Number),
    /// The `to_string` of the colour in the format. Answered by a text.
    ColourText(ColourFormat, ColourHandle),
    /// Darken the colour by the amount. Answered by a colour or an error message.
    Darken(ColourHandle, Number),
    /// Blend the two colours by the ratio. Answered by a colour or an error message.
    Blend(ColourHandle, ColourHandle, Number),
    /// Multiply the colour's brightness. Answered by a colour or an error message.
    MultiplyBrightness(ColourHandle, Number),
}

pub enum SpecRequest {
    ParseNumber(Seq<char>),
    ParseColour(Seq<char>),
    NumberText(SpecNumber),
    ColourText(ColourFormat, ColourHandle),
    Darken(ColourHandle, SpecNumber),
    Blend(ColourHandle, ColourHandle, SpecNumber),
    MultiplyBrightness(ColourHandle, SpecNumber),
}

impl View for Request {
    type V = SpecRequest;

    open spec fn view(&self) -> SpecRequest {
        match self {
            Request::ParseNumber(s) => SpecRequest::ParseNumber(s@),
            Request::ParseColour(s) => SpecRequest::ParseColour(s@),
            Request::NumberText(n) => SpecRequest::NumberText(n@),
            Request::ColourText(f, c) => SpecRequest::ColourText(*f, *c),
            Request::Darken(c, n) => SpecRequest::Darken(*c, n@),
            Request::Blend(c1, c2, n) => SpecRequest::Blend(*c1, *c2, n@),
            Request::MultiplyBrightness(c, n) => SpecRequest::MultiplyBrightness(*c, n@),
        }
    }
}

/// The reply to a request.
#[derive(Debug, PartialEq)]
pub enum Answer {
    Flag(bool),
    Text(String),
    Colour(Result<ColourHandle, String>),
}

/// An answer read as a flag; an answer of another shape reads as `false`.
pub open spec fn answer_flag(a: Answer) -> bool {
    match a {
        Answer::Flag(b) => b,
        _ => false,
    }
}

/// An answer read as a text; an answer of another shape reads as the empty text.
pub open spec fn answer_text(a: Answer) -> Seq<char> {
    match a {
        Answer::Text(s) => s@,
        _ => Seq::empty(),
    }
}

/// An answer read as a colour; an answer of another shape reads as an error
/// with an empty message.
pub open spec fn answer_colour(a: Answer) -> Result<ColourHandle, Seq<char>> {
    match a {
        Answer::Colour(Ok(c)) => Ok(c),
        Answer::Colour(Err(m)) => Err(m@),
        _ => Err(Seq::empty()),
    }
}

/// The answer numbered `k`, if it has been given.
pub open spec fn answer_at(answers: Seq<Answer>, k: int) -> Option<Answer> {
    if 0 <= k < answers.len() {
        Some(answers[k])
    } else {
        None
    }
}

pub fn read_flag(a: &Answer) -> (b: bool)
    ensures
        b == answer_flag(*a),
{
    match a {
        Answer::Flag(b) => *b,
        _ => false,
    }
}

pub fn read_text(a: &Answer) -> (s: String)
    ensures
        s@ == answer_text(*a),
{
    match a {
        Answer::Text(s) => s.clone(),
        _ => String::new(),
    }
}

pub fn read_colour(a: &Answer) -> (r: Result<ColourHandle, String>)
    ensures
        match r {
            Ok(c) => answer_colour(*a) == Ok::<ColourHandle, Seq<char>>(c),
            Err(m) => answer_colour(*a) == Err::<ColourHandle, Seq<char>>(m@),
        },
{
    match a {
        Answer::Colour(Ok(c)) => Ok(*c),
        Answer::Colour(Err(m)) => Err(m.clone()),
        _ => Err(String::new()),
    }
}

/// Where an evaluation stands: finished with a result, or waiting for the answer
/// to a request.
#[derive(Debug, PartialEq)]
pub enum Step<T> {
    Done(Result<T, String>),
    Need(Request),
}

pub enum SpecStep<T> {
    Done(Result<T, Seq<char>>),
    Need(SpecRequest),
}

pub open spec fn step_view<T: View>(s: Step<T>) -> SpecStep<T::V> {
    match s {
        Step::Done(Ok(v)) => SpecStep::Done(Ok(v@)),
        Step::Done(Err(e)) => SpecStep::Done(Err(e@)),
        Step::Need(r) => SpecStep::Need(r@),
    }
}

pub fn copy_value(v: &Value) -> (r: Value)
    ensures
        r == *v,
{
    match v {
        Value::Colour(c) => Value::Colour(*c),
        Value::Number(Number::Literal(s)) => Value::Number(Number::Literal(s.clone())),
        Value::Number(Number::Integer(i)) => Value::Number(Number::Integer(*i)),
        Value::Number(Number::Float(s)) => Value::Number(Number::Float(s.clone())),
        Value::String(s) => Value::String(s.clone()),
    }
}

pub fn copy_number(n: &Number) -> (r: Number)
    ensures
        r == *n,
{
    match n {
        Number::Literal(s) => Number::Literal(s.clone()),
        Number::Integer(i) => Number::Integer(*i),
        Number::Float(s) => Number::Float(s.clone()),
    }
}

} // verus!
