use vstd::prelude::*;

use crate::ast::{expr_view, path_view, template_expr_view, Expr, SpecExpr, SpecTemplateExpr, TemplateExpr};
use crate::functions::{
    builtin_blend, builtin_darken, builtin_multiply_brightness, spec_blend, spec_darken,
    spec_multiply_brightness,
};
use crate::text::{concat2, concat3, push_quoted, quoted, str_eq};
use crate::toml_model::{push_value_debug, value_debug, TomlTable, TomlValue};
use crate::value::{
    answer_at, answer_colour, answer_flag, answer_text, read_colour, read_flag, read_text, step_view,
    values_view, Answer, ColourFormat, ColourHandle, Number, Request, SpecNumber, SpecRequest,
    SpecStep, SpecValue, Step, Value,
};

verus! {

/// Follows a dotted path from part `i` on. `current` is the value reached so far;
/// `None` means nothing was found, and the next part is then looked up in the
/// root table again.
pub open spec fn walk(root: TomlTable, parts: Seq<Seq<char>>, i: int, current: Option<TomlValue>) -> Result<
    Option<TomlValue>,
    Seq<char>,
>
    decreases parts.len() - i,
{
    if i < 0 || i >= parts.len() {
        Ok(current)
    } else {
        match current {
            None => walk(root, parts, i + 1, root.spec_get(parts[i])),
            Some(TomlValue::Table(t)) => walk(root, parts, i + 1, t.spec_get(parts[i])),
            Some(_) => Err("Invalid path: '"@ + parts[i] + "' is not a table"@),
        }
    }
}

/// How `{:?}` shows the parts of a path from index `i` on.
pub open spec fn path_debug_from(parts: Seq<Seq<char>>, i: int) -> Seq<char>
    decreases parts.len() - i,
{
    if i < 0 || i >= parts.len() {
        seq![]
    } else {
        (if i == 0 {
            seq![]
        } else {
            ", "@
        }) + quoted(parts[i]) + path_debug_from(parts, i + 1)
    }
}

/// The value that a dotted path names in the TOML table.
pub open spec fn lookup_path(root: TomlTable, parts: Seq<Seq<char>>) -> Result<SpecValue, Seq<char>> {
    match walk(root, parts, 0, None) {
        Err(m) => Err(m),
        Ok(Some(TomlValue::String(s))) => Ok(SpecValue::String(s@)),
        Ok(Some(TomlValue::Integer(i))) => Ok(SpecValue::Number(SpecNumber::Integer(i))),
        Ok(Some(TomlValue::Float(f))) => Ok(SpecValue::Number(SpecNumber::Float(f@))),
        Ok(Some(v)) => Err(
            "Expected a string at the end of the path, got Some("@ + value_debug(v) + ")"@,
        ),
        Ok(None) => Err("Path not found in TOML: "@ + "["@ + path_debug_from(parts, 0) + "]"@),
    }
}

/// Evaluates an expression, reading the answers from number `k` on; yields where
/// it stands and the number of the next answer to read.
pub open spec fn eval_expr(env: TomlTable, e: SpecExpr, answers: Seq<Answer>, k: int) -> (
    SpecStep<SpecValue>,
    int,
)
    decreases e, 0int,
{
    match e {
        SpecExpr::Number(n) => match answer_at(answers, k) {
            None => (SpecStep::Need(SpecRequest::ParseNumber(n)), k),
            Some(a) => (
                SpecStep::Done(
                    if answer_flag(a) {
                        Ok(SpecValue::Number(SpecNumber::Literal(n)))
                    } else {
                        Err("Failed to parse number: "@ + n)
                    },
                ),
                k + 1,
            ),
        },
        SpecExpr::Hex(h) => match answer_at(answers, k) {
            None => (SpecStep::Need(SpecRequest::ParseColour(h)), k),
            Some(a) => (
                SpecStep::Done(
                    match answer_colour(a) {
                        Ok(c) => Ok(SpecValue::Colour(c)),
                        Err(m) => Err("Failed to parse hex colour '"@ + h + "': "@ + m),
                    },
                ),
                k + 1,
            ),
        },
        SpecExpr::Identifier(parts) => (
            match lookup_path(env, parts) {
                Ok(v) => SpecStep::Done(Ok(v)),
                Err(m) => SpecStep::Done(Err(m)),
            },
            k,
        ),
        SpecExpr::Function(name, args) => {
            let (s, k1) = eval_args(env, args, 0, seq![], answers, k);
            match s {
                SpecStep::Need(r) => (SpecStep::Need(r), k1),
                SpecStep::Done(Err(m)) => (SpecStep::Done(Err(m)), k1),
                SpecStep::Done(Ok(vals)) => call_builtin(name, vals, answers, k1),
            }
        },
    }
}

/// Evaluates the arguments from index `i` on, in order, after the values `acc`.
pub open spec fn eval_args(
    env: TomlTable,
    args: Seq<SpecExpr>,
    i: int,
    acc: Seq<SpecValue>,
    answers: Seq<Answer>,
    k: int,
) -> (SpecStep<Seq<SpecValue>>, int)
    decreases args, args.len() - i,
{
    if i < 0 || i >= args.len() {
        (SpecStep::Done(Ok(acc)), k)
    } else {
        let (s, k1) = eval_expr(env, args[i], answers, k);
        match s {
            SpecStep::Need(r) => (SpecStep::Need(r), k1),
            SpecStep::Done(Err(m)) => (SpecStep::Done(Err(m)), k1),
            SpecStep::Done(Ok(v)) => eval_args(env, args, i + 1, acc.push(v), answers, k1),
        }
    }
}

/// Applies the function named `name`: `darken`, `blend` or `multiply_brightness`.
pub open spec fn call_builtin(name: Seq<char>, vals: Seq<SpecValue>, answers: Seq<Answer>, k: int) -> (
    SpecStep<SpecValue>,
    int,
) {
    if name == "darken"@ {
        spec_darken(vals, answers, k)
    } else if name == "blend"@ {
        spec_blend(vals, answers, k)
    } else if name == "multiply_brightness"@ {
        spec_multiply_brightness(vals, answers, k)
    } else {
        (SpecStep::Done(Err("Undefined function: "@ + name)), k)
    }
}

/// Asks for the text of a colour in a format.
pub open spec fn colour_text(f: ColourFormat, c: ColourHandle, answers: Seq<Answer>, k: int) -> (
    SpecStep<Seq<char>>,
    int,
) {
    match answer_at(answers, k) {
        None => (SpecStep::Need(SpecRequest::ColourText(f, c)), k),
        Some(a) => (SpecStep::Done(Ok(answer_text(a))), k + 1),
    }
}

/// Asks for the text of a number.
pub open spec fn number_text(n: SpecNumber, answers: Seq<Answer>, k: int) -> (SpecStep<Seq<char>>, int) {
    match answer_at(answers, k) {
        None => (SpecStep::Need(SpecRequest::NumberText(n)), k),
        Some(a) => (SpecStep::Done(Ok(answer_text(a))), k + 1),
    }
}

pub open spec fn colour_format_named(fmt: Seq<char>) -> Option<ColourFormat> {
    if fmt == "hex"@ {
        Some(ColourFormat::Hex)
    } else if fmt == "rgb"@ {
        Some(ColourFormat::Rgb)
    } else if fmt == "hsv"@ {
        Some(ColourFormat::Hsv)
    } else {
        None
    }
}

pub open spec fn number_in_colour_format_message(f: ColourFormat) -> Seq<char> {
    match f {
        ColourFormat::Hex => "Expected a hex value, got a number"@,
        ColourFormat::Rgb => "Expected an rgb value, got a number"@,
        ColourFormat::Hsv => "Expected an hsv value, got a number"@,
    }
}

/// Writes a value in the format `fmt`: `hex`, `rgb` or `hsv` (a colour, or a string
/// that parses as one), `str` (any value) or `num` (a number, or a string that
/// parses as one).
pub open spec fn render(fmt: Seq<char>, v: SpecValue, answers: Seq<Answer>, k: int) -> (
    SpecStep<Seq<char>>,
    int,
) {
    match colour_format_named(fmt) {
        Some(f) => match v {
            SpecValue::String(s) => match answer_at(answers, k) {
                None => (SpecStep::Need(SpecRequest::ParseColour(s)), k),
                Some(a) => match answer_colour(a) {
                    Ok(c) => colour_text(f, c, answers, k + 1),
                    Err(m) => (
                        SpecStep::Done(Err("Failed to parse '"@ + s + "' as a colour: "@ + m)),
                        k + 1,
                    ),
                },
            },
            SpecValue::Colour(c) => colour_text(f, c, answers, k),
            SpecValue::Number(_) => (SpecStep::Done(Err(number_in_colour_format_message(f))), k),
        },
        None => {
            if fmt == "str"@ {
                match v {
                    SpecValue::String(s) => (SpecStep::Done(Ok(s)), k),
                    SpecValue::Colour(c) => colour_text(ColourFormat::Hex, c, answers, k),
                    SpecValue::Number(n) => number_text(n, answers, k),
                }
            } else if fmt == "num"@ {
                match v {
                    SpecValue::Number(n) => number_text(n, answers, k),
                    SpecValue::String(s) => match answer_at(answers, k) {
                        None => (SpecStep::Need(SpecRequest::ParseNumber(s)), k),
                        Some(a) => if answer_flag(a) {
                            number_text(SpecNumber::Literal(s), answers, k + 1)
                        } else {
                            (SpecStep::Done(Err("Failed to parse '"@ + s + "' as a number"@)), k + 1)
                        },
                    },
                    SpecValue::Colour(c) => {
                        let (t, k1) = colour_text(ColourFormat::Hex, c, answers, k);
                        match t {
                            SpecStep::Done(Ok(hex)) => (
                                SpecStep::Done(
                                    Err("Cannot convert colour '"@ + hex + "' to a number"@),
                                ),
                                k1,
                            ),
                            other => (other, k1),
                        }
                    },
                }
            } else {
                (SpecStep::Done(Err("Unsupported format: "@ + fmt)), k)
            }
        },
    }
}

/// Evaluates a template expression and writes its value in its format.
pub open spec fn spec_evaluate(env: TomlTable, t: SpecTemplateExpr, answers: Seq<Answer>, k: int) -> (
    SpecStep<Seq<char>>,
    int,
) {
    let (s, k1) = eval_expr(env, t.expr, answers, k);
    match s {
        SpecStep::Need(r) => (SpecStep::Need(r), k1),
        SpecStep::Done(Err(m)) => (SpecStep::Done(Err(m)), k1),
        SpecStep::Done(Ok(v)) => render(t.format, v, answers, k1),
    }
}

pub struct Evaluator<'a> {
    toml_table: &'a TomlTable,
}

impl<'a> Evaluator<'a> {
    /// The table that identifiers are looked up in.
    pub closed spec fn table(&self) -> TomlTable {
        *self.toml_table
    }

    pub fn new(toml_table: &'a TomlTable) -> (e: Self)
        ensures
            e.table() == *toml_table,
    {
        Self { toml_table }
    }

    /// Evaluates `template` with the answers given so far; see `spec_evaluate`.
    pub fn evaluate(&self, template: &TemplateExpr, answers: &Vec<Answer>) -> (s: Step<String>)
        ensures
            step_view(s) == spec_evaluate(self.table(), template_expr_view(*template), answers@, 0).0,
    {
        self.evaluate_from(template, answers, 0).0
    }

    /// Evaluates `template` reading the answers from number `k` on; yields where it
    /// stands and the number of the next answer to read.
    pub fn evaluate_from(&self, template: &TemplateExpr, answers: &Vec<Answer>, k: usize) -> (r: (
        Step<String>,
        usize,
    ))
        requires
            k <= answers@.len(),
        ensures
            (step_view(r.0), r.1 as int) == spec_evaluate(
                self.table(),
                template_expr_view(*template),
                answers@,
                k as int,
            ),
            r.1 <= answers@.len(),
    {
        let (s, k1) = self.evaluate_expr(&template.expr, answers, k);
        let value = match s {
            Step::Need(r) => return (Step::Need(r), k1),
            Step::Done(Err(m)) => return (Step::Done(Err(m)), k1),
            Step::Done(Ok(v)) => v,
        };
        self.render_value(template.format, value, answers, k1)
    }

    fn colour_text_exec(f: ColourFormat, c: ColourHandle, answers: &Vec<Answer>, k: usize) -> (r: (
        Step<String>,
        usize,
    ))
        requires
            k <= answers@.len(),
        ensures
            (step_view(r.0), r.1 as int) == colour_text(f, c, answers@, k as int),
            r.1 <= answers@.len(),
    {
        if k >= answers.len() {
            return (Step::Need(Request::ColourText(f, c)), k);
        }
        (Step::Done(Ok(read_text(&answers[k]))), k + 1)
    }

    fn number_text_exec(n: Number, answers: &Vec<Answer>, k: usize) -> (r: (Step<String>, usize))
        requires
            k <= answers@.len(),
        ensures
            (step_view(r.0), r.1 as int) == number_text(n@, answers@, k as int),
            r.1 <= answers@.len(),
    {
        if k >= answers.len() {
            return (Step::Need(Request::NumberText(n)), k);
        }
        (Step::Done(Ok(read_text(&answers[k]))), k + 1)
    }

    fn render_value(&self, format: &str, v: Value, answers: &Vec<Answer>, k: usize) -> (r: (
        Step<String>,
        usize,
    ))
        requires
            k <= answers@.len(),
        ensures
            (step_view(r.0), r.1 as int) == render(format@, v@, answers@, k as int),
            r.1 <= answers@.len(),
    {
        let f = if str_eq(format, "hex") {
            Some(ColourFormat::Hex)
        } else if str_eq(format, "rgb") {
            Some(ColourFormat::Rgb)
        } else if str_eq(format, "hsv") {
            Some(ColourFormat::Hsv)
        } else {
            None
        };
        match f {
            Some(f) => match v {
                Value::String(s) => {
                    if k >= answers.len() {
                        return (Step::Need(Request::ParseColour(s)), k);
                    }
                    match read_colour(&answers[k]) {
                        Ok(c) => Self::colour_text_exec(f, c, answers, k + 1),
                        Err(m) => {
                            let mut e = concat3("Failed to parse '", s.as_str(), "' as a colour: ");
                            e.append(m.as_str());
                            (Step::Done(Err(e)), k + 1)
                        },
                    }
                },
                Value::Colour(c) => Self::colour_text_exec(f, c, answers, k),
                Value::Number(_) => {
                    let m = match f {
                        ColourFormat::Hex => "Expected a hex value, got a number",
                        ColourFormat::Rgb => "Expected an rgb value, got a number",
                        ColourFormat::Hsv => "Expected an hsv value, got a number",
                    };
                    (Step::Done(Err(String::from_str(m))), k)
                },
            },
            None => {
                if str_eq(format, "str") {
                    match v {
                        Value::String(s) => (Step::Done(Ok(s)), k),
                        Value::Colour(c) => Self::colour_text_exec(ColourFormat::Hex, c, answers, k),
                        Value::Number(n) => Self::number_text_exec(n, answers, k),
                    }
                } else if str_eq(format, "num") {
                    match v {
                        Value::Number(n) => Self::number_text_exec(n, answers, k),
                        Value::String(s) => {
                            if k >= answers.len() {
                                return (Step::Need(Request::ParseNumber(s)), k);
                            }
                            if read_flag(&answers[k]) {
                                Self::number_text_exec(Number::Literal(s), answers, k + 1)
                            } else {
                                (
                                    Step::Done(
                                        Err(concat3("Failed to parse '", s.as_str(), "' as a number")),
                                    ),
                                    k + 1,
                                )
                            }
                        },
                        Value::Colour(c) => {
                            let (t, k1) = Self::colour_text_exec(ColourFormat::Hex, c, answers, k);
                            match t {
                                Step::Done(Ok(hex)) => (
                                    Step::Done(
                                        Err(
                                            concat3(
                                                "Cannot convert colour '",
                                                hex.as_str(),
                                                "' to a number",
                                            ),
                                        ),
                                    ),
                                    k1,
                                ),
                                other => (other, k1),
                            }
                        },
                    }
                } else {
                    (Step::Done(Err(concat2("Unsupported format: ", format))), k)
                }
            },
        }
    }

    /// Looks up a dotted path; see `lookup_path`.
    fn lookup(&self, path_parts: &Vec<&str>) -> (r: Result<Value, String>)
        ensures
            match r {
                Ok(v) => lookup_path(self.table(), path_view(path_parts@)) == Ok::<
                    SpecValue,
                    Seq<char>,
                >(v@),
                Err(m) => lookup_path(self.table(), path_view(path_parts@)) == Err::<
                    SpecValue,
                    Seq<char>,
                >(m@),
            },
    {
        let ghost parts = path_view(path_parts@);
        let ghost root = self.table();
        let mut current: Option<&TomlValue> = None;
        let n = path_parts.len();
        let mut i: usize = 0;
        while i < n
            invariant
                n == parts.len(),
                parts == path_view(path_parts@),
                root == self.table(),
                i <= n,
                walk(root, parts, 0, None) == walk(
                    root,
                    parts,
                    i as int,
                    match current {
                        Some(r) => Some(*r),
                        None => None,
                    },
                ),
            decreases n - i,
        {
            let part = path_parts[i];
            current = match current {
                None => self.toml_table.get(part),
                Some(TomlValue::Table(table)) => table.get(part),
                Some(_) => {
                    return Err(concat3("Invalid path: '", part, "' is not a table"));
                },
            };
            i = i + 1;
        }
        match current {
            Some(TomlValue::String(s)) => Ok(Value::String(s.clone())),
            Some(TomlValue::Integer(i)) => Ok(Value::Number(Number::Integer(*i))),
            Some(TomlValue::Float(f)) => Ok(Value::Number(Number::Float(f.clone()))),
            Some(v) => {
                let mut e = String::from_str("Expected a string at the end of the path, got Some(");
                push_value_debug(&mut e, v);
                e.append(")");
                Err(e)
            },
            None => {
                let mut e = String::from_str("Path not found in TOML: ");
                e.append("[");
                let mut j: usize = 0;
                let ghost start = e@;
                while j < n
                    invariant
                        n == parts.len(),
                        parts == path_view(path_parts@),
                        j <= n,
                        e@ + path_debug_from(parts, j as int) == start + path_debug_from(parts, 0),
                    decreases n - j,
                {
                    if j > 0 {
                        e.append(", ");
                    }
                    push_quoted(&mut e, path_parts[j]);
                    j = j + 1;
                }
                e.append("]");
                Err(e)
            },
        }
    }

    fn evaluate_expr(&self, expr: &Expr, answers: &Vec<Answer>, k: usize) -> (r: (Step<Value>, usize))
        requires
            k <= answers@.len(),
        ensures
            (step_view(r.0), r.1 as int) == eval_expr(self.table(), expr_view(*expr), answers@, k as int),
            r.1 <= answers@.len(),
        decreases expr,
    {
        match expr {
            Expr::Number(n_str) => {
                if k >= answers.len() {
                    return (Step::Need(Request::ParseNumber(String::from_str(n_str))), k);
                }
                if read_flag(&answers[k]) {
                    (Step::Done(Ok(Value::Number(Number::Literal(String::from_str(n_str))))), k + 1)
                } else {
                    (Step::Done(Err(concat2("Failed to parse number: ", n_str))), k + 1)
                }
            },
            Expr::Hex(hex_str) => {
                if k >= answers.len() {
                    return (Step::Need(Request::ParseColour(String::from_str(hex_str))), k);
                }
                match read_colour(&answers[k]) {
                    Ok(c) => (Step::Done(Ok(Value::Colour(c))), k + 1),
                    Err(m) => {
                        let mut e = concat3("Failed to parse hex colour '", hex_str, "': ");
                        e.append(m.as_str());
                        (Step::Done(Err(e)), k + 1)
                    },
                }
            },
            Expr::Identifier(path_parts) => {
                match self.lookup(path_parts) {
                    Ok(v) => (Step::Done(Ok(v)), k),
                    Err(m) => (Step::Done(Err(m)), k),
                }
            },
            Expr::Function { name, args } => {
                let ghost sargs = match expr_view(*expr) {
                    SpecExpr::Function(_, a) => a,
                    _ => Seq::empty(),
                };
                let mut evaluated_args: Vec<Value> = Vec::new();
                let mut kk = k;
                let n = args.len();
                let mut i: usize = 0;
                proof {
                    assert(sargs.len() == n);
                    assert(values_view(evaluated_args@) =~= seq![]);
                }
                while i < n
                    invariant
                        n == args@.len(),
                        sargs.len() == n,
                        expr_view(*expr) == SpecExpr::Function(name@, sargs),
                        *expr == (Expr::Function { name: *name, args: *args }),
                        forall|j: int| 0 <= j < n ==> #[trigger] sargs[j] == expr_view(args@[j]),
                        i <= n,
                        kk <= answers@.len(),
                        eval_args(self.table(), sargs, 0, seq![], answers@, k as int) == eval_args(
                            self.table(),
                            sargs,
                            i as int,
                            values_view(evaluated_args@),
                            answers@,
                            kk as int,
                        ),
                    decreases n - i,
                {
                    let ghost before = values_view(evaluated_args@);
                    proof {
                        assert(sargs[i as int] == expr_view(args@[i as int]));
                        assert(decreases_to!(*expr => args@[i as int]));
                    }
                    let (s, k1) = self.evaluate_expr(&args[i], answers, kk);
                    match s {
                        Step::Need(r) => return (Step::Need(r), k1),
                        Step::Done(Err(m)) => return (Step::Done(Err(m)), k1),
                        Step::Done(Ok(v)) => {
                            evaluated_args.push(v);
                            proof {
                                assert(values_view(evaluated_args@) =~= before.push(v@));
                            }
                        },
                    }
                    kk = k1;
                    i = i + 1;
                }
                if str_eq(name, "darken") {
                    builtin_darken(evaluated_args.as_slice(), answers, kk)
                } else if str_eq(name, "blend") {
                    builtin_blend(evaluated_args.as_slice(), answers, kk)
                } else if str_eq(name, "multiply_brightness") {
                    builtin_multiply_brightness(evaluated_args.as_slice(), answers, kk)
                } else {
                    (Step::Done(Err(concat2("Undefined function: ", name))), kk)
                }
            },
        }
    }
}

} // verus!

verus! {

/// A call evaluates its arguments first, left to right: the first failing argument
/// gives the result whatever the function's name; when all succeed, an unknown
/// name fails with `Undefined function`, and a known one is applied to the values.
pub proof fn law_arguments_before_call(
    env: TomlTable,
    name: Seq<char>,
    args: Seq<SpecExpr>,
    answers: Seq<Answer>,
    k: int,
)
    ensures
        ({
            let (s, k1) = eval_args(env, args, 0, seq![], answers, k);
            let r = eval_expr(env, SpecExpr::Function(name, args), answers, k);
            &&& s matches SpecStep::Done(Err(m)) ==> r == (SpecStep::<SpecValue>::Done(Err(m)), k1)
            &&& s matches SpecStep::Done(Ok(vals)) ==> r == call_builtin(name, vals, answers, k1)
            &&& (s is Done && s->Done_0 is Ok && name != "darken"@ && name != "blend"@ && name
                != "multiply_brightness"@) ==> r == (SpecStep::<SpecValue>::Done(
                Err("Undefined function: "@ + name),
            ), k1)
        }),
{
}

/// The name of a colour format in a template: `hex`, `rgb` or `hsv`.
pub open spec fn colour_format_name(f: ColourFormat) -> Seq<char> {
    match f {
        ColourFormat::Hex => seq!['h', 'e', 'x'],
        ColourFormat::Rgb => seq!['r', 'g', 'b'],
        ColourFormat::Hsv => seq!['h', 's', 'v'],
    }
}

proof fn lemma_colour_format_names()
    ensures
        colour_format_named(colour_format_name(ColourFormat::Hex)) == Some(ColourFormat::Hex),
        colour_format_named(colour_format_name(ColourFormat::Rgb)) == Some(ColourFormat::Rgb),
        colour_format_named(colour_format_name(ColourFormat::Hsv)) == Some(ColourFormat::Hsv),
{
    reveal_strlit("hex");
    reveal_strlit("rgb");
    reveal_strlit("hsv");
    assert("hex"@ =~= colour_format_name(ColourFormat::Hex));
    assert("rgb"@ =~= colour_format_name(ColourFormat::Rgb));
    assert("hsv"@ =~= colour_format_name(ColourFormat::Hsv));
    assert("rgb"@ != "hex"@);
    assert("hsv"@ != "hex"@);
    assert("hsv"@ != "rgb"@);
}

/// A colour is written in the format its template names: when the expression of a
/// template whose format is `hex`, `rgb` or `hsv` gives a colour, the template asks
/// for that colour's text in that same format, and its result is the reply.
pub proof fn law_colour_written_in_named_format(
    env: TomlTable,
    t: SpecTemplateExpr,
    f: ColourFormat,
    c: ColourHandle,
    answers: Seq<Answer>,
    k: int,
    k1: int,
)
    requires
        t.format == colour_format_name(f),
        eval_expr(env, t.expr, answers, k) == (SpecStep::<SpecValue>::Done(Ok(SpecValue::Colour(c))), k1),
    ensures
        spec_evaluate(env, t, answers, k) == match answer_at(answers, k1) {
            Some(a) => (SpecStep::<Seq<char>>::Done(Ok(answer_text(a))), k1 + 1),
            None => (SpecStep::<Seq<char>>::Need(SpecRequest::ColourText(f, c)), k1),
        },
{
    lemma_colour_format_names();
}

/// A string is written in a colour format as the colour it parses to: when the
/// expression gives a string and the reply to parsing it is a colour, the template
/// asks for that colour's text in the format its template names.
pub proof fn law_string_written_in_named_format(
    env: TomlTable,
    t: SpecTemplateExpr,
    f: ColourFormat,
    s: Seq<char>,
    c: ColourHandle,
    answers: Seq<Answer>,
    k: int,
    k1: int,
)
    requires
        t.format == colour_format_name(f),
        eval_expr(env, t.expr, answers, k) == (SpecStep::<SpecValue>::Done(Ok(SpecValue::String(s))), k1),
        answer_at(answers, k1) matches Some(a) && answer_colour(a) == Ok::<ColourHandle, Seq<char>>(c),
    ensures
        spec_evaluate(env, t, answers, k) == match answer_at(answers, k1 + 1) {
            Some(a) => (SpecStep::<Seq<char>>::Done(Ok(answer_text(a))), k1 + 2),
            None => (SpecStep::<Seq<char>>::Need(SpecRequest::ColourText(f, c)), k1 + 1),
        },
{
    lemma_colour_format_names();
}

proof fn lemma_walk_chain(
    root: TomlTable,
    parts: Seq<Seq<char>>,
    tables: Seq<TomlTable>,
    v: TomlValue,
    i: int,
)
    requires
        1 <= i < parts.len(),
        tables.len() == parts.len(),
        forall|j: int|
            0 <= j < parts.len() - 1 ==> #[trigger] tables[j].spec_get(parts[j]) == Some(
                TomlValue::Table(tables[j + 1]),
            ),
        tables[parts.len() - 1].spec_get(parts[parts.len() - 1]) == Some(v),
    ensures
        walk(root, parts, i, Some(TomlValue::Table(tables[i]))) == Ok::<Option<TomlValue>, Seq<char>>(
            Some(v),
        ),
    decreases parts.len() - i,
{
    if i < parts.len() - 1 {
        assert(tables[i].spec_get(parts[i]) == Some(TomlValue::Table(tables[i + 1])));
        lemma_walk_chain(root, parts, tables, v, i + 1);
    } else {
        assert(walk(root, parts, i + 1, Some(v)) == Ok::<Option<TomlValue>, Seq<char>>(Some(v)));
    }
}

/// A dotted path follows nested tables to the end: when the first part names a
/// table of the root, each further part but the last names a table in the table
/// before it, and the last part names `v`, the path reaches `v`, for any number of
/// parts; a string there is the path's value.
pub proof fn law_path_follows_nested_tables(
    root: TomlTable,
    parts: Seq<Seq<char>>,
    tables: Seq<TomlTable>,
    v: TomlValue,
)
    requires
        parts.len() >= 1,
        tables.len() == parts.len(),
        tables[0] == root,
        forall|j: int|
            0 <= j < parts.len() - 1 ==> #[trigger] tables[j].spec_get(parts[j]) == Some(
                TomlValue::Table(tables[j + 1]),
            ),
        tables[parts.len() - 1].spec_get(parts[parts.len() - 1]) == Some(v),
    ensures
        walk(root, parts, 0, None) == Ok::<Option<TomlValue>, Seq<char>>(Some(v)),
        v matches TomlValue::String(s) ==> lookup_path(root, parts) == Ok::<SpecValue, Seq<char>>(
            SpecValue::String(s@),
        ),
        v matches TomlValue::Integer(n) ==> lookup_path(root, parts) == Ok::<SpecValue, Seq<char>>(
            SpecValue::Number(SpecNumber::Integer(n)),
        ),
{
    assert(root.spec_get(parts[0]) == tables[0].spec_get(parts[0]));
    if parts.len() > 1 {
        assert(tables[0].spec_get(parts[0]) == Some(TomlValue::Table(tables[1])));
        lemma_walk_chain(root, parts, tables, v, 1);
    } else {
        assert(walk(root, parts, 1, Some(v)) == Ok::<Option<TomlValue>, Seq<char>>(Some(v)));
    }
}

} // verus!
