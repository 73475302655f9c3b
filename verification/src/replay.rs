use vstd::prelude::*;

use crate::ast::{SpecExpr, SpecTemplateExpr};
use crate::engine::{spec_resolve, try_fallbacks};
use crate::evaluator::{call_builtin, colour_text, eval_args, eval_expr, number_text, render, spec_evaluate};
use crate::functions::{colour_arg, colour_op, spec_blend, spec_darken, spec_multiply_brightness};
use crate::template::{collect_definitions_from, expression_source, has_label, spec_render};
use crate::toml_model::TomlTable;
use crate::value::{answer_at, Answer, ColourFormat, ColourHandle, SpecNumber, SpecRequest, SpecStep, SpecValue};

verus! {

/// The answers `b` begin with the answers `a`.
pub open spec fn extends(a: Seq<Answer>, b: Seq<Answer>) -> bool {
    &&& a.len() <= b.len()
    &&& forall|i: int| 0 <= i < a.len() ==> #[trigger] b[i] == a[i]
}

/// `r` is where a computation stands with the answers `a` from number `k` on, and `r2`
/// where it stands with answers that begin with `a`: the cursor never goes back; a
/// finished computation read only answers of `a`, and is the same with `r2`; one
/// that waits for an answer has read every answer of `a`.
pub open spec fn settled<T>(r: (SpecStep<T>, int), r2: (SpecStep<T>, int), a: Seq<Answer>, k: int) -> bool {
    &&& k <= r.1
    &&& r.0 is Done ==> r.1 <= a.len() && r2 == r
    &&& r.0 is Need ==> r.1 == a.len()
}

proof fn lemma_answer_at(a: Seq<Answer>, b: Seq<Answer>, k: int)
    requires
        extends(a, b),
        0 <= k <= a.len(),
    ensures
        k < a.len() ==> answer_at(b, k) == answer_at(a, k),
        k == a.len() ==> answer_at(a, k) is None,
{
    if k < a.len() {
        assert(b[k] == a[k]);
    }
}

proof fn lemma_colour_arg(v: SpecValue, a: Seq<Answer>, b: Seq<Answer>, k: int, err: Seq<char>)
    requires
        extends(a, b),
        0 <= k <= a.len(),
    ensures
        settled(colour_arg(v, a, k, err), colour_arg(v, b, k, err), a, k),
{
    lemma_answer_at(a, b, k);
}

proof fn lemma_colour_op(req: SpecRequest, a: Seq<Answer>, b: Seq<Answer>, k: int, prefix: Seq<char>)
    requires
        extends(a, b),
        0 <= k <= a.len(),
    ensures
        settled(colour_op(req, a, k, prefix), colour_op(req, b, k, prefix), a, k),
{
    lemma_answer_at(a, b, k);
}

proof fn lemma_darken(args: Seq<SpecValue>, a: Seq<Answer>, b: Seq<Answer>, k: int)
    requires
        extends(a, b),
        0 <= k <= a.len(),
    ensures
        settled(spec_darken(args, a, k), spec_darken(args, b, k), a, k),
{
    if args.len() == 2 {
        let err = "First argument to darken must be a colour"@;
        lemma_colour_arg(args[0], a, b, k, err);
        let (c, k1) = colour_arg(args[0], a, k, err);
        if let SpecStep::Done(Ok(colour)) = c {
            if let SpecValue::Number(n) = args[1] {
                lemma_colour_op(SpecRequest::Darken(colour, n), a, b, k1, "Failed to darken colour: "@);
            }
        }
    }
}

proof fn lemma_blend(args: Seq<SpecValue>, a: Seq<Answer>, b: Seq<Answer>, k: int)
    requires
        extends(a, b),
        0 <= k <= a.len(),
    ensures
        settled(spec_blend(args, a, k), spec_blend(args, b, k), a, k),
{
    if args.len() == 3 {
        let err1 = "First argument to blend must be a colour"@;
        let err2 = "Second argument to blend must be a colour"@;
        lemma_colour_arg(args[0], a, b, k, err1);
        let (c1, k1) = colour_arg(args[0], a, k, err1);
        if let SpecStep::Done(Ok(colour1)) = c1 {
            lemma_colour_arg(args[0], a, b, k1, err2);
            let (c2, k2) = colour_arg(args[0], a, k1, err2);
            if let SpecStep::Done(Ok(colour2)) = c2 {
                if let SpecValue::Number(n) = args[2] {
                    lemma_colour_op(
                        SpecRequest::Blend(colour1, colour2, n),
                        a,
                        b,
                        k2,
                        "Failed to blend colours: "@,
                    );
                }
            }
        }
    }
}

proof fn lemma_multiply_brightness(args: Seq<SpecValue>, a: Seq<Answer>, b: Seq<Answer>, k: int)
    requires
        extends(a, b),
        0 <= k <= a.len(),
    ensures
        settled(spec_multiply_brightness(args, a, k), spec_multiply_brightness(args, b, k), a, k),
{
    if args.len() == 2 {
        let err = "First argument to multiply_brightness must be a colour"@;
        lemma_colour_arg(args[0], a, b, k, err);
        let (c, k1) = colour_arg(args[0], a, k, err);
        if let SpecStep::Done(Ok(colour)) = c {
            if let SpecValue::Number(n) = args[1] {
                lemma_colour_op(
                    SpecRequest::MultiplyBrightness(colour, n),
                    a,
                    b,
                    k1,
                    "Failed to modify brightness: "@,
                );
            }
        }
    }
}

proof fn lemma_call_builtin(name: Seq<char>, vals: Seq<SpecValue>, a: Seq<Answer>, b: Seq<Answer>, k: int)
    requires
        extends(a, b),
        0 <= k <= a.len(),
    ensures
        settled(call_builtin(name, vals, a, k), call_builtin(name, vals, b, k), a, k),
{
    lemma_darken(vals, a, b, k);
    lemma_blend(vals, a, b, k);
    lemma_multiply_brightness(vals, a, b, k);
}

proof fn lemma_eval_expr(env: TomlTable, e: SpecExpr, a: Seq<Answer>, b: Seq<Answer>, k: int)
    requires
        extends(a, b),
        0 <= k <= a.len(),
    ensures
        settled(eval_expr(env, e, a, k), eval_expr(env, e, b, k), a, k),
    decreases e, 0int,
{
    lemma_answer_at(a, b, k);
    if let SpecExpr::Function(name, args) = e {
        lemma_eval_args(env, args, 0, seq![], a, b, k);
        let (s, k1) = eval_args(env, args, 0, seq![], a, k);
        if let SpecStep::Done(Ok(vals)) = s {
            lemma_call_builtin(name, vals, a, b, k1);
        }
    }
}

proof fn lemma_eval_args(
    env: TomlTable,
    args: Seq<SpecExpr>,
    i: int,
    acc: Seq<SpecValue>,
    a: Seq<Answer>,
    b: Seq<Answer>,
    k: int,
)
    requires
        extends(a, b),
        0 <= k <= a.len(),
    ensures
        settled(eval_args(env, args, i, acc, a, k), eval_args(env, args, i, acc, b, k), a, k),
    decreases args, args.len() - i,
{
    if 0 <= i < args.len() {
        lemma_eval_expr(env, args[i], a, b, k);
        let (s, k1) = eval_expr(env, args[i], a, k);
        if let SpecStep::Done(Ok(v)) = s {
            lemma_eval_args(env, args, i + 1, acc.push(v), a, b, k1);
        }
    }
}

proof fn lemma_colour_text(f: ColourFormat, c: ColourHandle, a: Seq<Answer>, b: Seq<Answer>, k: int)
    requires
        extends(a, b),
        0 <= k <= a.len(),
    ensures
        settled(colour_text(f, c, a, k), colour_text(f, c, b, k), a, k),
{
    lemma_answer_at(a, b, k);
}

proof fn lemma_number_text(n: SpecNumber, a: Seq<Answer>, b: Seq<Answer>, k: int)
    requires
        extends(a, b),
        0 <= k <= a.len(),
    ensures
        settled(number_text(n, a, k), number_text(n, b, k), a, k),
{
    lemma_answer_at(a, b, k);
}

proof fn lemma_render(fmt: Seq<char>, v: SpecValue, a: Seq<Answer>, b: Seq<Answer>, k: int)
    requires
        extends(a, b),
        0 <= k <= a.len(),
    ensures
        settled(render(fmt, v, a, k), render(fmt, v, b, k), a, k),
{
    lemma_answer_at(a, b, k);
    if k < a.len() {
        lemma_colour_text(ColourFormat::Hex, ColourHandle { id: 0 }, a, b, k + 1);
        match v {
            SpecValue::String(s) => {
                lemma_number_text(SpecNumber::Literal(s), a, b, k + 1);
                if let Ok(c) = crate::value::answer_colour(a[k]) {
                    lemma_colour_text(ColourFormat::Hex, c, a, b, k + 1);
                    lemma_colour_text(ColourFormat::Rgb, c, a, b, k + 1);
                    lemma_colour_text(ColourFormat::Hsv, c, a, b, k + 1);
                }
            },
            _ => {},
        }
    }
    match v {
        SpecValue::Colour(c) => {
            lemma_colour_text(ColourFormat::Hex, c, a, b, k);
            lemma_colour_text(ColourFormat::Rgb, c, a, b, k);
            lemma_colour_text(ColourFormat::Hsv, c, a, b, k);
        },
        SpecValue::Number(n) => {
            lemma_number_text(n, a, b, k);
        },
        _ => {},
    }
}

proof fn lemma_evaluate(env: TomlTable, t: SpecTemplateExpr, a: Seq<Answer>, b: Seq<Answer>, k: int)
    requires
        extends(a, b),
        0 <= k <= a.len(),
    ensures
        settled(spec_evaluate(env, t, a, k), spec_evaluate(env, t, b, k), a, k),
{
    lemma_eval_expr(env, t.expr, a, b, k);
    let (s, k1) = eval_expr(env, t.expr, a, k);
    if let SpecStep::Done(Ok(v)) = s {
        lemma_render(t.format, v, a, b, k1);
    }
}

proof fn lemma_try_fallbacks(
    env: TomlTable,
    source: Seq<char>,
    fallbacks: Seq<SpecTemplateExpr>,
    i: int,
    last_error: Seq<char>,
    a: Seq<Answer>,
    b: Seq<Answer>,
    k: int,
)
    requires
        extends(a, b),
        0 <= k <= a.len(),
    ensures
        settled(
            try_fallbacks(env, source, fallbacks, i, last_error, a, k),
            try_fallbacks(env, source, fallbacks, i, last_error, b, k),
            a,
            k,
        ),
    decreases fallbacks.len() - i,
{
    if 0 <= i < fallbacks.len() {
        lemma_evaluate(env, fallbacks[i], a, b, k);
        let (s, k1) = spec_evaluate(env, fallbacks[i], a, k);
        if let SpecStep::Done(Err(e)) = s {
            lemma_try_fallbacks(env, source, fallbacks, i + 1, e, a, b, k1);
        }
    }
}

/// Resolving a block is settled by the answers it is given: when it finishes with
/// the answers `a`, it finishes with the same result, having read the same answers,
/// with any answers that begin with `a`; when it asks for an answer, it has read
/// every answer of `a`, so the next answer is the reply to its request.
pub proof fn law_resolve_is_settled(env: TomlTable, source: Seq<char>, a: Seq<Answer>, b: Seq<Answer>, k: int)
    requires
        extends(a, b),
        0 <= k <= a.len(),
    ensures
        settled(spec_resolve(env, source, a, k), spec_resolve(env, source, b, k), a, k),
{
    if let Ok(toks) = crate::lexer::spec_tokenize(source) {
        if let Ok(fallbacks) = crate::parser::spec_parse(toks, 0) {
            lemma_try_fallbacks(env, source, fallbacks, 0, Seq::empty(), a, b, k);
        }
    }
}

proof fn lemma_collect(
    env: TomlTable,
    matches: Seq<Seq<char>>,
    i: int,
    defs: Seq<(Seq<char>, Seq<char>)>,
    a: Seq<Answer>,
    b: Seq<Answer>,
    k: int,
)
    requires
        extends(a, b),
        0 <= k <= a.len(),
    ensures
        settled(
            collect_definitions_from(env, matches, i, defs, a, k),
            collect_definitions_from(env, matches, i, defs, b, k),
            a,
            k,
        ),
    decreases matches.len() - i,
{
    if 0 <= i < matches.len() {
        if has_label(defs, matches[i]) {
            lemma_collect(env, matches, i + 1, defs, a, b, k);
        } else {
            let source = expression_source(matches[i]);
            law_resolve_is_settled(env, source, a, b, k);
            let (s, k1) = spec_resolve(env, source, a, k);
            if let SpecStep::Done(Ok(c)) = s {
                lemma_collect(env, matches, i + 1, defs.push((matches[i], c)), a, b, k1);
            }
        }
    }
}

/// Rendering a template is settled by the answers it is given: when it finishes
/// with the answers `a`, it finishes alike with any answers that begin with `a`;
/// when it asks for an answer, it has read every answer of `a`.
pub proof fn law_render_is_settled(
    env: TomlTable,
    content: Seq<char>,
    matches: Result<Seq<Seq<char>>, Seq<char>>,
    defs: Seq<(Seq<char>, Seq<char>)>,
    a: Seq<Answer>,
    b: Seq<Answer>,
)
    requires
        extends(a, b),
    ensures
        spec_render(env, content, matches, defs, a) is Done ==> spec_render(env, content, matches, defs, b)
            == spec_render(env, content, matches, defs, a),
        matches is Ok ==> (collect_definitions_from(env, matches->Ok_0, 0, defs, a, 0).0 is Need
            ==> collect_definitions_from(env, matches->Ok_0, 0, defs, a, 0).1 == a.len()),
{
    if let Ok(ms) = matches {
        lemma_collect(env, ms, 0, defs, a, b, 0);
    }
}

} // verus!
