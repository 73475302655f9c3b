use vstd::prelude::*;

use crate::ast::{template_exprs_view, SpecTemplateExpr};
use crate::evaluator::{spec_evaluate, Evaluator};
use crate::lexer::{spec_tokenize, Lexer};
use crate::parser::{spec_parse, Parser};
use crate::text::concat3;
use crate::toml_model::TomlTable;
use crate::value::{step_view, Answer, SpecStep, Step};

verus! {

/// Tries the alternatives from index `i` on, in order, reading answers from number
/// `k` on: the first one that evaluates without error gives the result; when all
/// have failed, the error names the source and the last failure.
pub open spec fn try_fallbacks(
    env: TomlTable,
    source: Seq<char>,
    fallbacks: Seq<SpecTemplateExpr>,
    i: int,
    last_error: Seq<char>,
    answers: Seq<Answer>,
    k: int,
) -> (SpecStep<Seq<char>>, int)
    decreases fallbacks.len() - i,
{
    if i < 0 || i >= fallbacks.len() {
        (
            SpecStep::Done(
                Err("All fallbacks failed for '"@ + source + "'. Last error: "@ + last_error),
            ),
            k,
        )
    } else {
        let (s, k1) = spec_evaluate(env, fallbacks[i], answers, k);
        match s {
            SpecStep::Need(r) => (SpecStep::Need(r), k1),
            SpecStep::Done(Ok(t)) => (SpecStep::Done(Ok(t)), k1),
            SpecStep::Done(Err(e)) => try_fallbacks(env, source, fallbacks, i + 1, e, answers, k1),
        }
    }
}

/// Resolves a template block: tokenizes and parses it, then tries its alternatives.
pub open spec fn spec_resolve(env: TomlTable, source: Seq<char>, answers: Seq<Answer>, k: int) -> (
    SpecStep<Seq<char>>,
    int,
) {
    match spec_tokenize(source) {
        Err(e) => (SpecStep::Done(Err("Lexer error in '"@ + source + "': "@ + e)), k),
        Ok(toks) => match spec_parse(toks, 0) {
            Err(e) => (SpecStep::Done(Err("Parser error in '"@ + source + "': "@ + e)), k),
            Ok(fallbacks) => try_fallbacks(env, source, fallbacks, 0, Seq::empty(), answers, k),
        },
    }
}

pub struct TemplateEngine<'a> {
    evaluator: Evaluator<'a>,
}

impl<'a> TemplateEngine<'a> {
    /// The table that identifiers are looked up in.
    pub closed spec fn table(&self) -> TomlTable {
        self.evaluator.table()
    }

    pub fn new(toml_table: &'a TomlTable) -> (e: Self)
        ensures
            e.table() == *toml_table,
    {
        Self { evaluator: Evaluator::new(toml_table) }
    }

    /// Resolves a template block with the answers given so far; see `spec_resolve`.
    pub fn resolve_block(&self, source: &str, answers: &Vec<Answer>) -> (s: Step<String>)
        ensures
            step_view(s) == spec_resolve(self.table(), source@, answers@, 0).0,
    {
        self.resolve_block_from(source, answers, 0).0
    }

    /// Resolves a template block reading the answers from number `k` on; yields
    /// where it stands and the number of the next answer to read.
    pub fn resolve_block_from(&self, source: &str, answers: &Vec<Answer>, k: usize) -> (r: (
        Step<String>,
        usize,
    ))
        requires
            k <= answers@.len(),
        ensures
            (step_view(r.0), r.1 as int) == spec_resolve(self.table(), source@, answers@, k as int),
            r.1 <= answers@.len(),
    {
        let mut lexer = Lexer::new(source);
        let tokens = match lexer.tokenize() {
            Ok(t) => t,
            Err(e) => {
                let mut m = concat3("Lexer error in '", source, "': ");
                m.append(e.as_str());
                return (Step::Done(Err(m)), k);
            },
        };
        let mut parser = Parser::new(tokens);
        let block = match parser.parse() {
            Ok(b) => b,
            Err(e) => {
                let mut m = concat3("Parser error in '", source, "': ");
                m.append(e.as_str());
                return (Step::Done(Err(m)), k);
            },
        };
        let ghost fbs = template_exprs_view(block.fallbacks@);
        let mut last_error = String::new();
        let mut kk = k;
        let n = block.fallbacks.len();
        let mut i: usize = 0;
        while i < n
            invariant
                n == fbs.len(),
                fbs == template_exprs_view(block.fallbacks@),
                i <= n,
                kk <= answers@.len(),
                spec_resolve(self.table(), source@, answers@, k as int) == try_fallbacks(
                    self.table(),
                    source@,
                    fbs,
                    i as int,
                    last_error@,
                    answers@,
                    kk as int,
                ),
            decreases n - i,
        {
            let (s, k1) = self.evaluator.evaluate_from(&block.fallbacks[i], answers, kk);
            match s {
                Step::Need(r) => return (Step::Need(r), k1),
                Step::Done(Ok(t)) => return (Step::Done(Ok(t)), k1),
                Step::Done(Err(e)) => {
                    last_error = e;
                },
            }
            kk = k1;
            i = i + 1;
        }
        let mut m = concat3("All fallbacks failed for '", source, "'. Last error: ");
        m.append(last_error.as_str());
        (Step::Done(Err(m)), kk)
    }
}

} // verus!

verus! {

proof fn lemma_first_success_from(
    env: TomlTable,
    source: Seq<char>,
    fallbacks: Seq<SpecTemplateExpr>,
    answers: Seq<Answer>,
    cursors: Seq<int>,
    errors: Seq<Seq<char>>,
    i: int,
    text: Seq<char>,
    s: int,
    last: Seq<char>,
)
    requires
        0 <= s <= i < fallbacks.len(),
        cursors.len() == i + 1,
        errors.len() == i,
        forall|j: int|
            0 <= j < i ==> #[trigger] spec_evaluate(env, fallbacks[j], answers, cursors[j]) == (
                SpecStep::<Seq<char>>::Done(Err(errors[j])),
                cursors[j + 1],
            ),
        spec_evaluate(env, fallbacks[i], answers, cursors[i]).0 == SpecStep::<Seq<char>>::Done(
            Ok(text),
        ),
    ensures
        try_fallbacks(env, source, fallbacks, s, last, answers, cursors[s]).0
            == SpecStep::<Seq<char>>::Done(Ok(text)),
    decreases i - s,
{
    if s < i {
        assert(spec_evaluate(env, fallbacks[s], answers, cursors[s]) == (
            SpecStep::<Seq<char>>::Done(Err(errors[s])),
            cursors[s + 1],
        ));
        lemma_first_success_from(
            env,
            source,
            fallbacks,
            answers,
            cursors,
            errors,
            i,
            text,
            s + 1,
            errors[s],
        );
    }
}

/// Alternatives are tried in order: when alternatives `0..i` fail, each reading the
/// answers after those the one before it read, and alternative `i` succeeds, the
/// block resolves to the text of alternative `i`.
pub proof fn law_first_successful_alternative(
    env: TomlTable,
    source: Seq<char>,
    answers: Seq<Answer>,
    fallbacks: Seq<SpecTemplateExpr>,
    cursors: Seq<int>,
    errors: Seq<Seq<char>>,
    i: int,
    text: Seq<char>,
)
    requires
        spec_tokenize(source) matches Ok(toks) && spec_parse(toks, 0) == Ok::<
            Seq<SpecTemplateExpr>,
            Seq<char>,
        >(fallbacks),
        0 <= i < fallbacks.len(),
        cursors.len() == i + 1,
        errors.len() == i,
        forall|j: int|
            0 <= j < i ==> #[trigger] spec_evaluate(env, fallbacks[j], answers, cursors[j]) == (
                SpecStep::<Seq<char>>::Done(Err(errors[j])),
                cursors[j + 1],
            ),
        spec_evaluate(env, fallbacks[i], answers, cursors[i]).0 == SpecStep::<Seq<char>>::Done(
            Ok(text),
        ),
    ensures
        spec_resolve(env, source, answers, cursors[0]).0 == SpecStep::<Seq<char>>::Done(Ok(text)),
{
    lemma_first_success_from(
        env,
        source,
        fallbacks,
        answers,
        cursors,
        errors,
        i,
        text,
        0,
        Seq::empty(),
    );
}

proof fn lemma_all_fail_from(
    env: TomlTable,
    source: Seq<char>,
    fallbacks: Seq<SpecTemplateExpr>,
    answers: Seq<Answer>,
    cursors: Seq<int>,
    errors: Seq<Seq<char>>,
    s: int,
    last: Seq<char>,
)
    requires
        0 <= s <= fallbacks.len(),
        s == fallbacks.len() ==> last == errors.last(),
        fallbacks.len() > 0,
        cursors.len() == fallbacks.len() + 1,
        errors.len() == fallbacks.len(),
        forall|j: int|
            0 <= j < fallbacks.len() ==> #[trigger] spec_evaluate(
                env,
                fallbacks[j],
                answers,
                cursors[j],
            ) == (SpecStep::<Seq<char>>::Done(Err(errors[j])), cursors[j + 1]),
    ensures
        try_fallbacks(env, source, fallbacks, s, last, answers, cursors[s]).0
            == SpecStep::<Seq<char>>::Done(
            Err("All fallbacks failed for '"@ + source + "'. Last error: "@ + errors.last()),
        ),
    decreases fallbacks.len() - s,
{
    if s < fallbacks.len() {
        assert(spec_evaluate(env, fallbacks[s], answers, cursors[s]) == (
            SpecStep::<Seq<char>>::Done(Err(errors[s])),
            cursors[s + 1],
        ));
        lemma_all_fail_from(env, source, fallbacks, answers, cursors, errors, s + 1, errors[s]);
    }
}

/// When every alternative fails, the block fails with a message that names the
/// block and gives the last alternative's error.
pub proof fn law_all_alternatives_fail(
    env: TomlTable,
    source: Seq<char>,
    answers: Seq<Answer>,
    fallbacks: Seq<SpecTemplateExpr>,
    cursors: Seq<int>,
    errors: Seq<Seq<char>>,
)
    requires
        spec_tokenize(source) matches Ok(toks) && spec_parse(toks, 0) == Ok::<
            Seq<SpecTemplateExpr>,
            Seq<char>,
        >(fallbacks),
        fallbacks.len() > 0,
        cursors.len() == fallbacks.len() + 1,
        errors.len() == fallbacks.len(),
        forall|j: int|
            0 <= j < fallbacks.len() ==> #[trigger] spec_evaluate(
                env,
                fallbacks[j],
                answers,
                cursors[j],
            ) == (SpecStep::<Seq<char>>::Done(Err(errors[j])), cursors[j + 1]),
    ensures
        spec_resolve(env, source, answers, cursors[0]).0 == SpecStep::<Seq<char>>::Done(
            Err("All fallbacks failed for '"@ + source + "'. Last error: "@ + errors.last()),
        ),
{
    lemma_all_fail_from(env, source, fallbacks, answers, cursors, errors, 0, Seq::empty());
}

} // verus!
