use vstd::prelude::*;

use crate::engine::{spec_resolve, TemplateEngine};
use crate::text::{concat3, is_whitespace, str_chars, str_eq};
use crate::value::{step_view, Answer, SpecStep, Step};

verus! {

/// The pattern of a template expression: `{{`, anything on one line, `}}`.
pub const TEMPLATE_EXPR_REGEX_STR: &'static str = "\\{\\{(.*)\\}\\}";

/// A template expression found in a template, and the text it resolved to.
#[derive(Debug, Clone, PartialEq)]
pub struct ColourDefinition {
    pub label: String,
    pub colour_str: String,
}

impl View for ColourDefinition {
    type V = (Seq<char>, Seq<char>);

    open spec fn view(&self) -> (Seq<char>, Seq<char>) {
        (self.label@, self.colour_str@)
    }
}

pub open spec fn definitions_view(ds: Seq<ColourDefinition>) -> Seq<(Seq<char>, Seq<char>)> {
    ds.map_values(|d: ColourDefinition| d@)
}

pub open spec fn strings_view(ss: Seq<String>) -> Seq<Seq<char>> {
    ss.map_values(|s: String| s@)
}

/// What `regex::Regex::new(pattern)` followed by `find_iter(text)` gives: the texts of
/// the successive non-overlapping leftmost-first matches, or the message of the
/// error that rejects the pattern.
pub uninterp spec fn regex_find_all(pattern: Seq<char>, text: Seq<char>) -> Result<Seq<Seq<char>>, Seq<char>>;

/// Compiles `pattern` with `regex::Regex::new` and collects the text of every match
/// of `Regex::find_iter` in `text`; an invalid pattern gives the error's message.
#[verifier::external_body]
fn find_all_matches(pattern: &str, text: &str) -> (r: Result<Vec<String>, String>)
    ensures
        match r {
            Ok(ms) => regex_find_all(pattern@, text@) == Ok::<Seq<Seq<char>>, Seq<char>>(
                strings_view(ms@),
            ),
            Err(e) => regex_find_all(pattern@, text@) == Err::<Seq<Seq<char>>, Seq<char>>(e@),
        },
{
    match regex::Regex::new(pattern) {
        Ok(re) => Ok(re.find_iter(text).map(|m| m.as_str().to_string()).collect()),
        Err(e) => Err(e.to_string()),
    }
}

/// The characters that trimming removes.
pub enum TrimKind {
    Braces,
    Whitespace,
}

pub open spec fn trimmed_char(kind: TrimKind, c: char) -> bool {
    match kind {
        TrimKind::Braces => c == '{' || c == '}',
        TrimKind::Whitespace => is_whitespace(c),
    }
}

pub open spec fn trim_front(s: Seq<char>, kind: TrimKind) -> Seq<char>
    decreases s.len(),
{
    if s.len() > 0 && trimmed_char(kind, s[0]) {
        trim_front(s.drop_first(), kind)
    } else {
        s
    }
}

pub open spec fn trim_back(s: Seq<char>, kind: TrimKind) -> Seq<char>
    decreases s.len(),
{
    if s.len() > 0 && trimmed_char(kind, s.last()) {
        trim_back(s.drop_last(), kind)
    } else {
        s
    }
}

/// `s` without the characters of `kind` at either end (`trim_matches` and `trim`).
pub open spec fn trim_both(s: Seq<char>, kind: TrimKind) -> Seq<char> {
    trim_back(trim_front(s, kind), kind)
}

/// The source of a template expression: its text without the braces around it and
/// without the whitespace inside them.
pub open spec fn expression_source(label: Seq<char>) -> Seq<char> {
    trim_both(trim_both(label, TrimKind::Braces), TrimKind::Whitespace)
}

fn is_trimmed(kind: &TrimKind, c: char) -> (b: bool)
    ensures
        b == trimmed_char(*kind, c),
{
    match kind {
        TrimKind::Braces => c == '{' || c == '}',
        TrimKind::Whitespace => crate::text::char_is_whitespace(c),
    }
}

/// `s` without the characters of `kind` at either end.
pub fn trim_chars(s: &str, kind: TrimKind) -> (r: String)
    ensures
        r@ == trim_both(s@, kind),
{
    let cs = str_chars(s);
    let n = cs.len();
    let mut a: usize = 0;
    proof {
        assert(s@.subrange(0, n as int) =~= s@);
    }
    while a < n && is_trimmed(&kind, cs[a])
        invariant
            cs@ == s@,
            n == cs@.len(),
            a <= n,
            trim_front(s@, kind) == trim_front(s@.subrange(a as int, n as int), kind),
        decreases n - a,
    {
        proof {
            assert(s@.subrange(a as int, n as int).drop_first() =~= s@.subrange(a + 1, n as int));
        }
        a = a + 1;
    }
    let mut b: usize = n;
    proof {
        assert(trim_front(s@, kind) == s@.subrange(a as int, n as int));
    }
    while b > a && is_trimmed(&kind, cs[b - 1])
        invariant
            cs@ == s@,
            n == cs@.len(),
            a <= b <= n,
            trim_both(s@, kind) == trim_back(s@.subrange(a as int, b as int), kind),
        decreases b - a,
    {
        proof {
            assert(s@.subrange(a as int, b as int).drop_last() =~= s@.subrange(a as int, b - 1));
        }
        b = b - 1;
    }
    let piece = s.substring_char(a, b);
    String::from_str(piece)
}

/// `label` without its braces and the whitespace inside them; see `expression_source`.
pub fn strip_expression(label: &str) -> (r: String)
    ensures
        r@ == expression_source(label@),
{
    let unbraced = trim_chars(label, TrimKind::Braces);
    trim_chars(unbraced.as_str(), TrimKind::Whitespace)
}

/// `s` with every occurrence of `from` replaced by `to`, scanning left to right
/// without overlaps; an empty `from` matches before every character and at the end
/// (as `str::replace` does).
pub open spec fn replace_all(s: Seq<char>, from: Seq<char>, to: Seq<char>) -> Seq<char>
    decreases s.len(),
{
    if from.len() == 0 {
        if s.len() == 0 {
            to
        } else {
            to + seq![s[0]] + replace_all(s.drop_first(), from, to)
        }
    } else if s.len() >= from.len() && s.take(from.len() as int) == from {
        to + replace_all(s.skip(from.len() as int), from, to)
    } else if s.len() == 0 {
        s
    } else {
        seq![s[0]] + replace_all(s.drop_first(), from, to)
    }
}

fn occurs_at(cs: &Vec<char>, i: usize, fs: &Vec<char>) -> (b: bool)
    requires
        i <= cs@.len(),
    ensures
        b == (cs@.len() - i >= fs@.len() && cs@.subrange(i as int, i + fs@.len()) == fs@),
{
    let n = cs.len();
    let m = fs.len();
    if n - i < m {
        return false;
    }
    let mut j: usize = 0;
    while j < m
        invariant
            n == cs@.len(),
            m == fs@.len(),
            i + m <= n,
            j <= m,
            cs@.subrange(i as int, i + j) == fs@.take(j as int),
        decreases m - j,
    {
        if cs[i + j] != fs[j] {
            proof {
                assert(cs@.subrange(i as int, i + m)[j as int] != fs@[j as int]);
            }
            return false;
        }
        proof {
            assert(cs@.subrange(i as int, i + j + 1) =~= fs@.take(j + 1));
        }
        j = j + 1;
    }
    proof {
        assert(fs@.take(m as int) =~= fs@);
    }
    true
}

/// `s` with every occurrence of `from` replaced by `to`; see `replace_all`.
pub fn replace_str(s: &str, from: &str, to: &str) -> (r: String)
    ensures
        r@ == replace_all(s@, from@, to@),
{
    let cs = str_chars(s);
    let fs = str_chars(from);
    let n = cs.len();
    let m = fs.len();
    let mut out = String::new();
    let mut i: usize = 0;
    proof {
        assert(s@.skip(0) =~= s@);
    }
    while i < n
        invariant
            cs@ == s@,
            fs@ == from@,
            n == cs@.len(),
            m == fs@.len(),
            i <= n,
            replace_all(s@, from@, to@) == out@ + replace_all(s@.skip(i as int), from@, to@),
        decreases n - i,
    {
        let ghost rest = s@.skip(i as int);
        if m == 0 {
            out.append(to);
            out.push(cs[i]);
            proof {
                assert(rest.drop_first() =~= s@.skip(i + 1));
            }
            i = i + 1;
        } else if occurs_at(&cs, i, &fs) {
            proof {
                assert(rest.take(m as int) =~= cs@.subrange(i as int, i + m));
                assert(rest.skip(m as int) =~= s@.skip(i + m));
            }
            out.append(to);
            i = i + m;
        } else {
            proof {
                assert(rest.len() >= m ==> rest.take(m as int) =~= cs@.subrange(i as int, i + m));
                assert(rest.drop_first() =~= s@.skip(i + 1));
            }
            out.push(cs[i]);
            i = i + 1;
        }
    }
    if m == 0 {
        out.append(to);
    }
    proof {
        assert(s@.skip(n as int) =~= Seq::<char>::empty());
    }
    out
}

/// Whether one of the definitions has the label `label`.
pub open spec fn has_label(defs: Seq<(Seq<char>, Seq<char>)>, label: Seq<char>) -> bool {
    exists|j: int| 0 <= j < defs.len() && #[trigger] defs[j].0 == label
}

pub open spec fn labels_distinct(defs: Seq<(Seq<char>, Seq<char>)>) -> bool {
    forall|i: int, j: int| 0 <= i < j < defs.len() ==> defs[i].0 != defs[j].0
}

/// Goes through the expressions found in a template from index `i` on: one that
/// already has a definition is skipped; any other is resolved, and its text joins
/// the definitions; the first failure stops everything.
pub open spec fn collect_definitions_from(
    env: crate::toml_model::TomlTable,
    matches: Seq<Seq<char>>,
    i: int,
    defs: Seq<(Seq<char>, Seq<char>)>,
    answers: Seq<Answer>,
    k: int,
) -> (SpecStep<Seq<(Seq<char>, Seq<char>)>>, int)
    decreases matches.len() - i,
{
    if i < 0 || i >= matches.len() {
        (SpecStep::Done(Ok(defs)), k)
    } else if has_label(defs, matches[i]) {
        collect_definitions_from(env, matches, i + 1, defs, answers, k)
    } else {
        let (s, k1) = spec_resolve(env, expression_source(matches[i]), answers, k);
        match s {
            SpecStep::Need(r) => (SpecStep::Need(r), k1),
            SpecStep::Done(Err(e)) => (
                SpecStep::Done(Err("Error resolving expression '"@ + matches[i] + "': "@ + e)),
                k1,
            ),
            SpecStep::Done(Ok(c)) => collect_definitions_from(
                env,
                matches,
                i + 1,
                defs.push((matches[i], c)),
                answers,
                k1,
            ),
        }
    }
}

/// Replaces the label of each definition from index `i` on by its text, in order.
pub open spec fn apply_definitions_from(content: Seq<char>, defs: Seq<(Seq<char>, Seq<char>)>, i: int) -> Seq<char>
    decreases defs.len() - i,
{
    if i < 0 || i >= defs.len() {
        content
    } else {
        apply_definitions_from(replace_all(content, defs[i].0, defs[i].1), defs, i + 1)
    }
}

/// The finished text: every label replaced by its text, then `\{` by `{`.
pub open spec fn rendered_text(content: Seq<char>, defs: Seq<(Seq<char>, Seq<char>)>) -> Seq<char> {
    replace_all(apply_definitions_from(content, defs, 0), "\\{"@, "{"@)
}

/// Renders a template whose expressions are `matches`, after the definitions `defs`
/// made for earlier templates: the text and all definitions so far.
pub open spec fn spec_render(
    env: crate::toml_model::TomlTable,
    content: Seq<char>,
    matches: Result<Seq<Seq<char>>, Seq<char>>,
    defs: Seq<(Seq<char>, Seq<char>)>,
    answers: Seq<Answer>,
) -> SpecStep<(Seq<char>, Seq<(Seq<char>, Seq<char>)>)> {
    match matches {
        Err(e) => SpecStep::Done(Err(e)),
        Ok(ms) => {
            let (s, _) = collect_definitions_from(env, ms, 0, defs, answers, 0);
            match s {
                SpecStep::Need(r) => SpecStep::Need(r),
                SpecStep::Done(Err(e)) => SpecStep::Done(Err(e)),
                SpecStep::Done(Ok(all)) => SpecStep::Done(Ok((rendered_text(content, all), all))),
            }
        },
    }
}

/// A rendered template and the definitions made so far.
#[derive(Debug, PartialEq)]
pub struct RenderedTemplate {
    pub content: String,
    pub definitions: Vec<ColourDefinition>,
}

impl View for RenderedTemplate {
    type V = (Seq<char>, Seq<(Seq<char>, Seq<char>)>);

    open spec fn view(&self) -> (Seq<char>, Seq<(Seq<char>, Seq<char>)>) {
        (self.content@, definitions_view(self.definitions@))
    }
}

fn has_label_exec(defs: &Vec<ColourDefinition>, label: &String) -> (b: bool)
    ensures
        b == has_label(definitions_view(defs@), label@),
{
    let n = defs.len();
    let mut j: usize = 0;
    while j < n
        invariant
            n == defs@.len(),
            j <= n,
            forall|i: int| 0 <= i < j ==> definitions_view(defs@)[i].0 != label@,
        decreases n - j,
    {
        if str_eq(defs[j].label.as_str(), label.as_str()) {
            proof {
                assert(definitions_view(defs@)[j as int].0 == label@);
            }
            return true;
        }
        j = j + 1;
    }
    false
}

fn copy_definitions(defs: &Vec<ColourDefinition>) -> (r: Vec<ColourDefinition>)
    ensures
        definitions_view(r@) == definitions_view(defs@),
{
    let mut r: Vec<ColourDefinition> = Vec::new();
    let n = defs.len();
    let mut j: usize = 0;
    while j < n
        invariant
            n == defs@.len(),
            j <= n,
            definitions_view(r@) == definitions_view(defs@).take(j as int),
        decreases n - j,
    {
        let ghost before = r@;
        let d = ColourDefinition {
            label: defs[j].label.clone(),
            colour_str: defs[j].colour_str.clone(),
        };
        proof {
            assert(d@ == defs@[j as int]@);
        }
        r.push(d);
        proof {
            assert(r@ == before.push(d));
            assert(definitions_view(r@) =~= definitions_view(before).push(d@));
            assert(definitions_view(r@) =~= definitions_view(defs@).take(j + 1));
        }
        j = j + 1;
    }
    proof {
        assert(definitions_view(defs@).take(n as int) =~= definitions_view(defs@));
    }
    r
}

/// Resolves the expressions `matches` not yet defined in `defs`, in order: all the
/// definitions afterwards, or the step at which it stopped (a request, or a failure).
fn collect_definitions(
    engine: &TemplateEngine,
    matches: &Vec<String>,
    defs: &Vec<ColourDefinition>,
    answers: &Vec<Answer>,
) -> (r: Result<Vec<ColourDefinition>, Step<RenderedTemplate>>)
    ensures
        match collect_definitions_from(
            engine.table(),
            strings_view(matches@),
            0,
            definitions_view(defs@),
            answers@,
            0,
        ).0 {
            SpecStep::Done(Ok(all)) => r matches Ok(v) && definitions_view(v@) == all,
            SpecStep::Done(Err(e)) => r matches Err(s) && step_view(s) == SpecStep::<
                (Seq<char>, Seq<(Seq<char>, Seq<char>)>),
            >::Done(Err(e)),
            SpecStep::Need(q) => r matches Err(s) && step_view(s) == SpecStep::<
                (Seq<char>, Seq<(Seq<char>, Seq<char>)>),
            >::Need(q),
        },
{
    let ghost ms = strings_view(matches@);
    let mut all = copy_definitions(defs);
    let mut k: usize = 0;
    let n = matches.len();
    let mut i: usize = 0;
    while i < n
        invariant
            n == ms.len(),
            ms == strings_view(matches@),
            i <= n,
            k <= answers@.len(),
            collect_definitions_from(engine.table(), ms, 0, definitions_view(defs@), answers@, 0)
                == collect_definitions_from(
                engine.table(),
                ms,
                i as int,
                definitions_view(all@),
                answers@,
                k as int,
            ),
        decreases n - i,
    {
        let label = &matches[i];
        if !has_label_exec(&all, label) {
            let source = strip_expression(label.as_str());
            let (s, k1) = engine.resolve_block_from(source.as_str(), answers, k);
            match s {
                Step::Need(q) => return Err(Step::Need(q)),
                Step::Done(Err(e)) => {
                    let mut m = concat3("Error resolving expression '", label.as_str(), "': ");
                    m.append(e.as_str());
                    return Err(Step::Done(Err(m)));
                },
                Step::Done(Ok(c)) => {
                    let ghost before = definitions_view(all@);
                    all.push(ColourDefinition { label: label.clone(), colour_str: c });
                    proof {
                        assert(definitions_view(all@) =~= before.push((ms[i as int], c@)));
                    }
                },
            }
            k = k1;
        }
        i = i + 1;
    }
    Ok(all)
}

/// Replaces every label by its text, then `\{` by `{`; see `rendered_text`.
pub fn apply_definitions(content: &str, defs: &Vec<ColourDefinition>) -> (r: String)
    ensures
        r@ == rendered_text(content@, definitions_view(defs@)),
{
    let ghost ds = definitions_view(defs@);
    let mut text = String::from_str(content);
    let n = defs.len();
    let mut j: usize = 0;
    while j < n
        invariant
            n == ds.len(),
            ds == definitions_view(defs@),
            j <= n,
            apply_definitions_from(content@, ds, 0) == apply_definitions_from(text@, ds, j as int),
        decreases n - j,
    {
        text = replace_str(text.as_str(), defs[j].label.as_str(), defs[j].colour_str.as_str());
        j = j + 1;
    }
    replace_str(text.as_str(), "\\{", "{")
}

/// Renders a template whose expressions are `matches`; see `spec_render`.
pub fn render_with_matches(
    engine: &TemplateEngine,
    content: &str,
    matches: &Vec<String>,
    defs: &Vec<ColourDefinition>,
    answers: &Vec<Answer>,
) -> (r: Step<RenderedTemplate>)
    ensures
        step_view(r) == spec_render(
            engine.table(),
            content@,
            Ok(strings_view(matches@)),
            definitions_view(defs@),
            answers@,
        ),
{
    match collect_definitions(engine, matches, defs, answers) {
        Err(stop) => stop,
        Ok(all) => {
            let text = apply_definitions(content, &all);
            Step::Done(Ok(RenderedTemplate { content: text, definitions: all }))
        },
    }
}

/// Renders a template: finds its expressions, resolves those not yet defined in
/// `defs`, and substitutes them; see `spec_render`.
pub fn render_template(
    engine: &TemplateEngine,
    content: &str,
    defs: &Vec<ColourDefinition>,
    answers: &Vec<Answer>,
) -> (r: Step<RenderedTemplate>)
    ensures
        step_view(r) == spec_render(
            engine.table(),
            content@,
            regex_find_all(TEMPLATE_EXPR_REGEX_STR@, content@),
            definitions_view(defs@),
            answers@,
        ),
{
    match find_all_matches(TEMPLATE_EXPR_REGEX_STR, content) {
        Ok(matches) => render_with_matches(engine, content, &matches, defs, answers),
        Err(e) => Step::Done(Err(e)),
    }
}

} // verus!

verus! {

proof fn lemma_collect_from(
    env: crate::toml_model::TomlTable,
    matches: Seq<Seq<char>>,
    i: int,
    defs: Seq<(Seq<char>, Seq<char>)>,
    answers: Seq<Answer>,
    k: int,
)
    requires
        0 <= i <= matches.len(),
        labels_distinct(defs),
        forall|j: int| 0 <= j < i ==> has_label(defs, #[trigger] matches[j]),
    ensures
        collect_definitions_from(env, matches, i, defs, answers, k).0 matches SpecStep::Done(
            Ok(all),
        ) ==> {
            &&& labels_distinct(all)
            &&& all.len() >= defs.len()
            &&& all.take(defs.len() as int) == defs
            &&& forall|j: int| 0 <= j < matches.len() ==> has_label(all, #[trigger] matches[j])
        },
    decreases matches.len() - i,
{
    if i == matches.len() {
        assert(defs.take(defs.len() as int) =~= defs);
    } else if has_label(defs, matches[i]) {
        lemma_collect_from(env, matches, i + 1, defs, answers, k);
    } else {
        let (s, k1) = spec_resolve(env, expression_source(matches[i]), answers, k);
        if let SpecStep::Done(Ok(c)) = s {
            let d2 = defs.push((matches[i], c));
            assert forall|j: int| 0 <= j < i + 1 implies has_label(d2, #[trigger] matches[j]) by {
                if j < i {
                    let w = choose|w: int| 0 <= w < defs.len() && #[trigger] defs[w].0 == matches[j];
                    assert(d2[w].0 == matches[j]);
                } else {
                    assert(d2[defs.len() as int].0 == matches[j]);
                }
            }
            assert forall|a: int, b: int| 0 <= a < b < d2.len() implies d2[a].0 != d2[b].0 by {
                if b == defs.len() {
                    assert(d2[a] == defs[a]);
                }
            }
            lemma_collect_from(env, matches, i + 1, d2, answers, k1);
            if let SpecStep::Done(Ok(all)) = collect_definitions_from(
                env,
                matches,
                i + 1,
                d2,
                answers,
                k1,
            ).0 {
                assert(all.take(defs.len() as int) =~= all.take(d2.len() as int).take(
                    defs.len() as int,
                ));
                assert(d2.take(defs.len() as int) =~= defs);
            }
        }
    }
}

/// Rendering templates keeps one definition per expression: when the expressions
/// of a template have been collected, every one of them has a definition, no label
/// has two, and the definitions made before come first, unchanged.
pub proof fn law_one_definition_per_expression(
    env: crate::toml_model::TomlTable,
    matches: Seq<Seq<char>>,
    defs: Seq<(Seq<char>, Seq<char>)>,
    answers: Seq<Answer>,
)
    requires
        labels_distinct(defs),
    ensures
        collect_definitions_from(env, matches, 0, defs, answers, 0).0 matches SpecStep::Done(
            Ok(all),
        ) ==> {
            &&& labels_distinct(all)
            &&& all.len() >= defs.len()
            &&& all.take(defs.len() as int) == defs
            &&& forall|j: int| 0 <= j < matches.len() ==> has_label(all, #[trigger] matches[j])
        },
{
    lemma_collect_from(env, matches, 0, defs, answers, 0);
}

} // verus!

verus! {

/// `x` occurs in `s` (at some index, as a contiguous piece).
pub open spec fn occurs_in(s: Seq<char>, x: Seq<char>) -> bool {
    exists|i: int| 0 <= i && i + x.len() <= s.len() && #[trigger] s.subrange(i, i + x.len()) == x
}

proof fn lemma_occurs_at(s: Seq<char>, x: Seq<char>, i: int)
    requires
        0 <= i,
        i + x.len() <= s.len(),
        s.subrange(i, i + x.len()) == x,
    ensures
        occurs_in(s, x),
{
}

proof fn lemma_no_occurrence_tail(s: Seq<char>, x: Seq<char>)
    requires
        s.len() > 0,
        !occurs_in(s, x),
    ensures
        !occurs_in(s.drop_first(), x),
{
    if occurs_in(s.drop_first(), x) {
        let i = choose|i: int|
            0 <= i && i + x.len() <= s.drop_first().len() && #[trigger] s.drop_first().subrange(
                i,
                i + x.len(),
            ) == x;
        assert(s.subrange(i + 1, i + 1 + x.len()) =~= s.drop_first().subrange(i, i + x.len()));
    }
}

/// Replacing a piece that does not occur leaves the text as it is.
proof fn lemma_replace_absent(s: Seq<char>, from: Seq<char>, to: Seq<char>)
    requires
        !occurs_in(s, from),
    ensures
        replace_all(s, from, to) == s,
    decreases s.len(),
{
    if from.len() == 0 {
        assert(s.subrange(0, 0) =~= from);
        lemma_occurs_at(s, from, 0);
    } else if s.len() >= from.len() && s.take(from.len() as int) == from {
        assert(s.subrange(0, from.len() as int) == s.take(from.len() as int));
        lemma_occurs_at(s, from, 0);
    } else if s.len() > 0 {
        lemma_no_occurrence_tail(s, from);
        lemma_replace_absent(s.drop_first(), from, to);
        assert(seq![s[0]] + s.drop_first() =~= s);
    }
}

proof fn lemma_apply_absent(content: Seq<char>, defs: Seq<(Seq<char>, Seq<char>)>, i: int)
    requires
        0 <= i,
        forall|j: int| i <= j < defs.len() ==> !occurs_in(content, #[trigger] defs[j].0),
    ensures
        apply_definitions_from(content, defs, i) == content,
    decreases defs.len() - i,
{
    if i < defs.len() {
        lemma_replace_absent(content, defs[i].0, defs[i].1);
        lemma_apply_absent(content, defs, i + 1);
    }
}

/// Rendering changes nothing but labels and `\{`: a text in which no label of the
/// definitions occurs and `\{` does not occur comes out as it is (a backslash that
/// is not before `{` is kept).
pub proof fn law_rendering_keeps_other_text(content: Seq<char>, defs: Seq<(Seq<char>, Seq<char>)>)
    requires
        forall|j: int| 0 <= j < defs.len() ==> !occurs_in(content, #[trigger] defs[j].0),
        !occurs_in(content, seq!['\\', '{']),
    ensures
        rendered_text(content, defs) == content,
{
    lemma_apply_absent(content, defs, 0);
    assert("\\{"@ =~= seq!['\\', '{']) by {
        reveal_strlit("\\{");
    }
    lemma_replace_absent(content, "\\{"@, "{"@);
}

/// `\{` becomes `{`: in a text with no definitions, the first `\{` is replaced by
/// `{`, the text before it kept and the text after it rendered alike.
pub proof fn law_escaped_brace_becomes_brace(before: Seq<char>, after: Seq<char>)
    requires
        !occurs_in(before, seq!['\\', '{']),
    ensures
        rendered_text(before + seq!['\\', '{'] + after, seq![]) == before + seq!['{'] + rendered_text(
            after,
            seq![],
        ),
    decreases before.len(),
{
    let esc = seq!['\\', '{'];
    assert("\\{"@ =~= esc) by {
        reveal_strlit("\\{");
    }
    assert("{"@ =~= seq!['{']) by {
        reveal_strlit("{");
    }
    let s = before + esc + after;
    assert(apply_definitions_from(s, seq![], 0) == s);
    assert(apply_definitions_from(after, seq![], 0) == after);
    if before.len() == 0 {
        assert(s =~= esc + after);
        assert(s.take(2) =~= esc);
        assert(s.skip(2) =~= after);
        assert(before + seq!['{'] + replace_all(after, esc, seq!['{']) =~= seq!['{'] + replace_all(
            after,
            esc,
            seq!['{'],
        ));
    } else {
        lemma_no_occurrence_tail(before, esc);
        law_escaped_brace_becomes_brace(before.drop_first(), after);
        assert(s.drop_first() =~= before.drop_first() + esc + after);
        assert(apply_definitions_from(s.drop_first(), seq![], 0) == s.drop_first());
        if s.len() >= 2 && s.take(2) == esc {
            if before.len() >= 2 {
                assert(before.subrange(0, 2) =~= s.take(2));
                lemma_occurs_at(before, esc, 0);
            } else {
                assert(s[1] == '\\');
                assert(s.take(2)[1] == s[1]);
            }
        }
        assert(s[0] == before[0]);
        assert(before + seq!['{'] + replace_all(after, esc, seq!['{']) =~= seq![before[0]] + (
        before.drop_first() + seq!['{'] + replace_all(after, esc, seq!['{'])));
    }
}

} // verus!
