use vstd::prelude::*;

use crate::ast::{
    expr_view, exprs_view, path_view, template_expr_view, template_exprs_view, Expr, SpecExpr,
    SpecTemplateExpr, TemplateBlock, TemplateExpr,
};
use crate::text::{concat2, concat3, push_quoted, quoted, str_eq};
use crate::token::{tokens_view, SpecToken, Token};

verus! {

/// How an error message shows a token (as `{:?}` shows the tokens the lexer makes).
pub open spec fn token_debug(t: SpecToken) -> Seq<char> {
    match t {
        SpecToken::Word(w) => "Word("@ + quoted(w) + ")"@,
        SpecToken::Number(n) => "Number("@ + quoted(n) + ")"@,
        SpecToken::Hex(h) => "Hex("@ + quoted(h) + ")"@,
        SpecToken::Colon => "Colon"@,
        SpecToken::Dot => "Dot"@,
        SpecToken::Comma => "Comma"@,
        SpecToken::OpenParen => "OpenParen"@,
        SpecToken::CloseParen => "CloseParen"@,
        SpecToken::Or => "Or"@,
    }
}

/// Steps past the token at `pos` unless the input is exhausted, and yields the
/// token just before the new position: at the end of the input that is the last
/// token again, and nothing when there are no tokens.
pub open spec fn advance_at(toks: Seq<SpecToken>, pos: int) -> (Option<SpecToken>, int) {
    let next = if pos < toks.len() {
        pos + 1
    } else {
        pos
    };
    (
        if 0 <= next - 1 < toks.len() {
            Some(toks[next - 1])
        } else {
            None
        },
        next,
    )
}

/// Whether the token at `pos` is `t`.
pub open spec fn check_at(toks: Seq<SpecToken>, pos: int, t: SpecToken) -> bool {
    0 <= pos < toks.len() && toks[pos] == t
}

pub open spec fn missing_close_message(name: Seq<char>) -> Seq<char> {
    "Expected ')' after arguments for '"@ + name + "'"@
}

/// An expression starting at `pos`, with the position after it.
pub open spec fn parse_expr(toks: Seq<SpecToken>, pos: int) -> Result<(SpecExpr, int), Seq<char>>
    decreases toks.len() - pos, 0int,
{
    let (tok, p1) = advance_at(toks, pos);
    match tok {
        Some(SpecToken::Hex(h)) => Ok((SpecExpr::Hex(h), p1)),
        Some(SpecToken::Number(n)) => Ok((SpecExpr::Number(n), p1)),
        Some(SpecToken::Word(w)) => {
            if check_at(toks, p1, SpecToken::OpenParen) {
                match parse_args(toks, p1 + 1) {
                    Ok((args, p2)) => {
                        if check_at(toks, p2, SpecToken::CloseParen) {
                            Ok((SpecExpr::Function(w, args), p2 + 1))
                        } else {
                            Err(missing_close_message(w))
                        }
                    },
                    Err(e) => Err(e),
                }
            } else {
                parse_path(toks, p1, seq![w])
            }
        },
        Some(t) => Err("Unexpected token in expression: "@ + token_debug(t)),
        None => Err("Unexpected end of input while parsing expression"@),
    }
}

/// The arguments of a call, starting just after `(`, with the position of the `)`.
pub open spec fn parse_args(toks: Seq<SpecToken>, pos: int) -> Result<(Seq<SpecExpr>, int), Seq<char>>
    decreases toks.len() - pos, 2int,
{
    if check_at(toks, pos, SpecToken::CloseParen) {
        Ok((seq![], pos))
    } else {
        parse_arg_list(toks, pos, seq![])
    }
}

/// Comma-separated expressions from `pos`, after the arguments `acc` already read.
pub open spec fn parse_arg_list(toks: Seq<SpecToken>, pos: int, acc: Seq<SpecExpr>) -> Result<
    (Seq<SpecExpr>, int),
    Seq<char>,
>
    decreases toks.len() - pos, 1int,
{
    match parse_expr(toks, pos) {
        Ok((e, p)) => {
            if check_at(toks, p, SpecToken::Comma) {
                if p < pos {
                    // never taken: an expression does not end before it starts
                    Err(seq![])
                } else {
                    parse_arg_list(toks, p + 1, acc.push(e))
                }
            } else {
                Ok((acc.push(e), p))
            }
        },
        Err(e) => Err(e),
    }
}

/// The rest of a dotted path after the parts `parts` already read.
pub open spec fn parse_path(toks: Seq<SpecToken>, pos: int, parts: Seq<Seq<char>>) -> Result<
    (SpecExpr, int),
    Seq<char>,
>
    decreases toks.len() - pos,
{
    if check_at(toks, pos, SpecToken::Dot) {
        let (t, p2) = advance_at(toks, pos + 1);
        match t {
            Some(SpecToken::Word(w)) => parse_path(toks, p2, parts.push(w)),
            Some(t) => Err("Expected identifier after '.', found "@ + token_debug(t)),
            None => Err("Unexpected end of input after '.'"@),
        }
    } else {
        Ok((SpecExpr::Identifier(parts), pos))
    }
}

/// `format ':' expression` starting at `pos`.
pub open spec fn parse_template(toks: Seq<SpecToken>, pos: int) -> Result<(SpecTemplateExpr, int), Seq<char>> {
    let (t, p1) = advance_at(toks, pos);
    match t {
        Some(SpecToken::Word(w)) => {
            if check_at(toks, p1, SpecToken::Colon) {
                match parse_expr(toks, p1 + 1) {
                    Ok((e, p2)) => Ok((SpecTemplateExpr { format: w, expr: e }, p2)),
                    Err(e) => Err(e),
                }
            } else {
                Err("Expected ':' after format identifier"@)
            }
        },
        _ => Err("Expected format identifier (e.g. 'hex') at the start"@),
    }
}

/// Further `||`-separated alternatives from `pos`, after the alternatives `acc`;
/// then the input must be exhausted.
pub open spec fn parse_fallbacks(toks: Seq<SpecToken>, pos: int, acc: Seq<SpecTemplateExpr>) -> Result<
    Seq<SpecTemplateExpr>,
    Seq<char>,
>
    decreases toks.len() - pos,
{
    if check_at(toks, pos, SpecToken::Or) {
        match parse_template(toks, pos + 1) {
            Ok((te, p2)) => {
                if p2 <= pos || p2 > toks.len() {
                    // never taken: an alternative ends after its start and within the input
                    Err(seq![])
                } else {
                    parse_fallbacks(toks, p2, acc.push(te))
                }
            },
            Err(e) => Err(e),
        }
    } else if 0 <= pos < toks.len() {
        Err("Unexpected token after parsing template expression: Some("@ + token_debug(toks[pos])
            + ")"@)
    } else {
        Ok(acc)
    }
}

/// A whole block from `pos`: one or more alternatives separated by `||`, up to the
/// end of the input.
pub open spec fn spec_parse(toks: Seq<SpecToken>, pos: int) -> Result<Seq<SpecTemplateExpr>, Seq<char>> {
    match parse_template(toks, pos) {
        Ok((te, p)) => parse_fallbacks(toks, p, seq![te]),
        Err(e) => Err(e),
    }
}

pub open spec fn opt_token_view<'a>(t: Option<Token<'a>>) -> Option<SpecToken> {
    match t {
        Some(t) => Some(t@),
        None => None,
    }
}

pub open spec fn block_result_view<'a>(r: Result<TemplateBlock<'a>, String>) -> Result<
    Seq<SpecTemplateExpr>,
    Seq<char>,
> {
    match r {
        Ok(b) => Ok(template_exprs_view(b.fallbacks@)),
        Err(e) => Err(e@),
    }
}

/// Whether an executable result agrees with a spec result, whose position is where
/// the parser stands afterwards.
pub open spec fn agrees<T, S>(
    res: Result<T, String>,
    spec: Result<(S, int), Seq<char>>,
    view: spec_fn(T) -> S,
    final_pos: int,
) -> bool {
    match spec {
        Ok((v, p)) => res matches Ok(r) && view(r) == v && final_pos == p,
        Err(m) => res matches Err(r) && r@ == m,
    }
}

fn text_token_debug(kind: &str, text: &str) -> (s: String)
    ensures
        s@ == kind@ + quoted(text@) + ")"@,
{
    let mut s = String::from_str(kind);
    push_quoted(&mut s, text);
    s.append(")");
    s
}

fn token_debug_string<'a>(t: &Token<'a>) -> (s: String)
    ensures
        s@ == token_debug(t@),
{
    match t {
        Token::Word(w) => text_token_debug("Word(", w),
        Token::Number(n) => text_token_debug("Number(", n),
        Token::Hex(h) => text_token_debug("Hex(", h),
        Token::Colon => String::from_str("Colon"),
        Token::Dot => String::from_str("Dot"),
        Token::Comma => String::from_str("Comma"),
        Token::OpenParen => String::from_str("OpenParen"),
        Token::CloseParen => String::from_str("CloseParen"),
        Token::Or => String::from_str("Or"),
    }
}

fn token_eq<'a, 'b>(a: &Token<'a>, b: &Token<'b>) -> (eq: bool)
    ensures
        eq == (a@ == b@),
{
    match (a, b) {
        (Token::Word(x), Token::Word(y)) => str_eq(x, y),
        (Token::Number(x), Token::Number(y)) => str_eq(x, y),
        (Token::Hex(x), Token::Hex(y)) => str_eq(x, y),
        (Token::Colon, Token::Colon) => true,
        (Token::Dot, Token::Dot) => true,
        (Token::Comma, Token::Comma) => true,
        (Token::OpenParen, Token::OpenParen) => true,
        (Token::CloseParen, Token::CloseParen) => true,
        (Token::Or, Token::Or) => true,
        _ => false,
    }
}

pub struct Parser<'a> {
    tokens: Vec<Token<'a>>,
    current: usize,
}

impl<'a> Parser<'a> {
    /// The models of the tokens being parsed.
    pub closed spec fn token_models(&self) -> Seq<SpecToken> {
        tokens_view(self.tokens@)
    }

    /// The index of the next token to read.
    pub closed spec fn position(&self) -> int {
        self.current as int
    }

    pub closed spec fn wf(&self) -> bool {
        self.current <= self.tokens@.len()
    }

    pub fn new(tokens: Vec<Token<'a>>) -> (p: Self)
        ensures
            p.wf(),
            p.token_models() == tokens_view(tokens@),
            p.position() == 0,
    {
        Self { tokens, current: 0 }
    }

    /// Parses a whole block; see `spec_parse`.
    pub fn parse(&mut self) -> (res: Result<TemplateBlock<'a>, String>)
        requires
            old(self).wf(),
        ensures
            final(self).wf(),
            final(self).token_models() == old(self).token_models(),
            block_result_view(res) == spec_parse(old(self).token_models(), old(self).position()),
    {
        let ghost toks = self.token_models();
        let mut fallbacks: Vec<TemplateExpr<'a>> = Vec::new();
        let first = match self.parse_template_expr() {
            Ok(t) => t,
            Err(e) => return Err(e),
        };
        fallbacks.push(first);
        proof {
            assert(template_exprs_view(fallbacks@) =~= seq![template_expr_view(first)]);
        }
        let n = self.tokens.len();
        loop
            invariant
                self.wf(),
                self.token_models() == toks,
                old(self).token_models() == toks,
                n == toks.len(),
                spec_parse(toks, old(self).position()) == parse_fallbacks(
                    toks,
                    self.position(),
                    template_exprs_view(fallbacks@),
                ),
            ensures
                self.wf(),
                self.token_models() == toks,
                !check_at(toks, self.position(), SpecToken::Or),
                spec_parse(toks, old(self).position()) == parse_fallbacks(
                    toks,
                    self.position(),
                    template_exprs_view(fallbacks@),
                ),
            decreases n - self.current,
        {
            let ghost p = self.position();
            let ghost before = template_exprs_view(fallbacks@);
            if !self.match_token(&Token::Or) {
                break;
            }
            let te = match self.parse_template_expr() {
                Ok(t) => t,
                Err(e) => return Err(e),
            };
            fallbacks.push(te);
            proof {
                assert(template_exprs_view(fallbacks@) =~= before.push(template_expr_view(te)));
            }
        }
        if !self.is_at_end() {
            let e = match self.peek() {
                Some(t) => concat3(
                    "Unexpected token after parsing template expression: Some(",
                    token_debug_string(&t).as_str(),
                    ")",
                ),
                None => String::new(),
            };
            return Err(e);
        }
        Ok(TemplateBlock { fallbacks })
    }

    /// Parses `format ':' expression`; see `parse_template`.
    pub fn parse_template_expr(&mut self) -> (res: Result<TemplateExpr<'a>, String>)
        requires
            old(self).wf(),
        ensures
            final(self).wf(),
            final(self).token_models() == old(self).token_models(),
            final(self).position() >= old(self).position(),
            res is Ok ==> final(self).position() > old(self).position(),
            agrees(
                res,
                parse_template(old(self).token_models(), old(self).position()),
                |t: TemplateExpr<'a>| template_expr_view(t),
                final(self).position(),
            ),
    {
        let format = match self.advance() {
            Some(Token::Word(w)) => w,
            _ => return Err(String::from_str("Expected format identifier (e.g. 'hex') at the start")),
        };
        if !self.match_token(&Token::Colon) {
            return Err(String::from_str("Expected ':' after format identifier"));
        }
        let expr = match self.parse_expression() {
            Ok(e) => e,
            Err(e) => return Err(e),
        };
        Ok(TemplateExpr { format, expr })
    }

    fn parse_expression(&mut self) -> (res: Result<Expr<'a>, String>)
        requires
            old(self).wf(),
        ensures
            final(self).wf(),
            final(self).token_models() == old(self).token_models(),
            final(self).position() >= old(self).position(),
            agrees(
                res,
                parse_expr(old(self).token_models(), old(self).position()),
                |e: Expr<'a>| expr_view(e),
                final(self).position(),
            ),
        decreases old(self).tokens@.len() - old(self).current, 0int,
    {
        let ghost toks = self.token_models();
        let token = self.advance();
        match token {
            Some(Token::Hex(h)) => Ok(Expr::Hex(h)),
            Some(Token::Number(n)) => Ok(Expr::Number(n)),
            Some(Token::Word(first_word)) => {
                if self.match_token(&Token::OpenParen) {
                    let args = match self.parse_arguments() {
                        Ok(a) => a,
                        Err(e) => return Err(e),
                    };
                    if !self.match_token(&Token::CloseParen) {
                        return Err(concat3("Expected ')' after arguments for '", first_word, "'"));
                    }
                    let e = Expr::Function { name: first_word, args };
                    proof {
                        if let SpecExpr::Function(nm, sargs) = expr_view(e) {
                            assert(sargs =~= exprs_view(args@));
                        }
                    }
                    Ok(e)
                } else {
                    let mut path_parts: Vec<&'a str> = Vec::new();
                    path_parts.push(first_word);
                    proof {
                        assert(path_view(path_parts@) =~= seq![first_word@]);
                    }
                    let n = self.tokens.len();
                    loop
                        invariant
                            self.wf(),
                            self.token_models() == toks,
                            old(self).token_models() == toks,
                            n == toks.len(),
                            self.position() >= old(self).position(),
                            parse_expr(toks, old(self).position()) == parse_path(
                                toks,
                                self.position(),
                                path_view(path_parts@),
                            ),
                        ensures
                            self.wf(),
                            self.token_models() == toks,
                            self.position() >= old(self).position(),
                            !check_at(toks, self.position(), SpecToken::Dot),
                            parse_expr(toks, old(self).position()) == parse_path(
                                toks,
                                self.position(),
                                path_view(path_parts@),
                            ),
                        decreases n - self.current,
                    {
                        let ghost before = path_view(path_parts@);
                        if !self.match_token(&Token::Dot) {
                            break;
                        }
                        match self.advance() {
                            Some(Token::Word(next_word)) => {
                                path_parts.push(next_word);
                                proof {
                                    assert(path_view(path_parts@) =~= before.push(next_word@));
                                }
                            },
                            Some(t) => {
                                return Err(
                                    concat2(
                                        "Expected identifier after '.', found ",
                                        token_debug_string(&t).as_str(),
                                    ),
                                );
                            },
                            None => {
                                return Err(String::from_str("Unexpected end of input after '.'"));
                            },
                        }
                    }
                    Ok(Expr::Identifier(path_parts))
                }
            },
            Some(t) => Err(
                concat2("Unexpected token in expression: ", token_debug_string(&t).as_str()),
            ),
            None => Err(String::from_str("Unexpected end of input while parsing expression")),
        }
    }

    fn parse_arguments(&mut self) -> (res: Result<Vec<Expr<'a>>, String>)
        requires
            old(self).wf(),
        ensures
            final(self).wf(),
            final(self).token_models() == old(self).token_models(),
            final(self).position() >= old(self).position(),
            agrees(
                res,
                parse_args(old(self).token_models(), old(self).position()),
                |v: Vec<Expr<'a>>| exprs_view(v@),
                final(self).position(),
            ),
        decreases old(self).tokens@.len() - old(self).current, 2int,
    {
        let ghost toks = self.token_models();
        let mut args: Vec<Expr<'a>> = Vec::new();
        if self.check(&Token::CloseParen) {
            proof {
                assert(exprs_view(args@) =~= seq![]);
            }
            return Ok(args);
        }
        proof {
            assert(exprs_view(args@) =~= seq![]);
        }
        let n = self.tokens.len();
        loop
            invariant
                self.wf(),
                self.token_models() == toks,
                old(self).token_models() == toks,
                n == toks.len(),
                self.position() >= old(self).position(),
                parse_args(toks, old(self).position()) == parse_arg_list(
                    toks,
                    self.position(),
                    exprs_view(args@),
                ),
            decreases n - self.current,
        {
            let ghost before = exprs_view(args@);
            let e = match self.parse_expression() {
                Ok(e) => e,
                Err(e) => return Err(e),
            };
            args.push(e);
            proof {
                assert(exprs_view(args@) =~= before.push(expr_view(e)));
            }
            if !self.match_token(&Token::Comma) {
                return Ok(args);
            }
        }
    }

    fn peek(&self) -> (t: Option<Token<'a>>)
        requires
            self.wf(),
        ensures
            opt_token_view(t) == (if self.position() < self.token_models().len() {
                Some(self.token_models()[self.position()])
            } else {
                None
            }),
    {
        if self.current < self.tokens.len() {
            Some(self.tokens[self.current])
        } else {
            None
        }
    }

    fn advance(&mut self) -> (t: Option<Token<'a>>)
        requires
            old(self).wf(),
        ensures
            final(self).wf(),
            final(self).token_models() == old(self).token_models(),
            (opt_token_view(t), final(self).position()) == advance_at(
                old(self).token_models(),
                old(self).position(),
            ),
    {
        let n = self.tokens.len();
        if self.current < n {
            self.current = self.current + 1;
        }
        if self.current >= 1 && self.current - 1 < self.tokens.len() {
            Some(self.tokens[self.current - 1])
        } else {
            None
        }
    }

    fn match_token(&mut self, expected: &Token) -> (matched: bool)
        requires
            old(self).wf(),
        ensures
            final(self).wf(),
            final(self).token_models() == old(self).token_models(),
            matched == check_at(old(self).token_models(), old(self).position(), expected@),
            final(self).position() == old(self).position() + if matched {
                1int
            } else {
                0int
            },
    {
        if self.check(expected) {
            self.advance();
            true
        } else {
            false
        }
    }

    fn check(&self, expected: &Token) -> (matched: bool)
        requires
            self.wf(),
        ensures
            matched == check_at(self.token_models(), self.position(), expected@),
    {
        if self.is_at_end() {
            return false;
        }
        token_eq(&self.tokens[self.current], expected)
    }

    fn is_at_end(&self) -> (at_end: bool)
        ensures
            at_end == (self.position() >= self.token_models().len()),
    {
        self.current >= self.tokens.len()
    }
}

} // verus!

verus! {

/// The number of `||` tokens in `s`.
pub open spec fn count_or(s: Seq<SpecToken>) -> nat
    decreases s.len(),
{
    if s.len() == 0 {
        0
    } else {
        count_or(s.drop_last()) + if s.last() is Or {
            1nat
        } else {
            0nat
        }
    }
}

proof fn lemma_count_or_concat(s: Seq<SpecToken>, t: Seq<SpecToken>)
    ensures
        count_or(s + t) == count_or(s) + count_or(t),
    decreases t.len(),
{
    if t.len() == 0 {
        assert(s + t =~= s);
    } else {
        lemma_count_or_concat(s, t.drop_last());
        assert((s + t).drop_last() =~= s + t.drop_last());
    }
}

proof fn lemma_count_or_none(s: Seq<SpecToken>)
    requires
        forall|j: int| 0 <= j < s.len() ==> !(#[trigger] s[j] is Or),
    ensures
        count_or(s) == 0,
    decreases s.len(),
{
    if s.len() > 0 {
        lemma_count_or_none(s.drop_last());
    }
}

/// No `||` among the tokens from `a` up to `b`.
pub open spec fn no_or_between(toks: Seq<SpecToken>, a: int, b: int) -> bool {
    forall|j: int| a <= j < b ==> !(#[trigger] toks[j] is Or)
}

proof fn lemma_path_span(toks: Seq<SpecToken>, pos: int, parts: Seq<Seq<char>>)
    requires
        0 <= pos <= toks.len(),
    ensures
        parse_path(toks, pos, parts) matches Ok((_, p)) ==> pos <= p <= toks.len() && no_or_between(
            toks,
            pos,
            p,
        ),
    decreases toks.len() - pos,
{
    if check_at(toks, pos, SpecToken::Dot) {
        let (t, p2) = advance_at(toks, pos + 1);
        if let Some(SpecToken::Word(w)) = t {
            lemma_path_span(toks, p2, parts.push(w));
            if pos + 1 >= toks.len() {
                assert(t == Some(toks[pos]));
            }
        }
    }
}

proof fn lemma_expr_span(toks: Seq<SpecToken>, pos: int)
    requires
        0 <= pos <= toks.len(),
    ensures
        parse_expr(toks, pos) matches Ok((_, p)) ==> pos <= p <= toks.len() && no_or_between(
            toks,
            pos,
            p,
        ),
    decreases toks.len() - pos, 0int,
{
    let (tok, p1) = advance_at(toks, pos);
    if let Some(SpecToken::Word(w)) = tok {
        if check_at(toks, p1, SpecToken::OpenParen) {
            lemma_args_span(toks, p1 + 1);
        } else {
            lemma_path_span(toks, p1, seq![w]);
        }
    }
}

proof fn lemma_args_span(toks: Seq<SpecToken>, pos: int)
    requires
        0 <= pos <= toks.len(),
    ensures
        parse_args(toks, pos) matches Ok((_, p)) ==> pos <= p <= toks.len() && no_or_between(
            toks,
            pos,
            p,
        ),
    decreases toks.len() - pos, 2int,
{
    if !check_at(toks, pos, SpecToken::CloseParen) {
        lemma_arg_list_span(toks, pos, seq![]);
    }
}

proof fn lemma_arg_list_span(toks: Seq<SpecToken>, pos: int, acc: Seq<SpecExpr>)
    requires
        0 <= pos <= toks.len(),
    ensures
        parse_arg_list(toks, pos, acc) matches Ok((_, p)) ==> pos <= p <= toks.len()
            && no_or_between(toks, pos, p),
    decreases toks.len() - pos, 1int,
{
    lemma_expr_span(toks, pos);
    if let Ok((e, p)) = parse_expr(toks, pos) {
        if check_at(toks, p, SpecToken::Comma) && p >= pos {
            lemma_arg_list_span(toks, p + 1, acc.push(e));
        }
    }
}

proof fn lemma_template_span(toks: Seq<SpecToken>, pos: int)
    requires
        0 <= pos <= toks.len(),
    ensures
        parse_template(toks, pos) matches Ok((_, p)) ==> pos < p <= toks.len() && no_or_between(
            toks,
            pos,
            p,
        ),
{
    let (t, p1) = advance_at(toks, pos);
    if let Some(SpecToken::Word(w)) = t {
        if check_at(toks, p1, SpecToken::Colon) {
            lemma_expr_span(toks, p1 + 1);
        }
    }
}

proof fn lemma_fallbacks_count(toks: Seq<SpecToken>, pos: int, acc: Seq<SpecTemplateExpr>)
    requires
        0 <= pos <= toks.len(),
    ensures
        parse_fallbacks(toks, pos, acc) matches Ok(r) ==> r.len() == acc.len() + count_or(
            toks.subrange(pos, toks.len() as int),
        ),
    decreases toks.len() - pos,
{
    let rest = toks.subrange(pos, toks.len() as int);
    if check_at(toks, pos, SpecToken::Or) {
        lemma_template_span(toks, pos + 1);
        if let Ok((te, p2)) = parse_template(toks, pos + 1) {
            if p2 > pos && p2 <= toks.len() {
                lemma_fallbacks_count(toks, p2, acc.push(te));
                let mid = toks.subrange(pos + 1, p2);
                let tail = toks.subrange(p2, toks.len() as int);
                assert(rest =~= seq![toks[pos]] + mid + tail);
                lemma_count_or_concat(seq![toks[pos]] + mid, tail);
                lemma_count_or_concat(seq![toks[pos]], mid);
                assert forall|j: int| 0 <= j < mid.len() implies !(#[trigger] mid[j] is Or) by {
                    assert(mid[j] == toks[pos + 1 + j]);
                }
                lemma_count_or_none(mid);
                let one = seq![toks[pos]];
                assert(one.drop_last() =~= Seq::<SpecToken>::empty());
                assert(count_or(one.drop_last()) == 0);
                assert(one.last() is Or);
                assert(count_or(one) == 1);
                assert(count_or(rest) == 1 + count_or(tail));
                assert(parse_fallbacks(toks, pos, acc) == parse_fallbacks(toks, p2, acc.push(te)));
            }
        }
    } else if pos == toks.len() {
        assert(rest =~= Seq::<SpecToken>::empty());
    }
}

/// A block that parses has one alternative more than it has `||` separators.
pub proof fn law_one_alternative_per_separator(toks: Seq<SpecToken>)
    ensures
        spec_parse(toks, 0) matches Ok(fallbacks) ==> fallbacks.len() == count_or(toks) + 1,
{
    lemma_template_span(toks, 0);
    if let Ok((te, p)) = parse_template(toks, 0) {
        lemma_fallbacks_count(toks, p, seq![te]);
        let head = toks.subrange(0, p);
        let tail = toks.subrange(p, toks.len() as int);
        assert(toks =~= head + tail);
        lemma_count_or_concat(head, tail);
        assert forall|j: int| 0 <= j < head.len() implies !(#[trigger] head[j] is Or) by {
            assert(head[j] == toks[j]);
        }
        lemma_count_or_none(head);
    }
}

} // verus!

verus! {

/// The tokens that spell an expression: a hex colour or a number as itself, a
/// path as its words joined by `.`, a call as its name, `(`, its arguments joined
/// by `,` and `)`.
pub open spec fn expr_tokens(e: SpecExpr) -> Seq<SpecToken>
    decreases e, 0int,
{
    match e {
        SpecExpr::Hex(h) => seq![SpecToken::Hex(h)],
        SpecExpr::Number(n) => seq![SpecToken::Number(n)],
        SpecExpr::Identifier(parts) => if parts.len() == 0 {
            seq![]
        } else {
            seq![SpecToken::Word(parts[0])] + path_tail_tokens(parts, 1)
        },
        SpecExpr::Function(name, args) => seq![SpecToken::Word(name), SpecToken::OpenParen]
            + args_tokens(args, 0) + seq![SpecToken::CloseParen],
    }
}

/// `.` and the word of each path part from index `i` on.
pub open spec fn path_tail_tokens(parts: Seq<Seq<char>>, i: int) -> Seq<SpecToken>
    decreases parts.len() - i,
{
    if i < 0 || i >= parts.len() {
        seq![]
    } else {
        seq![SpecToken::Dot, SpecToken::Word(parts[i])] + path_tail_tokens(parts, i + 1)
    }
}

/// The tokens of the arguments from index `i` on, joined by `,`.
pub open spec fn args_tokens(args: Seq<SpecExpr>, i: int) -> Seq<SpecToken>
    decreases args, args.len() - i,
{
    if i < 0 || i >= args.len() {
        seq![]
    } else if i == args.len() - 1 {
        expr_tokens(args[i])
    } else {
        expr_tokens(args[i]) + seq![SpecToken::Comma] + args_tokens(args, i + 1)
    }
}

/// An expression that the parser can give: every path has a part.
pub open spec fn expr_wf(e: SpecExpr) -> bool
    decreases e, 0int,
{
    match e {
        SpecExpr::Identifier(parts) => parts.len() > 0,
        SpecExpr::Function(_, args) => args_wf(args, 0),
        _ => true,
    }
}

pub open spec fn args_wf(args: Seq<SpecExpr>, i: int) -> bool
    decreases args, args.len() - i,
{
    if i < 0 || i >= args.len() {
        true
    } else {
        expr_wf(args[i]) && args_wf(args, i + 1)
    }
}

/// The tokens of an alternative: its format, `:` and its expression.
pub open spec fn template_tokens(t: SpecTemplateExpr) -> Seq<SpecToken> {
    seq![SpecToken::Word(t.format), SpecToken::Colon] + expr_tokens(t.expr)
}

/// `||` and the tokens of each alternative from index `i` on.
pub open spec fn fallback_tail_tokens(fs: Seq<SpecTemplateExpr>, i: int) -> Seq<SpecToken>
    decreases fs.len() - i,
{
    if i < 0 || i >= fs.len() {
        seq![]
    } else {
        seq![SpecToken::Or] + template_tokens(fs[i]) + fallback_tail_tokens(fs, i + 1)
    }
}

/// The tokens of a block: its alternatives joined by `||`.
pub open spec fn block_tokens(fs: Seq<SpecTemplateExpr>) -> Seq<SpecToken> {
    if fs.len() == 0 {
        seq![]
    } else {
        template_tokens(fs[0]) + fallback_tail_tokens(fs, 1)
    }
}

/// The tokens from `pos` on begin with `s`.
pub open spec fn starts_at(toks: Seq<SpecToken>, pos: int, s: Seq<SpecToken>) -> bool {
    &&& 0 <= pos
    &&& pos + s.len() <= toks.len()
    &&& forall|k: int| 0 <= k < s.len() ==> #[trigger] toks[pos + k] == s[k]
}

/// Nothing that could continue an expression follows index `q`: the input ends, or
/// the token there is neither `.` nor `(`.
pub open spec fn ends_expression(toks: Seq<SpecToken>, q: int) -> bool {
    q >= toks.len() || (toks[q] != SpecToken::Dot && toks[q] != SpecToken::OpenParen)
}

proof fn lemma_starts_split(toks: Seq<SpecToken>, pos: int, a: Seq<SpecToken>, b: Seq<SpecToken>)
    requires
        starts_at(toks, pos, a + b),
    ensures
        starts_at(toks, pos, a),
        starts_at(toks, pos + a.len(), b),
{
    assert forall|k: int| 0 <= k < a.len() implies #[trigger] toks[pos + k] == a[k] by {
        assert(toks[pos + k] == (a + b)[k]);
    }
    assert forall|k: int| 0 <= k < b.len() implies #[trigger] toks[pos + a.len() + k] == b[k] by {
        assert(toks[pos + (a.len() + k)] == (a + b)[a.len() + k]);
    }
}

proof fn lemma_expr_tokens_start(e: SpecExpr)
    requires
        expr_wf(e),
    ensures
        expr_tokens(e).len() > 0,
        expr_tokens(e)[0] is Hex || expr_tokens(e)[0] is Number || expr_tokens(e)[0] is Word,
{
}

proof fn lemma_parse_path_back(toks: Seq<SpecToken>, pos: int, parts: Seq<Seq<char>>, i: int)
    requires
        1 <= i <= parts.len(),
        starts_at(toks, pos, path_tail_tokens(parts, i)),
        ends_expression(toks, pos + path_tail_tokens(parts, i).len()),
    ensures
        parse_path(toks, pos, parts.take(i)) == Ok::<(SpecExpr, int), Seq<char>>(
            (SpecExpr::Identifier(parts), pos + path_tail_tokens(parts, i).len()),
        ),
    decreases parts.len() - i,
{
    if i < parts.len() {
        let rest = path_tail_tokens(parts, i + 1);
        lemma_starts_split(toks, pos, seq![SpecToken::Dot, SpecToken::Word(parts[i])], rest);
        assert(toks[pos + 0] == SpecToken::Dot);
        assert(toks[pos + 1] == SpecToken::Word(parts[i]));
        assert(parts.take(i).push(parts[i]) =~= parts.take(i + 1));
        lemma_parse_path_back(toks, pos + 2, parts, i + 1);
    } else {
        assert(parts.take(i) =~= parts);
    }
}

proof fn lemma_parse_expr_back(toks: Seq<SpecToken>, pos: int, e: SpecExpr)
    requires
        expr_wf(e),
        starts_at(toks, pos, expr_tokens(e)),
        ends_expression(toks, pos + expr_tokens(e).len()),
    ensures
        parse_expr(toks, pos) == Ok::<(SpecExpr, int), Seq<char>>((e, pos + expr_tokens(e).len())),
    decreases e, 0int,
{
    let ts = expr_tokens(e);
    assert(toks[pos + 0] == ts[0]);
    match e {
        SpecExpr::Identifier(parts) => {
            let tail = path_tail_tokens(parts, 1);
            lemma_starts_split(toks, pos, seq![SpecToken::Word(parts[0])], tail);
            if parts.len() > 1 {
                assert(toks[pos + 1 + 0] == tail[0]);
            }
            assert(parts.take(1) =~= seq![parts[0]]);
            lemma_parse_path_back(toks, pos + 1, parts, 1);
        },
        SpecExpr::Function(name, args) => {
            let inner = args_tokens(args, 0);
            let head = seq![SpecToken::Word(name), SpecToken::OpenParen];
            lemma_starts_split(toks, pos, head + inner, seq![SpecToken::CloseParen]);
            lemma_starts_split(toks, pos, head, inner);
            assert(toks[pos + 1] == SpecToken::OpenParen);
            let q = pos + 2 + inner.len();
            assert(toks[q + 0] == SpecToken::CloseParen);
            if args.len() == 0 {
                assert(parse_args(toks, pos + 2) == Ok::<(Seq<SpecExpr>, int), Seq<char>>(
                    (seq![], pos + 2),
                ));
                assert(args =~= seq![]);
            } else {
                lemma_args_first(args);
                lemma_expr_tokens_start(args[0]);
                assert(toks[pos + 2 + 0] == inner[0]);
                assert(args.take(0) =~= seq![]);
                lemma_parse_args_back(toks, pos + 2, args, 0, seq![]);
            }
        },
        _ => {},
    }
}

proof fn lemma_args_first(args: Seq<SpecExpr>)
    requires
        args.len() > 0,
        args_wf(args, 0),
    ensures
        expr_wf(args[0]),
        args_tokens(args, 0).len() >= expr_tokens(args[0]).len(),
        forall|k: int|
            0 <= k < expr_tokens(args[0]).len() ==> #[trigger] args_tokens(args, 0)[k]
                == expr_tokens(args[0])[k],
{
}

proof fn lemma_parse_args_back(
    toks: Seq<SpecToken>,
    pos: int,
    args: Seq<SpecExpr>,
    i: int,
    acc: Seq<SpecExpr>,
)
    requires
        0 <= i < args.len(),
        acc == args.take(i),
        args_wf(args, i),
        starts_at(toks, pos, args_tokens(args, i)),
        pos + args_tokens(args, i).len() < toks.len(),
        toks[pos + args_tokens(args, i).len()] == SpecToken::CloseParen,
    ensures
        parse_arg_list(toks, pos, acc) == Ok::<(Seq<SpecExpr>, int), Seq<char>>(
            (args, pos + args_tokens(args, i).len()),
        ),
    decreases args, args.len() - i,
{
    let e = args[i];
    let et = expr_tokens(e);
    if i == args.len() - 1 {
        lemma_parse_expr_back(toks, pos, e);
        assert(acc.push(e) =~= args);
    } else {
        let rest = args_tokens(args, i + 1);
        lemma_starts_split(toks, pos, et + seq![SpecToken::Comma], rest);
        lemma_starts_split(toks, pos, et, seq![SpecToken::Comma]);
        assert(toks[pos + et.len() + 0] == SpecToken::Comma);
        lemma_parse_expr_back(toks, pos, e);
        assert(acc.push(e) =~= args.take(i + 1));
        lemma_parse_args_back(toks, pos + et.len() + 1, args, i + 1, acc.push(e));
    }
}

proof fn lemma_parse_template_back(toks: Seq<SpecToken>, pos: int, t: SpecTemplateExpr)
    requires
        expr_wf(t.expr),
        starts_at(toks, pos, template_tokens(t)),
        ends_expression(toks, pos + template_tokens(t).len()),
    ensures
        parse_template(toks, pos) == Ok::<(SpecTemplateExpr, int), Seq<char>>(
            (t, pos + template_tokens(t).len()),
        ),
{
    let head = seq![SpecToken::Word(t.format), SpecToken::Colon];
    lemma_starts_split(toks, pos, head, expr_tokens(t.expr));
    assert(toks[pos + 0] == SpecToken::Word(t.format));
    assert(toks[pos + 1] == SpecToken::Colon);
    lemma_parse_expr_back(toks, pos + 2, t.expr);
}

proof fn lemma_fallbacks_back(
    toks: Seq<SpecToken>,
    pos: int,
    fs: Seq<SpecTemplateExpr>,
    i: int,
    acc: Seq<SpecTemplateExpr>,
)
    requires
        1 <= i <= fs.len(),
        acc == fs.take(i),
        forall|j: int| 0 <= j < fs.len() ==> expr_wf(#[trigger] fs[j].expr),
        starts_at(toks, pos, fallback_tail_tokens(fs, i)),
        pos + fallback_tail_tokens(fs, i).len() == toks.len(),
    ensures
        parse_fallbacks(toks, pos, acc) == Ok::<Seq<SpecTemplateExpr>, Seq<char>>(fs),
    decreases fs.len() - i,
{
    if i < fs.len() {
        let tt = template_tokens(fs[i]);
        let rest = fallback_tail_tokens(fs, i + 1);
        lemma_starts_split(toks, pos, seq![SpecToken::Or] + tt, rest);
        lemma_starts_split(toks, pos, seq![SpecToken::Or], tt);
        assert(toks[pos + 0] == SpecToken::Or);
        let q = pos + 1 + tt.len();
        if i + 1 < fs.len() {
            assert(toks[q + 0] == rest[0]);
        }
        assert(expr_wf(fs[i].expr));
        lemma_parse_template_back(toks, pos + 1, fs[i]);
        assert(acc.push(fs[i]) =~= fs.take(i + 1));
        lemma_fallbacks_back(toks, q, fs, i + 1, acc.push(fs[i]));
    } else {
        assert(acc =~= fs);
    }
}

/// Parsing undoes spelling a block: the tokens of alternatives joined by `||`
/// parse back to the same alternatives, when every path in them has a part.
pub proof fn law_parse_reads_back_block_tokens(fs: Seq<SpecTemplateExpr>)
    requires
        fs.len() > 0,
        forall|j: int| 0 <= j < fs.len() ==> expr_wf(#[trigger] fs[j].expr),
    ensures
        spec_parse(block_tokens(fs), 0) == Ok::<Seq<SpecTemplateExpr>, Seq<char>>(fs),
{
    let toks = block_tokens(fs);
    let tt = template_tokens(fs[0]);
    let rest = fallback_tail_tokens(fs, 1);
    assert(starts_at(toks, 0, tt + rest)) by {
        assert forall|k: int| 0 <= k < (tt + rest).len() implies #[trigger] toks[0 + k] == (tt
            + rest)[k] by {}
    }
    lemma_starts_split(toks, 0, tt, rest);
    if fs.len() > 1 {
        assert(toks[tt.len() as int + 0] == rest[0]);
    }
    assert(expr_wf(fs[0].expr));
    lemma_parse_template_back(toks, 0, fs[0]);
    assert(seq![fs[0]] =~= fs.take(1));
    lemma_fallbacks_back(toks, tt.len() as int, fs, 1, seq![fs[0]]);
}

/// Alternatives are read one after another: from the tokens of two alternatives,
/// one after the other, the first reading gives the first alternative and stops
/// where the second begins, and the next reading gives the second.
pub proof fn law_alternatives_read_in_turn(t1: SpecTemplateExpr, t2: SpecTemplateExpr)
    requires
        expr_wf(t1.expr),
        expr_wf(t2.expr),
    ensures
        ({
            let toks = template_tokens(t1) + template_tokens(t2);
            let n1 = template_tokens(t1).len() as int;
            &&& parse_template(toks, 0) == Ok::<(SpecTemplateExpr, int), Seq<char>>((t1, n1))
            &&& parse_template(toks, n1) == Ok::<(SpecTemplateExpr, int), Seq<char>>(
                (t2, toks.len() as int),
            )
        }),
{
    let a = template_tokens(t1);
    let b = template_tokens(t2);
    let toks = a + b;
    assert(starts_at(toks, 0, a + b)) by {
        assert forall|k: int| 0 <= k < (a + b).len() implies #[trigger] toks[0 + k] == (a + b)[k] by {}
    }
    lemma_starts_split(toks, 0, a, b);
    assert(toks[a.len() as int + 0] == b[0]);
    lemma_parse_template_back(toks, 0, t1);
    lemma_parse_template_back(toks, a.len() as int, t2);
}

/// An expression is read back from its tokens, which it uses up exactly, when
/// what follows can not continue it (neither `.` nor `(`).
pub proof fn law_expression_reads_back(e: SpecExpr, rest: Seq<SpecToken>)
    requires
        expr_wf(e),
        rest.len() > 0 ==> rest[0] != SpecToken::Dot && rest[0] != SpecToken::OpenParen,
    ensures
        parse_expr(expr_tokens(e) + rest, 0) == Ok::<(SpecExpr, int), Seq<char>>(
            (e, expr_tokens(e).len() as int),
        ),
{
    let a = expr_tokens(e);
    let toks = a + rest;
    assert(starts_at(toks, 0, a + rest)) by {
        assert forall|k: int| 0 <= k < (a + rest).len() implies #[trigger] toks[0 + k] == (a
            + rest)[k] by {}
    }
    lemma_starts_split(toks, 0, a, rest);
    if rest.len() > 0 {
        assert(toks[a.len() as int + 0] == rest[0]);
    }
    lemma_parse_expr_back(toks, 0, e);
}

/// An expression may be read from `pos`: when `pos` is the end of a non-empty
/// input, the last token (which reading there gives again) starts no expression.
pub open spec fn expr_entry_ok(toks: Seq<SpecToken>, pos: int) -> bool {
    &&& 0 <= pos <= toks.len()
    &&& (pos == toks.len() && pos > 0) ==> !(toks[pos - 1] is Hex || toks[pos - 1] is Number
        || toks[pos - 1] is Word)
}

proof fn lemma_path_fwd(toks: Seq<SpecToken>, pos: int, parts: Seq<Seq<char>>)
    requires
        0 <= pos <= toks.len(),
        parts.len() >= 1,
    ensures
        parse_path(toks, pos, parts) matches Ok((SpecExpr::Identifier(all), q)) ==> {
            &&& all.len() >= parts.len()
            &&& all.take(parts.len() as int) == parts
            &&& starts_at(toks, pos, path_tail_tokens(all, parts.len() as int))
            &&& q == pos + path_tail_tokens(all, parts.len() as int).len()
        },
        parse_path(toks, pos, parts) matches Ok((e, _)) ==> e is Identifier,
    decreases toks.len() - pos,
{
    if check_at(toks, pos, SpecToken::Dot) {
        if pos + 1 < toks.len() {
            if let SpecToken::Word(w) = toks[pos + 1] {
                lemma_path_fwd(toks, pos + 2, parts.push(w));
                if let Ok((SpecExpr::Identifier(all), q)) = parse_path(toks, pos + 2, parts.push(w)) {
                    let n = parts.len() as int;
                    assert(all.take(n) =~= all.take(n + 1).take(n));
                    assert(all[n] == all.take(n + 1)[n]);
                    let rest = path_tail_tokens(all, n + 1);
                    let mine = path_tail_tokens(all, n);
                    assert(mine == seq![SpecToken::Dot, SpecToken::Word(all[n])] + rest);
                    assert forall|k: int| 0 <= k < mine.len() implies #[trigger] toks[pos + k]
                        == mine[k] by {
                        if k >= 2 {
                            assert(toks[pos + 2 + (k - 2)] == rest[k - 2]);
                        }
                    }
                }
            }
        }
    } else {
        assert(parts.take(parts.len() as int) =~= parts);
    }
}

proof fn lemma_expr_fwd(toks: Seq<SpecToken>, pos: int)
    requires
        expr_entry_ok(toks, pos),
    ensures
        parse_expr(toks, pos) matches Ok((e, q)) ==> {
            &&& expr_wf(e)
            &&& starts_at(toks, pos, expr_tokens(e))
            &&& q == pos + expr_tokens(e).len()
            &&& q > pos
        },
    decreases toks.len() - pos, 0int,
{
    if pos < toks.len() {
        match toks[pos] {
            SpecToken::Word(w) => {
                if check_at(toks, pos + 1, SpecToken::OpenParen) {
                    lemma_args_fwd(toks, pos + 2);
                    if let Ok((args, p2)) = parse_args(toks, pos + 2) {
                        if check_at(toks, p2, SpecToken::CloseParen) {
                            let inner = args_tokens(args, 0);
                            let e = SpecExpr::Function(w, args);
                            let et = expr_tokens(e);
                            assert(et == seq![SpecToken::Word(w), SpecToken::OpenParen] + inner
                                + seq![SpecToken::CloseParen]);
                            assert forall|k: int| 0 <= k < et.len() implies #[trigger] toks[pos + k]
                                == et[k] by {
                                if 2 <= k < 2 + inner.len() {
                                    assert(toks[pos + 2 + (k - 2)] == inner[k - 2]);
                                }
                            }
                        }
                    }
                } else {
                    lemma_path_fwd(toks, pos + 1, seq![w]);
                    if let Ok((SpecExpr::Identifier(all), q)) = parse_path(toks, pos + 1, seq![w]) {
                        let tail = path_tail_tokens(all, 1);
                        assert(all[0] == all.take(1)[0]);
                        let et = expr_tokens(SpecExpr::Identifier(all));
                        assert(et == seq![SpecToken::Word(all[0])] + tail);
                        assert forall|k: int| 0 <= k < et.len() implies #[trigger] toks[pos + k]
                            == et[k] by {
                            if k >= 1 {
                                assert(toks[pos + 1 + (k - 1)] == tail[k - 1]);
                            }
                        }
                    }
                }
            },
            _ => {},
        }
    }
}

proof fn lemma_args_fwd(toks: Seq<SpecToken>, pos: int)
    requires
        expr_entry_ok(toks, pos),
    ensures
        parse_args(toks, pos) matches Ok((args, q)) ==> {
            &&& args_wf(args, 0)
            &&& starts_at(toks, pos, args_tokens(args, 0))
            &&& q == pos + args_tokens(args, 0).len()
        },
    decreases toks.len() - pos, 2int,
{
    if !check_at(toks, pos, SpecToken::CloseParen) {
        lemma_arg_list_fwd(toks, pos, seq![]);
        if let Ok((all, q)) = parse_arg_list(toks, pos, seq![]) {
            assert(all.take(0) =~= seq![]);
        }
    }
}

proof fn lemma_arg_list_fwd(toks: Seq<SpecToken>, pos: int, acc: Seq<SpecExpr>)
    requires
        expr_entry_ok(toks, pos),
    ensures
        parse_arg_list(toks, pos, acc) matches Ok((all, q)) ==> {
            &&& all.len() > acc.len()
            &&& all.take(acc.len() as int) == acc
            &&& args_wf(all, acc.len() as int)
            &&& starts_at(toks, pos, args_tokens(all, acc.len() as int))
            &&& q == pos + args_tokens(all, acc.len() as int).len()
        },
    decreases toks.len() - pos, 1int,
{
    lemma_expr_fwd(toks, pos);
    if let Ok((e, p)) = parse_expr(toks, pos) {
        let n = acc.len() as int;
        let et = expr_tokens(e);
        if check_at(toks, p, SpecToken::Comma) && p >= pos {
            lemma_arg_list_fwd(toks, p + 1, acc.push(e));
            if let Ok((all, q)) = parse_arg_list(toks, p + 1, acc.push(e)) {
                assert(all.take(n) =~= all.take(n + 1).take(n));
                assert(all[n] == all.take(n + 1)[n]);
                let rest = args_tokens(all, n + 1);
                let mine = args_tokens(all, n);
                assert(mine == et + seq![SpecToken::Comma] + rest);
                assert(args_wf(all, n));
                assert forall|k: int| 0 <= k < mine.len() implies #[trigger] toks[pos + k] == mine[k] by {
                    if k > et.len() {
                        assert(toks[p + 1 + (k - et.len() - 1)] == rest[k - et.len() - 1]);
                    }
                }
            }
        } else if !check_at(toks, p, SpecToken::Comma) {
            let all = acc.push(e);
            assert(all.take(n) =~= acc);
            assert(all[n] == e);
            assert(args_tokens(all, n) == et);
            assert(args_wf(all, n + 1));
            assert(args_wf(all, n));
        }
    }
}

proof fn lemma_template_fwd(toks: Seq<SpecToken>, pos: int)
    requires
        0 <= pos <= toks.len(),
    ensures
        parse_template(toks, pos) matches Ok((t, q)) ==> {
            &&& expr_wf(t.expr)
            &&& starts_at(toks, pos, template_tokens(t))
            &&& q == pos + template_tokens(t).len()
        },
{
    if pos < toks.len() && check_at(toks, pos + 1, SpecToken::Colon) {
        if let SpecToken::Word(f) = toks[pos] {
            lemma_expr_fwd(toks, pos + 2);
            if let Ok((e, q)) = parse_expr(toks, pos + 2) {
                let t = SpecTemplateExpr { format: f, expr: e };
                let tt = template_tokens(t);
                assert forall|k: int| 0 <= k < tt.len() implies #[trigger] toks[pos + k] == tt[k] by {
                    if k >= 2 {
                        assert(toks[pos + 2 + (k - 2)] == expr_tokens(e)[k - 2]);
                    }
                }
            }
        }
    }
}

proof fn lemma_fallbacks_fwd(toks: Seq<SpecToken>, pos: int, acc: Seq<SpecTemplateExpr>)
    requires
        0 <= pos <= toks.len(),
    ensures
        parse_fallbacks(toks, pos, acc) matches Ok(all) ==> {
            &&& all.len() >= acc.len()
            &&& all.take(acc.len() as int) == acc
            &&& forall|j: int| acc.len() <= j < all.len() ==> expr_wf(#[trigger] all[j].expr)
            &&& starts_at(toks, pos, fallback_tail_tokens(all, acc.len() as int))
            &&& pos + fallback_tail_tokens(all, acc.len() as int).len() == toks.len()
        },
    decreases toks.len() - pos,
{
    let n = acc.len() as int;
    if check_at(toks, pos, SpecToken::Or) {
        lemma_template_fwd(toks, pos + 1);
        if let Ok((te, p2)) = parse_template(toks, pos + 1) {
            if p2 > pos && p2 <= toks.len() {
                lemma_fallbacks_fwd(toks, p2, acc.push(te));
                if let Ok(all) = parse_fallbacks(toks, p2, acc.push(te)) {
                    assert(all.take(n) =~= all.take(n + 1).take(n));
                    assert(all[n] == all.take(n + 1)[n]);
                    let tt = template_tokens(te);
                    let rest = fallback_tail_tokens(all, n + 1);
                    let mine = fallback_tail_tokens(all, n);
                    assert(mine == seq![SpecToken::Or] + tt + rest);
                    assert forall|k: int| 0 <= k < mine.len() implies #[trigger] toks[pos + k]
                        == mine[k] by {
                        if 1 <= k < 1 + tt.len() {
                            assert(toks[pos + 1 + (k - 1)] == tt[k - 1]);
                        } else if k >= 1 + tt.len() {
                            assert(toks[p2 + (k - 1 - tt.len())] == rest[k - 1 - tt.len()]);
                        }
                    }
                }
            }
        }
    } else if pos >= toks.len() {
        assert(acc.take(n) =~= acc);
    }
}

/// A block parses only from the tokens that spell it: when tokens parse to
/// alternatives, those tokens are exactly the alternatives' tokens joined by `||`
/// (so every token is used), and every path in them has a part.
pub proof fn law_parsed_block_is_spelled_by_its_tokens(toks: Seq<SpecToken>)
    ensures
        spec_parse(toks, 0) matches Ok(fs) ==> {
            &&& fs.len() > 0
            &&& toks == block_tokens(fs)
            &&& forall|j: int| 0 <= j < fs.len() ==> expr_wf(#[trigger] fs[j].expr)
        },
{
    lemma_template_fwd(toks, 0);
    if let Ok((te, p)) = parse_template(toks, 0) {
        lemma_fallbacks_fwd(toks, p, seq![te]);
        if let Ok(fs) = parse_fallbacks(toks, p, seq![te]) {
            assert(fs[0] == fs.take(1)[0]);
            let tt = template_tokens(fs[0]);
            let rest = fallback_tail_tokens(fs, 1);
            let bt = block_tokens(fs);
            assert(bt == tt + rest);
            assert forall|k: int| 0 <= k < toks.len() implies #[trigger] toks[k] == bt[k] by {
                if k < tt.len() {
                    assert(toks[0 + k] == tt[k]);
                } else {
                    assert(toks[p + (k - tt.len())] == rest[k - tt.len()]);
                }
            }
            assert(toks =~= bt);
        }
    }
}

} // verus!
