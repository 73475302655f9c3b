use vstd::prelude::*;
use vstd::utf8::encode_utf8;

use crate::text::{
    char_is_ascii_alphanumeric, char_is_ascii_digit, char_is_ascii_hexdigit, char_is_whitespace,
    concat3, decimal, is_ascii_alphanumeric, is_ascii_digit, is_ascii_hexdigit, is_whitespace,
    usize_to_decimal,
};
use crate::token::{tokens_view, SpecToken, Token};

verus! {

/// Characters that may continue a number token.
pub open spec fn is_number_char(c: char) -> bool {
    is_ascii_digit(c) || c == '.'
}

/// Characters that make up a word token.
pub open spec fn is_word_char(c: char) -> bool {
    is_ascii_alphanumeric(c) || c == '_' || c == '-'
}

/// The kinds of multi-character tokens, by the characters that continue them.
pub enum RunKind {
    Hex,
    Number,
    Word,
}

pub open spec fn continues_run(kind: RunKind, c: char) -> bool {
    match kind {
        RunKind::Hex => is_ascii_hexdigit(c),
        RunKind::Number => is_number_char(c),
        RunKind::Word => is_word_char(c),
    }
}

/// The end of the longest run of characters of `kind` that starts at `i`.
pub open spec fn scan_while(cs: Seq<char>, i: int, kind: RunKind) -> int
    decreases cs.len() - i,
{
    if 0 <= i < cs.len() && continues_run(kind, cs[i]) {
        scan_while(cs, i + 1, kind)
    } else {
        i
    }
}

pub proof fn lemma_scan_while_bounds(cs: Seq<char>, i: int, kind: RunKind)
    requires
        0 <= i <= cs.len(),
    ensures
        i <= scan_while(cs, i, kind) <= cs.len(),
        forall|k: int| i <= k < scan_while(cs, i, kind) ==> continues_run(kind, #[trigger] cs[k]),
        scan_while(cs, i, kind) < cs.len() ==> !continues_run(kind, cs[scan_while(cs, i, kind)]),
    decreases cs.len() - i,
{
    if i < cs.len() && continues_run(kind, cs[i]) {
        lemma_scan_while_bounds(cs, i + 1, kind);
    }
}

/// Puts `t` in front of the tokens of a lexing result; an error stays as it is.
pub open spec fn cons_token(t: SpecToken, r: Result<Seq<SpecToken>, Seq<char>>) -> Result<
    Seq<SpecToken>,
    Seq<char>,
> {
    match r {
        Ok(ts) => Ok(seq![t] + ts),
        Err(e) => Err(e),
    }
}

/// Puts `prefix` in front of the tokens of a lexing result; an error stays as it is.
pub open spec fn prepend_tokens(prefix: Seq<SpecToken>, r: Result<Seq<SpecToken>, Seq<char>>) -> Result<
    Seq<SpecToken>,
    Seq<char>,
> {
    match r {
        Ok(ts) => Ok(prefix + ts),
        Err(e) => Err(e),
    }
}

pub proof fn lemma_prepend_cons(
    prefix: Seq<SpecToken>,
    t: SpecToken,
    r: Result<Seq<SpecToken>, Seq<char>>,
)
    ensures
        prepend_tokens(prefix + seq![t], r) == prepend_tokens(prefix, cons_token(t, r)),
{
    if let Ok(ts) = r {
        assert(prefix + seq![t] + ts =~= prefix + (seq![t] + ts));
    }
}

/// The byte offset in the UTF-8 encoding of `cs` at which character `i` starts.
/// (As `str::len` reports it, a `usize`.)
pub open spec fn byte_position(cs: Seq<char>, i: int) -> nat {
    (encode_utf8(cs.take(i)).len() as usize) as nat
}

pub open spec fn unexpected_char_message(cs: Seq<char>, i: int) -> Seq<char> {
    "Unexpected character '"@ + seq![cs[i]] + "' at position "@ + decimal(byte_position(cs, i))
}

pub open spec fn invalid_hex_message(hex: Seq<char>) -> Seq<char> {
    "Invalid hex colour: "@ + hex
}

/// The tokens of `cs` from character `i` on, or the message of the first lexical error.
///
/// Whitespace separates tokens; `: . , ( )` are one-character tokens and `||` is the
/// fallback separator; `#` followed by exactly six hexadecimal digits is a hex colour;
/// a digit starts a number, the longest run of digits and dots; a letter, digit,
/// `_` or `-` starts a word, the longest run of such characters.
pub open spec fn lex_from(cs: Seq<char>, i: int) -> Result<Seq<SpecToken>, Seq<char>>
    decreases cs.len() - i,
    via lex_from_decreases
{
    if i < 0 || i >= cs.len() {
        Ok(seq![])
    } else {
        let c = cs[i];
        if is_whitespace(c) {
            lex_from(cs, i + 1)
        } else if c == ':' {
            cons_token(SpecToken::Colon, lex_from(cs, i + 1))
        } else if c == '.' {
            cons_token(SpecToken::Dot, lex_from(cs, i + 1))
        } else if c == ',' {
            cons_token(SpecToken::Comma, lex_from(cs, i + 1))
        } else if c == '(' {
            cons_token(SpecToken::OpenParen, lex_from(cs, i + 1))
        } else if c == ')' {
            cons_token(SpecToken::CloseParen, lex_from(cs, i + 1))
        } else if c == '|' {
            if i + 1 < cs.len() && cs[i + 1] == '|' {
                cons_token(SpecToken::Or, lex_from(cs, i + 2))
            } else {
                Err(unexpected_char_message(cs, i))
            }
        } else if c == '#' {
            let j = scan_while(cs, i + 1, RunKind::Hex);
            if j - (i + 1) != 6 {
                Err(invalid_hex_message(cs.subrange(i, j)))
            } else {
                cons_token(SpecToken::Hex(cs.subrange(i, j)), lex_from(cs, j))
            }
        } else if is_ascii_digit(c) {
            let j = scan_while(cs, i, RunKind::Number);
            cons_token(SpecToken::Number(cs.subrange(i, j)), lex_from(cs, j))
        } else if is_word_char(c) {
            let j = scan_while(cs, i, RunKind::Word);
            cons_token(SpecToken::Word(cs.subrange(i, j)), lex_from(cs, j))
        } else {
            Err(unexpected_char_message(cs, i))
        }
    }
}

#[via_fn]
proof fn lex_from_decreases(cs: Seq<char>, i: int) {
    if 0 <= i < cs.len() {
        let c = cs[i];
        if c == '#' {
            lemma_scan_while_bounds(cs, i + 1, RunKind::Hex);
        } else if is_ascii_digit(c) {
            lemma_scan_while_bounds(cs, i, RunKind::Number);
        } else if is_word_char(c) {
            lemma_scan_while_bounds(cs, i, RunKind::Word);
        }
    }
}

/// The index of the character at which tokenizing from `i` on stops: the end of the
/// text, the unexpected character, or the end of the digit run of an invalid hex
/// colour.
pub open spec fn lex_stop(cs: Seq<char>, i: int) -> int
    decreases cs.len() - i,
    via lex_stop_decreases
{
    if i < 0 || i >= cs.len() {
        i
    } else {
        let c = cs[i];
        if is_whitespace(c) || c == ':' || c == '.' || c == ',' || c == '(' || c == ')' {
            lex_stop(cs, i + 1)
        } else if c == '|' {
            if i + 1 < cs.len() && cs[i + 1] == '|' {
                lex_stop(cs, i + 2)
            } else {
                i
            }
        } else if c == '#' {
            let j = scan_while(cs, i + 1, RunKind::Hex);
            if j - (i + 1) != 6 {
                j
            } else {
                lex_stop(cs, j)
            }
        } else if is_ascii_digit(c) {
            lex_stop(cs, scan_while(cs, i, RunKind::Number))
        } else if is_word_char(c) {
            lex_stop(cs, scan_while(cs, i, RunKind::Word))
        } else {
            i
        }
    }
}

#[via_fn]
proof fn lex_stop_decreases(cs: Seq<char>, i: int) {
    if 0 <= i < cs.len() {
        let c = cs[i];
        if c == '#' {
            lemma_scan_while_bounds(cs, i + 1, RunKind::Hex);
        } else if is_ascii_digit(c) {
            lemma_scan_while_bounds(cs, i, RunKind::Number);
        } else if is_word_char(c) {
            lemma_scan_while_bounds(cs, i, RunKind::Word);
        }
    }
}

/// The tokens of a whole source text, or the message of its first lexical error.
pub open spec fn spec_tokenize(source: Seq<char>) -> Result<Seq<SpecToken>, Seq<char>> {
    lex_from(source, 0)
}

/// The model of a tokenizer result.
pub open spec fn lex_result_view<'a>(r: Result<Vec<Token<'a>>, String>) -> Result<Seq<SpecToken>, Seq<char>> {
    match r {
        Ok(ts) => Ok(tokens_view(ts@)),
        Err(e) => Err(e@),
    }
}

pub struct Lexer<'a> {
    source: &'a str,
    chars: Vec<char>,
    pos: usize,
}

impl<'a> Lexer<'a> {
    /// The text being tokenized.
    pub closed spec fn input(&self) -> Seq<char> {
        self.source@
    }

    /// The index of the next character to read.
    pub closed spec fn position(&self) -> int {
        self.pos as int
    }

    pub closed spec fn wf(&self) -> bool {
        &&& self.chars@ == self.source@
        &&& self.pos <= self.chars@.len()
    }

    pub fn new(source: &'a str) -> (lexer: Self)
        ensures
            lexer.wf(),
            lexer.input() == source@,
            lexer.position() == 0,
    {
        let mut chars: Vec<char> = Vec::new();
        broadcast use vstd::string::group_string_axioms;

        for c in it: source.chars()
            invariant
                it.seq() == source@,
                chars@ == it.seq().take(it.index() as int),
        {
            chars.push(c);
        }
        proof {
            assert(chars@ =~= source@);
        }
        Self { source, chars, pos: 0 }
    }

    /// Splits the rest of the input into tokens; see `lex_from`.
    pub fn tokenize(&mut self) -> (res: Result<Vec<Token<'a>>, String>)
        requires
            old(self).wf(),
        ensures
            final(self).wf(),
            final(self).input() == old(self).input(),
            lex_result_view(res) == lex_from(old(self).input(), old(self).position()),
            final(self).position() == lex_stop(old(self).input(), old(self).position()),
    {
        let ghost cs = self.chars@;
        let ghost p0 = self.pos as int;
        let mut tokens: Vec<Token<'a>> = Vec::new();
        let n = self.chars.len();
        while self.pos < n
            invariant
                self.wf(),
                self.source@ == cs,
                n == cs.len(),
                old(self).input() == cs,
                old(self).position() == p0,
                lex_from(cs, p0) == prepend_tokens(tokens_view(tokens@), lex_from(cs, self.pos as int)),
                lex_stop(cs, p0) == lex_stop(cs, self.pos as int),
            decreases n - self.pos,
        {
            let i = self.pos;
            let ch = self.chars[i];
            let ghost before = tokens_view(tokens@);
            if char_is_whitespace(ch) {
                self.pos = i + 1;
            } else if ch == ':' || ch == '.' || ch == ',' || ch == '(' || ch == ')' {
                let t = if ch == ':' {
                    Token::Colon
                } else if ch == '.' {
                    Token::Dot
                } else if ch == ',' {
                    Token::Comma
                } else if ch == '(' {
                    Token::OpenParen
                } else {
                    Token::CloseParen
                };
                tokens.push(t);
                self.pos = i + 1;
                proof {
                    assert(tokens_view(tokens@) =~= before + seq![t@]);
                    lemma_prepend_cons(before, t@, lex_from(cs, self.pos as int));
                }
            } else if ch == '|' {
                if i + 1 < n && self.chars[i + 1] == '|' {
                    tokens.push(Token::Or);
                    self.pos = i + 2;
                    proof {
                        assert(tokens_view(tokens@) =~= before + seq![SpecToken::Or]);
                    lemma_prepend_cons(before, SpecToken::Or, lex_from(cs, self.pos as int));
                    }
                } else {
                    proof {
                        assert(lex_from(cs, i as int) == Err::<Seq<SpecToken>, Seq<char>>(
                            unexpected_char_message(cs, i as int),
                        ));
                    }
                    let e = self.unexpected_char_error(i);
                    return Err(e);
                }
            } else if ch == '#' {
                proof {
                    lemma_scan_while_bounds(cs, i + 1, RunKind::Hex);
                }
                let t = match self.get_hex_token() {
                    Ok(t) => t,
                    Err(e) => {
                        proof {
                            assert(lex_from(cs, i as int) == Err::<Seq<SpecToken>, Seq<char>>(e@));
                        }
                        return Err(e);
                    },
                };
                tokens.push(t);
                proof {
                    assert(tokens_view(tokens@) =~= before + seq![t@]);
                    lemma_prepend_cons(before, t@, lex_from(cs, self.pos as int));
                }
            } else if char_is_ascii_digit(ch) {
                proof {
                    lemma_scan_while_bounds(cs, i + 1, RunKind::Number);
                }
                let t = self.get_number_token();
                tokens.push(t);
                proof {
                    assert(tokens_view(tokens@) =~= before + seq![t@]);
                    lemma_prepend_cons(before, t@, lex_from(cs, self.pos as int));
                }
            } else if char_is_ascii_alphanumeric(ch) || ch == '_' || ch == '-' {
                proof {
                    lemma_scan_while_bounds(cs, i + 1, RunKind::Word);
                }
                let t = self.get_word_token();
                tokens.push(t);
                proof {
                    assert(tokens_view(tokens@) =~= before + seq![t@]);
                    lemma_prepend_cons(before, t@, lex_from(cs, self.pos as int));
                }
            } else {
                proof {
                    assert(lex_from(cs, i as int) == Err::<Seq<SpecToken>, Seq<char>>(
                        unexpected_char_message(cs, i as int),
                    ));
                }
                let e = self.unexpected_char_error(i);
                return Err(e);
            }
        }
        proof {
            assert(tokens_view(tokens@) + seq![] =~= tokens_view(tokens@));
        }
        Ok(tokens)
    }

    fn unexpected_char_error(&self, i: usize) -> (e: String)
        requires
            self.wf(),
            i < self.chars@.len(),
        ensures
            e@ == unexpected_char_message(self.input(), i as int),
    {
        let n = self.chars.len();
        let ch_str = self.source.substring_char(i, i + 1);
        let before = self.source.substring_char(0, i);
        let pos_str = usize_to_decimal(before.len());
        let mut e = concat3("Unexpected character '", ch_str, "' at position ");
        e.append(pos_str.as_str());
        proof {
            assert(ch_str@ =~= seq![self.input()[i as int]]);
            assert(before@ =~= self.input().take(i as int));
        }
        e
    }

    /// Reads `#` and the hexadecimal digits after it.
    fn get_hex_token(&mut self) -> (res: Result<Token<'a>, String>)
        requires
            old(self).wf(),
            old(self).position() < old(self).input().len(),
            old(self).input()[old(self).position()] == '#',
        ensures
            final(self).wf(),
            final(self).input() == old(self).input(),
            ({
                let cs = old(self).input();
                let i = old(self).position();
                let j = scan_while(cs, i + 1, RunKind::Hex);
                &&& j - (i + 1) != 6 ==> (res matches Err(e) && e@ == invalid_hex_message(
                    cs.subrange(i, j),
                ) && final(self).position() == j)
                &&& j - (i + 1) == 6 ==> (res matches Ok(t) && t@ == SpecToken::Hex(cs.subrange(i, j))
                    && final(self).position() == j)
            }),
    {
        let ghost cs = self.chars@;
        let n = self.chars.len();
        let start = self.pos;
        let mut end = start + 1;
        proof {
            lemma_scan_while_bounds(cs, start + 1, RunKind::Hex);
        }
        while end < n && char_is_ascii_hexdigit(self.chars[end])
            invariant
                self.wf(),
                self.chars@ == cs,
                n == cs.len(),
                start == self.pos,
                start + 1 <= end <= n,
                scan_while(cs, end as int, RunKind::Hex) == scan_while(cs, start + 1, RunKind::Hex),
            decreases n - end,
        {
            end = end + 1;
        }
        self.pos = end;
        let hex_str = self.source.substring_char(start, end);
        if end - start - 1 != 6 {
            let mut e = String::from_str("Invalid hex colour: ");
            e.append(hex_str);
            return Err(e);
        }
        Ok(Token::Hex(hex_str))
    }

    /// Reads a run of digits and dots.
    fn get_number_token(&mut self) -> (t: Token<'a>)
        requires
            old(self).wf(),
            old(self).position() < old(self).input().len(),
        ensures
            final(self).wf(),
            final(self).input() == old(self).input(),
            ({
                let cs = old(self).input();
                let i = old(self).position();
                let j = scan_while(cs, i, RunKind::Number);
                &&& t@ == SpecToken::Number(cs.subrange(i, j))
                &&& final(self).position() == j
            }),
    {
        let ghost cs = self.chars@;
        let start = self.pos;
        let mut end = start;
        let n = self.chars.len();
        while end < n && (char_is_ascii_digit(self.chars[end]) || self.chars[end] == '.')
            invariant
                self.wf(),
                self.chars@ == cs,
                n == cs.len(),
                start == self.pos,
                start <= end <= n,
                scan_while(cs, end as int, RunKind::Number) == scan_while(cs, start as int, RunKind::Number),
            decreases n - end,
        {
            end = end + 1;
        }
        self.pos = end;
        Token::Number(self.source.substring_char(start, end))
    }

    /// Reads a run of letters, digits, `_` and `-`.
    fn get_word_token(&mut self) -> (t: Token<'a>)
        requires
            old(self).wf(),
            old(self).position() < old(self).input().len(),
        ensures
            final(self).wf(),
            final(self).input() == old(self).input(),
            ({
                let cs = old(self).input();
                let i = old(self).position();
                let j = scan_while(cs, i, RunKind::Word);
                &&& t@ == SpecToken::Word(cs.subrange(i, j))
                &&& final(self).position() == j
            }),
    {
        let ghost cs = self.chars@;
        let start = self.pos;
        let mut end = start;
        let n = self.chars.len();
        while end < n && (char_is_ascii_alphanumeric(self.chars[end]) || self.chars[end] == '_'
            || self.chars[end] == '-')
            invariant
                self.wf(),
                self.chars@ == cs,
                n == cs.len(),
                start == self.pos,
                start <= end <= n,
                scan_while(cs, end as int, RunKind::Word) == scan_while(cs, start as int, RunKind::Word),
            decreases n - end,
        {
            end = end + 1;
        }
        self.pos = end;
        Token::Word(self.source.substring_char(start, end))
    }
}

} // verus!

verus! {

proof fn lemma_whitespace_ends_runs(c: char, kind: RunKind)
    requires
        is_whitespace(c),
    ensures
        !continues_run(kind, c),
{
}

proof fn lemma_scan_prefix(a: Seq<char>, w: char, b: Seq<char>, i: int, kind: RunKind)
    requires
        0 <= i <= a.len(),
        is_whitespace(w),
    ensures
        scan_while(a + seq![w] + b, i, kind) == scan_while(a, i, kind),
    decreases a.len() - i,
{
    let s = a + seq![w] + b;
    if i < a.len() {
        assert(s[i] == a[i]);
        if continues_run(kind, a[i]) {
            lemma_scan_prefix(a, w, b, i + 1, kind);
        }
    } else {
        assert(s[i] == w);
        lemma_whitespace_ends_runs(w, kind);
    }
}

proof fn lemma_scan_shift(x: Seq<char>, b: Seq<char>, j: int, kind: RunKind)
    requires
        0 <= j <= b.len(),
    ensures
        scan_while(x + b, x.len() + j, kind) == x.len() + scan_while(b, j, kind),
    decreases b.len() - j,
{
    if j < b.len() {
        assert((x + b)[x.len() + j] == b[j]);
        if continues_run(kind, b[j]) {
            lemma_scan_shift(x, b, j + 1, kind);
        }
    }
}

proof fn lemma_prepend_assoc(ts: Seq<SpecToken>, t: SpecToken, r: Result<Seq<SpecToken>, Seq<char>>)
    ensures
        prepend_tokens(seq![t] + ts, r) == cons_token(t, prepend_tokens(ts, r)),
{
    if let Ok(us) = r {
        assert(seq![t] + ts + us =~= seq![t] + (ts + us));
    }
}

proof fn lemma_lex_prefix(a: Seq<char>, w: char, b: Seq<char>, i: int)
    requires
        0 <= i <= a.len(),
        is_whitespace(w),
        lex_from(a, i) is Ok,
    ensures
        lex_from(a + seq![w] + b, i) == prepend_tokens(
            lex_from(a, i)->Ok_0,
            lex_from(a + seq![w] + b, a.len() as int),
        ),
    decreases a.len() - i,
{
    let s = a + seq![w] + b;
    let rest = lex_from(s, a.len() as int);
    if i == a.len() {
        assert(lex_from(a, i) == Ok::<Seq<SpecToken>, Seq<char>>(seq![]));
        if let Ok(us) = rest {
            assert(seq![] + us =~= us);
        }
    } else {
        let c = a[i];
        assert(s[i] == c);
        if is_whitespace(c) {
            lemma_lex_prefix(a, w, b, i + 1);
        } else if c == ':' || c == '.' || c == ',' || c == '(' || c == ')' {
            lemma_lex_prefix(a, w, b, i + 1);
            lemma_prepend_assoc(lex_from(a, i + 1)->Ok_0, lex_from(a, i)->Ok_0[0], rest);
            assert(lex_from(a, i)->Ok_0 =~= seq![lex_from(a, i)->Ok_0[0]] + lex_from(
                a,
                i + 1,
            )->Ok_0);
        } else if c == '|' {
            assert(i + 1 < a.len() && a[i + 1] == '|');
            assert(s[i + 1] == '|');
            lemma_lex_prefix(a, w, b, i + 2);
            lemma_prepend_assoc(lex_from(a, i + 2)->Ok_0, SpecToken::Or, rest);
        } else if c == '#' {
            lemma_scan_prefix(a, w, b, i + 1, RunKind::Hex);
            lemma_scan_while_bounds(a, i + 1, RunKind::Hex);
            let j = scan_while(a, i + 1, RunKind::Hex);
            assert(s.subrange(i, j) =~= a.subrange(i, j));
            lemma_lex_prefix(a, w, b, j);
            lemma_prepend_assoc(lex_from(a, j)->Ok_0, SpecToken::Hex(a.subrange(i, j)), rest);
        } else if is_ascii_digit(c) {
            lemma_scan_prefix(a, w, b, i, RunKind::Number);
            lemma_scan_while_bounds(a, i + 1, RunKind::Number);
            let j = scan_while(a, i, RunKind::Number);
            assert(s.subrange(i, j) =~= a.subrange(i, j));
            lemma_lex_prefix(a, w, b, j);
            lemma_prepend_assoc(lex_from(a, j)->Ok_0, SpecToken::Number(a.subrange(i, j)), rest);
        } else if is_word_char(c) {
            lemma_scan_prefix(a, w, b, i, RunKind::Word);
            lemma_scan_while_bounds(a, i + 1, RunKind::Word);
            let j = scan_while(a, i, RunKind::Word);
            assert(s.subrange(i, j) =~= a.subrange(i, j));
            lemma_lex_prefix(a, w, b, j);
            lemma_prepend_assoc(lex_from(a, j)->Ok_0, SpecToken::Word(a.subrange(i, j)), rest);
        }
    }
}

proof fn lemma_lex_shift(x: Seq<char>, b: Seq<char>, j: int)
    requires
        0 <= j <= b.len(),
        lex_from(b, j) is Ok,
    ensures
        lex_from(x + b, x.len() + j) == lex_from(b, j),
    decreases b.len() - j,
{
    let s = x + b;
    let i = x.len() + j;
    if j < b.len() {
        let c = b[j];
        assert(s[i] == c);
        if is_whitespace(c) || c == ':' || c == '.' || c == ',' || c == '(' || c == ')' {
            lemma_lex_shift(x, b, j + 1);
        } else if c == '|' {
            assert(s[i + 1] == b[j + 1]);
            lemma_lex_shift(x, b, j + 2);
        } else if c == '#' {
            lemma_scan_shift(x, b, j + 1, RunKind::Hex);
            lemma_scan_while_bounds(b, j + 1, RunKind::Hex);
            let e = scan_while(b, j + 1, RunKind::Hex);
            assert(s.subrange(i, x.len() + e) =~= b.subrange(j, e));
            lemma_lex_shift(x, b, e);
        } else if is_ascii_digit(c) {
            lemma_scan_shift(x, b, j, RunKind::Number);
            lemma_scan_while_bounds(b, j + 1, RunKind::Number);
            let e = scan_while(b, j, RunKind::Number);
            assert(s.subrange(i, x.len() + e) =~= b.subrange(j, e));
            lemma_lex_shift(x, b, e);
        } else if is_word_char(c) {
            lemma_scan_shift(x, b, j, RunKind::Word);
            lemma_scan_while_bounds(b, j + 1, RunKind::Word);
            let e = scan_while(b, j, RunKind::Word);
            assert(s.subrange(i, x.len() + e) =~= b.subrange(j, e));
            lemma_lex_shift(x, b, e);
        }
    }
}

/// Whitespace separates tokens and is otherwise ignored: when `a` and `b` both
/// tokenize, `a`, a whitespace character and `b` tokenize to the tokens of `a`
/// followed by those of `b`.
pub proof fn law_whitespace_separates_tokens(a: Seq<char>, w: char, b: Seq<char>)
    requires
        is_whitespace(w),
        spec_tokenize(a) is Ok,
        spec_tokenize(b) is Ok,
    ensures
        spec_tokenize(a + seq![w] + b) == Ok::<Seq<SpecToken>, Seq<char>>(
            spec_tokenize(a)->Ok_0 + spec_tokenize(b)->Ok_0,
        ),
{
    let s = a + seq![w] + b;
    lemma_lex_prefix(a, w, b, 0);
    assert(s[a.len() as int] == w);
    lemma_lex_shift(a + seq![w], b, 0);
    assert(lex_from(s, a.len() as int) == lex_from(s, (a.len() + 1) as int));
}

/// A token as tokenizing makes it: a word is a non-empty run of letters, digits,
/// `_` and `-` that does not start with a digit; a number is a run of digits and dots that starts with a digit; a
/// hex colour is `#` and six hexadecimal digits.
pub open spec fn token_well_formed(t: SpecToken) -> bool {
    match t {
        SpecToken::Word(w) => w.len() > 0 && !is_ascii_digit(w[0]) && forall|m: int|
            0 <= m < w.len() ==> is_word_char(#[trigger] w[m]),
        SpecToken::Number(n) => n.len() > 0 && is_ascii_digit(n[0]) && forall|m: int|
            0 <= m < n.len() ==> is_number_char(#[trigger] n[m]),
        SpecToken::Hex(h) => h.len() == 7 && h[0] == '#' && forall|m: int|
            1 <= m < 7 ==> is_ascii_hexdigit(#[trigger] h[m]),
        _ => true,
    }
}

pub open spec fn tokens_well_formed(ts: Seq<SpecToken>) -> bool {
    forall|j: int| 0 <= j < ts.len() ==> token_well_formed(#[trigger] ts[j])
}

proof fn lemma_cons_well_formed(t: SpecToken, r: Result<Seq<SpecToken>, Seq<char>>)
    requires
        token_well_formed(t),
        r matches Ok(ts) ==> tokens_well_formed(ts),
    ensures
        cons_token(t, r) matches Ok(ts) ==> tokens_well_formed(ts),
{
    if let Ok(ts) = r {
        let all = seq![t] + ts;
        assert forall|j: int| 0 <= j < all.len() implies token_well_formed(#[trigger] all[j]) by {
            if j > 0 {
                assert(all[j] == ts[j - 1]);
            }
        }
    }
}

proof fn lemma_lex_well_formed(cs: Seq<char>, i: int)
    requires
        0 <= i <= cs.len(),
    ensures
        lex_from(cs, i) matches Ok(ts) ==> tokens_well_formed(ts),
    decreases cs.len() - i,
{
    if i < cs.len() {
        let c = cs[i];
        if is_whitespace(c) {
            lemma_lex_well_formed(cs, i + 1);
        } else if c == ':' || c == '.' || c == ',' || c == '(' || c == ')' {
            lemma_lex_well_formed(cs, i + 1);
            let t = if c == ':' {
                SpecToken::Colon
            } else if c == '.' {
                SpecToken::Dot
            } else if c == ',' {
                SpecToken::Comma
            } else if c == '(' {
                SpecToken::OpenParen
            } else {
                SpecToken::CloseParen
            };
            lemma_cons_well_formed(t, lex_from(cs, i + 1));
        } else if c == '|' {
            if i + 1 < cs.len() && cs[i + 1] == '|' {
                lemma_lex_well_formed(cs, i + 2);
                lemma_cons_well_formed(SpecToken::Or, lex_from(cs, i + 2));
            }
        } else if c == '#' {
            lemma_scan_while_bounds(cs, i + 1, RunKind::Hex);
            let j = scan_while(cs, i + 1, RunKind::Hex);
            if j - (i + 1) == 6 {
                let h = cs.subrange(i, j);
                assert forall|m: int| 1 <= m < 7 implies is_ascii_hexdigit(#[trigger] h[m]) by {
                    assert(h[m] == cs[i + m]);
                    assert(continues_run(RunKind::Hex, cs[i + m]));
                }
                lemma_lex_well_formed(cs, j);
                lemma_cons_well_formed(SpecToken::Hex(h), lex_from(cs, j));
            }
        } else if is_ascii_digit(c) {
            lemma_scan_while_bounds(cs, i, RunKind::Number);
            let j = scan_while(cs, i, RunKind::Number);
            let n = cs.subrange(i, j);
            assert forall|m: int| 0 <= m < n.len() implies is_number_char(#[trigger] n[m]) by {
                assert(n[m] == cs[i + m]);
                assert(continues_run(RunKind::Number, cs[i + m]));
            }
            lemma_lex_well_formed(cs, j);
            lemma_cons_well_formed(SpecToken::Number(n), lex_from(cs, j));
        } else if is_word_char(c) {
            lemma_scan_while_bounds(cs, i, RunKind::Word);
            let j = scan_while(cs, i, RunKind::Word);
            let w = cs.subrange(i, j);
            assert forall|m: int| 0 <= m < w.len() implies is_word_char(#[trigger] w[m]) by {
                assert(w[m] == cs[i + m]);
                assert(continues_run(RunKind::Word, cs[i + m]));
            }
            lemma_lex_well_formed(cs, j);
            lemma_cons_well_formed(SpecToken::Word(w), lex_from(cs, j));
        }
    }
}

/// Every token of a text that tokenizes is well formed (see `token_well_formed`).
pub proof fn law_tokens_are_well_formed(source: Seq<char>)
    ensures
        spec_tokenize(source) matches Ok(ts) ==> tokens_well_formed(ts),
{
    lemma_lex_well_formed(source, 0);
}


/// The characters that may stand in a text that tokenizes without `||`.
pub open spec fn lexable_char(c: char) -> bool {
    ||| is_whitespace(c)
    ||| c == ':' || c == '.' || c == ',' || c == '(' || c == ')' || c == '#'
    ||| is_word_char(c)
}

/// Character `k` may stand where it stands: it is a lexable character, and a `#` is
/// followed by a longest run of exactly six hexadecimal digits.
pub open spec fn char_ok(cs: Seq<char>, k: int) -> bool {
    &&& lexable_char(cs[k])
    &&& cs[k] == '#' ==> scan_while(cs, k + 1, RunKind::Hex) == k + 7
}

/// Every character from `i` on may stand where it stands.
pub open spec fn lexable_from(cs: Seq<char>, i: int) -> bool {
    forall|k: int| i <= k < cs.len() ==> #[trigger] char_ok(cs, k)
}

/// No token can run across index `q`: it is the end of the text, or its character
/// continues no word, number or hex colour.
pub open spec fn token_boundary(cs: Seq<char>, q: int) -> bool {
    q == cs.len() || (!is_word_char(cs[q]) && cs[q] != '.')
}

pub open spec fn error_of(r: Result<Seq<SpecToken>, Seq<char>>) -> Option<Seq<char>> {
    match r {
        Ok(_) => None,
        Err(e) => Some(e),
    }
}

proof fn lemma_run_inside(cs: Seq<char>, start: int, kind: RunKind, q: int)
    requires
        0 <= start <= q <= cs.len(),
        token_boundary(cs, q),
    ensures
        scan_while(cs, start, kind) <= q,
{
    lemma_scan_while_bounds(cs, start, kind);
    if scan_while(cs, start, kind) > q {
        assert(continues_run(kind, cs[q]));
    }
}

/// Tokenizing from `p` fails, and with what message, as tokenizing from `q` does,
/// when every character between them may stand where it stands.
proof fn lemma_same_error(cs: Seq<char>, p: int, q: int)
    requires
        0 <= p <= q <= cs.len(),
        token_boundary(cs, q),
        forall|k: int| p <= k < q ==> #[trigger] char_ok(cs, k),
    ensures
        error_of(lex_from(cs, p)) == error_of(lex_from(cs, q)),
    decreases cs.len() - p,
{
    if p < q {
        let c = cs[p];
        assert(char_ok(cs, p));
        if is_whitespace(c) || c == ':' || c == '.' || c == ',' || c == '(' || c == ')' {
            lemma_same_error(cs, p + 1, q);
        } else if c == '#' {
            lemma_run_inside(cs, p + 1, RunKind::Hex, q);
            lemma_same_error(cs, p + 7, q);
        } else if is_ascii_digit(c) {
            lemma_scan_while_bounds(cs, p, RunKind::Number);
            lemma_run_inside(cs, p, RunKind::Number, q);
            lemma_same_error(cs, scan_while(cs, p, RunKind::Number), q);
        } else {
            lemma_scan_while_bounds(cs, p, RunKind::Word);
            lemma_run_inside(cs, p, RunKind::Word, q);
            lemma_same_error(cs, scan_while(cs, p, RunKind::Word), q);
        }
    }
}

proof fn lemma_ok_lexable(cs: Seq<char>, i: int)
    requires
        0 <= i <= cs.len(),
        forall|k: int| i <= k < cs.len() ==> #[trigger] cs[k] != '|',
        lex_from(cs, i) is Ok,
    ensures
        lexable_from(cs, i),
    decreases cs.len() - i,
{
    if i < cs.len() {
        let c = cs[i];
        assert(cs[i] != '|');
        let next = if c == '#' {
            scan_while(cs, i + 1, RunKind::Hex)
        } else if is_ascii_digit(c) {
            scan_while(cs, i, RunKind::Number)
        } else if is_word_char(c) {
            scan_while(cs, i, RunKind::Word)
        } else {
            i + 1
        };
        if c == '#' {
            lemma_scan_while_bounds(cs, i + 1, RunKind::Hex);
        } else if is_ascii_digit(c) {
            lemma_scan_while_bounds(cs, i, RunKind::Number);
        } else if is_word_char(c) {
            lemma_scan_while_bounds(cs, i, RunKind::Word);
        }
        lemma_ok_lexable(cs, next);
        assert forall|k: int| i <= k < cs.len() implies #[trigger] char_ok(cs, k) by {
            if k < next {
                if k > i {
                    assert(cs[k] != '#');
                }
            }
        }
    }
}

/// Which texts without `|` tokenize: exactly those in which every character is
/// whitespace, one of `: . , ( ) #`, a letter, a digit, `_` or `-`, and every `#`
/// is followed by a longest run of exactly six hexadecimal digits.
pub proof fn law_tokenize_accepts_exactly(source: Seq<char>)
    ensures
        lexable_from(source, 0) ==> spec_tokenize(source) is Ok,
        (forall|k: int| 0 <= k < source.len() ==> #[trigger] source[k] != '|') ==> (
        spec_tokenize(source) is Ok ==> lexable_from(source, 0)),
{
    if lexable_from(source, 0) {
        lemma_same_error(source, 0, source.len() as int);
    }
    if (forall|k: int| 0 <= k < source.len() ==> #[trigger] source[k] != '|') && spec_tokenize(
        source,
    ) is Ok {
        lemma_ok_lexable(source, 0);
    }
}

/// The first character that may not stand where it stands is reported: when every
/// character before index `i` may stand where it stands and the character at `i`
/// is none of the lexable ones (nor the start of `||`), tokenizing fails with the
/// message for that character at its byte position.
pub proof fn law_first_unexpected_character(source: Seq<char>, i: int)
    requires
        0 <= i < source.len(),
        forall|k: int| 0 <= k < i ==> #[trigger] char_ok(source, k),
        !lexable_char(source[i]),
        !(source[i] == '|' && i + 1 < source.len() && source[i + 1] == '|'),
    ensures
        spec_tokenize(source) == Err::<Seq<SpecToken>, Seq<char>>(unexpected_char_message(source, i)),
{
    lemma_same_error(source, 0, i);
}

/// The text that a token stands for in the source.
pub open spec fn token_text(t: SpecToken) -> Seq<char> {
    match t {
        SpecToken::Word(w) => w,
        SpecToken::Number(n) => n,
        SpecToken::Hex(h) => h,
        SpecToken::Colon => seq![':'],
        SpecToken::Dot => seq!['.'],
        SpecToken::Comma => seq![','],
        SpecToken::OpenParen => seq!['('],
        SpecToken::CloseParen => seq![')'],
        SpecToken::Or => seq!['|', '|'],
    }
}

/// The texts of the tokens, one after another.
pub open spec fn tokens_text(ts: Seq<SpecToken>) -> Seq<char>
    decreases ts.len(),
{
    if ts.len() == 0 {
        seq![]
    } else {
        token_text(ts[0]) + tokens_text(ts.drop_first())
    }
}

/// The characters of `cs` from index `i` on that are not whitespace.
pub open spec fn non_whitespace_from(cs: Seq<char>, i: int) -> Seq<char>
    decreases cs.len() - i,
{
    if i < 0 || i >= cs.len() {
        seq![]
    } else if is_whitespace(cs[i]) {
        non_whitespace_from(cs, i + 1)
    } else {
        seq![cs[i]] + non_whitespace_from(cs, i + 1)
    }
}

proof fn lemma_run_text(cs: Seq<char>, i: int, j: int)
    requires
        0 <= i <= j <= cs.len(),
        forall|k: int| i <= k < j ==> !is_whitespace(#[trigger] cs[k]),
    ensures
        non_whitespace_from(cs, i) == cs.subrange(i, j) + non_whitespace_from(cs, j),
    decreases j - i,
{
    if i < j {
        assert(!is_whitespace(cs[i]));
        lemma_run_text(cs, i + 1, j);
        assert(cs.subrange(i, j) =~= seq![cs[i]] + cs.subrange(i + 1, j));
    } else {
        assert(cs.subrange(i, j) =~= Seq::<char>::empty());
    }
}

proof fn lemma_cons_text(t: SpecToken, r: Result<Seq<SpecToken>, Seq<char>>, rest: Seq<char>)
    requires
        r matches Ok(ts) ==> tokens_text(ts) == rest,
    ensures
        cons_token(t, r) matches Ok(ts) ==> tokens_text(ts) == token_text(t) + rest,
{
    if let Ok(ts) = r {
        assert((seq![t] + ts).drop_first() =~= ts);
    }
}

proof fn lemma_lex_text(cs: Seq<char>, i: int)
    requires
        0 <= i <= cs.len(),
    ensures
        lex_from(cs, i) matches Ok(ts) ==> tokens_text(ts) == non_whitespace_from(cs, i),
    decreases cs.len() - i,
{
    if i < cs.len() {
        let c = cs[i];
        if is_whitespace(c) {
            lemma_lex_text(cs, i + 1);
        } else if c == ':' || c == '.' || c == ',' || c == '(' || c == ')' {
            lemma_lex_text(cs, i + 1);
            let t = if c == ':' {
                SpecToken::Colon
            } else if c == '.' {
                SpecToken::Dot
            } else if c == ',' {
                SpecToken::Comma
            } else if c == '(' {
                SpecToken::OpenParen
            } else {
                SpecToken::CloseParen
            };
            lemma_cons_text(t, lex_from(cs, i + 1), non_whitespace_from(cs, i + 1));
        } else if c == '|' {
            if i + 1 < cs.len() && cs[i + 1] == '|' {
                lemma_lex_text(cs, i + 2);
                lemma_run_text(cs, i, i + 2);
                assert(cs.subrange(i, i + 2) =~= seq!['|', '|']);
                lemma_cons_text(SpecToken::Or, lex_from(cs, i + 2), non_whitespace_from(cs, i + 2));
            }
        } else {
            let j = if c == '#' {
                scan_while(cs, i + 1, RunKind::Hex)
            } else if is_ascii_digit(c) {
                scan_while(cs, i, RunKind::Number)
            } else {
                scan_while(cs, i, RunKind::Word)
            };
            if c == '#' {
                lemma_scan_while_bounds(cs, i + 1, RunKind::Hex);
            } else if is_ascii_digit(c) {
                lemma_scan_while_bounds(cs, i, RunKind::Number);
            } else {
                lemma_scan_while_bounds(cs, i, RunKind::Word);
            }
            if c == '#' || is_word_char(c) {
                lemma_lex_text(cs, j);
                assert(forall|k: int| i <= k < j ==> !is_whitespace(#[trigger] cs[k]));
                lemma_run_text(cs, i, j);
                let t = if c == '#' {
                    SpecToken::Hex(cs.subrange(i, j))
                } else if is_ascii_digit(c) {
                    SpecToken::Number(cs.subrange(i, j))
                } else {
                    SpecToken::Word(cs.subrange(i, j))
                };
                lemma_cons_text(t, lex_from(cs, j), non_whitespace_from(cs, j));
            }
        }
    }
}

/// Tokens spell the source: the texts of the tokens of a text that tokenizes,
/// one after another, are its characters without the whitespace.
pub proof fn law_tokens_spell_the_source(source: Seq<char>)
    ensures
        spec_tokenize(source) matches Ok(ts) ==> tokens_text(ts) == non_whitespace_from(source, 0),
{
    lemma_lex_text(source, 0);
}

} // verus!
