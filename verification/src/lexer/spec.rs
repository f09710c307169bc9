//! The lexical grammar of AutoSim, stated over the characters of the source.
use vstd::prelude::*;
use vstd::utf8::{encode_scalar, encode_utf8};
use super::token::TokenV;

verus! {

/// Whitespace that separates tokens: space, tab, newline, form feed, carriage return.
pub open spec fn is_blank(c: char) -> bool {
    c == ' ' || c == '\t' || c == '\n' || c == '\x0C' || c == '\r'
}

/// First character of an identifier: `[a-zA-Z_]`.
pub open spec fn is_ident_start(c: char) -> bool {
    ('a' <= c && c <= 'z') || ('A' <= c && c <= 'Z') || c == '_'
}

/// Later character of an identifier: `[a-zA-Z0-9_]`.
pub open spec fn is_ident_char(c: char) -> bool {
    is_ident_start(c) || ('0' <= c && c <= '9')
}

/// Number of keywords (two spellings for `epsilon`).
pub const KEYWORD_COUNT: usize = 12;

/// The keywords, in lower case.
pub open spec fn keyword(k: int) -> Seq<char> {
    if k == 0 {
        seq!['a', 'l', 'f', 'a', 'b', 'e', 't', 'o']
    } else if k == 1 {
        seq!['a', 'u', 't', 'o', 'm', 'a', 't', 'o']
    } else if k == 2 {
        seq!['a', 'f', 'd']
    } else if k == 3 {
        seq!['a', 'f', 'n']
    } else if k == 4 {
        seq!['e', 'p', 's', 'i', 'l', 'o', 'n']
    } else if k == 5 {
        seq!['e', 'p', 's']
    } else if k == 6 {
        seq!['e', 's', 't', 'a', 'd', 'o', 's']
    } else if k == 7 {
        seq!['i', 'n', 'i', 'c', 'i', 'a', 'l']
    } else if k == 8 {
        seq!['f', 'i', 'n', 'a', 'i', 's']
    } else if k == 9 {
        seq!['t', 'r', 'a', 'n', 's', 'i', 'c', 'o', 'e', 's']
    } else if k == 10 {
        seq!['s', 'i', 'm', 'u', 'l', 'a', 'r']
    } else {
        seq!['c', 'o', 'm']
    }
}

/// The token that keyword `k` stands for.
pub open spec fn keyword_token(k: int) -> TokenV {
    if k == 0 {
        TokenV::Alphabet
    } else if k == 1 {
        TokenV::Automaton
    } else if k == 2 {
        TokenV::DFA
    } else if k == 3 {
        TokenV::NFA
    } else if k == 4 || k == 5 {
        TokenV::Epsilon
    } else if k == 6 {
        TokenV::States
    } else if k == 7 {
        TokenV::Initial
    } else if k == 8 {
        TokenV::Final
    } else if k == 9 {
        TokenV::Transitions
    } else if k == 10 {
        TokenV::Simulate
    } else {
        TokenV::With
    }
}

/// Keywords ignore case: `c` matches the lower-case keyword letter `k` when it is `k`,
/// its ASCII capital, or (for `s`) the long s `ſ`, which case-folds to `s`.
pub open spec fn folds_to(c: char, k: char) -> bool {
    c == k || (c as u32) + 32 == (k as u32) || (k == 's' && c == '\u{17F}')
}

/// Keyword `k` is spelled at position `i` of `s`.
pub open spec fn keyword_at(s: Seq<char>, i: int, k: int) -> bool {
    &&& 0 <= i
    &&& i + keyword(k).len() <= s.len()
    &&& forall|j: int| 0 <= j < keyword(k).len() ==> folds_to(#[trigger] s[i + j], keyword(k)[j])
}

/// Among keywords `0..n`, the longest one spelled at `i`, or -1.
pub open spec fn best_keyword_upto(s: Seq<char>, i: int, n: int) -> int
    decreases n,
{
    if n <= 0 {
        -1
    } else {
        let b = best_keyword_upto(s, i, n - 1);
        if keyword_at(s, i, n - 1) && (b < 0 || keyword(n - 1).len() > keyword(b).len()) {
            n - 1
        } else {
            b
        }
    }
}

/// The longest keyword spelled at `i`, or -1.
pub open spec fn best_keyword(s: Seq<char>, i: int) -> int {
    best_keyword_upto(s, i, KEYWORD_COUNT as int)
}

/// How many leading characters of keyword `kw`, from its `j`-th on, are spelled from `i + j` on.
pub open spec fn prefix_match(s: Seq<char>, i: int, kw: Seq<char>, j: int) -> int
    decreases kw.len() - j,
{
    if 0 <= j < kw.len() && 0 <= i + j < s.len() && folds_to(s[i + j], kw[j]) {
        prefix_match(s, i, kw, j + 1)
    } else {
        j
    }
}

/// The longest start of one of keywords `0..n` that is spelled at `i`.
pub open spec fn keyword_prefix_upto(s: Seq<char>, i: int, n: int) -> int
    decreases n,
{
    if n <= 0 {
        0
    } else {
        let b = keyword_prefix_upto(s, i, n - 1);
        let p = prefix_match(s, i, keyword(n - 1), 0);
        if p > b {
            p
        } else {
            b
        }
    }
}

/// The first position from `i` on whose character does not satisfy the run condition.
pub open spec fn blank_end(s: Seq<char>, i: int) -> int
    decreases s.len() - i,
{
    if 0 <= i < s.len() && is_blank(s[i]) {
        blank_end(s, i + 1)
    } else {
        i
    }
}

/// End of an identifier's tail that starts at `i`.
pub open spec fn ident_end(s: Seq<char>, i: int) -> int
    decreases s.len() - i,
{
    if 0 <= i < s.len() && is_ident_char(s[i]) {
        ident_end(s, i + 1)
    } else {
        i
    }
}

/// End of a line comment's text: the next newline, or the end of input.
pub open spec fn line_end(s: Seq<char>, i: int) -> int
    decreases s.len() - i,
{
    if 0 <= i < s.len() && s[i] != '\n' {
        line_end(s, i + 1)
    } else {
        i
    }
}

/// Position of the next `"` from `i` on, or the end of input.
pub open spec fn quote_end(s: Seq<char>, i: int) -> int
    decreases s.len() - i,
{
    if 0 <= i < s.len() && s[i] != '"' {
        quote_end(s, i + 1)
    } else {
        i
    }
}

/// What the lexer does at one position: skip blanks or a comment, emit a token,
/// or fail; each with the number of characters it covers.
pub enum Step {
    Skip(int),
    Tok(TokenV, int),
    Fail(int),
}

/// The longest match at position `i` (`i < s.len()`). Keywords win over identifiers of
/// the same length. On failure the error covers what some token could still have begun
/// with (at least one character).
pub open spec fn lex_step(s: Seq<char>, i: int) -> Step {
    let n = s.len();
    let c = s[i];
    if is_blank(c) {
        Step::Skip(blank_end(s, i) - i)
    } else if c == '/' && i + 1 < n && s[i + 1] == '/' {
        Step::Skip(line_end(s, i) - i)
    } else if c == '{' {
        Step::Tok(TokenV::BraceOpen, 1)
    } else if c == '}' {
        Step::Tok(TokenV::BraceClose, 1)
    } else if c == ',' {
        Step::Tok(TokenV::Comma, 1)
    } else if c == '-' {
        if i + 1 < n && s[i + 1] == '>' {
            Step::Tok(TokenV::Arrow, 2)
        } else {
            Step::Fail(1)
        }
    } else if c == '\'' {
        if i + 2 < n && s[i + 1] != '\'' && s[i + 2] == '\'' {
            Step::Tok(TokenV::CharLiteral(s[i + 1]), 3)
        } else if i + 1 < n && s[i + 1] != '\'' {
            Step::Fail(2)
        } else {
            Step::Fail(1)
        }
    } else if c == '"' {
        let e = quote_end(s, i + 1);
        if e < n {
            Step::Tok(TokenV::StringLiteral(s.subrange(i + 1, e)), e + 1 - i)
        } else {
            Step::Fail(n - i)
        }
    } else {
        let k = best_keyword(s, i);
        let id = if is_ident_start(c) {
            ident_end(s, i + 1) - i
        } else {
            0
        };
        if k >= 0 && keyword(k).len() >= id {
            Step::Tok(keyword_token(k), keyword(k).len() as int)
        } else if id > 0 {
            Step::Tok(TokenV::Ident(s.subrange(i, i + id)), id)
        } else {
            let p = keyword_prefix_upto(s, i, KEYWORD_COUNT as int);
            Step::Fail(if p > 1 { p } else { 1 })
        }
    }
}

/// Tokens with the character positions `[start, end)` they cover, or the first failure.
pub type CharLex = Result<Seq<(TokenV, int, int)>, (int, int)>;

/// `done` followed by what lexing yields afterwards.
pub open spec fn after(done: Seq<(TokenV, int, int)>, rest: CharLex) -> CharLex {
    match rest {
        Ok(ts) => Ok(done + ts),
        Err(e) => Err(e),
    }
}

/// Lexing from position `i` to the end.
pub open spec fn lex_from(s: Seq<char>, i: int) -> CharLex
    decreases s.len() - i,
{
    if i < 0 || i >= s.len() {
        Ok(seq![])
    } else {
        match lex_step(s, i) {
            Step::Skip(l) => if 0 < l && i + l <= s.len() {
                lex_from(s, i + l)
            } else {
                Ok(seq![])
            },
            Step::Tok(t, l) => if 0 < l && i + l <= s.len() {
                after(seq![(t, i, i + l)], lex_from(s, i + l))
            } else {
                Ok(seq![])
            },
            Step::Fail(l) => Err((i, i + l)),
        }
    }
}

/// Byte offset of character position `i`: the UTF-8 length of what comes before it.
pub open spec fn byte_offset(s: Seq<char>, i: int) -> int {
    encode_utf8(s.take(i)).len() as int
}

/// The byte range of character positions `[a, b)`.
pub open spec fn byte_span(s: Seq<char>, a: int, b: int) -> core::ops::Range<usize> {
    core::ops::Range { start: byte_offset(s, a) as usize, end: byte_offset(s, b) as usize }
}

/// A lexing failure: its byte range and the text it covers.
pub struct LexFailure {
    pub span: core::ops::Range<usize>,
    pub text: Seq<char>,
}

/// The tokens of `s` with their byte ranges, or the first failure.
pub open spec fn spec_tokenize_spanned(s: Seq<char>) -> Result<
    Seq<(TokenV, core::ops::Range<usize>)>,
    LexFailure,
> {
    match lex_from(s, 0) {
        Ok(ts) => Ok(ts.map_values(|t: (TokenV, int, int)| (t.0, byte_span(s, t.1, t.2)))),
        Err((a, b)) => Err(LexFailure { span: byte_span(s, a, b), text: s.subrange(a, b) }),
    }
}

/// The tokens of `s` without their ranges, or the first failure.
pub open spec fn spec_tokenize(s: Seq<char>) -> Result<Seq<TokenV>, LexFailure> {
    match lex_from(s, 0) {
        Ok(ts) => Ok(ts.map_values(|t: (TokenV, int, int)| t.0)),
        Err((a, b)) => Err(LexFailure { span: byte_span(s, a, b), text: s.subrange(a, b) }),
    }
}

/// The tokens of spanned tokens.
pub open spec fn project_tokens(ts: Seq<(TokenV, core::ops::Range<usize>)>) -> Seq<TokenV> {
    ts.map_values(|t: (TokenV, core::ops::Range<usize>)| t.0)
}

/// Lexing with ranges and without them agree: dropping the ranges from the spanned
/// result gives the plain result, and both fail alike.
pub proof fn law_tokenize_is_spanned_without_ranges(s: Seq<char>)
    ensures
        spec_tokenize(s) == match spec_tokenize_spanned(s) {
            Ok(ts) => Ok(project_tokens(ts)),
            Err(e) => Err(e),
        },
{
    match lex_from(s, 0) {
        Ok(ts) => {
            let sp = ts.map_values(|t: (TokenV, int, int)| (t.0, byte_span(s, t.1, t.2)));
            assert(project_tokens(sp) =~= ts.map_values(|t: (TokenV, int, int)| t.0));
        },
        Err(_) => {},
    }
}

/// UTF-8 width of a character.
pub open spec fn utf8_width(c: char) -> int {
    if (c as u32) <= 0x7F {
        1
    } else if (c as u32) <= 0x7FF {
        2
    } else if (c as u32) <= 0xFFFF {
        3
    } else {
        4
    }
}

pub proof fn lemma_encode_concat(a: Seq<char>, b: Seq<char>)
    ensures
        encode_utf8(a + b) == encode_utf8(a) + encode_utf8(b),
    decreases a.len(),
{
    if a.len() == 0 {
        assert(a + b =~= b);
        assert(encode_utf8(a) =~= Seq::<u8>::empty());
        assert(encode_utf8(a) + encode_utf8(b) =~= encode_utf8(b));
    } else {
        assert((a + b).drop_first() =~= a.drop_first() + b);
        lemma_encode_concat(a.drop_first(), b);
        assert((a + b)[0] == a[0]);
        assert(encode_utf8(a + b) =~= encode_utf8(a) + encode_utf8(b));
    }
}

pub proof fn lemma_scalar_width(c: char)
    ensures
        encode_scalar(c as u32).len() == utf8_width(c),
{
    broadcast use vstd::utf8::char_is_scalar;
}

/// Advancing one character adds that character's width; offsets never pass the total.
pub proof fn lemma_byte_offset_step(s: Seq<char>, i: int)
    requires
        0 <= i < s.len(),
    ensures
        byte_offset(s, i + 1) == byte_offset(s, i) + utf8_width(s[i]),
        byte_offset(s, i + 1) <= byte_offset(s, s.len() as int),
{
    assert(s.take(i + 1) =~= s.take(i) + seq![s[i]]);
    lemma_encode_concat(s.take(i), seq![s[i]]);
    assert(encode_utf8(seq![s[i]]) =~= encode_scalar(s[i] as u32) + encode_utf8(
        seq![s[i]].drop_first(),
    ));
    assert(seq![s[i]].drop_first() =~= Seq::<char>::empty());
    assert(encode_utf8(Seq::<char>::empty()) =~= Seq::<u8>::empty());
    lemma_scalar_width(s[i]);
    assert(s =~= s.take(i + 1) + s.skip(i + 1));
    lemma_encode_concat(s.take(i + 1), s.skip(i + 1));
    assert(s.take(s.len() as int) =~= s);
}

pub proof fn lemma_byte_offset_zero(s: Seq<char>)
    ensures
        byte_offset(s, 0) == 0,
{
    assert(s.take(0) =~= Seq::<char>::empty());
    assert(encode_utf8(Seq::<char>::empty()) =~= Seq::<u8>::empty());
}

} // verus!
