//! The executable lexer.
use vstd::prelude::*;
use vstd::utf8::encode_utf8;
use core::ops::Range;
use super::spec::{
    after, best_keyword, best_keyword_upto, blank_end, byte_offset, byte_span, folds_to,
    ident_end, is_blank, is_ident_char, is_ident_start, keyword, keyword_at, keyword_prefix_upto,
    keyword_token, lex_from, lex_step, line_end, prefix_match, quote_end, utf8_width,
    lemma_byte_offset_step, lemma_byte_offset_zero, Step, KEYWORD_COUNT,
};
use super::token::{string_from, Token, TokenV};

verus! {

pub(crate) fn blank(c: char) -> (r: bool)
    ensures
        r == is_blank(c),
{
    c == ' ' || c == '\t' || c == '\n' || c == '\x0C' || c == '\r'
}

pub(crate) fn ident_start(c: char) -> (r: bool)
    ensures
        r == is_ident_start(c),
{
    ('a' <= c && c <= 'z') || ('A' <= c && c <= 'Z') || c == '_'
}

pub(crate) fn ident_char(c: char) -> (r: bool)
    ensures
        r == is_ident_char(c),
{
    ident_start(c) || ('0' <= c && c <= '9')
}

fn folds(c: char, k: char) -> (r: bool)
    ensures
        r == folds_to(c, k),
{
    c == k || (c as u64) + 32 == (k as u64) || (k == 's' && c == '\u{17F}')
}

fn keyword_chars(k: usize) -> (v: Vec<char>)
    requires
        k < KEYWORD_COUNT,
    ensures
        v@ == keyword(k as int),
{
    let v = if k == 0 {
        vec!['a', 'l', 'f', 'a', 'b', 'e', 't', 'o']
    } else if k == 1 {
        vec!['a', 'u', 't', 'o', 'm', 'a', 't', 'o']
    } else if k == 2 {
        vec!['a', 'f', 'd']
    } else if k == 3 {
        vec!['a', 'f', 'n']
    } else if k == 4 {
        vec!['e', 'p', 's', 'i', 'l', 'o', 'n']
    } else if k == 5 {
        vec!['e', 'p', 's']
    } else if k == 6 {
        vec!['e', 's', 't', 'a', 'd', 'o', 's']
    } else if k == 7 {
        vec!['i', 'n', 'i', 'c', 'i', 'a', 'l']
    } else if k == 8 {
        vec!['f', 'i', 'n', 'a', 'i', 's']
    } else if k == 9 {
        vec!['t', 'r', 'a', 'n', 's', 'i', 'c', 'o', 'e', 's']
    } else if k == 10 {
        vec!['s', 'i', 'm', 'u', 'l', 'a', 'r']
    } else {
        vec!['c', 'o', 'm']
    };
    assert(v@ =~= keyword(k as int));
    v
}

fn keyword_token_of(k: usize) -> (t: Token)
    requires
        k < KEYWORD_COUNT,
    ensures
        t@ == keyword_token(k as int),
{
    if k == 0 {
        Token::Alphabet
    } else if k == 1 {
        Token::Automaton
    } else if k == 2 {
        Token::DFA
    } else if k == 3 {
        Token::NFA
    } else if k == 4 || k == 5 {
        Token::Epsilon
    } else if k == 6 {
        Token::States
    } else if k == 7 {
        Token::Initial
    } else if k == 8 {
        Token::Final
    } else if k == 9 {
        Token::Transitions
    } else if k == 10 {
        Token::Simulate
    } else {
        Token::With
    }
}

fn spelled_at(s: &Vec<char>, i: usize, k: usize) -> (r: bool)
    requires
        k < KEYWORD_COUNT,
        i <= s@.len(),
    ensures
        r == keyword_at(s@, i as int, k as int),
{
    let kw = keyword_chars(k);
    if kw.len() > s.len() - i {
        return false;
    }
    let mut j: usize = 0;
    while j < kw.len()
        invariant
            kw@ == keyword(k as int),
            i + kw@.len() <= s@.len(),
            s@.len() == s.len(),
            j <= kw@.len(),
            forall|m: int| 0 <= m < j ==> folds_to(#[trigger] s@[i + m], kw@[m]),
        decreases kw@.len() - j,
    {
        if !folds(s[i + j], kw[j]) {
            assert(!folds_to(s@[i + j as int], keyword(k as int)[j as int]));
            return false;
        }
        j = j + 1;
    }
    true
}

fn longest_keyword(s: &Vec<char>, i: usize) -> (r: Option<usize>)
    requires
        i <= s@.len(),
    ensures
        match r {
            Some(k) => best_keyword(s@, i as int) == k as int && k < KEYWORD_COUNT
                && keyword_at(s@, i as int, k as int),
            None => best_keyword(s@, i as int) == -1,
        },
{
    let mut best: Option<usize> = None;
    let mut best_len: usize = 0;
    let mut k: usize = 0;
    while k < KEYWORD_COUNT
        invariant
            k <= KEYWORD_COUNT,
            i <= s@.len(),
            match best {
                Some(b) => best_keyword_upto(s@, i as int, k as int) == b as int && b < k
                    && best_len == keyword(b as int).len() && keyword_at(s@, i as int, b as int),
                None => best_keyword_upto(s@, i as int, k as int) == -1,
            },
        decreases KEYWORD_COUNT - k,
    {
        if spelled_at(s, i, k) {
            let kw = keyword_chars(k);
            let better = match best {
                Some(_) => kw.len() > best_len,
                None => true,
            };
            if better {
                best = Some(k);
                best_len = kw.len();
            }
        }
        k = k + 1;
    }
    best
}

fn prefix_length(s: &Vec<char>, i: usize, k: usize) -> (r: usize)
    requires
        k < KEYWORD_COUNT,
        i <= s@.len(),
    ensures
        r == prefix_match(s@, i as int, keyword(k as int), 0),
        i + r <= s@.len(),
{
    let kw = keyword_chars(k);
    let mut j: usize = 0;
    while j < kw.len() && j < s.len() - i && folds(s[i + j], kw[j])
        invariant
            kw@ == keyword(k as int),
            j <= kw@.len(),
            i + j <= s@.len(),
            prefix_match(s@, i as int, kw@, 0) == prefix_match(s@, i as int, kw@, j as int),
        decreases kw@.len() - j,
    {
        j = j + 1;
    }
    j
}

fn longest_prefix(s: &Vec<char>, i: usize) -> (r: usize)
    requires
        i <= s@.len(),
    ensures
        r == keyword_prefix_upto(s@, i as int, KEYWORD_COUNT as int),
        i + r <= s@.len(),
{
    let mut best: usize = 0;
    let mut k: usize = 0;
    while k < KEYWORD_COUNT
        invariant
            k <= KEYWORD_COUNT,
            i <= s@.len(),
            best == keyword_prefix_upto(s@, i as int, k as int),
            i + best <= s@.len(),
        decreases KEYWORD_COUNT - k,
    {
        let p = prefix_length(s, i, k);
        if p > best {
            best = p;
        }
        k = k + 1;
    }
    best
}

fn continues(c: char, which: u8) -> (r: bool)
    ensures
        which == 0 ==> r == is_blank(c),
        which == 1 ==> r == is_ident_char(c),
        which == 2 ==> r == (c != '\n'),
        which == 3 ==> r == (c != '"'),
{
    if which == 0 {
        blank(c)
    } else if which == 1 {
        ident_char(c)
    } else if which == 2 {
        c != '\n'
    } else {
        c != '"'
    }
}

fn run_end(s: &Vec<char>, i: usize, which: u8) -> (e: usize)
    requires
        i <= s@.len(),
        which < 4,
    ensures
        which == 0 ==> e == blank_end(s@, i as int),
        which == 1 ==> e == ident_end(s@, i as int),
        which == 2 ==> e == line_end(s@, i as int),
        which == 3 ==> e == quote_end(s@, i as int),
        i <= e <= s@.len(),
{
    let mut j = i;
    while j < s.len() && continues(s[j], which)
        invariant
            i <= j <= s@.len(),
            which < 4,
            which == 0 ==> blank_end(s@, i as int) == blank_end(s@, j as int),
            which == 1 ==> ident_end(s@, i as int) == ident_end(s@, j as int),
            which == 2 ==> line_end(s@, i as int) == line_end(s@, j as int),
            which == 3 ==> quote_end(s@, i as int) == quote_end(s@, j as int),
        decreases s@.len() - j,
    {
        j = j + 1;
    }
    j
}

/// One lexer step, executable.
enum ScanStep {
    Skip(usize),
    Tok(Token, usize),
    Fail(usize),
}

spec fn step_matches(x: ScanStep, y: Step) -> bool {
    match (x, y) {
        (ScanStep::Skip(a), Step::Skip(b)) => a as int == b,
        (ScanStep::Tok(t, a), Step::Tok(u, b)) => t@ == u && a as int == b,
        (ScanStep::Fail(a), Step::Fail(b)) => a as int == b,
        _ => false,
    }
}

spec fn step_len(x: ScanStep) -> int {
    match x {
        ScanStep::Skip(a) => a as int,
        ScanStep::Tok(_, a) => a as int,
        ScanStep::Fail(a) => a as int,
    }
}

fn scan_step(s: &Vec<char>, i: usize) -> (r: ScanStep)
    requires
        i < s@.len(),
    ensures
        step_matches(r, lex_step(s@, i as int)),
        0 < step_len(r),
        i + step_len(r) <= s@.len(),
{
    let n = s.len();
    let c = s[i];
    if blank(c) {
        let e = run_end(s, i, 0);
        assert(blank_end(s@, i as int) == blank_end(s@, i + 1));
        assert(e > i) by {
            if e == i {
                assert(blank_end(s@, i + 1) >= i + 1) by {
                    lemma_run_end_ge(s@, i + 1, 0);
                }
            }
        }
        ScanStep::Skip(e - i)
    } else if c == '/' && i + 1 < n && s[i + 1] == '/' {
        let e = run_end(s, i, 2);
        assert(line_end(s@, i as int) == line_end(s@, i + 1));
        assert(e > i) by {
            lemma_run_end_ge(s@, i + 1, 2);
        }
        ScanStep::Skip(e - i)
    } else if c == '{' {
        ScanStep::Tok(Token::BraceOpen, 1)
    } else if c == '}' {
        ScanStep::Tok(Token::BraceClose, 1)
    } else if c == ',' {
        ScanStep::Tok(Token::Comma, 1)
    } else if c == '-' {
        if i + 1 < n && s[i + 1] == '>' {
            ScanStep::Tok(Token::Arrow, 2)
        } else {
            ScanStep::Fail(1)
        }
    } else if c == '\'' {
        if i + 1 < n && i + 2 < n && s[i + 1] != '\'' && s[i + 2] == '\'' {
            ScanStep::Tok(Token::CharLiteral(s[i + 1]), 3)
        } else if i + 1 < n && s[i + 1] != '\'' {
            ScanStep::Fail(2)
        } else {
            ScanStep::Fail(1)
        }
    } else if c == '"' {
        let e = run_end(s, i + 1, 3);
        if e < n {
            let text = string_from(s.as_slice(), i + 1, e);
            ScanStep::Tok(Token::StringLiteral(text), e + 1 - i)
        } else {
            ScanStep::Fail(n - i)
        }
    } else {
        let k = longest_keyword(s, i);
        let id = if ident_start(c) {
            let e = run_end(s, i + 1, 1);
            e - i
        } else {
            0
        };
        let kw_len = match k {
            Some(kk) => keyword_chars(kk).len(),
            None => 0,
        };
        if k.is_some() && kw_len >= id {
            let kk = k.unwrap();
            assert(keyword(kk as int).len() >= 3) by {
                assert(keyword(kk as int).len() >= 3);
            }
            ScanStep::Tok(keyword_token_of(kk), kw_len)
        } else if id > 0 {
            let text = string_from(s.as_slice(), i, i + id);
            ScanStep::Tok(Token::Ident(text), id)
        } else {
            let p = longest_prefix(s, i);
            ScanStep::Fail(if p > 1 { p } else { 1 })
        }
    }
}

proof fn lemma_run_end_ge(s: Seq<char>, i: int, which: int)
    requires
        0 <= i <= s.len(),
    ensures
        which == 0 ==> i <= blank_end(s, i) <= s.len(),
        which == 1 ==> i <= ident_end(s, i) <= s.len(),
        which == 2 ==> i <= line_end(s, i) <= s.len(),
        which == 3 ==> i <= quote_end(s, i) <= s.len(),
    decreases s.len() - i,
{
    if i < s.len() {
        lemma_run_end_ge(s, i + 1, which);
    }
}

fn width(c: char) -> (w: usize)
    ensures
        w as int == utf8_width(c),
{
    if (c as u32) <= 0x7F {
        1
    } else if (c as u32) <= 0x7FF {
        2
    } else if (c as u32) <= 0xFFFF {
        3
    } else {
        4
    }
}

/// The byte offset of position `j`, from that of position `i`.
fn advance(s: &Vec<char>, i: usize, j: usize, b: usize) -> (r: usize)
    requires
        i <= j <= s@.len(),
        b == byte_offset(s@, i as int),
        byte_offset(s@, s@.len() as int) <= usize::MAX,
    ensures
        r == byte_offset(s@, j as int),
{
    let mut k = i;
    let mut r = b;
    while k < j
        invariant
            i <= k <= j <= s@.len(),
            r == byte_offset(s@, k as int),
            byte_offset(s@, s@.len() as int) <= usize::MAX,
        decreases j - k,
    {
        proof {
            lemma_byte_offset_step(s@, k as int);
        }
        r = r + width(s[k]);
        k = k + 1;
    }
    r
}

} // verus!

verus! {

/// The values of spanned tokens.
pub open spec fn spanned_views(v: Seq<(Token, Range<usize>)>) -> Seq<(TokenV, Range<usize>)> {
    v.map_values(|p: (Token, Range<usize>)| (p.0@, p.1))
}

/// The values of the tokens of spanned tokens.
pub open spec fn first_views(v: Seq<(Token, Range<usize>)>) -> Seq<TokenV> {
    v.map_values(|p: (Token, Range<usize>)| p.0@)
}

/// The values of tokens.
pub open spec fn token_views(v: Seq<Token>) -> Seq<TokenV> {
    v.map_values(|t: Token| t@)
}

/// Character positions turned into byte ranges.
pub open spec fn to_byte_spans(s: Seq<char>, ts: Seq<(TokenV, int, int)>) -> Seq<(TokenV, Range<usize>)> {
    ts.map_values(|t: (TokenV, int, int)| (t.0, byte_span(s, t.1, t.2)))
}

/// The value of a spanned-lexing result.
pub open spec fn lexed_spanned(r: Result<Vec<(Token, Range<usize>)>, super::error::LexError>) -> Result<
    Seq<(TokenV, Range<usize>)>,
    super::spec::LexFailure,
> {
    match r {
        Ok(v) => Ok(spanned_views(v@)),
        Err(e) => Err(super::spec::LexFailure { span: e.span, text: e.text@ }),
    }
}

/// The value of a lexing result.
pub open spec fn lexed(r: Result<Vec<Token>, super::error::LexError>) -> Result<
    Seq<TokenV>,
    super::spec::LexFailure,
> {
    match r {
        Ok(v) => Ok(token_views(v@)),
        Err(e) => Err(super::spec::LexFailure { span: e.span, text: e.text@ }),
    }
}

proof fn lemma_after_assoc(a: Seq<(TokenV, int, int)>, b: Seq<(TokenV, int, int)>, r: super::spec::CharLex)
    ensures
        after(a, after(b, r)) == after(a + b, r),
{
    match r {
        Ok(ts) => {
            assert(a + (b + ts) =~= (a + b) + ts);
        },
        Err(_) => {},
    }
}

/// Converts the input into tokens, keeping the byte range each one came from.
///
/// Fails with a [`LexError`](super::error::LexError) at the first stretch of input
/// that starts no token.
pub fn tokenize_spanned(input: &str) -> (r: Result<Vec<(Token, Range<usize>)>, super::error::LexError>)
    ensures
        lexed_spanned(r) == super::spec::spec_tokenize_spanned(input@),
{
    let nbytes = input.as_bytes().len();
    assert(encode_utf8(input@).len() == nbytes);
    let s = crate::text::chars_of(input);
    let n = s.len();
    let mut out: Vec<(Token, Range<usize>)> = Vec::new();
    let mut i: usize = 0;
    let mut b: usize = 0;
    let ghost mut done: Seq<(TokenV, int, int)> = seq![];
    proof {
        lemma_byte_offset_zero(s@);
        assert(s@.take(s@.len() as int) =~= s@);
        assert(after(done, lex_from(s@, 0)) == lex_from(s@, 0)) by {
            match lex_from(s@, 0) {
                Ok(ts) => {
                    assert(done + ts =~= ts);
                },
                Err(_) => {},
            }
        }
    }
    while i < n
        invariant
            s@ == input@,
            n == s@.len(),
            i <= n,
            b == byte_offset(s@, i as int),
            byte_offset(s@, n as int) <= usize::MAX,
            after(done, lex_from(s@, i as int)) == lex_from(s@, 0),
            out@.len() == done.len(),
            spanned_views(out@) == to_byte_spans(s@, done),
        decreases n - i,
    {
        let step = scan_step(&s, i);
        match step {
            ScanStep::Skip(l) => {
                b = advance(&s, i, i + l, b);
                i = i + l;
            },
            ScanStep::Tok(t, l) => {
                let e = advance(&s, i, i + l, b);
                let ghost tv = t@;
                let ghost old_out = out@;
                out.push((t, Range { start: b, end: e }));
                proof {
                    lemma_after_assoc(done, seq![(tv, i as int, (i + l) as int)], lex_from(s@, (i + l) as int));
                    let nd = done + seq![(tv, i as int, (i + l) as int)];
                    assert forall|j: int| 0 <= j < nd.len() implies #[trigger] spanned_views(out@)[j]
                        == to_byte_spans(s@, nd)[j] by {
                        if j < done.len() {
                            assert(spanned_views(old_out)[j] == to_byte_spans(s@, done)[j]);
                            assert(out@[j] == old_out[j]);
                        }
                    }
                    assert(spanned_views(out@) =~= to_byte_spans(s@, nd));
                    done = nd;
                }
                b = e;
                i = i + l;
            },
            ScanStep::Fail(l) => {
                let e = advance(&s, i, i + l, b);
                let text = string_from(s.as_slice(), i, i + l);
                return Err(super::error::LexError { span: Range { start: b, end: e }, text });
            },
        }
    }
    proof {
        assert(done + Seq::<(TokenV, int, int)>::empty() =~= done);
    }
    Ok(out)
}

/// Converts the input into a list of tokens.
///
/// Fails with a [`LexError`](super::error::LexError) at the first stretch of input
/// that starts no token.
pub fn tokenize(input: &str) -> (r: Result<Vec<Token>, super::error::LexError>)
    ensures
        lexed(r) == super::spec::spec_tokenize(input@),
{
    match tokenize_spanned(input) {
        Ok(v) => {
            let mut out: Vec<Token> = Vec::new();
            let mut k: usize = 0;
            while k < v.len()
                invariant
                    k <= v@.len(),
                    out@.len() == k,
                    token_views(out@) == first_views(v@.take(k as int)),
                decreases v@.len() - k,
            {
                let ghost old_out = out@;
                out.push(v[k].0.duplicate());
                k = k + 1;
                proof {
                    assert forall|j: int| 0 <= j < k implies #[trigger] token_views(out@)[j]
                        == first_views(v@.take(k as int))[j] by {
                        if j < k - 1 {
                            assert(token_views(old_out)[j] == first_views(v@.take(k - 1))[j]);
                            assert(out@[j] == old_out[j]);
                        }
                    }
                    assert(token_views(out@) =~= first_views(v@.take(k as int)));
                }
            }
            proof {
                assert(v@.take(v@.len() as int) =~= v@);
                assert(token_views(out@) =~= super::spec::project_tokens(spanned_views(v@)));
                super::spec::law_tokenize_is_spanned_without_ranges(input@);
            }
            Ok(out)
        },
        Err(e) => {
            proof {
                super::spec::law_tokenize_is_spanned_without_ranges(input@);
            }
            Err(e)
        },
    }
}

} // verus!
