//! Where tokens and lexing errors lie in the source.
use vstd::prelude::*;
use vstd::utf8::encode_utf8;
use super::spec::{
    after, byte_offset, ident_end, spec_tokenize, keyword_prefix_upto, lemma_byte_offset_step, lemma_byte_offset_zero,
    lex_from, lex_step, prefix_match, spec_tokenize_spanned, CharLex, Step, KEYWORD_COUNT,
};
use super::token::TokenV;

verus! {

proof fn lemma_prefix_match_bound(s: Seq<char>, i: int, kw: Seq<char>, j: int)
    requires
        0 <= i,
        0 <= j,
        i + j <= s.len(),
    ensures
        j <= prefix_match(s, i, kw, j) <= s.len() - i,
    decreases kw.len() - j,
{
    if 0 <= j < kw.len() && 0 <= i + j < s.len() && super::spec::folds_to(s[i + j], kw[j]) {
        lemma_prefix_match_bound(s, i, kw, j + 1);
    }
}

proof fn lemma_keyword_prefix_bound(s: Seq<char>, i: int, n: int)
    requires
        0 <= i <= s.len(),
    ensures
        0 <= keyword_prefix_upto(s, i, n) <= s.len() - i,
    decreases n,
{
    if n > 0 {
        lemma_keyword_prefix_bound(s, i, n - 1);
        lemma_prefix_match_bound(s, i, super::spec::keyword(n - 1), 0);
    }
}

/// Character positions of lexing from `i`: tokens are nonempty, in order, without
/// overlap, inside `[i, s.len()]`; a failure covers a nonempty stretch inside it too.
pub open spec fn positions_ok(s: Seq<char>, i: int, r: CharLex) -> bool {
    match r {
        Ok(ts) => {
            &&& forall|k: int|
                0 <= k < ts.len() ==> i <= (#[trigger] ts[k]).1 && ts[k].1 < ts[k].2 && ts[k].2 <= s.len()
            &&& forall|k: int| 0 <= k < ts.len() - 1 ==> (#[trigger] ts[k]).2 <= ts[k + 1].1
        },
        Err((a, b)) => i <= a < b <= s.len(),
    }
}

proof fn lemma_lex_positions(s: Seq<char>, i: int)
    requires
        0 <= i <= s.len(),
    ensures
        positions_ok(s, i, lex_from(s, i)),
    decreases s.len() - i,
{
    if i < s.len() {
        match lex_step(s, i) {
            Step::Skip(l) => {
                if 0 < l && i + l <= s.len() {
                    lemma_lex_positions(s, i + l);
                }
            },
            Step::Tok(t, l) => {
                if 0 < l && i + l <= s.len() {
                    lemma_lex_positions(s, i + l);
                    match lex_from(s, i + l) {
                        Ok(rest) => {
                            let ts = seq![(t, i, i + l)] + rest;
                            assert forall|k: int| 0 <= k < ts.len() implies i <= (#[trigger] ts[k]).1 && ts[k].1
                                < ts[k].2 && ts[k].2 <= s.len() by {
                                if k > 0 {
                                    assert(ts[k] == rest[k - 1]);
                                }
                            }
                            assert forall|k: int| 0 <= k < ts.len() - 1 implies (#[trigger] ts[k]).2 <= ts[k + 1].1 by {
                                if k > 0 {
                                    assert(ts[k] == rest[k - 1]);
                                    assert(ts[k + 1] == rest[k]);
                                } else {
                                    assert(ts[1] == rest[0]);
                                }
                            }
                        },
                        Err(_) => {},
                    }
                }
            },
            Step::Fail(l) => {
                let c = s[i];
                if !(super::spec::is_blank(c) || c == '/' && i + 1 < s.len() && s[i + 1] == '/' || c
                    == '{' || c == '}' || c == ',' || c == '-' || c == '\'' || c == '"') {
                    lemma_keyword_prefix_bound(s, i, KEYWORD_COUNT as int);
                }
            },
        }
    }
}

/// Byte offsets grow with character positions.
proof fn lemma_byte_offset_grows(s: Seq<char>, a: int, b: int)
    requires
        0 <= a <= b <= s.len(),
    ensures
        byte_offset(s, a) + (b - a) <= byte_offset(s, b),
        byte_offset(s, b) <= byte_offset(s, s.len() as int),
    decreases b - a,
{
    if a < b {
        lemma_byte_offset_grows(s, a, b - 1);
        lemma_byte_offset_step(s, b - 1);
    } else if b < s.len() {
        lemma_byte_offset_step(s, b);
    } else {
        assert(s.take(s.len() as int) =~= s);
    }
}

/// Tokens come in the order of the source, each over a nonempty byte range within it,
/// and no two overlap; a lexing error covers a nonempty byte range within the source.
pub proof fn law_token_ranges_in_order(s: Seq<char>)
    requires
        encode_utf8(s).len() <= usize::MAX,
    ensures
        match spec_tokenize_spanned(s) {
            Ok(ts) => {
                &&& forall|k: int|
                    0 <= k < ts.len() ==> (#[trigger] ts[k]).1.start < ts[k].1.end <= encode_utf8(s).len()
                &&& forall|k: int| 0 <= k < ts.len() - 1 ==> (#[trigger] ts[k]).1.end <= ts[k + 1].1.start
            },
            Err(e) => e.span.start < e.span.end <= encode_utf8(s).len(),
        },
{
    lemma_lex_positions(s, 0);
    lemma_byte_offset_zero(s);
    assert(s.take(s.len() as int) =~= s);
    let total = byte_offset(s, s.len() as int);
    assert(total == encode_utf8(s).len());
    match lex_from(s, 0) {
        Ok(ts) => {
            let sp = spec_tokenize_spanned(s)->Ok_0;
            assert forall|k: int| 0 <= k < sp.len() implies (#[trigger] sp[k]).1.start < sp[k].1.end
                <= encode_utf8(s).len() by {
                let t = ts[k];
                lemma_byte_offset_grows(s, t.1, t.2);
                lemma_byte_offset_grows(s, 0, t.1);
            }
            assert forall|k: int| 0 <= k < sp.len() - 1 implies (#[trigger] sp[k]).1.end <= sp[k + 1].1.start by {
                let t = ts[k];
                let u = ts[k + 1];
                lemma_byte_offset_grows(s, t.2, u.1);
                lemma_byte_offset_grows(s, 0, t.2);
            }
        },
        Err((a, b)) => {
            lemma_byte_offset_grows(s, a, b);
            lemma_byte_offset_grows(s, 0, a);
        },
    }
}

/// A quote, any character other than a quote, and a quote form one character literal:
/// wherever lexing reaches such three characters, they become the token for that
/// character, and lexing goes on right after them.
pub proof fn law_quoted_character_is_literal(s: Seq<char>, i: int)
    requires
        0 <= i,
        i + 3 <= s.len(),
        s[i] == '\'',
        s[i + 1] != '\'',
        s[i + 2] == '\'',
    ensures
        lex_from(s, i) == after(seq![(TokenV::CharLiteral(s[i + 1]), i, i + 3)], lex_from(s, i + 3)),
{
}

/// In particular, for every character `c` other than a quote, `'c'` alone lexes to the
/// one token for `c`.
pub proof fn law_character_literal_alone(c: char)
    requires
        c != '\'',
    ensures
        spec_tokenize(seq!['\'', c, '\'']) == Ok::<Seq<TokenV>, super::spec::LexFailure>(seq![TokenV::CharLiteral(c)]),
{
    let s = seq!['\'', c, '\''];
    law_quoted_character_is_literal(s, 0);
    assert(lex_from(s, 3) == Ok::<Seq<(TokenV, int, int)>, (int, int)>(seq![]));
    let ts = seq![(TokenV::CharLiteral(c), 0int, 3int)];
    assert(seq![(TokenV::CharLiteral(c), 0int, 3int)] + Seq::<(TokenV, int, int)>::empty() =~= ts);
    assert(ts.map_values(|t: (TokenV, int, int)| t.0) =~= seq![TokenV::CharLiteral(c)]);
}

} // verus!
