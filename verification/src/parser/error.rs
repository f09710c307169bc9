use vstd::prelude::*;
use core::ops::Range;
use crate::lexer::{token_text, Token, TokenV};
use super::spec::PatternV;

verus! {

/// Something the parser would have accepted where it failed.
#[derive(Debug, Clone, PartialEq, Eq)]
pub enum RichPattern {
    Token(Token),
    Label(String),
    SomethingElse,
    EndOfInput,
}

impl View for RichPattern {
    type V = PatternV;

    open spec fn view(&self) -> PatternV {
        match self {
            RichPattern::Token(t) => PatternV::Token(t@),
            RichPattern::Label(l) => PatternV::Label(l@),
            RichPattern::SomethingElse => PatternV::SomethingElse,
            RichPattern::EndOfInput => PatternV::EndOfInput,
        }
    }
}

pub open spec fn patterns_view(v: Seq<RichPattern>) -> Seq<PatternV> {
    v.map_values(|p: RichPattern| p@)
}

/// A parse failure in token positions: the token range, what was expected there
/// (in the order the alternatives were tried) and the token found (none at the end).
#[derive(Debug, Clone)]
pub struct Rich {
    pub span: Range<usize>,
    pub expected: Vec<RichPattern>,
    pub found: Option<Token>,
}

/// A parse error located in the source text.
#[derive(Debug, Clone)]
pub struct ParseError {
    pub span: Range<usize>,
    pub message: String,
}

/// How an expected item is named in a message.
pub open spec fn pattern_text(p: PatternV) -> Seq<char> {
    match p {
        PatternV::Token(t) => seq!['\''] + token_text(t) + seq!['\''],
        PatternV::Label(l) => l,
        PatternV::SomethingElse => "outro token"@,
        PatternV::EndOfInput => "fim do arquivo"@,
    }
}

/// The expected items joined with ` ou `.
pub open spec fn join_patterns(ps: Seq<PatternV>) -> Seq<char>
    decreases ps.len(),
{
    if ps.len() == 0 {
        seq![]
    } else if ps.len() == 1 {
        pattern_text(ps[0])
    } else {
        join_patterns(ps.drop_last()) + " ou "@ + pattern_text(ps.last())
    }
}

/// `esperava <expected>, encontrou '<found>'`, or `..., mas o arquivo terminou` at the end.
pub open spec fn reason_text(expected: Seq<PatternV>, found: Option<TokenV>) -> Seq<char> {
    let exp = if expected.len() == 0 {
        "algo válido"@
    } else {
        join_patterns(expected)
    };
    match found {
        Some(f) => "esperava "@ + exp + ", encontrou '"@ + token_text(f) + "'"@,
        None => "esperava "@ + exp + ", mas o arquivo terminou"@,
    }
}

/// A token range turned into a byte range of the source: from the start of its first
/// token to the end of its last; an empty or out-of-range one sits at its start, or at
/// the end of the last token.
pub open spec fn char_span(tok: Range<usize>, spans: Seq<Range<usize>>) -> Range<usize> {
    if tok.start < spans.len() {
        let start = spans[tok.start as int].start;
        let end = if tok.end > tok.start && tok.end <= spans.len() {
            spans[tok.end - 1].end
        } else {
            start
        };
        Range { start, end }
    } else {
        let eof = if spans.len() > 0 {
            spans[spans.len() - 1].end
        } else {
            0
        };
        Range { start: eof, end: eof }
    }
}

pub fn to_char_span(tok_span: &Range<usize>, token_spans: &[Range<usize>]) -> (r: Range<usize>)
    ensures
        r == char_span(*tok_span, token_spans@),
{
    let start_tok = tok_span.start;
    let end_tok = tok_span.end;
    if start_tok < token_spans.len() {
        let start = token_spans[start_tok].start;
        let end = if end_tok > start_tok && end_tok <= token_spans.len() {
            token_spans[end_tok - 1].end
        } else {
            start
        };
        Range { start, end }
    } else {
        let eof = if token_spans.len() > 0 {
            token_spans[token_spans.len() - 1].end
        } else {
            0
        };
        Range { start: eof, end: eof }
    }
}

pub fn format_pattern(pat: &RichPattern) -> (s: String)
    ensures
        s@ == pattern_text(pat@),
{
    match pat {
        RichPattern::Token(t) => {
            let mut s = String::new();
            s.push('\'');
            let tt = t.to_text();
            s.append(tt.as_str());
            s.push('\'');
            s
        },
        RichPattern::Label(l) => l.clone(),
        RichPattern::SomethingElse => String::from_str("outro token"),
        RichPattern::EndOfInput => String::from_str("fim do arquivo"),
    }
}

pub fn format_reason(expected: &Vec<RichPattern>, found: &Option<Token>) -> (s: String)
    ensures
        s@ == reason_text(patterns_view(expected@), match found {
            Some(t) => Some(t@),
            None => None,
        }),
{
    let mut exp = String::new();
    if expected.len() == 0 {
        exp.append("algo válido");
    } else {
        let mut i: usize = 0;
        while i < expected.len()
            invariant
                0 < expected@.len(),
                i <= expected@.len(),
                exp@ == join_patterns(patterns_view(expected@).take(i as int)),
            decreases expected@.len() - i,
        {
            let p = format_pattern(&expected[i]);
            proof {
                let ps = patterns_view(expected@);
                assert(ps.take(i + 1).drop_last() =~= ps.take(i as int));
                assert(ps.take(i + 1).last() == expected@[i as int]@);
            }
            if i > 0 {
                exp.append(" ou ");
            } else {
                assert(exp@ =~= Seq::<char>::empty());
            }
            exp.append(p.as_str());
            i = i + 1;
        }
        assert(patterns_view(expected@).take(expected@.len() as int) =~= patterns_view(expected@));
    }
    let mut s = String::new();
    s.append("esperava ");
    s.append(exp.as_str());
    match found {
        Some(f) => {
            s.append(", encontrou '");
            let ft = f.to_text();
            s.append(ft.as_str());
            s.append("'");
        },
        None => {
            s.append(", mas o arquivo terminou");
        },
    }
    s
}

impl ParseError {
    /// The error located in the source (through the byte ranges of the tokens) and
    /// described in words.
    pub fn from_rich(err: &Rich, token_spans: &[Range<usize>]) -> (e: ParseError)
        ensures
            e.span == char_span(err.span, token_spans@),
            e.message@ == reason_text(patterns_view(err.expected@), match err.found {
                Some(t) => Some(t@),
                None => None,
            }),
    {
        ParseError {
            span: to_char_span(&err.span, token_spans),
            message: format_reason(&err.expected, &err.found),
        }
    }
}

} // verus!
