//! The executable parser: one function per rule of [`super::spec`].
use vstd::prelude::*;
use core::ops::Range;
use crate::lexer::{token_views, Token, TokenV};
use super::ast::{
    automata_view, chars_view, names_view, simulations_view, transitions_view, Automaton,
    AutomatonKind, Program, Simulation, Spanned, Symbol, Transition,
};
use super::error::{patterns_view, RichPattern};
use super::spec::{
    automaton_at, chars_after_item, chars_after_open, is_char, is_ident, is_tok, items_from,
    name_at, names_after_item, names_after_open,
    names_list, one, simulation_at, spec_parse_tokens, transition_at, transitions_from, want,
    PFail, PatternV,
};

verus! {

/// A failure: token position and what was expected there.
pub type Fail = (usize, Vec<RichPattern>);

pub open spec fn fail_view(f: Fail) -> PFail {
    (f.0 as int, patterns_view(f.1@))
}

pub open spec fn is_unit(t: TokenV) -> bool {
    !(t is CharLiteral) && !(t is StringLiteral) && !(t is Ident)
}

fn unit_eq(a: &Token, b: &Token) -> (r: bool)
    requires
        is_unit(b@),
    ensures
        r == (a@ == b@),
{
    match b {
        Token::Alphabet => matches!(a, Token::Alphabet),
        Token::Automaton => matches!(a, Token::Automaton),
        Token::DFA => matches!(a, Token::DFA),
        Token::NFA => matches!(a, Token::NFA),
        Token::Epsilon => matches!(a, Token::Epsilon),
        Token::States => matches!(a, Token::States),
        Token::Initial => matches!(a, Token::Initial),
        Token::Final => matches!(a, Token::Final),
        Token::Transitions => matches!(a, Token::Transitions),
        Token::Simulate => matches!(a, Token::Simulate),
        Token::With => matches!(a, Token::With),
        Token::BraceOpen => matches!(a, Token::BraceOpen),
        Token::BraceClose => matches!(a, Token::BraceClose),
        Token::Comma => matches!(a, Token::Comma),
        Token::Arrow => matches!(a, Token::Arrow),
        _ => false,
    }
}

fn at(ts: &[Token], p: usize, t: Token) -> (r: bool)
    requires
        is_unit(t@),
    ensures
        r == is_tok(token_views(ts@), p as int, t@),
        r ==> p < ts@.len() && p < usize::MAX,
{
    p < ts.len() && unit_eq(&ts[p], &t)
}

fn ident_here(ts: &[Token], p: usize) -> (r: bool)
    ensures
        r == is_ident(token_views(ts@), p as int),
        r ==> p < ts@.len() && p < usize::MAX,
{
    p < ts.len() && matches!(ts[p], Token::Ident(_))
}

fn char_here(ts: &[Token], p: usize) -> (r: bool)
    ensures
        r == is_char(token_views(ts@), p as int),
        r ==> p < ts@.len() && p < usize::MAX,
{
    p < ts.len() && matches!(ts[p], Token::CharLiteral(_))
}

fn span_one(p: usize) -> (r: Range<usize>)
    requires
        p < usize::MAX,
    ensures
        r == one(p as int),
{
    Range { start: p, end: p + 1 }
}

fn name(ts: &[Token], p: usize) -> (r: Spanned<String>)
    requires
        is_ident(token_views(ts@), p as int),
    ensures
        r@ == name_at(token_views(ts@), p as int),
{
    match &ts[p] {
        Token::Ident(s) => Spanned { value: s.clone(), span: span_one(p) },
        _ => Spanned { value: String::new(), span: span_one(p) },
    }
}

fn fail_token(p: usize, t: Token) -> (f: Fail)
    ensures
        fail_view(f) == want(p as int, t@),
{
    let v = vec![RichPattern::Token(t)];
    assert(patterns_view(v@) =~= seq![PatternV::Token(t@)]);
    (p, v)
}

fn fail_label(p: usize, l: &str) -> (f: Fail)
    ensures
        fail_view(f) == (p as int, seq![PatternV::Label(l@)]),
{
    let v = vec![RichPattern::Label(String::from_str(l))];
    assert(patterns_view(v@) =~= seq![PatternV::Label(l@)]);
    (p, v)
}

fn fail_label_or_close(p: usize, l: &str) -> (f: Fail)
    ensures
        fail_view(f) == (p as int, seq![PatternV::Label(l@), PatternV::Token(TokenV::BraceClose)]),
{
    let v = vec![RichPattern::Label(String::from_str(l)), RichPattern::Token(Token::BraceClose)];
    assert(patterns_view(v@) =~= seq![PatternV::Label(l@), PatternV::Token(TokenV::BraceClose)]);
    (p, v)
}

fn fail_comma_or_close(p: usize) -> (f: Fail)
    ensures
        fail_view(f) == (p as int, seq![
            PatternV::Token(TokenV::Comma),
            PatternV::Token(TokenV::BraceClose),
        ]),
{
    let v = vec![RichPattern::Token(Token::Comma), RichPattern::Token(Token::BraceClose)];
    assert(patterns_view(v@) =~= seq![
        PatternV::Token(TokenV::Comma),
        PatternV::Token(TokenV::BraceClose),
    ]);
    (p, v)
}

pub open spec fn names_res(r: Result<(Vec<Spanned<String>>, usize), Fail>) -> Result<
    (Seq<super::ast::NameV>, int),
    PFail,
> {
    match r {
        Ok((v, e)) => Ok((names_view(v@), e as int)),
        Err(f) => Err(fail_view(f)),
    }
}

fn names_after_open_exec(ts: &[Token], q: usize) -> (r: Result<(Vec<Spanned<String>>, usize), Fail>)
    requires
        q <= ts@.len(),
    ensures
        names_res(r) == names_after_open(token_views(ts@), q as int),
        r matches Ok((_, e)) ==> q < e <= ts@.len(),
    decreases ts@.len() - q, 1int,
{
    if ident_here(ts, q) {
        let n = name(ts, q);
        match names_after_item_exec(ts, q + 1) {
            Ok((mut rest, e)) => {
                let ghost nv = n@;
                let ghost old_rest = rest@;
                rest.insert(0, n);
                assert(names_view(rest@) =~= seq![nv] + names_view(old_rest));
                Ok((rest, e))
            },
            Err(f) => Err(f),
        }
    } else if at(ts, q, Token::BraceClose) {
        let v: Vec<Spanned<String>> = Vec::new();
        assert(names_view(v@) =~= seq![]);
        Ok((v, q + 1))
    } else {
        Err(fail_label_or_close(q, "nome"))
    }
}

fn names_after_item_exec(ts: &[Token], q: usize) -> (r: Result<(Vec<Spanned<String>>, usize), Fail>)
    requires
        q <= ts@.len(),
    ensures
        names_res(r) == names_after_item(token_views(ts@), q as int),
        r matches Ok((_, e)) ==> q < e <= ts@.len(),
    decreases ts@.len() - q, 0int,
{
    if at(ts, q, Token::Comma) {
        names_after_open_exec(ts, q + 1)
    } else if at(ts, q, Token::BraceClose) {
        let v: Vec<Spanned<String>> = Vec::new();
        assert(names_view(v@) =~= seq![]);
        Ok((v, q + 1))
    } else {
        Err(fail_comma_or_close(q))
    }
}

fn names_list_exec(ts: &[Token], p: usize) -> (r: Result<(Vec<Spanned<String>>, usize), Fail>)
    requires
        p <= ts@.len(),
    ensures
        names_res(r) == names_list(token_views(ts@), p as int),
        r matches Ok((_, e)) ==> p < e <= ts@.len(),
{
    if at(ts, p, Token::BraceOpen) {
        names_after_open_exec(ts, p + 1)
    } else {
        Err(fail_token(p, Token::BraceOpen))
    }
}

pub open spec fn chars_res(r: Result<(Vec<Spanned<char>>, usize), Fail>) -> Result<
    (Seq<(char, Range<usize>)>, int),
    PFail,
> {
    match r {
        Ok((v, e)) => Ok((chars_view(v@), e as int)),
        Err(f) => Err(fail_view(f)),
    }
}

fn chars_after_open_exec(ts: &[Token], q: usize) -> (r: Result<(Vec<Spanned<char>>, usize), Fail>)
    requires
        q <= ts@.len(),
    ensures
        chars_res(r) == chars_after_open(token_views(ts@), q as int),
        r matches Ok((_, e)) ==> q < e <= ts@.len(),
    decreases ts@.len() - q, 1int,
{
    if char_here(ts, q) {
        let c = match &ts[q] {
            Token::CharLiteral(c) => *c,
            _ => ' ',
        };
        let item = Spanned { value: c, span: span_one(q) };
        match chars_after_item_exec(ts, q + 1) {
            Ok((mut rest, e)) => {
                let ghost iv = item@;
                let ghost old_rest = rest@;
                rest.insert(0, item);
                assert(chars_view(rest@) =~= seq![iv] + chars_view(old_rest));
                Ok((rest, e))
            },
            Err(f) => Err(f),
        }
    } else if at(ts, q, Token::BraceClose) {
        let v: Vec<Spanned<char>> = Vec::new();
        assert(chars_view(v@) =~= seq![]);
        Ok((v, q + 1))
    } else {
        Err(fail_label_or_close(q, "símbolo do alfabeto"))
    }
}

fn chars_after_item_exec(ts: &[Token], q: usize) -> (r: Result<(Vec<Spanned<char>>, usize), Fail>)
    requires
        q <= ts@.len(),
    ensures
        chars_res(r) == chars_after_item(token_views(ts@), q as int),
        r matches Ok((_, e)) ==> q < e <= ts@.len(),
    decreases ts@.len() - q, 0int,
{
    if at(ts, q, Token::Comma) {
        chars_after_open_exec(ts, q + 1)
    } else if at(ts, q, Token::BraceClose) {
        let v: Vec<Spanned<char>> = Vec::new();
        assert(chars_view(v@) =~= seq![]);
        Ok((v, q + 1))
    } else {
        Err(fail_comma_or_close(q))
    }
}


pub open spec fn transition_res(r: Result<(Transition, usize), Fail>) -> Result<
    (super::ast::TransitionV, int),
    PFail,
> {
    match r {
        Ok((t, e)) => Ok((t@, e as int)),
        Err(f) => Err(fail_view(f)),
    }
}

fn transition_at_exec(ts: &[Token], q: usize) -> (r: Result<(Transition, usize), Fail>)
    requires
        is_ident(token_views(ts@), q as int),
    ensures
        transition_res(r) == transition_at(token_views(ts@), q as int),
        r matches Ok((_, e)) ==> q < e <= ts@.len(),
{
    if !at(ts, q + 1, Token::Arrow) {
        return Err(fail_token(q + 1, Token::Arrow));
    }
    if !ident_here(ts, q + 2) {
        return Err(fail_label(q + 2, "nome"));
    }
    if !at(ts, q + 3, Token::With) {
        return Err(fail_token(q + 3, Token::With));
    }
    if char_here(ts, q + 4) {
        let c = match &ts[q + 4] {
            Token::CharLiteral(c) => *c,
            _ => ' ',
        };
        Ok((
            Transition {
                from: name(ts, q),
                to: name(ts, q + 2),
                symbol: Spanned { value: Symbol::Char(c), span: span_one(q + 4) },
            },
            q + 5,
        ))
    } else if at(ts, q + 4, Token::Epsilon) {
        Ok((
            Transition {
                from: name(ts, q),
                to: name(ts, q + 2),
                symbol: Spanned { value: Symbol::Epsilon, span: span_one(q + 4) },
            },
            q + 5,
        ))
    } else {
        let v = vec![RichPattern::SomethingElse, RichPattern::Token(Token::Epsilon)];
        assert(patterns_view(v@) =~= seq![PatternV::SomethingElse, PatternV::Token(TokenV::Epsilon)]);
        Err((q + 4, v))
    }
}

pub open spec fn transitions_res(r: Result<(Vec<Transition>, usize), Fail>) -> Result<
    (Seq<super::ast::TransitionV>, int),
    PFail,
> {
    match r {
        Ok((v, e)) => Ok((transitions_view(v@), e as int)),
        Err(f) => Err(fail_view(f)),
    }
}

fn transitions_from_exec(ts: &[Token], q: usize) -> (r: Result<(Vec<Transition>, usize), Fail>)
    requires
        q <= ts@.len(),
    ensures
        transitions_res(r) == transitions_from(token_views(ts@), q as int),
        r matches Ok((_, e)) ==> q < e <= ts@.len(),
        r matches Err(f) ==> f.0 <= ts@.len(),
    decreases ts@.len() - q,
{
    if ident_here(ts, q) {
        match transition_at_exec(ts, q) {
            Ok((t, e)) => match transitions_from_exec(ts, e) {
                Ok((mut rest, f)) => {
                    let ghost tv = t@;
                    let ghost old_rest = rest@;
                    rest.insert(0, t);
                    assert(transitions_view(rest@) =~= seq![tv] + transitions_view(old_rest));
                    Ok((rest, f))
                },
                Err(x) => Err(x),
            },
            Err(x) => Err(x),
        }
    } else if at(ts, q, Token::BraceClose) {
        let v: Vec<Transition> = Vec::new();
        assert(transitions_view(v@) =~= seq![]);
        Ok((v, q + 1))
    } else {
        Err(fail_label_or_close(q, "nome"))
    }
}


pub open spec fn automaton_res(r: Result<(Automaton, usize), Fail>) -> Result<
    (super::ast::AutomatonV, int),
    PFail,
> {
    match r {
        Ok((a, e)) => Ok((a@, e as int)),
        Err(f) => Err(fail_view(f)),
    }
}

fn automaton_at_exec(ts: &[Token], q: usize) -> (r: Result<(Automaton, usize), Fail>)
    requires
        is_tok(token_views(ts@), q as int, TokenV::Automaton),
        q < ts@.len(),
        q < usize::MAX,
    ensures
        automaton_res(r) == automaton_at(token_views(ts@), q as int),
        r matches Ok((_, e)) ==> q < e <= ts@.len(),
{
    let kind = if at(ts, q + 1, Token::DFA) {
        AutomatonKind::Dfa
    } else if at(ts, q + 1, Token::NFA) {
        AutomatonKind::Nfa
    } else {
        let v = vec![RichPattern::Token(Token::DFA), RichPattern::Token(Token::NFA)];
        assert(patterns_view(v@) =~= seq![PatternV::Token(TokenV::DFA), PatternV::Token(TokenV::NFA)]);
        return Err((q + 1, v));
    };
    if !ident_here(ts, q + 2) {
        return Err(fail_label(q + 2, "nome"));
    }
    if !at(ts, q + 3, Token::BraceOpen) {
        return Err(fail_token(q + 3, Token::BraceOpen));
    }
    if !at(ts, q + 4, Token::States) {
        return Err(fail_token(q + 4, Token::States));
    }
    let (states, r) = match names_list_exec(ts, q + 5) {
        Ok(x) => x,
        Err(f) => return Err(f),
    };
    if !at(ts, r, Token::Initial) {
        return Err(fail_token(r, Token::Initial));
    }
    if !ident_here(ts, r + 1) {
        return Err(fail_label(r + 1, "nome"));
    }
    if !at(ts, r + 2, Token::Final) {
        return Err(fail_token(r + 2, Token::Final));
    }
    let (finals, u) = match names_list_exec(ts, r + 3) {
        Ok(x) => x,
        Err(f) => return Err(f),
    };
    if !at(ts, u, Token::Transitions) {
        return Err(fail_token(u, Token::Transitions));
    }
    if !at(ts, u + 1, Token::BraceOpen) {
        return Err(fail_token(u + 1, Token::BraceOpen));
    }
    let (transitions, w) = match transitions_from_exec(ts, u + 2) {
        Ok(x) => x,
        Err(f) => return Err(f),
    };
    if !at(ts, w, Token::BraceClose) {
        return Err(fail_token(w, Token::BraceClose));
    }
    Ok((
        Automaton {
            kind,
            name: name(ts, q + 2),
            states,
            initial: name(ts, r + 1),
            finals,
            transitions,
        },
        w + 1,
    ))
}

pub open spec fn simulation_res(r: Result<(Simulation, usize), Fail>) -> Result<
    (super::ast::SimulationV, int),
    PFail,
> {
    match r {
        Ok((a, e)) => Ok((a@, e as int)),
        Err(f) => Err(fail_view(f)),
    }
}

fn simulation_at_exec(ts: &[Token], q: usize) -> (r: Result<(Simulation, usize), Fail>)
    requires
        is_tok(token_views(ts@), q as int, TokenV::Simulate),
        q < ts@.len(),
        q < usize::MAX,
    ensures
        simulation_res(r) == simulation_at(token_views(ts@), q as int),
        r matches Ok((_, e)) ==> q < e <= ts@.len(),
{
    if !ident_here(ts, q + 1) {
        return Err(fail_label(q + 1, "nome"));
    }
    if !at(ts, q + 2, Token::With) {
        return Err(fail_token(q + 2, Token::With));
    }
    if q + 3 < ts.len() {
        if let Token::StringLiteral(text) = &ts[q + 3] {
            return Ok((Simulation { automaton: name(ts, q + 1), input: text.clone() }, q + 4));
        }
    }
    Err(fail_label(q + 3, "texto entre aspas"))
}

pub open spec fn items_res(r: Result<(Vec<Automaton>, Vec<Simulation>), Fail>) -> Result<
    (Seq<super::ast::AutomatonV>, Seq<super::ast::SimulationV>),
    PFail,
> {
    match r {
        Ok((a, s)) => Ok((automata_view(a@), simulations_view(s@))),
        Err(f) => Err(fail_view(f)),
    }
}

fn items_from_exec(ts: &[Token], q: usize) -> (r: Result<(Vec<Automaton>, Vec<Simulation>), Fail>)
    requires
        q <= ts@.len(),
    ensures
        items_res(r) == items_from(token_views(ts@), q as int),
    decreases ts@.len() - q,
{
    if at(ts, q, Token::Automaton) {
        match automaton_at_exec(ts, q) {
            Ok((a, e)) => match items_from_exec(ts, e) {
                Ok((mut autos, sims)) => {
                    let ghost av = a@;
                    let ghost old = autos@;
                    autos.insert(0, a);
                    assert(automata_view(autos@) =~= seq![av] + automata_view(old));
                    Ok((autos, sims))
                },
                Err(f) => Err(f),
            },
            Err(f) => Err(f),
        }
    } else if at(ts, q, Token::Simulate) {
        match simulation_at_exec(ts, q) {
            Ok((sim, e)) => match items_from_exec(ts, e) {
                Ok((autos, mut sims)) => {
                    let ghost sv = sim@;
                    let ghost old = sims@;
                    sims.insert(0, sim);
                    assert(simulations_view(sims@) =~= seq![sv] + simulations_view(old));
                    Ok((autos, sims))
                },
                Err(f) => Err(f),
            },
            Err(f) => Err(f),
        }
    } else if q >= ts.len() {
        let a: Vec<Automaton> = Vec::new();
        let s: Vec<Simulation> = Vec::new();
        assert(automata_view(a@) =~= seq![]);
        assert(simulations_view(s@) =~= seq![]);
        Ok((a, s))
    } else {
        let v = vec![
            RichPattern::Token(Token::Automaton),
            RichPattern::Token(Token::Simulate),
            RichPattern::EndOfInput,
        ];
        assert(patterns_view(v@) =~= seq![
            PatternV::Token(TokenV::Automaton),
            PatternV::Token(TokenV::Simulate),
            PatternV::EndOfInput,
        ]);
        Err((q, v))
    }
}

pub open spec fn program_res(r: Result<Program, Fail>) -> Result<super::ast::ProgramV, PFail> {
    match r {
        Ok(p) => Ok(p@),
        Err(f) => Err(fail_view(f)),
    }
}

pub fn parse_tokens(ts: &[Token]) -> (r: Result<Program, Fail>)
    ensures
        program_res(r) == spec_parse_tokens(token_views(ts@)),
{
    if !at(ts, 0, Token::Alphabet) {
        return Err(fail_token(0, Token::Alphabet));
    }
    if !at(ts, 1, Token::BraceOpen) {
        return Err(fail_token(1, Token::BraceOpen));
    }
    let (alphabet, q) = match chars_after_open_exec(ts, 2) {
        Ok(x) => x,
        Err(f) => return Err(f),
    };
    let (automata, simulations) = match items_from_exec(ts, q) {
        Ok(x) => x,
        Err(f) => return Err(f),
    };
    Ok(Program { alphabet, automata, simulations })
}


/// The token range a failure at `pos` is reported on: the token there, or an empty
/// range at the end of input.
pub open spec fn failure_span(pos: int, len: int) -> Range<usize> {
    if pos < len {
        Range { start: pos as usize, end: (pos + 1) as usize }
    } else {
        Range { start: pos as usize, end: pos as usize }
    }
}

/// The token found at `pos`, if any.
pub open spec fn found_at(ts: Seq<TokenV>, pos: int) -> Option<TokenV> {
    if 0 <= pos < ts.len() {
        Some(ts[pos])
    } else {
        None
    }
}

/// What `parse` reports: the program, or the one error at the failure point, located in
/// the source through the tokens' byte ranges.
pub open spec fn parse_matches(
    r: Result<Program, Vec<super::error::ParseError>>,
    ts: Seq<TokenV>,
    spans: Seq<Range<usize>>,
) -> bool {
    match (r, spec_parse_tokens(ts)) {
        (Ok(p), Ok(pv)) => p@ == pv,
        (Err(errs), Err((pos, expected))) => {
            &&& errs@.len() == 1
            &&& errs@[0].span == super::error::char_span(failure_span(pos, ts.len() as int), spans)
            &&& errs@[0].message@ == super::error::reason_text(expected, found_at(ts, pos))
        },
        _ => false,
    }
}

/// Parses a token sequence into a [`Program`]. On failure, returns the single error at
/// the furthest point reached, with what was expected there.
pub fn parse(tokens: &[Token], token_spans: &[Range<usize>]) -> (r: Result<Program, Vec<super::error::ParseError>>)
    ensures
        parse_matches(r, token_views(tokens@), token_spans@),
{
    match parse_tokens(tokens) {
        Ok(p) => Ok(p),
        Err((pos, expected)) => {
            let (span, found) = if pos < tokens.len() {
                (Range { start: pos, end: pos + 1 }, Some(tokens[pos].duplicate()))
            } else {
                (Range { start: pos, end: pos }, None)
            };
            let rich = super::error::Rich { span, expected, found };
            let e = super::error::ParseError::from_rich(&rich, token_spans);
            Err(vec![e])
        },
    }
}

} // verus!
