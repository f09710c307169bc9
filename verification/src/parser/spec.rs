//! The grammar of AutoSim over its tokens, and the error each failure point reports.
use vstd::prelude::*;
use core::ops::Range;
use crate::lexer::TokenV;
use super::ast::{AutomatonKind, AutomatonV, NameV, ProgramV, SimulationV, Symbol, TransitionV};

verus! {

/// Something the parser would have accepted where it failed.
pub enum PatternV {
    Token(TokenV),
    Label(Seq<char>),
    SomethingElse,
    EndOfInput,
}

/// A failure: the token position and what was expected there, in the order tried.
pub type PFail = (int, Seq<PatternV>);

pub open spec fn label_name() -> Seq<char> {
    "nome"@
}

pub open spec fn label_symbol() -> Seq<char> {
    "símbolo do alfabeto"@
}

pub open spec fn label_text() -> Seq<char> {
    "texto entre aspas"@
}

/// The token range of the single token at `p`.
pub open spec fn one(p: int) -> Range<usize> {
    Range { start: p as usize, end: (p + 1) as usize }
}

pub open spec fn is_tok(ts: Seq<TokenV>, p: int, t: TokenV) -> bool {
    0 <= p < ts.len() && ts[p] == t
}

pub open spec fn is_ident(ts: Seq<TokenV>, p: int) -> bool {
    0 <= p < ts.len() && ts[p] is Ident
}

pub open spec fn is_char(ts: Seq<TokenV>, p: int) -> bool {
    0 <= p < ts.len() && ts[p] is CharLiteral
}

pub open spec fn name_at(ts: Seq<TokenV>, p: int) -> NameV {
    (ts[p]->Ident_0, one(p))
}

/// Expecting one token `t` at `p`.
pub open spec fn want(p: int, t: TokenV) -> PFail {
    (p, seq![PatternV::Token(t)])
}

/// Inside a `{ ... }` list of names, at `q` right after `{` or `,`.
pub open spec fn names_after_open(ts: Seq<TokenV>, q: int) -> Result<(Seq<NameV>, int), PFail>
    decreases ts.len() - q, 1int,
{
    if is_ident(ts, q) {
        match names_after_item(ts, q + 1) {
            Ok((rest, e)) => Ok((seq![name_at(ts, q)] + rest, e)),
            Err(f) => Err(f),
        }
    } else if is_tok(ts, q, TokenV::BraceClose) {
        Ok((seq![], q + 1))
    } else {
        Err((q, seq![PatternV::Label(label_name()), PatternV::Token(TokenV::BraceClose)]))
    }
}

/// Inside a `{ ... }` list of names, at `q` right after a name.
pub open spec fn names_after_item(ts: Seq<TokenV>, q: int) -> Result<(Seq<NameV>, int), PFail>
    decreases ts.len() - q, 0int,
{
    if q < 0 || q > ts.len() {
        Err((q, seq![]))
    } else if is_tok(ts, q, TokenV::Comma) {
        names_after_open(ts, q + 1)
    } else if is_tok(ts, q, TokenV::BraceClose) {
        Ok((seq![], q + 1))
    } else {
        Err((q, seq![PatternV::Token(TokenV::Comma), PatternV::Token(TokenV::BraceClose)]))
    }
}

/// A `{ ... }` list of names starting at `p`.
pub open spec fn names_list(ts: Seq<TokenV>, p: int) -> Result<(Seq<NameV>, int), PFail> {
    if is_tok(ts, p, TokenV::BraceOpen) {
        names_after_open(ts, p + 1)
    } else {
        Err(want(p, TokenV::BraceOpen))
    }
}

/// Inside the alphabet's list, at `q` right after `{` or `,`.
pub open spec fn chars_after_open(ts: Seq<TokenV>, q: int) -> Result<(Seq<(char, Range<usize>)>, int), PFail>
    decreases ts.len() - q, 1int,
{
    if is_char(ts, q) {
        match chars_after_item(ts, q + 1) {
            Ok((rest, e)) => Ok((seq![(ts[q]->CharLiteral_0, one(q))] + rest, e)),
            Err(f) => Err(f),
        }
    } else if is_tok(ts, q, TokenV::BraceClose) {
        Ok((seq![], q + 1))
    } else {
        Err((q, seq![PatternV::Label(label_symbol()), PatternV::Token(TokenV::BraceClose)]))
    }
}

/// Inside the alphabet's list, at `q` right after a symbol.
pub open spec fn chars_after_item(ts: Seq<TokenV>, q: int) -> Result<(Seq<(char, Range<usize>)>, int), PFail>
    decreases ts.len() - q, 0int,
{
    if q < 0 || q > ts.len() {
        Err((q, seq![]))
    } else if is_tok(ts, q, TokenV::Comma) {
        chars_after_open(ts, q + 1)
    } else if is_tok(ts, q, TokenV::BraceClose) {
        Ok((seq![], q + 1))
    } else {
        Err((q, seq![PatternV::Token(TokenV::Comma), PatternV::Token(TokenV::BraceClose)]))
    }
}

/// `from -> to com symbol`, starting at `q` (which holds a name).
pub open spec fn transition_at(ts: Seq<TokenV>, q: int) -> Result<(TransitionV, int), PFail> {
    if !is_tok(ts, q + 1, TokenV::Arrow) {
        Err(want(q + 1, TokenV::Arrow))
    } else if !is_ident(ts, q + 2) {
        Err((q + 2, seq![PatternV::Label(label_name())]))
    } else if !is_tok(ts, q + 3, TokenV::With) {
        Err(want(q + 3, TokenV::With))
    } else if is_char(ts, q + 4) {
        Ok((TransitionV {
            from: name_at(ts, q),
            to: name_at(ts, q + 2),
            symbol: (Symbol::Char(ts[q + 4]->CharLiteral_0), one(q + 4)),
        }, q + 5))
    } else if is_tok(ts, q + 4, TokenV::Epsilon) {
        Ok((TransitionV {
            from: name_at(ts, q),
            to: name_at(ts, q + 2),
            symbol: (Symbol::Epsilon, one(q + 4)),
        }, q + 5))
    } else {
        Err((q + 4, seq![PatternV::SomethingElse, PatternV::Token(TokenV::Epsilon)]))
    }
}

/// Transitions up to the closing `}`, from `q` on.
pub open spec fn transitions_from(ts: Seq<TokenV>, q: int) -> Result<(Seq<TransitionV>, int), PFail>
    decreases ts.len() - q,
{
    if is_ident(ts, q) {
        match transition_at(ts, q) {
            Ok((t, e)) => if q < e <= ts.len() {
                match transitions_from(ts, e) {
                    Ok((rest, f)) => Ok((seq![t] + rest, f)),
                    Err(x) => Err(x),
                }
            } else {
                Err((e, seq![]))
            },
            Err(x) => Err(x),
        }
    } else if is_tok(ts, q, TokenV::BraceClose) {
        Ok((seq![], q + 1))
    } else {
        Err((q, seq![PatternV::Label(label_name()), PatternV::Token(TokenV::BraceClose)]))
    }
}

/// `automato <kind> <name> { estados {..} inicial <name> finais {..} transicoes {..} }`
/// starting at `q` (which holds `automato`).
pub open spec fn automaton_at(ts: Seq<TokenV>, q: int) -> Result<(AutomatonV, int), PFail> {
    let kind = if is_tok(ts, q + 1, TokenV::DFA) {
        AutomatonKind::Dfa
    } else {
        AutomatonKind::Nfa
    };
    if !is_tok(ts, q + 1, TokenV::DFA) && !is_tok(ts, q + 1, TokenV::NFA) {
        Err((q + 1, seq![PatternV::Token(TokenV::DFA), PatternV::Token(TokenV::NFA)]))
    } else if !is_ident(ts, q + 2) {
        Err((q + 2, seq![PatternV::Label(label_name())]))
    } else if !is_tok(ts, q + 3, TokenV::BraceOpen) {
        Err(want(q + 3, TokenV::BraceOpen))
    } else if !is_tok(ts, q + 4, TokenV::States) {
        Err(want(q + 4, TokenV::States))
    } else {
        match names_list(ts, q + 5) {
            Err(f) => Err(f),
            Ok((states, r)) => if !is_tok(ts, r, TokenV::Initial) {
                Err(want(r, TokenV::Initial))
            } else if !is_ident(ts, r + 1) {
                Err((r + 1, seq![PatternV::Label(label_name())]))
            } else if !is_tok(ts, r + 2, TokenV::Final) {
                Err(want(r + 2, TokenV::Final))
            } else {
                match names_list(ts, r + 3) {
                    Err(f) => Err(f),
                    Ok((finals, u)) => if !is_tok(ts, u, TokenV::Transitions) {
                        Err(want(u, TokenV::Transitions))
                    } else if !is_tok(ts, u + 1, TokenV::BraceOpen) {
                        Err(want(u + 1, TokenV::BraceOpen))
                    } else {
                        match transitions_from(ts, u + 2) {
                            Err(f) => Err(f),
                            Ok((trs, w)) => if !is_tok(ts, w, TokenV::BraceClose) {
                                Err(want(w, TokenV::BraceClose))
                            } else {
                                Ok((AutomatonV {
                                    kind,
                                    name: name_at(ts, q + 2),
                                    states,
                                    initial: name_at(ts, r + 1),
                                    finals,
                                    transitions: trs,
                                }, w + 1))
                            },
                        }
                    },
                }
            },
        }
    }
}

/// `simular <name> com "<text>"` starting at `q` (which holds `simular`).
pub open spec fn simulation_at(ts: Seq<TokenV>, q: int) -> Result<(SimulationV, int), PFail> {
    if !is_ident(ts, q + 1) {
        Err((q + 1, seq![PatternV::Label(label_name())]))
    } else if !is_tok(ts, q + 2, TokenV::With) {
        Err(want(q + 2, TokenV::With))
    } else if !(0 <= q + 3 < ts.len() && ts[q + 3] is StringLiteral) {
        Err((q + 3, seq![PatternV::Label(label_text())]))
    } else {
        Ok((SimulationV { automaton: name_at(ts, q + 1), input: ts[q + 3]->StringLiteral_0 }, q + 4))
    }
}

/// Automata and simulations from `q` to the end of input, each kind in source order.
pub open spec fn items_from(ts: Seq<TokenV>, q: int) -> Result<(Seq<AutomatonV>, Seq<SimulationV>), PFail>
    decreases ts.len() - q,
{
    if is_tok(ts, q, TokenV::Automaton) {
        match automaton_at(ts, q) {
            Ok((a, e)) => if q < e <= ts.len() {
                match items_from(ts, e) {
                    Ok((autos, sims)) => Ok((seq![a] + autos, sims)),
                    Err(f) => Err(f),
                }
            } else {
                Err((e, seq![]))
            },
            Err(f) => Err(f),
        }
    } else if is_tok(ts, q, TokenV::Simulate) {
        match simulation_at(ts, q) {
            Ok((s, e)) => if q < e <= ts.len() {
                match items_from(ts, e) {
                    Ok((autos, sims)) => Ok((autos, seq![s] + sims)),
                    Err(f) => Err(f),
                }
            } else {
                Err((e, seq![]))
            },
            Err(f) => Err(f),
        }
    } else if q >= ts.len() {
        Ok((seq![], seq![]))
    } else {
        Err((q, seq![
            PatternV::Token(TokenV::Automaton),
            PatternV::Token(TokenV::Simulate),
            PatternV::EndOfInput,
        ]))
    }
}

/// A whole program: `alfabeto { ... }` followed by automata and simulations.
pub open spec fn spec_parse_tokens(ts: Seq<TokenV>) -> Result<ProgramV, PFail> {
    if !is_tok(ts, 0, TokenV::Alphabet) {
        Err(want(0, TokenV::Alphabet))
    } else if !is_tok(ts, 1, TokenV::BraceOpen) {
        Err(want(1, TokenV::BraceOpen))
    } else {
        match chars_after_open(ts, 2) {
            Err(f) => Err(f),
            Ok((alphabet, q)) => match items_from(ts, q) {
                Err(f) => Err(f),
                Ok((automata, simulations)) => Ok(ProgramV { alphabet, automata, simulations }),
            },
        }
    }
}

} // verus!
