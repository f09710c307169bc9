//! What the semantic analysis reports for a program: the errors, in order, and the table.
use vstd::prelude::*;
use core::ops::Range;
use crate::parser::error::char_span;
use crate::parser::{AutomatonKind, AutomatonV, NameV, ProgramV, SimulationV, Symbol, TransitionV};

verus! {

/// A diagnostic: message, main location with its label, further labelled locations.
pub struct SemaErrorV {
    pub message: Seq<char>,
    pub primary: (Range<usize>, Seq<char>),
    pub secondary: Seq<(Range<usize>, Seq<char>)>,
}

/// What the table records of an automaton.
pub struct EntryV {
    pub kind: AutomatonKind,
    pub declared_at: Range<usize>,
    pub states: Map<Seq<char>, Range<usize>>,
    pub initial: Seq<char>,
    pub finals: Map<Seq<char>, Range<usize>>,
}

pub open spec fn err0(message: Seq<char>, span: Range<usize>, label: Seq<char>) -> SemaErrorV {
    SemaErrorV { message, primary: (span, label), secondary: seq![] }
}

pub open spec fn err1(
    message: Seq<char>,
    span: Range<usize>,
    label: Seq<char>,
    note_span: Range<usize>,
    note: Seq<char>,
) -> SemaErrorV {
    SemaErrorV { message, primary: (span, label), secondary: seq![(note_span, note)] }
}

/// Adds `k` unless already present (the first declaration is kept).
pub open spec fn insert_new<K, V>(m: Map<K, V>, k: K, v: V) -> Map<K, V> {
    if m.contains_key(k) {
        m
    } else {
        m.insert(k, v)
    }
}

pub open spec fn msg_dup_symbol(c: char) -> Seq<char> {
    "símbolo '"@ + seq![c] + "' duplicado no alfabeto"@
}

pub open spec fn msg_dup_state(n: Seq<char>) -> Seq<char> {
    "estado '"@ + n + "' declarado duas vezes"@
}

pub open spec fn msg_dup_automaton(n: Seq<char>) -> Seq<char> {
    "autômato '"@ + n + "' declarado duas vezes"@
}

pub open spec fn msg_initial(n: Seq<char>) -> Seq<char> {
    "estado inicial '"@ + n + "' não declarado"@
}

pub open spec fn msg_final(n: Seq<char>) -> Seq<char> {
    "estado final '"@ + n + "' não declarado"@
}

pub open spec fn msg_state(n: Seq<char>) -> Seq<char> {
    "estado '"@ + n + "' não declarado"@
}

pub open spec fn msg_symbol(c: char) -> Seq<char> {
    "símbolo '"@ + seq![c] + "' não está no alfabeto"@
}

pub open spec fn msg_simulation(n: Seq<char>) -> Seq<char> {
    "autômato '"@ + n + "' não declarado"@
}

pub open spec fn msg_nondeterministic(a: Seq<char>, from: Seq<char>, c: char) -> Seq<char> {
    "AFD '"@ + a + "' não-determinístico: duas saídas de '"@ + from + "'\n  com '"@ + seq![c]
        + "'"@
}

// ---- declarations -------------------------------------------------------------------

/// Alphabet symbol → where it was first declared.
pub open spec fn alphabet_table(al: Seq<(char, Range<usize>)>, spans: Seq<Range<usize>>) -> Map<char, Range<usize>>
    decreases al.len(),
{
    if al.len() == 0 {
        Map::empty()
    } else {
        insert_new(alphabet_table(al.drop_last(), spans), al.last().0, char_span(al.last().1, spans))
    }
}

/// One error per repeated alphabet symbol, pointing back at its first declaration.
pub open spec fn alphabet_errors(al: Seq<(char, Range<usize>)>, spans: Seq<Range<usize>>) -> Seq<SemaErrorV>
    decreases al.len(),
{
    if al.len() == 0 {
        seq![]
    } else {
        let m = alphabet_table(al.drop_last(), spans);
        let (c, r) = al.last();
        let before = alphabet_errors(al.drop_last(), spans);
        if m.contains_key(c) {
            before.push(err1(
                msg_dup_symbol(c),
                char_span(r, spans),
                "declarado novamente aqui"@,
                m[c],
                "primeira declaração"@,
            ))
        } else {
            before
        }
    }
}

/// State name → where it was first declared.
pub open spec fn states_table(st: Seq<NameV>, spans: Seq<Range<usize>>) -> Map<Seq<char>, Range<usize>>
    decreases st.len(),
{
    if st.len() == 0 {
        Map::empty()
    } else {
        insert_new(states_table(st.drop_last(), spans), st.last().0, char_span(st.last().1, spans))
    }
}

/// One error per repeated state.
pub open spec fn state_errors(st: Seq<NameV>, spans: Seq<Range<usize>>) -> Seq<SemaErrorV>
    decreases st.len(),
{
    if st.len() == 0 {
        seq![]
    } else {
        let m = states_table(st.drop_last(), spans);
        let (n, r) = st.last();
        let before = state_errors(st.drop_last(), spans);
        if m.contains_key(n) {
            before.push(err1(
                msg_dup_state(n),
                char_span(r, spans),
                "redeclarado aqui"@,
                m[n],
                "primeira\n  declaração"@,
            ))
        } else {
            before
        }
    }
}

/// Final state name → where it was last listed.
pub open spec fn finals_table(fs: Seq<NameV>, spans: Seq<Range<usize>>) -> Map<Seq<char>, Range<usize>>
    decreases fs.len(),
{
    if fs.len() == 0 {
        Map::empty()
    } else {
        finals_table(fs.drop_last(), spans).insert(fs.last().0, char_span(fs.last().1, spans))
    }
}

pub open spec fn entry_of(a: AutomatonV, spans: Seq<Range<usize>>) -> EntryV {
    EntryV {
        kind: a.kind,
        declared_at: char_span(a.name.1, spans),
        states: states_table(a.states, spans),
        initial: a.initial.0,
        finals: finals_table(a.finals, spans),
    }
}

/// Automaton name → the entry of its first declaration.
pub open spec fn automata_table(autos: Seq<AutomatonV>, spans: Seq<Range<usize>>) -> Map<Seq<char>, EntryV>
    decreases autos.len(),
{
    if autos.len() == 0 {
        Map::empty()
    } else {
        insert_new(automata_table(autos.drop_last(), spans), autos.last().name.0, entry_of(autos.last(), spans))
    }
}

/// Per automaton: its repeated states, then its name if already declared.
pub open spec fn automata_errors(autos: Seq<AutomatonV>, spans: Seq<Range<usize>>) -> Seq<SemaErrorV>
    decreases autos.len(),
{
    if autos.len() == 0 {
        seq![]
    } else {
        let a = autos.last();
        let m = automata_table(autos.drop_last(), spans);
        let before = automata_errors(autos.drop_last(), spans) + state_errors(a.states, spans);
        if m.contains_key(a.name.0) {
            before.push(err1(
                msg_dup_automaton(a.name.0),
                char_span(a.name.1, spans),
                "redeclarado aqui"@,
                m[a.name.0].declared_at,
                "primeira declaração"@,
            ))
        } else {
            before
        }
    }
}

// ---- references ---------------------------------------------------------------------

pub open spec fn final_errors(fs: Seq<NameV>, states: Map<Seq<char>, Range<usize>>, spans: Seq<Range<usize>>) -> Seq<SemaErrorV>
    decreases fs.len(),
{
    if fs.len() == 0 {
        seq![]
    } else {
        let (n, r) = fs.last();
        let before = final_errors(fs.drop_last(), states, spans);
        if states.contains_key(n) {
            before
        } else {
            before.push(err0(msg_final(n), char_span(r, spans), "não está em `estados`"@))
        }
    }
}

/// For one transition: unknown origin, unknown target, symbol outside the alphabet.
pub open spec fn transition_ref_errors(
    t: TransitionV,
    states: Map<Seq<char>, Range<usize>>,
    alphabet: Map<char, Range<usize>>,
    spans: Seq<Range<usize>>,
) -> Seq<SemaErrorV> {
    let e1: Seq<SemaErrorV> = if states.contains_key(t.from.0) {
        seq![]
    } else {
        seq![err0(msg_state(t.from.0), char_span(t.from.1, spans), "origem desconhecida"@)]
    };
    let e2: Seq<SemaErrorV> = if states.contains_key(t.to.0) {
        seq![]
    } else {
        seq![err0(msg_state(t.to.0), char_span(t.to.1, spans), "destino desconhecido"@)]
    };
    let e3: Seq<SemaErrorV> = match t.symbol.0 {
        Symbol::Char(c) => if alphabet.contains_key(c) {
            seq![]
        } else {
            seq![err0(msg_symbol(c), char_span(t.symbol.1, spans), "fora do alfabeto declarado"@)]
        },
        Symbol::Epsilon => seq![],
    };
    e1 + e2 + e3
}

pub open spec fn transitions_ref_errors(
    ts: Seq<TransitionV>,
    states: Map<Seq<char>, Range<usize>>,
    alphabet: Map<char, Range<usize>>,
    spans: Seq<Range<usize>>,
) -> Seq<SemaErrorV>
    decreases ts.len(),
{
    if ts.len() == 0 {
        seq![]
    } else {
        transitions_ref_errors(ts.drop_last(), states, alphabet, spans) + transition_ref_errors(
            ts.last(),
            states,
            alphabet,
            spans,
        )
    }
}

/// For one automaton, checked against the states of the table entry under its name:
/// initial state, final states, transitions.
pub open spec fn automaton_ref_errors(
    a: AutomatonV,
    table: Map<Seq<char>, EntryV>,
    alphabet: Map<char, Range<usize>>,
    spans: Seq<Range<usize>>,
) -> Seq<SemaErrorV> {
    if !table.contains_key(a.name.0) {
        seq![]
    } else {
        let states = table[a.name.0].states;
        let e0: Seq<SemaErrorV> = if states.contains_key(a.initial.0) {
            seq![]
        } else {
            seq![err0(msg_initial(a.initial.0), char_span(a.initial.1, spans), "não está em `estados`"@)]
        };
        e0 + final_errors(a.finals, states, spans) + transitions_ref_errors(a.transitions, states, alphabet, spans)
    }
}

pub open spec fn automata_ref_errors(
    autos: Seq<AutomatonV>,
    table: Map<Seq<char>, EntryV>,
    alphabet: Map<char, Range<usize>>,
    spans: Seq<Range<usize>>,
) -> Seq<SemaErrorV>
    decreases autos.len(),
{
    if autos.len() == 0 {
        seq![]
    } else {
        automata_ref_errors(autos.drop_last(), table, alphabet, spans) + automaton_ref_errors(
            autos.last(),
            table,
            alphabet,
            spans,
        )
    }
}

pub open spec fn simulation_errors(sims: Seq<SimulationV>, table: Map<Seq<char>, EntryV>, spans: Seq<Range<usize>>) -> Seq<SemaErrorV>
    decreases sims.len(),
{
    if sims.len() == 0 {
        seq![]
    } else {
        let s = sims.last();
        let before = simulation_errors(sims.drop_last(), table, spans);
        if table.contains_key(s.automaton.0) {
            before
        } else {
            before.push(err0(msg_simulation(s.automaton.0), char_span(s.automaton.1, spans), "não existe"@))
        }
    }
}

// ---- determinism --------------------------------------------------------------------

/// (origin, symbol) → where the first transition with them starts (ε-transitions skipped).
pub open spec fn seen_table(ts: Seq<TransitionV>, spans: Seq<Range<usize>>) -> Map<(Seq<char>, char), Range<usize>>
    decreases ts.len(),
{
    if ts.len() == 0 {
        Map::empty()
    } else {
        let m = seen_table(ts.drop_last(), spans);
        let t = ts.last();
        match t.symbol.0 {
            Symbol::Char(c) => insert_new(m, (t.from.0, c), char_span(t.from.1, spans)),
            Symbol::Epsilon => m,
        }
    }
}

/// In a DFA: each ε-transition, and each transition repeating an earlier origin and symbol.
pub open spec fn dfa_errors(name: Seq<char>, ts: Seq<TransitionV>, spans: Seq<Range<usize>>) -> Seq<SemaErrorV>
    decreases ts.len(),
{
    if ts.len() == 0 {
        seq![]
    } else {
        let m = seen_table(ts.drop_last(), spans);
        let t = ts.last();
        let before = dfa_errors(name, ts.drop_last(), spans);
        match t.symbol.0 {
            Symbol::Epsilon => before.push(err0(
                "AFD não pode ter transição epsilon"@,
                char_span(t.symbol.1, spans),
                "use AFN se precisar de epsilon"@,
            )),
            Symbol::Char(c) => if m.contains_key((t.from.0, c)) {
                before.push(err1(
                    msg_nondeterministic(name, t.from.0, c),
                    char_span(t.from.1, spans),
                    "segunda transição"@,
                    m[(t.from.0, c)],
                    "primeira transição"@,
                ))
            } else {
                before
            },
        }
    }
}

pub open spec fn determinism_errors(autos: Seq<AutomatonV>, spans: Seq<Range<usize>>) -> Seq<SemaErrorV>
    decreases autos.len(),
{
    if autos.len() == 0 {
        seq![]
    } else {
        let a = autos.last();
        let before = determinism_errors(autos.drop_last(), spans);
        if a.kind == AutomatonKind::Dfa {
            before + dfa_errors(a.name.0, a.transitions, spans)
        } else {
            before
        }
    }
}

// ---- the whole analysis -------------------------------------------------------------

pub open spec fn spec_table_alphabet(p: ProgramV, spans: Seq<Range<usize>>) -> Map<char, Range<usize>> {
    alphabet_table(p.alphabet, spans)
}

pub open spec fn spec_table_automata(p: ProgramV, spans: Seq<Range<usize>>) -> Map<Seq<char>, EntryV> {
    automata_table(p.automata, spans)
}

/// Every error of the program, in the order the checks find them: declarations,
/// references, then determinism of DFAs.
pub open spec fn spec_errors(p: ProgramV, spans: Seq<Range<usize>>) -> Seq<SemaErrorV> {
    let alphabet = spec_table_alphabet(p, spans);
    let table = spec_table_automata(p, spans);
    alphabet_errors(p.alphabet, spans) + automata_errors(p.automata, spans) + automata_ref_errors(
        p.automata,
        table,
        alphabet,
        spans,
    ) + simulation_errors(p.simulations, table, spans) + determinism_errors(p.automata, spans)
}

} // verus!
