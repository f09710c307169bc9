//! Properties of the semantic checks as a whole.
use vstd::prelude::*;
use core::ops::Range;
use crate::parser::{AutomatonKind, AutomatonV, NameV, ProgramV, SimulationV, Symbol, TransitionV};
use super::spec::{
    alphabet_errors, alphabet_table, finals_table, spec_table_automata, automata_errors, automata_ref_errors, automata_table,
    automaton_ref_errors, determinism_errors, dfa_errors, entry_of, final_errors, seen_table,
    simulation_errors, spec_errors, state_errors, states_table, transition_ref_errors,
    transitions_ref_errors, EntryV, SemaErrorV,
};

verus! {

/// Only DFAs are held to determinism: when every automaton is an NFA, ε-transitions and
/// several transitions on one symbol give no error.
pub proof fn law_nfas_have_no_determinism_errors(autos: Seq<AutomatonV>, spans: Seq<Range<usize>>)
    requires
        forall|i: int| 0 <= i < autos.len() ==> (#[trigger] autos[i]).kind == AutomatonKind::Nfa,
    ensures
        determinism_errors(autos, spans) == Seq::<SemaErrorV>::empty(),
    decreases autos.len(),
{
    if autos.len() > 0 {
        let rest = autos.drop_last();
        assert forall|i: int| 0 <= i < rest.len() implies (#[trigger] rest[i]).kind == AutomatonKind::Nfa by {
            assert(rest[i] == autos[i]);
        }
        law_nfas_have_no_determinism_errors(rest, spans);
        assert(autos[autos.len() - 1].kind == AutomatonKind::Nfa);
    }
}

// ---- what a correct program is, stated directly ----------------------------------------

/// No symbol is declared twice in the alphabet.
pub open spec fn distinct_chars(al: Seq<(char, Range<usize>)>) -> bool {
    forall|i: int, j: int| 0 <= i < j < al.len() ==> #[trigger] al[i].0 != #[trigger] al[j].0
}

/// No name occurs twice.
pub open spec fn distinct_names(st: Seq<NameV>) -> bool {
    forall|i: int, j: int| 0 <= i < j < st.len() ==> #[trigger] st[i].0 != #[trigger] st[j].0
}

/// No two automata have the same name.
pub open spec fn distinct_automata(au: Seq<AutomatonV>) -> bool {
    forall|i: int, j: int| 0 <= i < j < au.len() ==> #[trigger] au[i].name.0 != #[trigger] au[j].name.0
}

/// `c` is declared in the alphabet.
pub open spec fn has_char(al: Seq<(char, Range<usize>)>, c: char) -> bool {
    exists|i: int| 0 <= i < al.len() && #[trigger] al[i].0 == c
}

/// `n` is one of the names.
pub open spec fn declared(st: Seq<NameV>, n: Seq<char>) -> bool {
    exists|i: int| 0 <= i < st.len() && #[trigger] st[i].0 == n
}

/// Some automaton is called `n`.
pub open spec fn names_automaton(au: Seq<AutomatonV>, n: Seq<char>) -> bool {
    exists|k: int| 0 <= k < au.len() && #[trigger] au[k].name.0 == n
}

/// Both ends of `t` are declared states, and the character it reads is in the alphabet.
pub open spec fn transition_ok(t: TransitionV, states: Seq<NameV>, al: Seq<(char, Range<usize>)>) -> bool {
    &&& declared(states, t.from.0)
    &&& declared(states, t.to.0)
    &&& match t.symbol.0 {
        Symbol::Char(c) => has_char(al, c),
        Symbol::Epsilon => true,
    }
}

/// No ε-transition, and no two transitions with the same origin and symbol.
pub open spec fn deterministic(ts: Seq<TransitionV>) -> bool {
    &&& forall|t: int| 0 <= t < ts.len() ==> (#[trigger] ts[t]).symbol.0 != Symbol::Epsilon
    &&& forall|t: int, u: int|
        0 <= t < u < ts.len() ==> !(#[trigger] ts[t].from.0 == #[trigger] ts[u].from.0 && ts[t].symbol.0
            == ts[u].symbol.0)
}

/// The initial state, the final states and the transitions of `a` refer to declared
/// states and symbols.
pub open spec fn references_ok(a: AutomatonV, al: Seq<(char, Range<usize>)>) -> bool {
    &&& declared(a.states, a.initial.0)
    &&& forall|f: int| 0 <= f < a.finals.len() ==> declared(a.states, (#[trigger] a.finals[f]).0)
    &&& forall|t: int| 0 <= t < a.transitions.len() ==> transition_ok(#[trigger] a.transitions[t], a.states, al)
}

/// One automaton is correct: its states are distinct, everything it refers to is
/// declared, and a DFA is deterministic.
pub open spec fn automaton_ok(a: AutomatonV, al: Seq<(char, Range<usize>)>) -> bool {
    &&& distinct_names(a.states)
    &&& references_ok(a, al)
    &&& (a.kind == AutomatonKind::Dfa ==> deterministic(a.transitions))
}

/// A program is correct: distinct alphabet symbols and automaton names, each automaton
/// correct, and each simulation naming a declared automaton.
pub open spec fn program_ok(p: ProgramV) -> bool {
    &&& distinct_chars(p.alphabet)
    &&& distinct_automata(p.automata)
    &&& forall|k: int| 0 <= k < p.automata.len() ==> automaton_ok(#[trigger] p.automata[k], p.alphabet)
    &&& forall|s: int|
        0 <= s < p.simulations.len() ==> names_automaton(p.automata, (#[trigger] p.simulations[s]).automaton.0)
}

// ---- each check against its direct statement --------------------------------------------

proof fn lemma_alphabet_contains(al: Seq<(char, Range<usize>)>, sp: Seq<Range<usize>>, c: char)
    ensures
        alphabet_table(al, sp).contains_key(c) <==> has_char(al, c),
    decreases al.len(),
{
    if al.len() > 0 {
        let r = al.drop_last();
        lemma_alphabet_contains(r, sp, c);
        if has_char(r, c) {
            let i = choose|i: int| 0 <= i < r.len() && #[trigger] r[i].0 == c;
            assert(al[i].0 == c);
        }
        if has_char(al, c) {
            let i = choose|i: int| 0 <= i < al.len() && #[trigger] al[i].0 == c;
            if i < al.len() - 1 {
                assert(r[i].0 == c);
            }
        }
    }
}

proof fn lemma_alphabet_errors(al: Seq<(char, Range<usize>)>, sp: Seq<Range<usize>>)
    ensures
        alphabet_errors(al, sp).len() == 0 <==> distinct_chars(al),
    decreases al.len(),
{
    if al.len() > 0 {
        let r = al.drop_last();
        let n = al.len() - 1;
        lemma_alphabet_errors(r, sp);
        lemma_alphabet_contains(r, sp, al[n].0);
        if distinct_chars(al) {
            assert forall|i: int, j: int| 0 <= i < j < r.len() implies #[trigger] r[i].0 != #[trigger] r[j].0 by {
                assert(al[i].0 != al[j].0);
            }
            if has_char(r, al[n].0) {
                let i = choose|i: int| 0 <= i < r.len() && #[trigger] r[i].0 == al[n].0;
                assert(al[i].0 != al[n].0);
            }
        }
        if distinct_chars(r) && !has_char(r, al[n].0) {
            assert forall|i: int, j: int| 0 <= i < j < al.len() implies #[trigger] al[i].0 != #[trigger] al[j].0 by {
                if j < n {
                    assert(r[i].0 != r[j].0);
                } else if al[i].0 == al[j].0 {
                    assert(r[i].0 == al[n].0);
                }
            }
        }
    }
}

proof fn lemma_states_contains(st: Seq<NameV>, sp: Seq<Range<usize>>, q: Seq<char>)
    ensures
        states_table(st, sp).contains_key(q) <==> declared(st, q),
    decreases st.len(),
{
    if st.len() > 0 {
        let r = st.drop_last();
        lemma_states_contains(r, sp, q);
        if declared(r, q) {
            let i = choose|i: int| 0 <= i < r.len() && #[trigger] r[i].0 == q;
            assert(st[i].0 == q);
        }
        if declared(st, q) {
            let i = choose|i: int| 0 <= i < st.len() && #[trigger] st[i].0 == q;
            if i < st.len() - 1 {
                assert(r[i].0 == q);
            }
        }
    }
}

proof fn lemma_state_errors(st: Seq<NameV>, sp: Seq<Range<usize>>)
    ensures
        state_errors(st, sp).len() == 0 <==> distinct_names(st),
    decreases st.len(),
{
    if st.len() > 0 {
        let r = st.drop_last();
        let n = st.len() - 1;
        lemma_state_errors(r, sp);
        lemma_states_contains(r, sp, st[n].0);
        if distinct_names(st) {
            assert forall|i: int, j: int| 0 <= i < j < r.len() implies #[trigger] r[i].0 != #[trigger] r[j].0 by {
                assert(st[i].0 != st[j].0);
            }
            if declared(r, st[n].0) {
                let i = choose|i: int| 0 <= i < r.len() && #[trigger] r[i].0 == st[n].0;
                assert(st[i].0 != st[n].0);
            }
        }
        if distinct_names(r) && !declared(r, st[n].0) {
            assert forall|i: int, j: int| 0 <= i < j < st.len() implies #[trigger] st[i].0 != #[trigger] st[j].0 by {
                if j < n {
                    assert(r[i].0 != r[j].0);
                } else if st[i].0 == st[j].0 {
                    assert(r[i].0 == st[n].0);
                }
            }
        }
    }
}

proof fn lemma_table_contains(au: Seq<AutomatonV>, sp: Seq<Range<usize>>, q: Seq<char>)
    ensures
        automata_table(au, sp).contains_key(q) <==> names_automaton(au, q),
    decreases au.len(),
{
    if au.len() > 0 {
        let r = au.drop_last();
        lemma_table_contains(r, sp, q);
        if names_automaton(r, q) {
            let i = choose|i: int| 0 <= i < r.len() && #[trigger] r[i].name.0 == q;
            assert(au[i].name.0 == q);
        }
        if names_automaton(au, q) {
            let i = choose|i: int| 0 <= i < au.len() && #[trigger] au[i].name.0 == q;
            if i < au.len() - 1 {
                assert(r[i].name.0 == q);
            }
        }
    }
}

proof fn lemma_automata_errors(au: Seq<AutomatonV>, sp: Seq<Range<usize>>)
    ensures
        automata_errors(au, sp).len() == 0 <==> distinct_automata(au) && forall|k: int|
            0 <= k < au.len() ==> distinct_names((#[trigger] au[k]).states),
    decreases au.len(),
{
    if au.len() > 0 {
        let r = au.drop_last();
        let n = au.len() - 1;
        lemma_automata_errors(r, sp);
        lemma_state_errors(au[n].states, sp);
        lemma_table_contains(r, sp, au[n].name.0);
        if distinct_automata(au) {
            assert forall|i: int, j: int| 0 <= i < j < r.len() implies #[trigger] r[i].name.0
                != #[trigger] r[j].name.0 by {
                assert(au[i].name.0 != au[j].name.0);
            }
            if names_automaton(r, au[n].name.0) {
                let i = choose|i: int| 0 <= i < r.len() && #[trigger] r[i].name.0 == au[n].name.0;
                assert(au[i].name.0 != au[n].name.0);
            }
        }
        if forall|k: int| 0 <= k < au.len() ==> distinct_names((#[trigger] au[k]).states) {
            assert forall|k: int| 0 <= k < r.len() implies distinct_names((#[trigger] r[k]).states) by {
                assert(r[k] == au[k]);
            }
        }
        if distinct_automata(r) && !names_automaton(r, au[n].name.0) {
            assert forall|i: int, j: int| 0 <= i < j < au.len() implies #[trigger] au[i].name.0
                != #[trigger] au[j].name.0 by {
                if j < n {
                    assert(r[i].name.0 != r[j].name.0);
                } else if au[i].name.0 == au[j].name.0 {
                    assert(r[i].name.0 == au[n].name.0);
                }
            }
        }
        if (forall|k: int| 0 <= k < r.len() ==> distinct_names((#[trigger] r[k]).states)) && distinct_names(
            au[n].states,
        ) {
            assert forall|k: int| 0 <= k < au.len() implies distinct_names((#[trigger] au[k]).states) by {
                if k < n {
                    assert(r[k] == au[k]);
                }
            }
        }
    }
}

/// With distinct names, each automaton is the table's entry for its name.
proof fn lemma_table_entry(au: Seq<AutomatonV>, sp: Seq<Range<usize>>, k: int)
    requires
        distinct_automata(au),
        0 <= k < au.len(),
    ensures
        automata_table(au, sp).contains_key(au[k].name.0),
        automata_table(au, sp)[au[k].name.0] == entry_of(au[k], sp),
    decreases au.len(),
{
    let r = au.drop_last();
    let n = au.len() - 1;
    assert(distinct_automata(r)) by {
        assert forall|i: int, j: int| 0 <= i < j < r.len() implies #[trigger] r[i].name.0 != #[trigger] r[j].name.0 by {
            assert(au[i].name.0 != au[j].name.0);
        }
    }
    lemma_table_contains(r, sp, au[n].name.0);
    if names_automaton(r, au[n].name.0) {
        let i = choose|i: int| 0 <= i < r.len() && #[trigger] r[i].name.0 == au[n].name.0;
        assert(au[i].name.0 != au[n].name.0);
    }
    if k < n {
        lemma_table_entry(r, sp, k);
        assert(r[k] == au[k]);
        assert(au[k].name.0 != au[n].name.0);
    }
}

proof fn lemma_simulation_errors(sims: Seq<SimulationV>, au: Seq<AutomatonV>, sp: Seq<Range<usize>>)
    ensures
        simulation_errors(sims, automata_table(au, sp), sp).len() == 0 <==> forall|s: int|
            0 <= s < sims.len() ==> names_automaton(au, (#[trigger] sims[s]).automaton.0),
    decreases sims.len(),
{
    if sims.len() > 0 {
        let r = sims.drop_last();
        let n = sims.len() - 1;
        lemma_simulation_errors(r, au, sp);
        lemma_table_contains(au, sp, sims[n].automaton.0);
        if forall|s: int| 0 <= s < sims.len() ==> names_automaton(au, (#[trigger] sims[s]).automaton.0) {
            assert forall|s: int| 0 <= s < r.len() implies names_automaton(au, (#[trigger] r[s]).automaton.0) by {
                assert(r[s] == sims[s]);
            }
            assert(names_automaton(au, sims[n].automaton.0));
        }
        if (forall|s: int| 0 <= s < r.len() ==> names_automaton(au, (#[trigger] r[s]).automaton.0))
            && names_automaton(au, sims[n].automaton.0) {
            assert forall|s: int| 0 <= s < sims.len() implies names_automaton(au, (#[trigger] sims[s]).automaton.0) by {
                if s < n {
                    assert(r[s] == sims[s]);
                }
            }
        }
    }
}

proof fn lemma_final_errors(fs: Seq<NameV>, st: Seq<NameV>, sp: Seq<Range<usize>>)
    ensures
        final_errors(fs, states_table(st, sp), sp).len() == 0 <==> forall|f: int|
            0 <= f < fs.len() ==> declared(st, (#[trigger] fs[f]).0),
    decreases fs.len(),
{
    if fs.len() > 0 {
        let r = fs.drop_last();
        let n = fs.len() - 1;
        lemma_final_errors(r, st, sp);
        lemma_states_contains(st, sp, fs[n].0);
        if forall|f: int| 0 <= f < fs.len() ==> declared(st, (#[trigger] fs[f]).0) {
            assert forall|f: int| 0 <= f < r.len() implies declared(st, (#[trigger] r[f]).0) by {
                assert(r[f] == fs[f]);
            }
            assert(declared(st, fs[n].0));
        }
        if (forall|f: int| 0 <= f < r.len() ==> declared(st, (#[trigger] r[f]).0)) && declared(st, fs[n].0) {
            assert forall|f: int| 0 <= f < fs.len() implies declared(st, (#[trigger] fs[f]).0) by {
                if f < n {
                    assert(r[f] == fs[f]);
                }
            }
        }
    }
}

proof fn lemma_transition_errors(
    ts: Seq<TransitionV>,
    st: Seq<NameV>,
    al: Seq<(char, Range<usize>)>,
    sp: Seq<Range<usize>>,
)
    ensures
        transitions_ref_errors(ts, states_table(st, sp), alphabet_table(al, sp), sp).len() == 0 <==> forall|t: int|
            0 <= t < ts.len() ==> transition_ok(#[trigger] ts[t], st, al),
    decreases ts.len(),
{
    if ts.len() > 0 {
        let r = ts.drop_last();
        let n = ts.len() - 1;
        let t = ts[n];
        lemma_transition_errors(r, st, al, sp);
        lemma_states_contains(st, sp, t.from.0);
        lemma_states_contains(st, sp, t.to.0);
        match t.symbol.0 {
            Symbol::Char(c) => {
                lemma_alphabet_contains(al, sp, c);
            },
            Symbol::Epsilon => {},
        }
        assert(transition_ref_errors(t, states_table(st, sp), alphabet_table(al, sp), sp).len() == 0
            <==> transition_ok(t, st, al));
        if forall|u: int| 0 <= u < ts.len() ==> transition_ok(#[trigger] ts[u], st, al) {
            assert forall|u: int| 0 <= u < r.len() implies transition_ok(#[trigger] r[u], st, al) by {
                assert(r[u] == ts[u]);
            }
            assert(transition_ok(ts[n], st, al));
        }
        if (forall|u: int| 0 <= u < r.len() ==> transition_ok(#[trigger] r[u], st, al)) && transition_ok(t, st, al) {
            assert forall|u: int| 0 <= u < ts.len() implies transition_ok(#[trigger] ts[u], st, al) by {
                if u < n {
                    assert(r[u] == ts[u]);
                }
            }
        }
    }
}

proof fn lemma_automaton_references(
    a: AutomatonV,
    table: Map<Seq<char>, EntryV>,
    al: Seq<(char, Range<usize>)>,
    sp: Seq<Range<usize>>,
)
    requires
        table.contains_key(a.name.0),
        table[a.name.0] == entry_of(a, sp),
    ensures
        automaton_ref_errors(a, table, alphabet_table(al, sp), sp).len() == 0 <==> references_ok(a, al),
{
    lemma_states_contains(a.states, sp, a.initial.0);
    lemma_final_errors(a.finals, a.states, sp);
    lemma_transition_errors(a.transitions, a.states, al, sp);
}

proof fn lemma_references(
    au: Seq<AutomatonV>,
    table: Map<Seq<char>, EntryV>,
    al: Seq<(char, Range<usize>)>,
    sp: Seq<Range<usize>>,
)
    requires
        forall|k: int|
            0 <= k < au.len() ==> table.contains_key((#[trigger] au[k]).name.0) && table[au[k].name.0]
                == entry_of(au[k], sp),
    ensures
        automata_ref_errors(au, table, alphabet_table(al, sp), sp).len() == 0 <==> forall|k: int|
            0 <= k < au.len() ==> references_ok(#[trigger] au[k], al),
    decreases au.len(),
{
    if au.len() > 0 {
        let r = au.drop_last();
        let n = au.len() - 1;
        assert forall|k: int| 0 <= k < r.len() implies table.contains_key((#[trigger] r[k]).name.0)
            && table[r[k].name.0] == entry_of(r[k], sp) by {
            assert(r[k] == au[k]);
        }
        lemma_references(r, table, al, sp);
        lemma_automaton_references(au[n], table, al, sp);
        if forall|k: int| 0 <= k < au.len() ==> references_ok(#[trigger] au[k], al) {
            assert forall|k: int| 0 <= k < r.len() implies references_ok(#[trigger] r[k], al) by {
                assert(r[k] == au[k]);
            }
            assert(references_ok(au[n], al));
        }
        if (forall|k: int| 0 <= k < r.len() ==> references_ok(#[trigger] r[k], al)) && references_ok(au[n], al) {
            assert forall|k: int| 0 <= k < au.len() implies references_ok(#[trigger] au[k], al) by {
                if k < n {
                    assert(r[k] == au[k]);
                }
            }
        }
    }
}

/// Some transition leaves `q` on symbol `sym`.
pub open spec fn has_exit(ts: Seq<TransitionV>, q: Seq<char>, sym: Symbol) -> bool {
    exists|t: int| 0 <= t < ts.len() && #[trigger] ts[t].from.0 == q && ts[t].symbol.0 == sym
}

proof fn lemma_seen(ts: Seq<TransitionV>, sp: Seq<Range<usize>>, q: Seq<char>, c: char)
    ensures
        seen_table(ts, sp).contains_key((q, c)) <==> has_exit(ts, q, Symbol::Char(c)),
    decreases ts.len(),
{
    if ts.len() > 0 {
        let r = ts.drop_last();
        lemma_seen(r, sp, q, c);
        if has_exit(r, q, Symbol::Char(c)) {
            let t = choose|t: int| 0 <= t < r.len() && #[trigger] r[t].from.0 == q && r[t].symbol.0 == Symbol::Char(c);
            assert(ts[t] == r[t]);
        }
        if has_exit(ts, q, Symbol::Char(c)) {
            let t = choose|t: int| 0 <= t < ts.len() && #[trigger] ts[t].from.0 == q && ts[t].symbol.0 == Symbol::Char(c);
            if t < ts.len() - 1 {
                assert(r[t] == ts[t]);
            }
        }
    }
}

proof fn lemma_dfa_errors(name: Seq<char>, ts: Seq<TransitionV>, sp: Seq<Range<usize>>)
    ensures
        dfa_errors(name, ts, sp).len() == 0 <==> deterministic(ts),
    decreases ts.len(),
{
    if ts.len() > 0 {
        let r = ts.drop_last();
        let n = ts.len() - 1;
        let last = ts[n];
        lemma_dfa_errors(name, r, sp);
        match last.symbol.0 {
            Symbol::Char(c) => {
                lemma_seen(r, sp, last.from.0, c);
            },
            Symbol::Epsilon => {},
        }
        if deterministic(ts) {
            assert forall|t: int| 0 <= t < r.len() implies (#[trigger] r[t]).symbol.0 != Symbol::Epsilon by {
                assert(r[t] == ts[t]);
            }
            assert forall|t: int, u: int| 0 <= t < u < r.len() implies !(#[trigger] r[t].from.0
                == #[trigger] r[u].from.0 && r[t].symbol.0 == r[u].symbol.0) by {
                assert(r[t] == ts[t] && r[u] == ts[u]);
            }
            assert(last.symbol.0 != Symbol::Epsilon);
            if has_exit(r, last.from.0, last.symbol.0) {
                let t = choose|t: int| 0 <= t < r.len() && #[trigger] r[t].from.0 == last.from.0 && r[t].symbol.0
                    == last.symbol.0;
                assert(r[t] == ts[t]);
                assert(!(ts[t].from.0 == ts[n].from.0 && ts[t].symbol.0 == ts[n].symbol.0));
            }
        }
        if deterministic(r) && last.symbol.0 != Symbol::Epsilon && !has_exit(r, last.from.0, last.symbol.0) {
            assert forall|t: int| 0 <= t < ts.len() implies (#[trigger] ts[t]).symbol.0 != Symbol::Epsilon by {
                if t < n {
                    assert(r[t] == ts[t]);
                }
            }
            assert forall|t: int, u: int| 0 <= t < u < ts.len() implies !(#[trigger] ts[t].from.0
                == #[trigger] ts[u].from.0 && ts[t].symbol.0 == ts[u].symbol.0) by {
                if u < n {
                    assert(r[t] == ts[t] && r[u] == ts[u]);
                } else if ts[t].from.0 == ts[u].from.0 && ts[t].symbol.0 == ts[u].symbol.0 {
                    assert(r[t] == ts[t]);
                    assert(r[t].from.0 == last.from.0);
                }
            }
        }
    }
}

proof fn lemma_determinism_errors(au: Seq<AutomatonV>, sp: Seq<Range<usize>>)
    ensures
        determinism_errors(au, sp).len() == 0 <==> forall|k: int|
            0 <= k < au.len() ==> ((#[trigger] au[k]).kind == AutomatonKind::Dfa ==> deterministic(au[k].transitions)),
    decreases au.len(),
{
    if au.len() > 0 {
        let r = au.drop_last();
        let n = au.len() - 1;
        lemma_determinism_errors(r, sp);
        lemma_dfa_errors(au[n].name.0, au[n].transitions, sp);
        if forall|k: int| 0 <= k < au.len() ==> ((#[trigger] au[k]).kind == AutomatonKind::Dfa ==> deterministic(au[k].transitions)) {
            assert forall|k: int| 0 <= k < r.len() implies ((#[trigger] r[k]).kind == AutomatonKind::Dfa
                ==> deterministic(r[k].transitions)) by {
                assert(r[k] == au[k]);
            }
            assert(au[n].kind == AutomatonKind::Dfa ==> deterministic(au[n].transitions));
        }
        if (forall|k: int| 0 <= k < r.len() ==> ((#[trigger] r[k]).kind == AutomatonKind::Dfa ==> deterministic(r[k].transitions)))
            && (au[n].kind == AutomatonKind::Dfa ==> deterministic(au[n].transitions)) {
            assert forall|k: int| 0 <= k < au.len() implies ((#[trigger] au[k]).kind == AutomatonKind::Dfa
                ==> deterministic(au[k].transitions)) by {
                if k < n {
                    assert(r[k] == au[k]);
                }
            }
        }
    }
}

/// The analysis finds no error exactly when the program is correct: alphabet symbols and
/// automaton names are not repeated, no automaton repeats a state, its initial state,
/// final states and transition ends are declared states, the characters its transitions
/// read are in the alphabet, each DFA has no ε-transition and no two transitions sharing
/// an origin and a symbol, and every simulation names a declared automaton.
pub proof fn law_analysis_accepts_exactly_correct_programs(p: ProgramV, spans: Seq<Range<usize>>)
    ensures
        spec_errors(p, spans).len() == 0 <==> program_ok(p),
{
    let al = p.alphabet;
    let au = p.automata;
    let table = automata_table(au, spans);
    let alpha = alphabet_table(al, spans);
    lemma_alphabet_errors(al, spans);
    lemma_automata_errors(au, spans);
    lemma_simulation_errors(p.simulations, au, spans);
    lemma_determinism_errors(au, spans);
    let ref_errs = automata_ref_errors(au, table, alpha, spans);
    assert(spec_errors(p, spans) == alphabet_errors(al, spans) + automata_errors(au, spans) + ref_errs
        + simulation_errors(p.simulations, table, spans) + determinism_errors(au, spans));
    if distinct_automata(au) {
        assert forall|k: int| 0 <= k < au.len() implies table.contains_key((#[trigger] au[k]).name.0)
            && table[au[k].name.0] == entry_of(au[k], spans) by {
            lemma_table_entry(au, spans, k);
        }
        lemma_references(au, table, al, spans);
        if program_ok(p) {
            assert forall|k: int| 0 <= k < au.len() implies distinct_names((#[trigger] au[k]).states) by {
                assert(automaton_ok(au[k], al));
            }
            assert forall|k: int| 0 <= k < au.len() implies references_ok(#[trigger] au[k], al) by {
                assert(automaton_ok(au[k], al));
            }
            assert forall|k: int| 0 <= k < au.len() implies ((#[trigger] au[k]).kind == AutomatonKind::Dfa
                ==> deterministic(au[k].transitions)) by {
                assert(automaton_ok(au[k], al));
            }
        }
        if spec_errors(p, spans).len() == 0 {
            assert forall|k: int| 0 <= k < au.len() implies automaton_ok(#[trigger] au[k], al) by {
                assert(distinct_names(au[k].states));
                assert(references_ok(au[k], al));
                assert(au[k].kind == AutomatonKind::Dfa ==> deterministic(au[k].transitions));
            }
        }
    }
}

proof fn lemma_finals_contains(fs: Seq<NameV>, sp: Seq<Range<usize>>, q: Seq<char>)
    ensures
        finals_table(fs, sp).contains_key(q) <==> declared(fs, q),
    decreases fs.len(),
{
    if fs.len() > 0 {
        let r = fs.drop_last();
        lemma_finals_contains(r, sp, q);
        if declared(r, q) {
            let i = choose|i: int| 0 <= i < r.len() && #[trigger] r[i].0 == q;
            assert(fs[i].0 == q);
        }
        if declared(fs, q) {
            let i = choose|i: int| 0 <= i < fs.len() && #[trigger] fs[i].0 == q;
            if i < fs.len() - 1 {
                assert(r[i].0 == q);
            }
        }
    }
}

/// No automaton before position `k` has the name of automaton `k`.
pub open spec fn first_with_name(au: Seq<AutomatonV>, k: int) -> bool {
    forall|j: int| 0 <= j < k ==> (#[trigger] au[j]).name.0 != au[k].name.0
}

proof fn lemma_table_records(au: Seq<AutomatonV>, sp: Seq<Range<usize>>, k: int)
    requires
        0 <= k < au.len(),
        first_with_name(au, k),
    ensures
        automata_table(au, sp).contains_key(au[k].name.0),
        automata_table(au, sp)[au[k].name.0] == entry_of(au[k], sp),
    decreases au.len(),
{
    let r = au.drop_last();
    let n = au.len() - 1;
    if k < n {
        assert forall|j: int| 0 <= j < k implies (#[trigger] r[j]).name.0 != r[k].name.0 by {
            assert(r[j] == au[j] && r[k] == au[k]);
        }
        lemma_table_records(r, sp, k);
        assert(r[k] == au[k]);
    } else {
        lemma_table_contains(r, sp, au[n].name.0);
        if names_automaton(r, au[n].name.0) {
            let j = choose|j: int| 0 <= j < r.len() && #[trigger] r[j].name.0 == au[n].name.0;
            assert(r[j] == au[j]);
        }
    }
}

/// The table entry of an automaton records what it was declared with: its kind, where
/// its name stands, its initial state, and exactly its declared states and final
/// states. This holds for each automaton that is the first with its name.
pub proof fn law_table_records_declarations(p: ProgramV, spans: Seq<Range<usize>>, k: int)
    requires
        0 <= k < p.automata.len(),
        first_with_name(p.automata, k),
    ensures
        spec_table_automata(p, spans).contains_key(p.automata[k].name.0),
        spec_table_automata(p, spans)[p.automata[k].name.0].kind == p.automata[k].kind,
        spec_table_automata(p, spans)[p.automata[k].name.0].declared_at == crate::parser::error::char_span(
            p.automata[k].name.1,
            spans,
        ),
        spec_table_automata(p, spans)[p.automata[k].name.0].initial == p.automata[k].initial.0,
        forall|q: Seq<char>|
            #[trigger] spec_table_automata(p, spans)[p.automata[k].name.0].states.contains_key(q)
                <==> declared(p.automata[k].states, q),
        forall|q: Seq<char>|
            #[trigger] spec_table_automata(p, spans)[p.automata[k].name.0].finals.contains_key(q)
                <==> declared(p.automata[k].finals, q),
{
    let a = p.automata[k];
    lemma_table_records(p.automata, spans, k);
    assert forall|q: Seq<char>|
        #[trigger] spec_table_automata(p, spans)[a.name.0].states.contains_key(q) <==> declared(a.states, q) by {
        lemma_states_contains(a.states, spans, q);
    }
    assert forall|q: Seq<char>|
        #[trigger] spec_table_automata(p, spans)[a.name.0].finals.contains_key(q) <==> declared(a.finals, q) by {
        lemma_finals_contains(a.finals, spans, q);
    }
}

} // verus!
