//! What the semantic analysis guarantees to the viewer: in a program without errors,
//! every simulation can be started and every arrow joins two drawn states.
use vstd::prelude::*;
use core::ops::Range;
use crate::parser::{AutomatonV, NameV, ProgramV, SimulationV, TransitionV};
use crate::sema::spec::{
    automata_errors, automata_ref_errors, automata_table, automaton_ref_errors, entry_of, EntryV,
    simulation_errors, spec_errors, spec_table_alphabet, spec_table_automata, state_errors,
    states_table, transition_ref_errors, transitions_ref_errors, SemaErrorV,
};
use super::display::{edge_groups_of, grouped, has_edge, index_map, status_text_of, EdgeGroupV};
use crate::runtime::spec::{status_of, Status, Verdict};
use crate::runtime::SimulatorV;
use super::session::{find_automaton, resolvable};

verus! {

/// A name in the table of automata is the name of one of them.
proof fn lemma_table_names(autos: Seq<AutomatonV>, spans: Seq<Range<usize>>, n: Seq<char>)
    requires
        automata_table(autos, spans).contains_key(n),
    ensures
        exists|k: int| 0 <= k < autos.len() && (#[trigger] autos[k]).name.0 == n,
    decreases autos.len(),
{
    let rest = autos.drop_last();
    if automata_table(rest, spans).contains_key(n) {
        lemma_table_names(rest, spans, n);
        let k = choose|k: int| 0 <= k < rest.len() && (#[trigger] rest[k]).name.0 == n;
        assert(autos[k] == rest[k]);
    } else {
        assert(autos[autos.len() - 1].name.0 == n);
    }
}

/// An automaton that is named is found by name.
proof fn lemma_find_named(autos: Seq<AutomatonV>, k: int, n: Seq<char>)
    requires
        0 <= k < autos.len(),
        autos[k].name.0 == n,
    ensures
        find_automaton(autos, n) is Some,
    decreases autos.len(),
{
    if autos[0].name.0 != n {
        assert(autos.drop_first()[k - 1] == autos[k]);
        lemma_find_named(autos.drop_first(), k - 1, n);
    }
}

/// Without declaration errors, each automaton is the table's entry for its name.
proof fn lemma_table_entry(autos: Seq<AutomatonV>, spans: Seq<Range<usize>>, k: int)
    requires
        automata_errors(autos, spans).len() == 0,
        0 <= k < autos.len(),
    ensures
        automata_table(autos, spans).contains_key(autos[k].name.0),
        automata_table(autos, spans)[autos[k].name.0] == entry_of(autos[k], spans),
    decreases autos.len(),
{
    let rest = autos.drop_last();
    let last = autos[autos.len() - 1];
    let m = automata_table(rest, spans);
    assert(automata_errors(rest, spans).len() == 0);
    assert(!m.contains_key(last.name.0));
    if k < autos.len() - 1 {
        lemma_table_entry(rest, spans, k);
        assert(rest[k] == autos[k]);
        assert(autos[k].name.0 != last.name.0);
    }
}

/// Without reference errors, each automaton's own checks found nothing.
proof fn lemma_automaton_refs(
    autos: Seq<AutomatonV>,
    table: Map<Seq<char>, EntryV>,
    alphabet: Map<char, Range<usize>>,
    spans: Seq<Range<usize>>,
    k: int,
)
    requires
        automata_ref_errors(autos, table, alphabet, spans).len() == 0,
        0 <= k < autos.len(),
    ensures
        automaton_ref_errors(autos[k], table, alphabet, spans).len() == 0,
    decreases autos.len(),
{
    if k < autos.len() - 1 {
        assert(autos.drop_last()[k] == autos[k]);
        lemma_automaton_refs(autos.drop_last(), table, alphabet, spans, k);
    }
}

/// Without reference errors, each transition joins declared states.
proof fn lemma_transition_refs(
    ts: Seq<TransitionV>,
    states: Map<Seq<char>, Range<usize>>,
    alphabet: Map<char, Range<usize>>,
    spans: Seq<Range<usize>>,
    t: int,
)
    requires
        transitions_ref_errors(ts, states, alphabet, spans).len() == 0,
        0 <= t < ts.len(),
    ensures
        states.contains_key(ts[t].from.0),
        states.contains_key(ts[t].to.0),
    decreases ts.len(),
{
    if t < ts.len() - 1 {
        assert(ts.drop_last()[t] == ts[t]);
        lemma_transition_refs(ts.drop_last(), states, alphabet, spans, t);
    } else {
        assert(transition_ref_errors(ts[t], states, alphabet, spans).len() == 0);
    }
}

/// A declared state has a position.
proof fn lemma_declared_has_index(st: Seq<NameV>, spans: Seq<Range<usize>>, n: Seq<char>)
    requires
        states_table(st, spans).contains_key(n),
    ensures
        index_map(st).contains_key(n),
    decreases st.len(),
{
    if st.len() > 0 && st[st.len() - 1].0 != n {
        lemma_declared_has_index(st.drop_last(), spans, n);
    }
}

/// Without errors, every simulated automaton is declared.
proof fn lemma_simulations_declared(
    sims: Seq<SimulationV>,
    table: Map<Seq<char>, EntryV>,
    spans: Seq<Range<usize>>,
    i: int,
)
    requires
        simulation_errors(sims, table, spans).len() == 0,
        0 <= i < sims.len(),
    ensures
        table.contains_key(sims[i].automaton.0),
    decreases sims.len(),
{
    if i < sims.len() - 1 {
        assert(sims.drop_last()[i] == sims[i]);
        lemma_simulations_declared(sims.drop_last(), table, spans, i);
    }
}

/// In a program the analysis accepts, every simulation names a declared automaton, so
/// the viewer can start any of them.
pub proof fn law_accepted_simulations_resolve(p: ProgramV, spans: Seq<Range<usize>>, i: int)
    requires
        spec_errors(p, spans).len() == 0,
        0 <= i < p.simulations.len(),
    ensures
        resolvable(p, i),
{
    let table = spec_table_automata(p, spans);
    lemma_simulations_declared(p.simulations, table, spans, i);
    let n = p.simulations[i].automaton.0;
    lemma_table_names(p.automata, spans, n);
    let k = choose|k: int| 0 <= k < p.automata.len() && (#[trigger] p.automata[k]).name.0 == n;
    lemma_find_named(p.automata, k, n);
}

/// In a program the analysis accepts, every transition of every automaton joins two
/// declared states, so both ends have a place in the diagram.
pub proof fn law_accepted_transitions_join_states(p: ProgramV, spans: Seq<Range<usize>>, k: int, t: int)
    requires
        spec_errors(p, spans).len() == 0,
        0 <= k < p.automata.len(),
        0 <= t < p.automata[k].transitions.len(),
    ensures
        index_map(p.automata[k].states).contains_key(p.automata[k].transitions[t].from.0),
        index_map(p.automata[k].states).contains_key(p.automata[k].transitions[t].to.0),
{
    let a = p.automata[k];
    let table = spec_table_automata(p, spans);
    let alphabet = spec_table_alphabet(p, spans);
    lemma_table_entry(p.automata, spans, k);
    lemma_automaton_refs(p.automata, table, alphabet, spans, k);
    let states = table[a.name.0].states;
    assert(states == states_table(a.states, spans));
    lemma_transition_refs(a.transitions, states, alphabet, spans, t);
    lemma_declared_has_index(a.states, spans, a.transitions[t].from.0);
    lemma_declared_has_index(a.states, spans, a.transitions[t].to.0);
}

/// The status text tells every situation apart: while running on its own it is
/// "Rodando..."; otherwise it is "Pausado" while steps remain, "ACEITA" when the
/// simulation accepted and "REJEITA" when it rejected. Two situations get the same text
/// exactly when both run on their own or neither does and their statuses agree.
pub proof fn law_status_text_tells_apart(s: SimulatorV, auto: bool, t: SimulatorV, auto2: bool)
    ensures
        auto ==> status_text_of(s, auto) == "Rodando..."@,
        !auto && status_of(s.automaton, s.input, s.history.last()) == Status::Running ==> status_text_of(s, auto)
            == "Pausado"@,
        !auto ==> (status_text_of(s, auto) == "ACEITA"@ <==> status_of(s.automaton, s.input, s.history.last())
            == Status::Done(Verdict::Accepted)),
        !auto ==> (status_text_of(s, auto) == "REJEITA"@ <==> status_of(s.automaton, s.input, s.history.last())
            == Status::Done(Verdict::Rejected)),
        status_text_of(s, auto) == status_text_of(t, auto2) <==> (auto && auto2) || (!auto && !auto2
            && status_of(s.automaton, s.input, s.history.last()) == status_of(t.automaton, t.input, t.history.last())),
{
    reveal_strlit("Rodando...");
    reveal_strlit("Pausado");
    reveal_strlit("ACEITA");
    reveal_strlit("REJEITA");
    assert("Rodando..."@[0] != "Pausado"@[0]);
    assert("Rodando..."@[0] != "ACEITA"@[0]);
    assert("Rodando..."@.len() != "REJEITA"@.len());
    assert("Pausado"@[0] != "ACEITA"@[0]);
    assert("Pausado"@[0] != "REJEITA"@[0]);
    assert("ACEITA"@[0] != "REJEITA"@[0]);
}

/// Transition `k` of `a` runs from the state at position `f` to the state at position `t`.
pub open spec fn joins(a: AutomatonV, idx: Map<Seq<char>, usize>, k: int, f: usize, t: usize) -> bool {
    idx[a.transitions[k].from.0] == f && idx[a.transitions[k].to.0] == t
}

/// Some group joins the ends of transition `k`.
pub open spec fn has_group_for(a: AutomatonV, idx: Map<Seq<char>, usize>, gs: Seq<EdgeGroupV>, k: int) -> bool {
    exists|g: int| 0 <= g < gs.len() && #[trigger] joins(a, idx, k, gs[g].from, gs[g].to)
}

/// Some transition before `n` runs from the state at `f` to the state at `t`.
pub open spec fn has_transition_between(a: AutomatonV, idx: Map<Seq<char>, usize>, n: int, f: usize, t: usize) -> bool {
    exists|k: int| 0 <= k < n && #[trigger] joins(a, idx, k, f, t)
}

/// Every transition before `n` has a group joining its ends.
pub open spec fn covers(a: AutomatonV, idx: Map<Seq<char>, usize>, gs: Seq<EdgeGroupV>, n: int) -> bool {
    forall|k: int| 0 <= k < n ==> #[trigger] has_group_for(a, idx, gs, k)
}

/// Every group joins the ends of some transition before `n`.
pub open spec fn backed(a: AutomatonV, idx: Map<Seq<char>, usize>, gs: Seq<EdgeGroupV>, n: int) -> bool {
    forall|g: int| 0 <= g < gs.len() ==> #[trigger] has_transition_between(a, idx, n, gs[g].from, gs[g].to)
}

/// Some transition before `n` joining `f` to `t` was taken.
pub open spec fn taken_between(a: AutomatonV, idx: Map<Seq<char>, usize>, act: Seq<usize>, n: int, f: usize, t: usize) -> bool {
    exists|k: int| 0 <= k < n && #[trigger] joins(a, idx, k, f, t) && act.contains(k as usize)
}

/// A group is active exactly when one of its transitions before `n` was taken.
pub open spec fn active_ok(a: AutomatonV, idx: Map<Seq<char>, usize>, act: Seq<usize>, gs: Seq<EdgeGroupV>, n: int) -> bool {
    forall|g: int| 0 <= g < gs.len() ==> ((#[trigger] gs[g]).active <==> taken_between(a, idx, act, n, gs[g].from, gs[g].to))
}

/// No two groups join the same two states.
pub open spec fn distinct_pairs(gs: Seq<EdgeGroupV>) -> bool {
    forall|g: int, h: int|
        0 <= g < h < gs.len() ==> !(#[trigger] gs[g].from == #[trigger] gs[h].from && gs[g].to == gs[h].to)
}

pub open spec fn groups_describe(
    a: AutomatonV,
    idx: Map<Seq<char>, usize>,
    act: Seq<usize>,
    gs: Seq<EdgeGroupV>,
    n: int,
) -> bool {
    &&& covers(a, idx, gs, n)
    &&& backed(a, idx, gs, n)
    &&& active_ok(a, idx, act, gs, n)
    &&& distinct_pairs(gs)
}

/// `ns` joins the same states as `gs`, group by group.
pub open spec fn same_keys(gs: Seq<EdgeGroupV>, ns: Seq<EdgeGroupV>) -> bool {
    &&& ns.len() == gs.len()
    &&& forall|h: int| 0 <= h < ns.len() ==> (#[trigger] ns[h]).from == gs[h].from && ns[h].to == gs[h].to
}

proof fn lemma_covers_keys(a: AutomatonV, idx: Map<Seq<char>, usize>, gs: Seq<EdgeGroupV>, ns: Seq<EdgeGroupV>, n: int)
    requires
        same_keys(gs, ns),
        covers(a, idx, gs, n),
    ensures
        covers(a, idx, ns, n),
{
    assert forall|k: int| 0 <= k < n implies #[trigger] has_group_for(a, idx, ns, k) by {
        assert(has_group_for(a, idx, gs, k));
        let h = choose|h: int| 0 <= h < gs.len() && #[trigger] joins(a, idx, k, gs[h].from, gs[h].to);
        assert(ns[h].from == gs[h].from && ns[h].to == gs[h].to);
        assert(joins(a, idx, k, ns[h].from, ns[h].to));
    }
}

proof fn lemma_backed_keys(a: AutomatonV, idx: Map<Seq<char>, usize>, gs: Seq<EdgeGroupV>, ns: Seq<EdgeGroupV>, n: int, n2: int)
    requires
        same_keys(gs, ns),
        backed(a, idx, gs, n),
        n <= n2,
    ensures
        backed(a, idx, ns, n2),
{
    assert forall|h: int| 0 <= h < ns.len() implies #[trigger] has_transition_between(a, idx, n2, ns[h].from, ns[h].to) by {
        assert(has_transition_between(a, idx, n, gs[h].from, gs[h].to));
        let k = choose|k: int| 0 <= k < n && #[trigger] joins(a, idx, k, gs[h].from, gs[h].to);
        assert(ns[h].from == gs[h].from && ns[h].to == gs[h].to);
        assert(joins(a, idx, k, ns[h].from, ns[h].to));
    }
}

proof fn lemma_distinct_keys(gs: Seq<EdgeGroupV>, ns: Seq<EdgeGroupV>)
    requires
        same_keys(gs, ns),
        distinct_pairs(gs),
    ensures
        distinct_pairs(ns),
{
    assert forall|x: int, y: int| 0 <= x < y < ns.len() implies !(#[trigger] ns[x].from == #[trigger] ns[y].from
        && ns[x].to == ns[y].to) by {
        assert(ns[x].from == gs[x].from && ns[x].to == gs[x].to);
        assert(ns[y].from == gs[y].from && ns[y].to == gs[y].to);
        assert(!(gs[x].from == gs[y].from && gs[x].to == gs[y].to));
    }
}

proof fn lemma_covers_extend(a: AutomatonV, idx: Map<Seq<char>, usize>, gs: Seq<EdgeGroupV>, m: int, g: int)
    requires
        covers(a, idx, gs, m),
        0 <= g < gs.len(),
        0 <= m,
        joins(a, idx, m, gs[g].from, gs[g].to),
    ensures
        covers(a, idx, gs, m + 1),
{
    assert forall|k: int| 0 <= k < m + 1 implies #[trigger] has_group_for(a, idx, gs, k) by {
        if k == m {
            assert(joins(a, idx, k, gs[g].from, gs[g].to));
        }
    }
}

proof fn lemma_active_keys(a: AutomatonV, idx: Map<Seq<char>, usize>, act: Seq<usize>, gs: Seq<EdgeGroupV>, ns: Seq<EdgeGroupV>, n: int)
    requires
        same_keys(gs, ns),
        forall|h: int| 0 <= h < ns.len() ==> (#[trigger] ns[h]).active == gs[h].active,
        active_ok(a, idx, act, gs, n),
    ensures
        active_ok(a, idx, act, ns, n),
{
    assert forall|h: int| 0 <= h < ns.len() implies ((#[trigger] ns[h]).active <==> taken_between(
        a,
        idx,
        act,
        n,
        ns[h].from,
        ns[h].to,
    )) by {
        assert(gs[h].active <==> taken_between(a, idx, act, n, gs[h].from, gs[h].to));
        assert(ns[h].from == gs[h].from && ns[h].to == gs[h].to);
    }
}

proof fn lemma_update_active(
    a: AutomatonV,
    idx: Map<Seq<char>, usize>,
    act: Seq<usize>,
    gs: Seq<EdgeGroupV>,
    ns: Seq<EdgeGroupV>,
    m: int,
    g: int,
)
    requires
        ns.len() == gs.len(),
        0 <= g < gs.len(),
        0 <= m,
        forall|h: int| 0 <= h < ns.len() && h != g ==> #[trigger] ns[h] == gs[h],
        ns[g].from == gs[g].from && ns[g].to == gs[g].to,
        ns[g].active == (gs[g].active || act.contains(m as usize)),
        active_ok(a, idx, act, gs, m),
        distinct_pairs(gs),
        joins(a, idx, m, gs[g].from, gs[g].to),
    ensures
        active_ok(a, idx, act, ns, m + 1),
{
    assert forall|h: int| 0 <= h < ns.len() implies ((#[trigger] ns[h]).active <==> taken_between(
        a,
        idx,
        act,
        m + 1,
        ns[h].from,
        ns[h].to,
    )) by {
        assert(gs[h].active <==> taken_between(a, idx, act, m, gs[h].from, gs[h].to));
        if taken_between(a, idx, act, m, gs[h].from, gs[h].to) {
            let k = choose|k: int| 0 <= k < m && #[trigger] joins(a, idx, k, gs[h].from, gs[h].to) && act.contains(k as usize);
            assert(joins(a, idx, k, ns[h].from, ns[h].to));
        }
        if h == g {
            if act.contains(m as usize) {
                assert(joins(a, idx, m, ns[h].from, ns[h].to));
            }
            if taken_between(a, idx, act, m + 1, ns[h].from, ns[h].to) {
                let k = choose|k: int| 0 <= k < m + 1 && #[trigger] joins(a, idx, k, ns[h].from, ns[h].to) && act.contains(k as usize);
                if k < m {
                    assert(joins(a, idx, k, gs[h].from, gs[h].to));
                }
            }
        } else {
            assert(!(gs[h].from == gs[g].from && gs[h].to == gs[g].to)) by {
                if g < h {
                    assert(!(gs[g].from == gs[h].from && gs[g].to == gs[h].to));
                } else {
                    assert(!(gs[h].from == gs[g].from && gs[h].to == gs[g].to));
                }
            }
            if taken_between(a, idx, act, m + 1, ns[h].from, ns[h].to) {
                let k = choose|k: int| 0 <= k < m + 1 && #[trigger] joins(a, idx, k, ns[h].from, ns[h].to) && act.contains(k as usize);
                assert(k != m);
                assert(joins(a, idx, k, gs[h].from, gs[h].to));
            }
        }
    }
}

proof fn lemma_push_keys(a: AutomatonV, idx: Map<Seq<char>, usize>, gs: Seq<EdgeGroupV>, e: EdgeGroupV, m: int)
    requires
        0 <= m,
        covers(a, idx, gs, m),
        backed(a, idx, gs, m),
        distinct_pairs(gs),
        !has_edge(gs, e.from, e.to),
        joins(a, idx, m, e.from, e.to),
    ensures
        covers(a, idx, gs.push(e), m + 1),
        backed(a, idx, gs.push(e), m + 1),
        distinct_pairs(gs.push(e)),
{
    let ns = gs.push(e);
    let n0 = gs.len() as int;
    assert(ns[n0] == e);
    assert forall|k: int| 0 <= k < m + 1 implies #[trigger] has_group_for(a, idx, ns, k) by {
        if k < m {
            assert(has_group_for(a, idx, gs, k));
            let h = choose|h: int| 0 <= h < gs.len() && #[trigger] joins(a, idx, k, gs[h].from, gs[h].to);
            assert(ns[h] == gs[h]);
            assert(joins(a, idx, k, ns[h].from, ns[h].to));
        } else {
            assert(joins(a, idx, k, ns[n0].from, ns[n0].to));
        }
    }
    assert forall|h: int| 0 <= h < ns.len() implies #[trigger] has_transition_between(a, idx, m + 1, ns[h].from, ns[h].to) by {
        if h < n0 {
            assert(ns[h] == gs[h]);
            assert(has_transition_between(a, idx, m, gs[h].from, gs[h].to));
            let k = choose|k: int| 0 <= k < m && #[trigger] joins(a, idx, k, gs[h].from, gs[h].to);
            assert(joins(a, idx, k, ns[h].from, ns[h].to));
        } else {
            assert(joins(a, idx, m, ns[h].from, ns[h].to));
        }
    }
    assert forall|x: int, y: int| 0 <= x < y < ns.len() implies !(#[trigger] ns[x].from == #[trigger] ns[y].from
        && ns[x].to == ns[y].to) by {
        assert(ns[x] == gs[x]);
        if y < n0 {
            assert(ns[y] == gs[y]);
        } else if gs[x].from == e.from && gs[x].to == e.to {
            assert(has_edge(gs, e.from, e.to));
        }
    }
}

proof fn lemma_push_active(a: AutomatonV, idx: Map<Seq<char>, usize>, act: Seq<usize>, gs: Seq<EdgeGroupV>, e: EdgeGroupV, m: int)
    requires
        0 <= m,
        covers(a, idx, gs, m),
        active_ok(a, idx, act, gs, m),
        !has_edge(gs, e.from, e.to),
        joins(a, idx, m, e.from, e.to),
        e.active == act.contains(m as usize),
    ensures
        active_ok(a, idx, act, gs.push(e), m + 1),
{
    let ns = gs.push(e);
    let n0 = gs.len() as int;
    assert forall|h: int| 0 <= h < ns.len() implies ((#[trigger] ns[h]).active <==> taken_between(
        a,
        idx,
        act,
        m + 1,
        ns[h].from,
        ns[h].to,
    )) by {
        if h < n0 {
            assert(ns[h] == gs[h]);
            assert(gs[h].active <==> taken_between(a, idx, act, m, gs[h].from, gs[h].to));
            if gs[h].from == e.from && gs[h].to == e.to {
                assert(has_edge(gs, e.from, e.to));
            }
            if taken_between(a, idx, act, m, gs[h].from, gs[h].to) {
                let k = choose|k: int| 0 <= k < m && #[trigger] joins(a, idx, k, gs[h].from, gs[h].to) && act.contains(k as usize);
                assert(joins(a, idx, k, ns[h].from, ns[h].to));
            }
            if taken_between(a, idx, act, m + 1, ns[h].from, ns[h].to) {
                let k = choose|k: int| 0 <= k < m + 1 && #[trigger] joins(a, idx, k, ns[h].from, ns[h].to) && act.contains(k as usize);
                assert(k != m);
                assert(joins(a, idx, k, gs[h].from, gs[h].to));
            }
        } else {
            assert(ns[h] == e);
            if act.contains(m as usize) {
                assert(joins(a, idx, m, ns[h].from, ns[h].to));
            }
            if taken_between(a, idx, act, m + 1, ns[h].from, ns[h].to) {
                let k = choose|k: int| 0 <= k < m + 1 && #[trigger] joins(a, idx, k, ns[h].from, ns[h].to) && act.contains(k as usize);
                if k < m {
                    assert(has_group_for(a, idx, gs, k));
                    let g = choose|g: int| 0 <= g < gs.len() && #[trigger] joins(a, idx, k, gs[g].from, gs[g].to);
                    assert(gs[g].from == e.from && gs[g].to == e.to);
                    assert(has_edge(gs, e.from, e.to));
                }
            }
        }
    }
}

proof fn lemma_grouped_describe(a: AutomatonV, idx: Map<Seq<char>, usize>, act: Seq<usize>, n: nat)
    ensures
        groups_describe(a, idx, act, grouped(a, idx, act, n), n as int),
    decreases n,
{
    if n > 0 {
        let m = (n - 1) as nat;
        lemma_grouped_describe(a, idx, act, m);
        let gs = grouped(a, idx, act, m);
        let t = a.transitions[m as int];
        let f = idx[t.from.0];
        let to = idx[t.to.0];
        let a0 = act.contains(m as usize);
        let ns = grouped(a, idx, act, n);
        assert(joins(a, idx, m as int, f, to));
        if has_edge(gs, f, to) {
            let g = choose|g: int| 0 <= g < gs.len() && #[trigger] gs[g].from == f && gs[g].to == to;
            assert(same_keys(gs, ns));
            lemma_covers_extend(a, idx, gs, m as int, g);
            lemma_covers_keys(a, idx, gs, ns, n as int);
            lemma_backed_keys(a, idx, gs, ns, m as int, n as int);
            lemma_distinct_keys(gs, ns);
            lemma_update_active(a, idx, act, gs, ns, m as int, g);
        } else {
            let e = EdgeGroupV { from: f, to, label: super::display::symbol_text(t.symbol.0), active: a0, flip: false };
            assert(ns == gs.push(e));
            lemma_push_keys(a, idx, gs, e, m as int);
            lemma_push_active(a, idx, act, gs, e, m as int);
        }
    }
}

/// The arrows of a diagram: every transition belongs to an arrow joining the states at
/// its ends, every arrow joins the ends of some transition, no two arrows join the same
/// two states, an arrow is highlighted exactly when one of its transitions was just
/// taken, and an arrow curves the other way exactly when an arrow runs back and it
/// leaves the later state.
pub proof fn law_edge_groups(a: AutomatonV, idx: Map<Seq<char>, usize>, act: Seq<usize>)
    ensures
        covers(a, idx, edge_groups_of(a, idx, act), a.transitions.len() as int),
        backed(a, idx, edge_groups_of(a, idx, act), a.transitions.len() as int),
        distinct_pairs(edge_groups_of(a, idx, act)),
        active_ok(a, idx, act, edge_groups_of(a, idx, act), a.transitions.len() as int),
        forall|g: int|
            0 <= g < edge_groups_of(a, idx, act).len() ==> ((#[trigger] edge_groups_of(a, idx, act)[g]).flip
                <==> edge_groups_of(a, idx, act)[g].from > edge_groups_of(a, idx, act)[g].to && exists|h: int|
                0 <= h < edge_groups_of(a, idx, act).len() && #[trigger] edge_groups_of(a, idx, act)[h].from
                    == edge_groups_of(a, idx, act)[g].to && edge_groups_of(a, idx, act)[h].to
                    == edge_groups_of(a, idx, act)[g].from),
{
    let n = a.transitions.len();
    lemma_grouped_describe(a, idx, act, n);
    let gs = grouped(a, idx, act, n);
    let es = edge_groups_of(a, idx, act);
    assert(same_keys(gs, es));
    assert forall|h: int| 0 <= h < es.len() implies (#[trigger] es[h]).active == gs[h].active by {}
    lemma_covers_keys(a, idx, gs, es, n as int);
    lemma_backed_keys(a, idx, gs, es, n as int, n as int);
    lemma_distinct_keys(gs, es);
    lemma_active_keys(a, idx, act, gs, es, n as int);
    assert forall|g: int| 0 <= g < es.len() implies ((#[trigger] es[g]).flip <==> es[g].from > es[g].to
        && exists|h: int| 0 <= h < es.len() && #[trigger] es[h].from == es[g].to && es[h].to == es[g].from) by {
        if has_edge(gs, gs[g].to, gs[g].from) {
            let h = choose|h: int| 0 <= h < gs.len() && #[trigger] gs[h].from == gs[g].to && gs[h].to == gs[g].from;
            assert(es[h].from == es[g].to);
        }
        if exists|h: int| 0 <= h < es.len() && #[trigger] es[h].from == es[g].to && es[h].to == es[g].from {
            let h = choose|h: int| 0 <= h < es.len() && #[trigger] es[h].from == es[g].to && es[h].to == es[g].from;
            assert(gs[h].from == gs[g].to);
        }
    }
}

} // verus!
