//! What the viewer shows, computed from the simulation: positions of states, the
//! transitions taken by the last step, texts of sets, steps and status.
use vstd::prelude::*;
use crate::parser::{Automaton, AutomatonV, NameV, Symbol};
use crate::runtime::spec::{
    config_set, is_final_state, next_step_of, status_of, ConfigV, LastStep, NextStep, Status, Verdict,
};
use crate::runtime::stateset::{contains_str, texts};
use crate::runtime::{Configuration, Simulator, SimulatorV};
use crate::sema::AssocMap;
use super::session::Session;

verus! {

/// State name → its position in the list of states (the last one, for a repeated name).
pub open spec fn index_map(st: Seq<NameV>) -> Map<Seq<char>, usize>
    decreases st.len(),
{
    if st.len() == 0 {
        Map::empty()
    } else {
        index_map(st.drop_last()).insert(st.last().0, (st.len() - 1) as usize)
    }
}

/// Where each state stands in the automaton's list of states.
pub fn state_indices(automaton: &Automaton) -> (m: AssocMap<String, usize>)
    ensures
        m@ == index_map(automaton@.states),
{
    let ghost st = automaton@.states;
    let mut m: AssocMap<String, usize> = AssocMap::new();
    let mut i: usize = 0;
    while i < automaton.states.len()
        invariant
            i <= automaton.states@.len(),
            st == automaton@.states,
            m@ == index_map(st.take(i as int)),
        decreases automaton.states@.len() - i,
    {
        proof {
            assert(st.take(i + 1).drop_last() =~= st.take(i as int));
            assert(st.take(i + 1).last() == automaton.states@[i as int]@);
        }
        m.insert(automaton.states[i].value.clone(), i);
        i = i + 1;
    }
    proof {
        assert(st.take(i as int) =~= st);
    }
    m
}

/// Transition `i` was taken by the step from `prev` to `cur`: an ε-transition that
/// added its target in a closure, or a transition reading the character just read.
pub open spec fn taken_by(a: AutomatonV, prev: ConfigV, cur: ConfigV, i: int) -> bool {
    let t = a.transitions[i];
    match cur.last_step {
        LastStep::NoStep => false,
        LastStep::Closure => {
            &&& t.symbol.0 == Symbol::Epsilon
            &&& config_set(prev).contains(t.from.0)
            &&& config_set(cur).contains(t.to.0)
            &&& !config_set(prev).contains(t.to.0)
        },
        LastStep::Char(c) => {
            &&& t.symbol.0 == Symbol::Char(c)
            &&& config_set(prev).contains(t.from.0)
            &&& config_set(cur).contains(t.to.0)
        },
    }
}

/// Transition `i` of `a` was taken by the simulation's last step.
pub open spec fn is_active(s: SimulatorV, a: AutomatonV, i: int) -> bool {
    &&& s.history.len() >= 2
    &&& 0 <= i < a.transitions.len()
    &&& taken_by(a, s.history[s.history.len() - 2], s.history.last(), i)
}

/// The transitions of `automaton` taken by the last step of `simulator`, in increasing
/// order.
pub fn active_transitions(simulator: &Simulator, automaton: &Automaton) -> (r: Vec<usize>)
    requires
        simulator.wf(),
    ensures
        forall|j: int| 0 <= j < r@.len() ==> is_active(simulator@, automaton@, #[trigger] r@[j] as int),
        forall|i: int| is_active(simulator@, automaton@, i) ==> r@.contains(i as usize),
        forall|j: int, k: int| 0 <= j < k < r@.len() ==> r@[j] < r@[k],
{
    let current = simulator.config();
    let prev = match simulator.prev_config() {
        None => {
            return Vec::new();
        },
        Some(p) => p,
    };
    let ghost s = simulator@;
    let ghost a = automaton@;
    let mut active: Vec<usize> = Vec::new();
    let mut i: usize = 0;
    while i < automaton.transitions.len()
        invariant
            i <= a.transitions.len(),
            a == automaton@,
            s == simulator@,
            s.history.len() >= 2,
            prev@ == s.history[s.history.len() - 2],
            current@ == s.history.last(),
            forall|j: int| 0 <= j < active@.len() ==> is_active(s, a, #[trigger] active@[j] as int),
            forall|j: int| 0 <= j < active@.len() ==> #[trigger] active@[j] < i,
            forall|k: int| 0 <= k < i && is_active(s, a, k) ==> active@.contains(k as usize),
            forall|j: int, k: int| 0 <= j < k < active@.len() ==> active@[j] < active@[k],
        decreases a.transitions.len() - i,
    {
        let tr = &automaton.transitions[i];
        proof {
            assert(a.transitions[i as int] == tr@);
        }
        let taken = match current.last_step {
            LastStep::NoStep => false,
            LastStep::Closure => {
                tr.symbol.value == Symbol::Epsilon && contains_str(&prev.current, &tr.from.value)
                    && contains_str(&current.current, &tr.to.value) && !contains_str(
                    &prev.current,
                    &tr.to.value,
                )
            },
            LastStep::Char(c) => {
                tr.symbol.value == Symbol::Char(c) && contains_str(&prev.current, &tr.from.value)
                    && contains_str(&current.current, &tr.to.value)
            },
        };
        let ghost a0 = active@;
        if taken {
            active.push(i);
            proof {
                assert(active@[a0.len() as int] == i);
            }
        }
        proof {
            assert(taken == is_active(s, a, i as int));
            assert forall|k: int| 0 <= k < i + 1 && is_active(s, a, k) implies active@.contains(k as usize) by {
                if k < i {
                    let j = choose|j: int| 0 <= j < a0.len() && a0[j] == k as usize;
                    assert(active@[j] == k as usize);
                } else {
                    assert(active@[a0.len() as int] == i);
                }
            }
        }
        i = i + 1;
    }
    active
}

/// The texts joined by `sep`.
pub open spec fn join(v: Seq<Seq<char>>, sep: Seq<char>) -> Seq<char>
    decreases v.len(),
{
    if v.len() == 0 {
        seq![]
    } else if v.len() == 1 {
        v[0]
    } else {
        join(v.drop_last(), sep) + sep + v.last()
    }
}

/// A set of states as shown: its one element alone, `∅` when empty, else the elements
/// between braces, separated by commas.
pub open spec fn set_text(v: Seq<Seq<char>>) -> Seq<char> {
    if v.len() == 1 {
        v[0]
    } else if v.len() == 0 {
        "∅"@
    } else {
        "{"@ + join(v, ","@) + "}"@
    }
}

/// Appends the texts of `v` joined by commas.
fn push_joined(out: &mut String, v: &Vec<String>)
    ensures
        final(out)@ == old(out)@ + join(texts(v@), ","@),
{
    let ghost t = texts(v@);
    let ghost o = out@;
    let mut i: usize = 0;
    while i < v.len()
        invariant
            i <= v@.len(),
            t == texts(v@),
            out@ == o + join(t.take(i as int), ","@),
        decreases v@.len() - i,
    {
        proof {
            assert(t.take(i + 1).drop_last() =~= t.take(i as int));
            assert(t.take(i + 1).last() == v@[i as int]@);
        }
        if i > 0 {
            out.append(",");
        } else {
            assert(t.take(0) =~= Seq::<Seq<char>>::empty());
        }
        out.append(v[i].as_str());
        proof {
            if i == 0 {
                assert(t.take(1) =~= seq![v@[0]@]);
            }
            assert(out@ =~= o + join(t.take(i + 1), ","@));
        }
        i = i + 1;
    }
    proof {
        assert(t.take(i as int) =~= t);
    }
}

/// The text of a set of states.
pub fn format_set(set: &Vec<String>) -> (s: String)
    ensures
        s@ == set_text(texts(set@)),
{
    if set.len() == 1 {
        set[0].clone()
    } else if set.len() == 0 {
        String::from_str("∅")
    } else {
        let mut s = String::from_str("{");
        push_joined(&mut s, set);
        s.append("}");
        s
    }
}

/// How the history shows a step: what it read (`ε` for a closure), then the states
/// before and after.
pub open spec fn step_text(prev: ConfigV, cur: ConfigV) -> Seq<char> {
    match cur.last_step {
        LastStep::Closure => "ε: "@ + set_text(prev.current) + ">"@ + set_text(cur.current),
        LastStep::Char(c) => "'"@ + seq![c] + "': "@ + set_text(prev.current) + ">"@ + set_text(
            cur.current,
        ),
        LastStep::NoStep => "—"@,
    }
}

/// The history entry for the step from `prev` to `cur`.
pub fn step_label(prev: &Configuration, cur: &Configuration) -> (s: String)
    ensures
        s@ == step_text(prev@, cur@),
{
    match cur.last_step {
        LastStep::Closure => {
            let mut s = String::from_str("ε: ");
            s.append(format_set(&prev.current).as_str());
            s.append(">");
            s.append(format_set(&cur.current).as_str());
            s
        },
        LastStep::Char(c) => {
            let mut s = String::from_str("'");
            s.push(c);
            s.append("': ");
            s.append(format_set(&prev.current).as_str());
            s.append(">");
            s.append(format_set(&cur.current).as_str());
            s
        },
        LastStep::NoStep => String::from_str("—"),
    }
}

/// What the next step will read, as shown: `ε` for a closure, the character between
/// quotes, `—` when none remains.
pub open spec fn next_step_text(s: SimulatorV) -> Seq<char> {
    match next_step_of(s.automaton, s.input, s.history.last()) {
        NextStep::Closure => "ε"@,
        NextStep::Char => "'"@ + seq![s.input[s.history.last().consumed]] + "'"@,
        NextStep::Done => "—"@,
    }
}

/// The text for the next step of the simulation.
pub fn next_text(simulator: &Simulator) -> (s: String)
    requires
        simulator.wf(),
    ensures
        s@ == next_step_text(simulator@),
{
    match simulator.next_step() {
        NextStep::Closure => String::from_str("ε"),
        NextStep::Char => {
            let idx = simulator.config().consumed;
            let c = simulator.input()[idx];
            let mut s = String::from_str("'");
            s.push(c);
            s.append("'");
            s
        },
        NextStep::Done => String::from_str("—"),
    }
}

/// The status as shown: running on its own, paused, accepted or rejected.
pub open spec fn status_text_of(s: SimulatorV, auto: bool) -> Seq<char> {
    if auto {
        "Rodando..."@
    } else {
        match status_of(s.automaton, s.input, s.history.last()) {
            Status::Running => "Pausado"@,
            Status::Done(Verdict::Accepted) => "ACEITA"@,
            Status::Done(Verdict::Rejected) => "REJEITA"@,
        }
    }
}

/// The status text of the viewer.
pub fn status_text(state: &Session) -> (s: String)
    requires
        state.wf(),
    ensures
        s@ == status_text_of(state@.simulator, state@.auto),
{
    let label = match state.simulator().status() {
        Status::Running => String::from_str("Pausado"),
        Status::Done(Verdict::Accepted) => String::from_str("ACEITA"),
        Status::Done(Verdict::Rejected) => String::from_str("REJEITA"),
    };
    if state.auto() {
        String::from_str("Rodando...")
    } else {
        label
    }
}

/// How an input character is shown.
#[derive(Debug, Clone, Copy, PartialEq, Eq, Structural)]
pub enum InputCell {
    /// The character whose reading left no active state.
    Rejected,
    /// Already read.
    Read,
    /// To be read next.
    Next,
    /// Not read yet.
    Pending,
}

/// How character `i` of the input is shown.
pub open spec fn cell_of(s: SimulatorV, i: int) -> InputCell {
    let c = s.history.last();
    if c.current.len() == 0 && c.consumed > 0 && i == c.consumed - 1 {
        InputCell::Rejected
    } else if i < c.consumed {
        InputCell::Read
    } else if i == c.consumed && !(status_of(s.automaton, s.input, c) is Done) {
        InputCell::Next
    } else {
        InputCell::Pending
    }
}

/// How each character of the input is shown, in order.
pub fn input_cells(simulator: &Simulator) -> (v: Vec<InputCell>)
    requires
        simulator.wf(),
    ensures
        v@.len() == simulator@.input.len(),
        forall|i: int| 0 <= i < v@.len() ==> #[trigger] v@[i] == cell_of(simulator@, i),
{
    let chars = simulator.input();
    let cfg = simulator.config();
    let consumed = cfg.consumed;
    let finished = match simulator.status() {
        Status::Done(_) => true,
        Status::Running => false,
    };
    let rejected = cfg.current.len() == 0 && consumed > 0;
    let mut v: Vec<InputCell> = Vec::new();
    let mut i: usize = 0;
    while i < chars.len()
        invariant
            i <= chars@.len(),
            chars@ == simulator@.input,
            cfg@ == simulator@.history.last(),
            consumed == cfg.consumed,
            finished == (status_of(simulator@.automaton, simulator@.input, cfg@) is Done),
            rejected == (cfg@.current.len() == 0 && cfg.consumed > 0),
            v@.len() == i,
            forall|j: int| 0 <= j < i ==> #[trigger] v@[j] == cell_of(simulator@, j),
        decreases chars@.len() - i,
    {
        let cell = if rejected && i == consumed - 1 {
            InputCell::Rejected
        } else if i < consumed {
            InputCell::Read
        } else if i == consumed && !finished {
            InputCell::Next
        } else {
            InputCell::Pending
        };
        v.push(cell);
        i = i + 1;
    }
    v
}

/// The colour family of a state in the diagram.
#[derive(Debug, Clone, Copy, PartialEq, Eq, Structural)]
pub enum Tone {
    /// The simulation rejected.
    Rejected,
    /// Active when the simulation accepted.
    Accepted,
    /// Active while the simulation runs.
    Active,
    /// Anything else.
    Idle,
}

/// How a state is drawn: its colour, whether it is final, and whether it is
/// highlighted as active in a running simulation.
#[derive(Debug, Clone, Copy, PartialEq, Eq, Structural)]
pub struct StateLook {
    pub tone: Tone,
    pub is_final: bool,
    pub pulse: bool,
}

/// How state `i` of the simulated automaton is drawn.
pub open spec fn look_of(s: SimulatorV, i: int) -> StateLook {
    let a = s.automaton;
    let c = s.history.last();
    let q = a.states[i].0;
    let current = config_set(c).contains(q);
    let st = status_of(a, s.input, c);
    StateLook {
        tone: match st {
            Status::Done(Verdict::Rejected) => Tone::Rejected,
            Status::Done(Verdict::Accepted) => if current {
                Tone::Accepted
            } else {
                Tone::Idle
            },
            Status::Running => if current {
                Tone::Active
            } else {
                Tone::Idle
            },
        },
        is_final: is_final_state(a, q),
        pulse: current && !(st is Done),
    }
}

/// `name` is one of the final states of `a`.
fn is_final_name(a: &Automaton, name: &String) -> (r: bool)
    ensures
        r == is_final_state(a@, name@),
{
    let mut k: usize = 0;
    while k < a.finals.len()
        invariant
            k <= a@.finals.len(),
            forall|j: int| 0 <= j < k ==> a@.finals[j].0 != name@,
        decreases a@.finals.len() - k,
    {
        if a.finals[k].value == *name {
            assert(a@.finals[k as int].0 == name@);
            return true;
        }
        k = k + 1;
    }
    false
}

/// How each state of the simulated automaton is drawn, in the order of its states.
pub fn state_looks(simulator: &Simulator) -> (v: Vec<StateLook>)
    requires
        simulator.wf(),
    ensures
        v@.len() == simulator@.automaton.states.len(),
        forall|i: int| 0 <= i < v@.len() ==> #[trigger] v@[i] == look_of(simulator@, i),
{
    let automaton = simulator.automaton();
    let cfg = simulator.config();
    let status = simulator.status();
    let finished = match status {
        Status::Done(_) => true,
        Status::Running => false,
    };
    let mut v: Vec<StateLook> = Vec::new();
    let mut i: usize = 0;
    while i < automaton.states.len()
        invariant
            i <= automaton@.states.len(),
            automaton@ == simulator@.automaton,
            cfg@ == simulator@.history.last(),
            status == status_of(simulator@.automaton, simulator@.input, cfg@),
            finished == (status is Done),
            v@.len() == i,
            forall|j: int| 0 <= j < i ==> #[trigger] v@[j] == look_of(simulator@, j),
        decreases automaton@.states.len() - i,
    {
        let st = &automaton.states[i];
        proof {
            assert(automaton@.states[i as int] == st@);
        }
        let current = contains_str(&cfg.current, &st.value);
        let tone = match status {
            Status::Done(Verdict::Rejected) => Tone::Rejected,
            Status::Done(Verdict::Accepted) => if current {
                Tone::Accepted
            } else {
                Tone::Idle
            },
            Status::Running => if current {
                Tone::Active
            } else {
                Tone::Idle
            },
        };
        let look = StateLook { tone, is_final: is_final_name(automaton, &st.value), pulse: current && !finished };
        v.push(look);
        i = i + 1;
    }
    v
}

/// The label of a transition's symbol: the character between quotes, or `ε`.
pub open spec fn symbol_text(s: Symbol) -> Seq<char> {
    match s {
        Symbol::Char(c) => "'"@ + seq![c] + "'"@,
        Symbol::Epsilon => "ε"@,
    }
}

/// The arrows between two states: every transition from state `from` to state `to`
/// (by position) under one label, their symbols joined by commas; `active` when one of
/// them was just taken; `flip` when an arrow runs the other way and `from > to`, so
/// that the two curve apart.
#[derive(Debug, PartialEq, Eq)]
pub struct EdgeGroup {
    pub from: usize,
    pub to: usize,
    pub label: String,
    pub active: bool,
    pub flip: bool,
}

pub struct EdgeGroupV {
    pub from: usize,
    pub to: usize,
    pub label: Seq<char>,
    pub active: bool,
    pub flip: bool,
}

impl View for EdgeGroup {
    type V = EdgeGroupV;

    open spec fn view(&self) -> EdgeGroupV {
        EdgeGroupV {
            from: self.from,
            to: self.to,
            label: self.label@,
            active: self.active,
            flip: self.flip,
        }
    }
}

pub open spec fn edges_view(v: Seq<EdgeGroup>) -> Seq<EdgeGroupV> {
    v.map_values(|e: EdgeGroup| e@)
}

/// Some group joins state `from` to state `to`.
pub open spec fn has_edge(gs: Seq<EdgeGroupV>, from: usize, to: usize) -> bool {
    exists|g: int| 0 <= g < gs.len() && #[trigger] gs[g].from == from && gs[g].to == to
}

/// No two groups join the same two states.
pub open spec fn distinct_edges(gs: Seq<EdgeGroupV>) -> bool {
    forall|g: int, h: int|
        0 <= g < h < gs.len() ==> !(#[trigger] gs[g].from == #[trigger] gs[h].from && gs[g].to
            == gs[h].to)
}

/// The groups of the first `n` transitions, in the order their first transition comes.
pub open spec fn grouped(a: AutomatonV, idx: Map<Seq<char>, usize>, active: Seq<usize>, n: nat) -> Seq<
    EdgeGroupV,
>
    decreases n,
{
    if n == 0 {
        seq![]
    } else {
        let gs = grouped(a, idx, active, (n - 1) as nat);
        let t = a.transitions[n - 1];
        let from = idx[t.from.0];
        let to = idx[t.to.0];
        let l = symbol_text(t.symbol.0);
        let act = active.contains((n - 1) as usize);
        if has_edge(gs, from, to) {
            let g = choose|g: int| 0 <= g < gs.len() && #[trigger] gs[g].from == from && gs[g].to == to;
            gs.update(g, EdgeGroupV { label: gs[g].label + ","@ + l, active: gs[g].active || act, ..gs[g] })
        } else {
            gs.push(EdgeGroupV { from, to, label: l, active: act, flip: false })
        }
    }
}

/// The arrows of the diagram.
pub open spec fn edge_groups_of(a: AutomatonV, idx: Map<Seq<char>, usize>, active: Seq<usize>) -> Seq<
    EdgeGroupV,
> {
    let gs = grouped(a, idx, active, a.transitions.len());
    Seq::new(
        gs.len(),
        |i: int| EdgeGroupV { flip: gs[i].from > gs[i].to && has_edge(gs, gs[i].to, gs[i].from), ..gs[i] },
    )
}

proof fn lemma_grouped(a: AutomatonV, idx: Map<Seq<char>, usize>, active: Seq<usize>, n: nat)
    ensures
        distinct_edges(grouped(a, idx, active, n)),
        forall|g: int| 0 <= g < grouped(a, idx, active, n).len() ==> !(#[trigger] grouped(a, idx, active, n)[g]).flip,
    decreases n,
{
    if n > 0 {
        lemma_grouped(a, idx, active, (n - 1) as nat);
    }
}

/// Whether `x` occurs in `v`.
fn contains_index(v: &Vec<usize>, x: usize) -> (r: bool)
    ensures
        r == v@.contains(x),
{
    let mut i: usize = 0;
    while i < v.len()
        invariant
            i <= v@.len(),
            forall|j: int| 0 <= j < i ==> v@[j] != x,
        decreases v@.len() - i,
    {
        if v[i] == x {
            assert(v@[i as int] == x);
            return true;
        }
        i = i + 1;
    }
    false
}

/// The label of a transition's symbol.
fn symbol_label(s: Symbol) -> (r: String)
    ensures
        r@ == symbol_text(s),
{
    match s {
        Symbol::Char(c) => {
            let mut r = String::from_str("'");
            r.push(c);
            r.append("'");
            r
        },
        Symbol::Epsilon => String::from_str("ε"),
    }
}

/// Where the group joining `from` to `to` stands, if there is one.
fn find_edge(groups: &Vec<EdgeGroup>, from: usize, to: usize) -> (r: Option<usize>)
    ensures
        match r {
            Some(g) => g < groups@.len() && groups@[g as int].from == from && groups@[g as int].to == to,
            None => !has_edge(edges_view(groups@), from, to),
        },
{
    let mut g: usize = 0;
    while g < groups.len()
        invariant
            g <= groups@.len(),
            forall|h: int| 0 <= h < g ==> !(groups@[h].from == from && groups@[h].to == to),
        decreases groups@.len() - g,
    {
        if groups[g].from == from && groups[g].to == to {
            return Some(g);
        }
        g = g + 1;
    }
    proof {
        if has_edge(edges_view(groups@), from, to) {
            let h = choose|h: int| 0 <= h < edges_view(groups@).len() && #[trigger] edges_view(groups@)[h].from == from
                && edges_view(groups@)[h].to == to;
            assert(groups@[h].from == from);
        }
    }
    None
}

/// The arrows of the diagram of `automaton`, given where each state stands and which
/// transitions were just taken.
pub fn edge_groups(automaton: &Automaton, indices: &AssocMap<String, usize>, active: &Vec<usize>) -> (r: Vec<EdgeGroup>)
    requires
        forall|k: int|
            0 <= k < automaton@.transitions.len() ==> indices@.contains_key(
                #[trigger] automaton@.transitions[k].from.0,
            ) && indices@.contains_key(automaton@.transitions[k].to.0),
    ensures
        edges_view(r@) == edge_groups_of(automaton@, indices@, active@),
{
    let ghost a = automaton@;
    let ghost idx = indices@;
    let ghost act = active@;
    let mut groups: Vec<EdgeGroup> = Vec::new();
    let mut k: usize = 0;
    while k < automaton.transitions.len()
        invariant
            k <= a.transitions.len(),
            a == automaton@,
            idx == indices@,
            act == active@,
            forall|j: int|
                0 <= j < automaton@.transitions.len() ==> indices@.contains_key(
                    #[trigger] automaton@.transitions[j].from.0,
                ) && indices@.contains_key(automaton@.transitions[j].to.0),
            edges_view(groups@) == grouped(a, idx, act, k as nat),
        decreases a.transitions.len() - k,
    {
        let tr = &automaton.transitions[k];
        proof {
            assert(a.transitions[k as int] == tr@);
            assert(idx.contains_key(automaton@.transitions[k as int].from.0));
            lemma_grouped(a, idx, act, k as nat);
        }
        let from = *indices.get(&tr.from.value).unwrap();
        let to = *indices.get(&tr.to.value).unwrap();
        let l = symbol_label(tr.symbol.value);
        let is_active = contains_index(active, k);
        let ghost gs = edges_view(groups@);
        match find_edge(&groups, from, to) {
            Some(g) => {
                let mut label = groups[g].label.clone();
                label.append(",");
                label.append(l.as_str());
                let e = EdgeGroup { from, to, label, active: groups[g].active || is_active, flip: false };
                let ghost ev = e@;
                groups.set(g, e);
                proof {
                    assert(gs[g as int].from == from && gs[g as int].to == to);
                    assert(has_edge(gs, from, to));
                    let c = choose|c: int| 0 <= c < gs.len() && #[trigger] gs[c].from == from && gs[c].to == to;
                    assert(c == g as int);
                    assert(edges_view(groups@) =~= gs.update(g as int, ev));
                }
            },
            None => {
                let e = EdgeGroup { from, to, label: l, active: is_active, flip: false };
                let ghost ev = e@;
                groups.push(e);
                proof {
                    assert(edges_view(groups@) =~= gs.push(ev));
                }
            },
        }
        k = k + 1;
    }
    let ghost gs = edges_view(groups@);
    proof {
        lemma_grouped(a, idx, act, a.transitions.len());
    }
    let mut r: Vec<EdgeGroup> = Vec::new();
    let mut i: usize = 0;
    while i < groups.len()
        invariant
            i <= groups@.len(),
            gs == edges_view(groups@),
            gs == grouped(a, idx, act, a.transitions.len()),
            edges_view(r@) == edge_groups_of(a, idx, act).take(i as int),
        decreases groups@.len() - i,
    {
        let g = &groups[i];
        let found = find_edge(&groups, g.to, g.from);
        let flip = g.from > g.to && found.is_some();
        proof {
            match found {
                Some(h) => {
                    assert(gs[h as int].from == g.to && gs[h as int].to == g.from);
                },
                None => {},
            }
            assert(gs[i as int] == g@);
        }
        let e = EdgeGroup { from: g.from, to: g.to, label: g.label.clone(), active: g.active, flip };
        let ghost r0 = r@;
        let ghost ev = e@;
        r.push(e);
        proof {
            assert(edges_view(r@) =~= edges_view(r0).push(ev));
            assert(edges_view(r@) =~= edge_groups_of(a, idx, act).take(i + 1));
        }
        i = i + 1;
    }
    proof {
        assert(edge_groups_of(a, idx, act).take(i as int) =~= edge_groups_of(a, idx, act));
    }
    r
}

} // verus!
