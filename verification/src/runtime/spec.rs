//! What simulating a finite automaton means: ε-closure, reading a character, and the
//! configurations the step-by-step simulator goes through.
use vstd::prelude::*;
use crate::parser::{AutomatonV, Symbol};
use super::stateset::sorted;

verus! {

/// What the last simulation step did.
#[derive(Debug, Clone, Copy, PartialEq, Eq, Structural)]
pub enum LastStep {
    NoStep,
    Closure,
    Char(char),
}

/// What the next simulation step will do.
#[derive(Debug, Clone, Copy, PartialEq, Eq, Structural)]
pub enum NextStep {
    Closure,
    Char,
    Done,
}

/// The outcome of a finished simulation.
#[derive(Debug, Clone, Copy, PartialEq, Eq, Structural)]
pub enum Verdict {
    Accepted,
    Rejected,
}

/// Whether the simulation can still step.
#[derive(Debug, Clone, Copy, PartialEq, Eq, Structural)]
pub enum Status {
    Running,
    Done(Verdict),
}

/// One moment of a simulation: the active states (in increasing order), how many input
/// characters were read, and what the last step did.
pub struct ConfigV {
    pub current: Seq<Seq<char>>,
    pub consumed: int,
    pub last_step: LastStep,
}

pub open spec fn from_of(a: AutomatonV, k: int) -> Seq<char> {
    a.transitions[k].from.0
}

pub open spec fn to_of(a: AutomatonV, k: int) -> Seq<char> {
    a.transitions[k].to.0
}

pub open spec fn symbol_of(a: AutomatonV, k: int) -> Symbol {
    a.transitions[k].symbol.0
}

/// No ε-transition leaves `s`.
pub open spec fn eps_closed(a: AutomatonV, s: Set<Seq<char>>) -> bool {
    forall|k: int|
        0 <= k < a.transitions.len() && symbol_of(a, k) == Symbol::Epsilon && #[trigger] s.contains(
            from_of(a, k),
        ) ==> s.contains(to_of(a, k))
}

/// The ε-closure of `s`: the states in every ε-closed set that contains `s`.
pub open spec fn eps_closure(a: AutomatonV, s: Set<Seq<char>>) -> Set<Seq<char>> {
    Set::new(
        |q: Seq<char>|
            forall|c: Set<Seq<char>>| #[trigger] eps_closed(a, c) && s.subset_of(c) ==> c.contains(q),
    )
}

/// The states reached from `s` by one transition that reads `ch`.
pub open spec fn char_move(a: AutomatonV, s: Set<Seq<char>>, ch: char) -> Set<Seq<char>> {
    Set::new(
        |q: Seq<char>|
            exists|k: int|
                0 <= k < a.transitions.len() && symbol_of(a, k) == Symbol::Char(ch) && s.contains(
                    from_of(a, k),
                ) && #[trigger] to_of(a, k) == q,
    )
}

/// `q` is declared final.
pub open spec fn is_final_state(a: AutomatonV, q: Seq<char>) -> bool {
    exists|k: int| 0 <= k < a.finals.len() && #[trigger] a.finals[k].0 == q
}

/// The states active after reading the first `k` characters, ε-moves included.
pub open spec fn reach(a: AutomatonV, input: Seq<char>, k: nat) -> Set<Seq<char>>
    decreases k,
{
    if k == 0 {
        eps_closure(a, set![a.initial.0])
    } else {
        eps_closure(a, char_move(a, reach(a, input, (k - 1) as nat), input[k - 1]))
    }
}

/// The automaton accepts the input: a final state is active once all of it is read.
pub open spec fn accepts(a: AutomatonV, input: Seq<char>) -> bool {
    exists|q: Seq<char>| reach(a, input, input.len()).contains(q) && is_final_state(a, q)
}

pub open spec fn config_set(c: ConfigV) -> Set<Seq<char>> {
    c.current.to_set()
}

/// The simulation starts in the initial state, having read nothing.
pub open spec fn initial_config(a: AutomatonV) -> ConfigV {
    ConfigV { current: seq![a.initial.0], consumed: 0, last_step: LastStep::NoStep }
}

/// What the next step does: an ε-closure when it would add states (and the last step
/// was not one), else reading a character while input remains; nothing once no state
/// is active or all is read.
pub open spec fn next_step_of(a: AutomatonV, input: Seq<char>, c: ConfigV) -> NextStep {
    if c.current.len() == 0 {
        NextStep::Done
    } else {
        match c.last_step {
            LastStep::Closure => if c.consumed < input.len() {
                NextStep::Char
            } else {
                NextStep::Done
            },
            _ => if !eps_closed(a, config_set(c)) {
                NextStep::Closure
            } else if c.consumed < input.len() {
                NextStep::Char
            } else {
                NextStep::Done
            },
        }
    }
}

/// `d` is what one step turns `c` into.
pub open spec fn successor(a: AutomatonV, input: Seq<char>, c: ConfigV, d: ConfigV) -> bool {
    &&& sorted(d.current)
    &&& match next_step_of(a, input, c) {
        NextStep::Closure => {
            &&& config_set(d) == eps_closure(a, config_set(c))
            &&& d.consumed == c.consumed
            &&& d.last_step == LastStep::Closure
        },
        NextStep::Char => {
            &&& config_set(d) == char_move(a, config_set(c), input[c.consumed])
            &&& d.consumed == c.consumed + 1
            &&& d.last_step == LastStep::Char(input[c.consumed])
        },
        NextStep::Done => false,
    }
}

/// A history: starts at the initial configuration, and each configuration is the step
/// after the one before.
pub open spec fn valid_history(a: AutomatonV, input: Seq<char>, h: Seq<ConfigV>) -> bool {
    &&& h.len() >= 1
    &&& h[0] == initial_config(a)
    &&& forall|i: int| 0 <= i < h.len() ==> 0 <= #[trigger] h[i].consumed <= input.len()
    &&& forall|i: int| 0 <= i < h.len() ==> sorted(#[trigger] h[i].current)
    &&& forall|i: int| 0 <= i < h.len() - 1 ==> successor(a, input, #[trigger] h[i], h[i + 1])
}

/// Done with a verdict once no step remains; accepted when an active state is final.
pub open spec fn accepted_now(a: AutomatonV, c: ConfigV) -> bool {
    exists|q: Seq<char>| config_set(c).contains(q) && is_final_state(a, q)
}

/// Steps left at most: two per unread character, one more unless a closure was just done.
pub open spec fn steps_left(input: Seq<char>, c: ConfigV) -> int {
    2 * (input.len() - c.consumed) + if c.last_step == LastStep::Closure {
        0int
    } else {
        1int
    }
}

/// Where a configuration stands relative to [`reach`].
pub open spec fn on_track(a: AutomatonV, input: Seq<char>, c: ConfigV) -> bool {
    match c.last_step {
        LastStep::NoStep => c.consumed == 0 && config_set(c) == set![a.initial.0],
        LastStep::Closure => 0 <= c.consumed <= input.len() && config_set(c) == reach(
            a,
            input,
            c.consumed as nat,
        ),
        LastStep::Char(x) => {
            &&& 1 <= c.consumed <= input.len()
            &&& x == input[c.consumed - 1]
            &&& config_set(c) == char_move(a, reach(a, input, (c.consumed - 1) as nat), x)
        },
    }
}

pub proof fn lemma_closure_of_closed(a: AutomatonV, s: Set<Seq<char>>)
    requires
        eps_closed(a, s),
    ensures
        eps_closure(a, s) == s,
{
    assert forall|q: Seq<char>| eps_closure(a, s).contains(q) implies s.contains(q) by {
        assert(eps_closed(a, s) && s.subset_of(s));
    }
    assert(eps_closure(a, s) =~= s);
}

pub proof fn lemma_closure_contains(a: AutomatonV, s: Set<Seq<char>>)
    ensures
        s.subset_of(eps_closure(a, s)),
        eps_closed(a, eps_closure(a, s)),
{
    let cl = eps_closure(a, s);
    assert forall|k: int|
        0 <= k < a.transitions.len() && symbol_of(a, k) == Symbol::Epsilon && #[trigger] cl.contains(
            from_of(a, k),
        ) implies cl.contains(to_of(a, k)) by {
        assert forall|c: Set<Seq<char>>| #[trigger] eps_closed(a, c) && s.subset_of(c) implies c.contains(
            to_of(a, k),
        ) by {
            assert(c.contains(from_of(a, k)));
        }
    }
}

pub proof fn lemma_empty_stays_empty(a: AutomatonV, input: Seq<char>, k: nat, j: nat)
    requires
        k <= j <= input.len(),
        reach(a, input, k) == Set::<Seq<char>>::empty(),
    ensures
        reach(a, input, j) == Set::<Seq<char>>::empty(),
    decreases j - k,
{
    if j > k {
        lemma_empty_stays_empty(a, input, k, (j - 1) as nat);
        let e = Set::<Seq<char>>::empty();
        assert(char_move(a, e, input[j - 1]) =~= e);
        lemma_closure_of_closed(a, e);
    }
}

/// One step keeps a configuration on track, and uses up one of the steps left.
pub proof fn lemma_step_on_track(a: AutomatonV, input: Seq<char>, c: ConfigV, d: ConfigV)
    requires
        on_track(a, input, c),
        successor(a, input, c, d),
    ensures
        on_track(a, input, d),
        steps_left(input, d) < steps_left(input, c),
        0 <= steps_left(input, d),
{
    match next_step_of(a, input, c) {
        NextStep::Closure => {
            match c.last_step {
                LastStep::NoStep => {},
                LastStep::Char(x) => {},
                LastStep::Closure => {},
            }
        },
        NextStep::Char => {
            match c.last_step {
                LastStep::NoStep => {
                    lemma_closure_of_closed(a, config_set(c));
                },
                LastStep::Char(x) => {
                    lemma_closure_of_closed(a, config_set(c));
                },
                LastStep::Closure => {},
            }
        },
        NextStep::Done => {},
    }
}

/// When no step remains, the verdict is acceptance of the whole input.
pub proof fn lemma_done_verdict(a: AutomatonV, input: Seq<char>, c: ConfigV)
    requires
        on_track(a, input, c),
        next_step_of(a, input, c) == NextStep::Done,
    ensures
        accepted_now(a, c) == accepts(a, input),
{
    let n = input.len();
    let e = Set::<Seq<char>>::empty();
    if c.current.len() == 0 {
        assert(config_set(c) =~= e);
        match c.last_step {
            LastStep::NoStep => {
                assert(set![a.initial.0].contains(a.initial.0));
            },
            LastStep::Closure => {
                lemma_empty_stays_empty(a, input, c.consumed as nat, n);
            },
            LastStep::Char(x) => {
                lemma_closure_of_closed(a, e);
                assert(reach(a, input, c.consumed as nat) == eps_closure(a, config_set(c)));
                lemma_empty_stays_empty(a, input, c.consumed as nat, n);
            },
        }
        if accepts(a, input) {
            let q = choose|q: Seq<char>| reach(a, input, n).contains(q) && is_final_state(a, q);
            assert(e.contains(q));
        }
        if accepted_now(a, c) {
            let q = choose|q: Seq<char>| config_set(c).contains(q) && is_final_state(a, q);
            assert(e.contains(q));
        }
    } else {
        match c.last_step {
            LastStep::NoStep => {
                lemma_closure_of_closed(a, config_set(c));
            },
            LastStep::Closure => {},
            LastStep::Char(x) => {
                lemma_closure_of_closed(a, config_set(c));
            },
        }
        assert(config_set(c) == reach(a, input, n));
    }
}

/// Every configuration of a history is on track.
pub proof fn lemma_history_on_track(a: AutomatonV, input: Seq<char>, h: Seq<ConfigV>, i: int)
    requires
        valid_history(a, input, h),
        0 <= i < h.len(),
    ensures
        on_track(a, input, h[i]),
    decreases i,
{
    if i == 0 {
        assert(config_set(h[0]) =~= set![a.initial.0]) by {
            assert(h[0].current =~= seq![a.initial.0]);
            assert(seq![a.initial.0].to_set() =~= set![a.initial.0]) by {
                assert(seq![a.initial.0][0] == a.initial.0);
            }
        }
    } else {
        lemma_history_on_track(a, input, h, i - 1);
        lemma_step_on_track(a, input, h[i - 1], h[i]);
    }
}

} // verus!

verus! {

/// The simulation's status in configuration `c`.
pub open spec fn status_of(a: AutomatonV, input: Seq<char>, c: ConfigV) -> Status {
    if next_step_of(a, input, c) == NextStep::Done {
        if accepted_now(a, c) {
            Status::Done(Verdict::Accepted)
        } else {
            Status::Done(Verdict::Rejected)
        }
    } else {
        Status::Running
    }
}

/// The verdict a complete simulation of `input` gives.
pub open spec fn verdict_of(a: AutomatonV, input: Seq<char>) -> Verdict {
    if accepts(a, input) {
        Verdict::Accepted
    } else {
        Verdict::Rejected
    }
}

/// Targets of all transitions.
pub open spec fn targets(a: AutomatonV) -> Set<Seq<char>> {
    a.transitions.map_values(|t: crate::parser::TransitionV| t.to.0).to_set()
}

} // verus!

verus! {

/// A history extended by a successor of its last configuration is still a history.
pub proof fn lemma_history_push(a: AutomatonV, input: Seq<char>, h: Seq<ConfigV>, d: ConfigV)
    requires
        valid_history(a, input, h),
        successor(a, input, h.last(), d),
        0 <= d.consumed <= input.len(),
    ensures
        valid_history(a, input, h.push(d)),
{
    let g = h.push(d);
    assert forall|i: int| 0 <= i < g.len() - 1 implies successor(a, input, #[trigger] g[i], g[i + 1]) by {
        if i < h.len() - 1 {
            assert(g[i] == h[i] && g[i + 1] == h[i + 1]);
        } else {
            assert(g[i] == h.last() && g[i + 1] == d);
        }
    }
    assert forall|i: int| 0 <= i < g.len() implies sorted(#[trigger] g[i].current) by {
        if i < h.len() {
            assert(g[i] == h[i]);
        }
    }
    assert forall|i: int| 0 <= i < g.len() implies 0 <= #[trigger] g[i].consumed <= input.len() by {
        if i < h.len() {
            assert(g[i] == h[i]);
        }
    }
}

/// A nonempty start of a history is a history.
pub proof fn lemma_history_prefix(a: AutomatonV, input: Seq<char>, h: Seq<ConfigV>, n: int)
    requires
        valid_history(a, input, h),
        1 <= n <= h.len(),
    ensures
        valid_history(a, input, h.take(n)),
{
    let g = h.take(n);
    assert forall|i: int| 0 <= i < g.len() - 1 implies successor(a, input, #[trigger] g[i], g[i + 1]) by {
        assert(g[i] == h[i] && g[i + 1] == h[i + 1]);
    }
    assert forall|i: int| 0 <= i < g.len() implies sorted(#[trigger] g[i].current) by {
        assert(g[i] == h[i]);
    }
    assert forall|i: int| 0 <= i < g.len() implies 0 <= #[trigger] g[i].consumed <= input.len() by {
        assert(g[i] == h[i]);
    }
}

} // verus!
