use vstd::prelude::*;
use crate::parser::{Automaton, AutomatonV, Symbol, TransitionV};
use super::spec::{
    accepted_now, accepts, char_move, config_set, eps_closed, eps_closure, from_of, initial_config,
    is_final_state, lemma_closure_contains, lemma_done_verdict, lemma_history_on_track,
    lemma_history_prefix, lemma_history_push,
    lemma_step_on_track, next_step_of, status_of, steps_left, successor, symbol_of, targets,
    to_of, valid_history, verdict_of, ConfigV, LastStep, NextStep, Status, Verdict,
};
use super::stateset::{
    contains_str, insert_sorted, lemma_lt_irreflexive, sorted, texts,
};

verus! {

/// One moment of a simulation.
#[derive(Debug, Clone, PartialEq, Eq)]
pub struct Configuration {
    /// Active states, in increasing order, each once.
    pub current: Vec<String>,
    /// How many input characters were read.
    pub consumed: usize,
    pub last_step: LastStep,
}

impl View for Configuration {
    type V = ConfigV;

    open spec fn view(&self) -> ConfigV {
        ConfigV { current: texts(self.current@), consumed: self.consumed as int, last_step: self.last_step }
    }
}

pub open spec fn configs_view(h: Seq<Configuration>) -> Seq<ConfigV> {
    h.map_values(|c: Configuration| c@)
}

impl Configuration {
    /// A copy with the same value.
    pub fn duplicate(&self) -> (c: Configuration)
        ensures
            c@ == self@,
    {
        let current = self.current.clone();
        assert(texts(current@) =~= texts(self.current@));
        Configuration { current, consumed: self.consumed, last_step: self.last_step }
    }
}

pub proof fn lemma_sorted_no_duplicates(v: Seq<Seq<char>>)
    requires
        sorted(v),
    ensures
        v.no_duplicates(),
{
    assert forall|i: int, j: int| 0 <= i < v.len() && 0 <= j < v.len() && i != j implies v[i] != v[j] by {
        if i < j {
            assert(super::stateset::seq_lt(v[i], v[j]));
        } else {
            assert(super::stateset::seq_lt(v[j], v[i]));
        }
        lemma_lt_irreflexive(v[i]);
    }
}

/// The ε-closure of a sorted set of states, sorted.
fn epsilon_closure(automaton: &Automaton, set: Vec<String>) -> (r: Vec<String>)
    requires
        sorted(texts(set@)),
    ensures
        sorted(texts(r@)),
        texts(r@).to_set() == eps_closure(automaton@, texts(set@).to_set()),
{
    let ghost a = automaton@;
    let ghost s0 = texts(set@).to_set();
    let ghost bound: int = (set@.len() + a.transitions.len()) as int;
    let ghost u = s0.union(targets(a));
    proof {
        lemma_closure_contains(a, s0);
        texts(set@).lemma_cardinality_of_set();
        a.transitions.map_values(|t: TransitionV| t.to.0).lemma_cardinality_of_set();
        vstd::set_lib::lemma_len_union(s0, targets(a));
    }
    let mut set = set;
    let mut changed = true;
    while changed
        invariant
            automaton@ == a,
            sorted(texts(set@)),
            s0.subset_of(texts(set@).to_set()),
            texts(set@).to_set().subset_of(eps_closure(a, s0)),
            texts(set@).to_set().subset_of(u),
            u == s0.union(targets(a)),
            u.finite(),
            u.len() <= bound,
            eps_closed(a, eps_closure(a, s0)),
            !changed ==> eps_closed(a, texts(set@).to_set()),
        decreases bound - set@.len() + if changed {
            1int
        } else {
            0int
        },
    {
        proof {
            lemma_sorted_no_duplicates(texts(set@));
            texts(set@).unique_seq_to_set();
            vstd::set_lib::lemma_len_subset(texts(set@).to_set(), u);
        }
        let ghost start = texts(set@).to_set();
        let ghost start_len = set@.len();
        changed = false;
        let mut k: usize = 0;
        while k < automaton.transitions.len()
            invariant
                automaton@ == a,
                k <= a.transitions.len(),
                sorted(texts(set@)),
                s0.subset_of(texts(set@).to_set()),
                texts(set@).to_set().subset_of(eps_closure(a, s0)),
                texts(set@).to_set().subset_of(u),
                u == s0.union(targets(a)),
                eps_closed(a, eps_closure(a, s0)),
                start_len <= set@.len(),
                changed ==> set@.len() > start_len,
                !changed ==> texts(set@).to_set() == start && set@.len() == start_len,
                !changed ==> forall|j: int|
                    0 <= j < k && symbol_of(a, j) == Symbol::Epsilon && #[trigger] start.contains(
                        from_of(a, j),
                    ) ==> start.contains(to_of(a, j)),
            decreases a.transitions.len() - k,
        {
            let tr = &automaton.transitions[k];
            proof {
                assert(a.transitions[k as int] == tr@);
            }
            if tr.symbol.value == Symbol::Epsilon && contains_str(&set, &tr.from.value) {
                let ghost before = texts(set@).to_set();
                let to = tr.to.value.clone();
                assert(to@ == to_of(a, k as int));
                let added = insert_sorted(&mut set, to);
                proof {
                    assert(eps_closure(a, s0).contains(from_of(a, k as int)));
                    assert(eps_closure(a, s0).contains(to_of(a, k as int)));
                    assert(targets(a).contains(to_of(a, k as int))) by {
                        let tos = a.transitions.map_values(|t: TransitionV| t.to.0);
                        assert(tos[k as int] == to_of(a, k as int));
                    }
                    assert(u.contains(to_of(a, k as int)));
                    assert(texts(set@).to_set() == before.insert(to_of(a, k as int)));
                }
                if added {
                    changed = true;
                }
            }
            k = k + 1;
        }
        proof {
            if changed {
                lemma_sorted_no_duplicates(texts(set@));
                texts(set@).unique_seq_to_set();
                vstd::set_lib::lemma_len_subset(texts(set@).to_set(), u);
            }
        }
    }
    proof {
        assert forall|q: Seq<char>| eps_closure(a, s0).contains(q) implies texts(set@).to_set().contains(q) by {
            let c = texts(set@).to_set();
            assert(eps_closed(a, c) && s0.subset_of(c));
        }
        assert(texts(set@).to_set() =~= eps_closure(a, s0));
    }
    set
}


/// The states reached from `set` by a transition reading `symbol`, sorted.
fn char_step(automaton: &Automaton, set: &Vec<String>, symbol: char) -> (r: Vec<String>)
    ensures
        sorted(texts(r@)),
        texts(r@).to_set() == char_move(automaton@, texts(set@).to_set(), symbol),
{
    let ghost a = automaton@;
    let ghost s = texts(set@).to_set();
    let mut next: Vec<String> = Vec::new();
    let mut k: usize = 0;
    proof {
        assert(texts(next@).to_set() =~= Set::<Seq<char>>::empty());
    }
    while k < automaton.transitions.len()
        invariant
            automaton@ == a,
            s == texts(set@).to_set(),
            k <= a.transitions.len(),
            sorted(texts(next@)),
            texts(next@).to_set() == Set::new(
                |q: Seq<char>|
                    exists|j: int|
                        0 <= j < k && symbol_of(a, j) == Symbol::Char(symbol) && s.contains(
                            from_of(a, j),
                        ) && #[trigger] to_of(a, j) == q,
            ),
        decreases a.transitions.len() - k,
    {
        let tr = &automaton.transitions[k];
        proof {
            assert(a.transitions[k as int] == tr@);
        }
        let ghost before = texts(next@).to_set();
        let hit = tr.symbol.value == Symbol::Char(symbol) && contains_str(set, &tr.from.value);
        if hit {
            let to = tr.to.value.clone();
            insert_sorted(&mut next, to);
        }
        k = k + 1;
        proof {
            let target = Set::new(
                |q: Seq<char>|
                    exists|j: int|
                        0 <= j < k && symbol_of(a, j) == Symbol::Char(symbol) && s.contains(
                            from_of(a, j),
                        ) && #[trigger] to_of(a, j) == q,
            );
            assert forall|q: Seq<char>| target.contains(q) implies texts(next@).to_set().contains(q) by {
                let j = choose|j: int|
                    0 <= j < k && symbol_of(a, j) == Symbol::Char(symbol) && s.contains(
                        from_of(a, j),
                    ) && #[trigger] to_of(a, j) == q;
                if j < k - 1 {
                    assert(before.contains(q));
                }
            }
            assert forall|q: Seq<char>| texts(next@).to_set().contains(q) implies target.contains(q) by {
                if before.contains(q) {
                    let j = choose|j: int|
                        0 <= j < k - 1 && symbol_of(a, j) == Symbol::Char(symbol) && s.contains(
                            from_of(a, j),
                        ) && #[trigger] to_of(a, j) == q;
                    assert(0 <= j < k);
                } else {
                    assert(to_of(a, k - 1) == q);
                }
            }
            assert(texts(next@).to_set() =~= target);
        }
    }
    proof {
        assert(texts(next@).to_set() =~= char_move(a, s, symbol));
    }
    next
}

/// A step-by-step simulation of an automaton on an input, keeping every configuration
/// it went through so that steps can be undone.
pub struct Simulator {
    automaton: Automaton,
    input: Vec<char>,
    history: Vec<Configuration>,
}

/// The value of a simulator: the automaton, the input, and the configurations so far.
pub struct SimulatorV {
    pub automaton: AutomatonV,
    pub input: Seq<char>,
    pub history: Seq<ConfigV>,
}

/// A step remains.
pub open spec fn can_step(s: SimulatorV) -> bool {
    next_step_of(s.automaton, s.input, s.history.last()) != NextStep::Done
}

/// The simulation is over, with a verdict.
pub open spec fn finished(s: SimulatorV) -> bool {
    status_of(s.automaton, s.input, s.history.last()) is Done
}

/// `t` is `s` after a step forward (no change when none remains).
pub open spec fn stepped(s: SimulatorV, t: SimulatorV) -> bool {
    &&& t.automaton == s.automaton
    &&& t.input == s.input
    &&& if can_step(s) {
        &&& t.history == s.history.push(t.history.last())
        &&& successor(s.automaton, s.input, s.history.last(), t.history.last())
    } else {
        t.history == s.history
    }
}

/// `t` is `s` with its last step undone (no change at the start).
pub open spec fn stepped_back(s: SimulatorV, t: SimulatorV) -> bool {
    &&& t.automaton == s.automaton
    &&& t.input == s.input
    &&& t.history == if s.history.len() > 1 {
        s.history.drop_last()
    } else {
        s.history
    }
}

/// `t` is `s` back at its start.
pub open spec fn restarted(s: SimulatorV, t: SimulatorV) -> bool {
    &&& t.automaton == s.automaton
    &&& t.input == s.input
    &&& t.history == seq![initial_config(s.automaton)]
}

impl View for Simulator {
    type V = SimulatorV;

    closed spec fn view(&self) -> SimulatorV {
        SimulatorV {
            automaton: self.automaton@,
            input: self.input@,
            history: configs_view(self.history@),
        }
    }
}

impl Simulator {
    /// The history starts at the initial configuration and follows the steps.
    pub open spec fn wf(&self) -> bool {
        valid_history(self@.automaton, self@.input, self@.history)
    }

    /// The configuration reached so far.
    pub open spec fn last(&self) -> ConfigV {
        self@.history.last()
    }

    /// A simulation of `automaton` on `input`, in its initial configuration.
    pub fn new(automaton: Automaton, input: &str) -> (s: Simulator)
        ensures
            s.wf(),
            s@.automaton == automaton@,
            s@.input == input@,
            s@.history == seq![initial_config(automaton@)],
    {
        let initial = Configuration {
            current: vec![automaton.initial.value.clone()],
            consumed: 0,
            last_step: LastStep::NoStep,
        };
        let history = vec![initial];
        let s = Simulator { automaton, input: crate::text::chars_of(input), history };
        proof {
            assert(texts(s.history@[0].current@) =~= seq![s.automaton@.initial.0]);
            assert(s@.history =~= seq![initial_config(s.automaton@)]);
        }
        s
    }

    pub fn automaton(&self) -> (a: &Automaton)
        ensures
            a@ == self@.automaton,
    {
        &self.automaton
    }

    pub fn input(&self) -> (i: &[char])
        ensures
            i@ == self@.input,
    {
        self.input.as_slice()
    }

    /// The current configuration.
    pub fn config(&self) -> (c: &Configuration)
        requires
            self.wf(),
        ensures
            c@ == self.last(),
    {
        &self.history[self.history.len() - 1]
    }

    /// The configuration before the current one, if any.
    pub fn prev_config(&self) -> (c: Option<&Configuration>)
        ensures
            match c {
                Some(p) => self@.history.len() >= 2 && p@ == self@.history[self@.history.len() - 2],
                None => self@.history.len() < 2,
            },
    {
        if self.history.len() >= 2 {
            Some(&self.history[self.history.len() - 2])
        } else {
            None
        }
    }

    /// Every configuration so far, the first one first.
    pub fn history(&self) -> (h: &[Configuration])
        ensures
            configs_view(h@) == self@.history,
    {
        self.history.as_slice()
    }

    /// How many steps were taken.
    pub fn step_count(&self) -> (n: usize)
        requires
            self.wf(),
        ensures
            n == self@.history.len() - 1,
    {
        self.history.len() - 1
    }

    /// `state` is declared final.
    fn is_final(&self, state: &String) -> (r: bool)
        ensures
            r == is_final_state(self@.automaton, state@),
    {
        let mut k: usize = 0;
        while k < self.automaton.finals.len()
            invariant
                k <= self@.automaton.finals.len(),
                forall|j: int| 0 <= j < k ==> self@.automaton.finals[j].0 != state@,
            decreases self@.automaton.finals.len() - k,
        {
            if self.automaton.finals[k].value == *state {
                assert(self@.automaton.finals[k as int].0 == state@);
                return true;
            }
            k = k + 1;
        }
        false
    }

    /// An ε-transition leads out of `set`.
    fn closure_would_expand(&self, set: &Vec<String>) -> (r: bool)
        ensures
            r == !eps_closed(self@.automaton, texts(set@).to_set()),
    {
        let ghost a = self@.automaton;
        let ghost s = texts(set@).to_set();
        let mut k: usize = 0;
        while k < self.automaton.transitions.len()
            invariant
                a == self@.automaton,
                s == texts(set@).to_set(),
                k <= a.transitions.len(),
                forall|j: int|
                    0 <= j < k && symbol_of(a, j) == Symbol::Epsilon && #[trigger] s.contains(
                        from_of(a, j),
                    ) ==> s.contains(to_of(a, j)),
            decreases a.transitions.len() - k,
        {
            let tr = &self.automaton.transitions[k];
            proof {
                assert(a.transitions[k as int] == tr@);
            }
            if tr.symbol.value == Symbol::Epsilon && contains_str(set, &tr.from.value)
                && !contains_str(set, &tr.to.value) {
                proof {
                    assert(s.contains(from_of(a, k as int)));
                    assert(!s.contains(to_of(a, k as int)));
                    assert(symbol_of(a, k as int) == Symbol::Epsilon);
                }
                return true;
            }
            k = k + 1;
        }
        false
    }

    /// What the next step will do.
    pub fn next_step(&self) -> (n: NextStep)
        requires
            self.wf(),
        ensures
            n == next_step_of(self@.automaton, self@.input, self.last()),
    {
        let cfg = self.config();
        if cfg.current.len() == 0 {
            return NextStep::Done;
        }
        match cfg.last_step {
            LastStep::Closure => {
                if cfg.consumed < self.input.len() {
                    NextStep::Char
                } else {
                    NextStep::Done
                }
            },
            _ => {
                if self.closure_would_expand(&cfg.current) {
                    NextStep::Closure
                } else if cfg.consumed < self.input.len() {
                    NextStep::Char
                } else {
                    NextStep::Done
                }
            },
        }
    }

    /// Running while a step remains; once done, accepted exactly when an active state
    /// is final.
    pub fn status(&self) -> (s: Status)
        requires
            self.wf(),
        ensures
            s == status_of(self@.automaton, self@.input, self.last()),
    {
        match self.next_step() {
            NextStep::Done => {
                let cfg = self.config();
                let ghost set = texts(cfg.current@).to_set();
                let mut i: usize = 0;
                while i < cfg.current.len()
                    invariant
                        i <= cfg.current@.len(),
                        cfg@ == self.last(),
                        next_step_of(self@.automaton, self@.input, self.last()) == NextStep::Done,
                        set == texts(cfg.current@).to_set(),
                        forall|j: int| 0 <= j < i ==> !is_final_state(self@.automaton, #[trigger] cfg.current@[j]@),
                    decreases cfg.current@.len() - i,
                {
                    if self.is_final(&cfg.current[i]) {
                        proof {
                            let q = cfg.current@[i as int]@;
                            assert(texts(cfg.current@)[i as int] == q);
                            assert(set.contains(q));
                            assert(config_set(self.last()) == set);
                            assert(is_final_state(self@.automaton, q));
                            assert(accepted_now(self@.automaton, self.last()));
                        }
                        return Status::Done(Verdict::Accepted);
                    }
                    i = i + 1;
                }
                proof {
                    if accepted_now(self@.automaton, self.last()) {
                        let q = choose|q: Seq<char>| set.contains(q) && is_final_state(self@.automaton, q);
                        let j = choose|j: int| 0 <= j < texts(cfg.current@).len() && texts(cfg.current@)[j] == q;
                        assert(cfg.current@[j]@ == q);
                    }
                }
                Status::Done(Verdict::Rejected)
            },
            _ => Status::Running,
        }
    }

    /// Takes the next step, if one remains; returns whether it did.
    pub fn step_forward(&mut self) -> (moved: bool)
        requires
            old(self).wf(),
        ensures
            final(self).wf(),
            final(self)@.automaton == old(self)@.automaton,
            final(self)@.input == old(self)@.input,
            moved == (next_step_of(old(self)@.automaton, old(self)@.input, old(self).last())
                != NextStep::Done),
            moved ==> final(self)@.history == old(self)@.history.push(final(self).last()),
            moved ==> successor(old(self)@.automaton, old(self)@.input, old(self).last(), final(self).last()),
            !moved ==> final(self)@.history == old(self)@.history,
            stepped(old(self)@, final(self)@),
    {
        let ghost a = self@.automaton;
        let ghost input = self@.input;
        let ghost h = self@.history;
        let next = match self.next_config() {
            None => {
                return false;
            },
            Some(c) => c,
        };
        let ghost d = next@;
        self.history.push(next);
        proof {
            assert(configs_view(self.history@) =~= h.push(d));
            lemma_history_push(a, input, h, d);
        }
        true
    }

    /// The configuration the next step leads to, if a step remains.
    fn next_config(&self) -> (r: Option<Configuration>)
        requires
            self.wf(),
        ensures
            r is None <==> next_step_of(self@.automaton, self@.input, self.last()) == NextStep::Done,
            r matches Some(d) ==> successor(self@.automaton, self@.input, self.last(), d@)
                && 0 <= d@.consumed <= self@.input.len(),
    {
        let n = self.next_step();
        proof {
            let i = self@.history.len() - 1;
            assert(0 <= self@.history[i].consumed <= self@.input.len());
            assert(sorted(self@.history[i].current));
        }
        match n {
            NextStep::Done => None,
            NextStep::Closure => Some(self.closure_config()),
            NextStep::Char => Some(self.char_config()),
        }
    }

    fn closure_config(&self) -> (d: Configuration)
        requires
            self@.history.len() >= 1,
            0 <= self.last().consumed <= self@.input.len(),
            sorted(self.last().current),
            next_step_of(self@.automaton, self@.input, self.last()) == NextStep::Closure,
        ensures
            successor(self@.automaton, self@.input, self.last(), d@),
            0 <= d@.consumed <= self@.input.len(),
    {
        let cfg = &self.history[self.history.len() - 1];
        let current = cfg.current.clone();
        assert(texts(current@) =~= texts(cfg.current@));
        let closed = epsilon_closure(&self.automaton, current);
        Configuration { current: closed, consumed: cfg.consumed, last_step: LastStep::Closure }
    }

    fn char_config(&self) -> (d: Configuration)
        requires
            self@.history.len() >= 1,
            0 <= self.last().consumed <= self@.input.len(),
            sorted(self.last().current),
            next_step_of(self@.automaton, self@.input, self.last()) == NextStep::Char,
        ensures
            successor(self@.automaton, self@.input, self.last(), d@),
            0 <= d@.consumed <= self@.input.len(),
    {
        let cfg = &self.history[self.history.len() - 1];
        let ghost c = self.last();
        assert(cfg@ == c);
        let n = self.input.len();
        assert(c.consumed < n);
        let symbol = self.input[cfg.consumed];
        assert(symbol == self@.input[c.consumed]);
        let current = char_step(&self.automaton, &cfg.current, symbol);
        let d = Configuration { current, consumed: cfg.consumed + 1, last_step: LastStep::Char(symbol) };
        assert(config_set(d@) == char_move(self@.automaton, config_set(c), symbol));
        assert(d@.consumed == c.consumed + 1);
        d
    }

    /// Undoes the last step, if any; returns whether it did.
    pub fn step_back(&mut self) -> (moved: bool)
        requires
            old(self).wf(),
        ensures
            final(self).wf(),
            final(self)@.automaton == old(self)@.automaton,
            final(self)@.input == old(self)@.input,
            moved == (old(self)@.history.len() > 1),
            moved ==> final(self)@.history == old(self)@.history.drop_last(),
            !moved ==> final(self)@.history == old(self)@.history,
            stepped_back(old(self)@, final(self)@),
    {
        if self.history.len() <= 1 {
            return false;
        }
        let ghost h = self@.history;
        self.history.pop();
        proof {
            assert(configs_view(self.history@) =~= h.drop_last());
            lemma_history_prefix(self@.automaton, self@.input, h, h.len() - 1);
            assert(h.take(h.len() - 1) =~= h.drop_last());
        }
        true
    }

    /// Goes back to the initial configuration.
    pub fn reset(&mut self)
        requires
            old(self).wf(),
        ensures
            final(self).wf(),
            final(self)@.automaton == old(self)@.automaton,
            final(self)@.input == old(self)@.input,
            final(self)@.history == seq![initial_config(old(self)@.automaton)],
            restarted(old(self)@, final(self)@),
    {
        let ghost h = self@.history;
        let first = self.history[0].duplicate();
        self.history.clear();
        self.history.push(first);
        proof {
            assert(configs_view(self.history@) =~= h.take(1));
            lemma_history_prefix(self@.automaton, self@.input, h, 1);
            assert(h.take(1) =~= seq![initial_config(self@.automaton)]);
        }
    }

    /// Runs the simulation to its end and gives its verdict, which is acceptance
    /// precisely when the automaton accepts the input.
    pub fn run_to_end(&mut self) -> (v: Verdict)
        requires
            old(self).wf(),
        ensures
            final(self).wf(),
            final(self)@.automaton == old(self)@.automaton,
            final(self)@.input == old(self)@.input,
            v == verdict_of(old(self)@.automaton, old(self)@.input),
            status_of(final(self)@.automaton, final(self)@.input, final(self).last()) == Status::Done(v),
            final(self)@.history.len() >= old(self)@.history.len(),
            final(self)@.history.take(old(self)@.history.len() as int) == old(self)@.history,
    {
        let ghost a = self@.automaton;
        let ghost input = self@.input;
        let ghost h0 = self@.history;
        loop
            invariant
                self.wf(),
                self@.automaton == a,
                self@.input == input,
                a == old(self)@.automaton,
                input == old(self)@.input,
                h0 == old(self)@.history,
                self@.history.len() >= h0.len(),
                self@.history.take(h0.len() as int) == h0,
            decreases steps_left(input, self.last()),
        {
            proof {
                lemma_history_on_track(a, input, self@.history, self@.history.len() - 1);
            }
            match self.status() {
                Status::Done(v) => {
                    proof {
                        lemma_done_verdict(a, input, self.last());
                    }
                    return v;
                },
                Status::Running => {
                    let ghost before = self.last();
                    let ghost hb = self@.history;
                    self.step_forward();
                    proof {
                        lemma_step_on_track(a, input, before, self.last());
                        assert(self@.history.take(h0.len() as int) =~= hb.take(h0.len() as int));
                    }
                },
            }
        }
    }
}

} // verus!
