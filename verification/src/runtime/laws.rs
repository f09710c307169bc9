//! Properties of the simulator that hold across its operations.
use vstd::prelude::*;
use crate::parser::AutomatonV;
use super::simulator::{can_step, stepped, stepped_back, SimulatorV};
use super::spec::{config_set, status_of, successor, valid_history, ConfigV, Status};
use super::stateset::{lemma_lt_asym, lemma_lt_irreflexive, seq_lt, sorted};

verus! {

/// Stepping back right after a step forward gives back the simulator as it was.
pub proof fn law_step_back_undoes_step_forward(s: SimulatorV, t: SimulatorV, u: SimulatorV)
    requires
        valid_history(s.automaton, s.input, s.history),
        can_step(s),
        stepped(s, t),
        stepped_back(t, u),
    ensures
        u == s,
{
    assert(t.history.len() == s.history.len() + 1);
    assert(u.history =~= s.history);
}

/// A step forward moves exactly while the status is `Running`; once the simulation is
/// done, it stays where it is.
pub proof fn law_moves_while_running(s: SimulatorV)
    ensures
        can_step(s) <==> status_of(s.automaton, s.input, s.history.last()) == Status::Running,
{
}

/// Two sorted sequences of names with the same elements are the same sequence.
proof fn lemma_sorted_same_set(v: Seq<Seq<char>>, w: Seq<Seq<char>>)
    requires
        sorted(v),
        sorted(w),
        v.to_set() == w.to_set(),
    ensures
        v == w,
    decreases v.len(),
{
    if v.len() == 0 {
        if w.len() > 0 {
            assert(w.to_set().contains(w[0]));
        }
        assert(v =~= w);
    } else {
        assert(v.to_set().contains(v[0]));
        assert(w.len() > 0);
        assert(w.to_set().contains(w[0]));
        if v[0] != w[0] {
            let i = choose|i: int| 0 <= i < v.len() && v[i] == w[0];
            let j = choose|j: int| 0 <= j < w.len() && w[j] == v[0];
            assert(i > 0 && j > 0);
            assert(seq_lt(v[0], v[i]));
            assert(seq_lt(w[0], w[j]));
            lemma_lt_asym(v[0], w[0]);
        }
        let v1 = v.drop_first();
        let w1 = w.drop_first();
        assert forall|q: Seq<char>| v1.to_set().contains(q) <==> w1.to_set().contains(q) by {
            if v1.to_set().contains(q) {
                let i = choose|i: int| 0 <= i < v1.len() && v1[i] == q;
                assert(seq_lt(v[0], v[i + 1]));
                lemma_lt_irreflexive(q);
                assert(w.to_set().contains(q));
                let j = choose|j: int| 0 <= j < w.len() && w[j] == q;
                assert(j != 0);
                assert(w1[j - 1] == q);
            }
            if w1.to_set().contains(q) {
                let j = choose|j: int| 0 <= j < w1.len() && w1[j] == q;
                assert(seq_lt(w[0], w[j + 1]));
                lemma_lt_irreflexive(q);
                assert(v.to_set().contains(q));
                let i = choose|i: int| 0 <= i < v.len() && v[i] == q;
                assert(i != 0);
                assert(v1[i - 1] == q);
            }
        }
        assert(v1.to_set() =~= w1.to_set());
        assert(sorted(v1)) by {
            assert forall|a: int, b: int| 0 <= a < b < v1.len() implies seq_lt(#[trigger] v1[a], #[trigger] v1[b]) by {
                assert(seq_lt(v[a + 1], v[b + 1]));
            }
        }
        assert(sorted(w1)) by {
            assert forall|a: int, b: int| 0 <= a < b < w1.len() implies seq_lt(#[trigger] w1[a], #[trigger] w1[b]) by {
                assert(seq_lt(w[a + 1], w[b + 1]));
            }
        }
        lemma_sorted_same_set(v1, w1);
        assert(v =~= w) by {
            assert forall|k: int| 0 <= k < v.len() implies v[k] == w[k] by {
                if k > 0 {
                    assert(v[k] == v1[k - 1]);
                    assert(w[k] == w1[k - 1]);
                }
            }
        }
    }
}

/// The simulation is deterministic: from a configuration, a step leads to one
/// configuration only.
pub proof fn law_step_deterministic(a: AutomatonV, input: Seq<char>, c: ConfigV, d1: ConfigV, d2: ConfigV)
    requires
        successor(a, input, c, d1),
        successor(a, input, c, d2),
    ensures
        d1 == d2,
{
    assert(config_set(d1) == config_set(d2));
    lemma_sorted_same_set(d1.current, d2.current);
}

/// A simulation's history is fixed by the automaton, the input and the number of steps:
/// two histories of the same length are the same.
pub proof fn law_history_determined(a: AutomatonV, input: Seq<char>, h1: Seq<ConfigV>, h2: Seq<ConfigV>)
    requires
        valid_history(a, input, h1),
        valid_history(a, input, h2),
        h1.len() == h2.len(),
    ensures
        h1 == h2,
    decreases h1.len(),
{
    if h1.len() > 1 {
        let n = h1.len() - 1;
        super::spec::lemma_history_prefix(a, input, h1, n);
        super::spec::lemma_history_prefix(a, input, h2, n);
        law_history_determined(a, input, h1.take(n), h2.take(n));
        assert(h1[n - 1] == h1.take(n)[n - 1]);
        assert(h2[n - 1] == h2.take(n)[n - 1]);
        assert(successor(a, input, h1[n - 1], h1[n]));
        assert(successor(a, input, h2[n - 1], h2[n]));
        law_step_deterministic(a, input, h1[n - 1], h1[n], h2[n]);
        assert forall|k: int| 0 <= k < h1.len() implies h1[k] == h2[k] by {
            if k < n {
                assert(h1[k] == h1.take(n)[k]);
                assert(h2[k] == h2.take(n)[k]);
            }
        }
    }
    assert(h1 =~= h2);
}

} // verus!
