use autosim::lexer::tokenize_spanned;
use autosim::parser::{parse, Automaton, Program};
use autosim::runtime::{LastStep, NextStep, Simulator, Status, Verdict};

fn program(input: &str) -> Program {
    let spanned = tokenize_spanned(input).expect("lex falhou");
    let (tokens, spans): (Vec<_>, Vec<_>) = spanned.into_iter().unzip();
    parse(&tokens, &spans).expect("parse falhou")
}

fn automaton(input: &str) -> Automaton {
    program(input).automata.remove(0)
}

const EVEN_AS: &str = r#"
    alfabeto { 'a', 'b' }
    automato AFD pares {
        estados { q0, q1 }
        inicial q0
        finais { q0 }
        transicoes {
            q0 -> q1 com 'a'
            q1 -> q0 com 'a'
            q0 -> q0 com 'b'
            q1 -> q1 com 'b'
        }
    }
"#;

const ENDS_AB: &str = r#"
    alfabeto { 'a', 'b' }
    automato AFN termina_ab {
        estados { s, p, f }
        inicial s
        finais { f }
        transicoes {
            s -> s com 'a'
            s -> s com 'b'
            s -> p com 'a'
            p -> f com 'b'
        }
    }
"#;

const EPS_CHAIN: &str = r#"
    alfabeto { 'x' }
    automato AFN cadeia {
        estados { a, b, c }
        inicial a
        finais { c }
        transicoes {
            a -> b com eps
            b -> c com eps
        }
    }
"#;

fn current(sim: &Simulator) -> Vec<&str> {
    sim.config().current.iter().map(|s| s.as_str()).collect()
}

fn run(text: &str, input: &str) -> Verdict {
    let mut sim = Simulator::new(automaton(text), input);
    sim.run_to_end()
}

#[test]
fn dfa_even_number_of_as() {
    assert_eq!(run(EVEN_AS, ""), Verdict::Accepted);
    assert_eq!(run(EVEN_AS, "aa"), Verdict::Accepted);
    assert_eq!(run(EVEN_AS, "abab"), Verdict::Accepted);
    assert_eq!(run(EVEN_AS, "a"), Verdict::Rejected);
    assert_eq!(run(EVEN_AS, "bab"), Verdict::Rejected);
}

#[test]
fn nfa_ends_with_ab() {
    assert_eq!(run(ENDS_AB, "ab"), Verdict::Accepted);
    assert_eq!(run(ENDS_AB, "bbaab"), Verdict::Accepted);
    assert_eq!(run(ENDS_AB, "aba"), Verdict::Rejected);
    assert_eq!(run(ENDS_AB, ""), Verdict::Rejected);
}

#[test]
fn nfa_epsilon_closure_reaches_final() {
    assert_eq!(run(EPS_CHAIN, ""), Verdict::Accepted);
    assert_eq!(run(EPS_CHAIN, "x"), Verdict::Rejected);
}

#[test]
fn symbol_outside_any_transition_rejects() {
    // A character with no transition empties the set of active states.
    assert_eq!(run(EVEN_AS, "c"), Verdict::Rejected);
}

#[test]
fn new_simulator_starts_at_initial_state() {
    let sim = Simulator::new(automaton(ENDS_AB), "ab");
    assert_eq!(current(&sim), vec!["s"]);
    assert_eq!(sim.config().consumed, 0);
    assert_eq!(sim.config().last_step, LastStep::NoStep);
    assert_eq!(sim.step_count(), 0);
    assert!(sim.prev_config().is_none());
    assert_eq!(sim.input(), &['a', 'b']);
    assert_eq!(sim.history().len(), 1);
    assert_eq!(sim.automaton().name.value, "termina_ab");
}

#[test]
fn steps_of_an_nfa() {
    let mut sim = Simulator::new(automaton(ENDS_AB), "ab");
    assert_eq!(sim.next_step(), NextStep::Char);
    assert_eq!(sim.status(), Status::Running);
    assert!(sim.step_forward());
    assert_eq!(current(&sim), vec!["p", "s"]);
    assert_eq!(sim.config().last_step, LastStep::Char('a'));
    assert_eq!(sim.config().consumed, 1);
    assert!(sim.step_forward());
    assert_eq!(current(&sim), vec!["f", "s"]);
    assert_eq!(sim.next_step(), NextStep::Done);
    assert_eq!(sim.status(), Status::Done(Verdict::Accepted));
    assert!(!sim.step_forward());
    assert_eq!(sim.step_count(), 2);
}

#[test]
fn closure_step_before_reading() {
    let mut sim = Simulator::new(automaton(EPS_CHAIN), "");
    assert_eq!(sim.next_step(), NextStep::Closure);
    assert!(sim.step_forward());
    assert_eq!(current(&sim), vec!["a", "b", "c"]);
    assert_eq!(sim.config().last_step, LastStep::Closure);
    assert_eq!(sim.next_step(), NextStep::Done);
    assert_eq!(sim.status(), Status::Done(Verdict::Accepted));
}

#[test]
fn no_active_state_is_done() {
    let mut sim = Simulator::new(automaton(EVEN_AS), "ca");
    assert!(sim.step_forward());
    assert!(sim.config().current.is_empty());
    assert_eq!(sim.next_step(), NextStep::Done);
    assert_eq!(sim.status(), Status::Done(Verdict::Rejected));
    assert_eq!(sim.config().consumed, 1);
}

#[test]
fn step_back_undoes_step_forward() {
    let mut sim = Simulator::new(automaton(ENDS_AB), "ab");
    sim.step_forward();
    let before = sim.history().to_vec();
    assert!(sim.step_forward());
    assert!(sim.step_back());
    assert_eq!(sim.history(), before.as_slice());
    assert!(sim.step_back());
    assert!(!sim.step_back());
    assert_eq!(sim.step_count(), 0);
}

#[test]
fn reset_returns_to_start() {
    let mut sim = Simulator::new(automaton(EVEN_AS), "abab");
    sim.run_to_end();
    assert_eq!(sim.step_count(), 4);
    sim.reset();
    assert_eq!(sim.step_count(), 0);
    assert_eq!(current(&sim), vec!["q0"]);
    assert_eq!(sim.config().last_step, LastStep::NoStep);
}

#[test]
fn run_to_end_keeps_history() {
    let mut sim = Simulator::new(automaton(ENDS_AB), "aab");
    sim.step_forward();
    let start = sim.history().to_vec();
    assert_eq!(sim.run_to_end(), Verdict::Accepted);
    assert_eq!(&sim.history()[..start.len()], start.as_slice());
    assert_eq!(sim.status(), Status::Done(Verdict::Accepted));
}

#[test]
fn simulation_is_deterministic() {
    let mut one = Simulator::new(automaton(ENDS_AB), "abab");
    let mut two = Simulator::new(automaton(ENDS_AB), "abab");
    one.run_to_end();
    two.step_forward();
    two.step_forward();
    two.step_back();
    two.run_to_end();
    assert_eq!(one.history(), two.history());
}

#[test]
fn prev_config_is_the_one_before() {
    let mut sim = Simulator::new(automaton(EVEN_AS), "ab");
    sim.step_forward();
    let first = sim.history()[0].clone();
    assert_eq!(sim.prev_config(), Some(&first));
}
