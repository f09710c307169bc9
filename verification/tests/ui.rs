use autosim::lexer::tokenize_spanned;
use autosim::parser::{parse, Program};
use autosim::runtime::{Simulator, Status, Verdict};
use autosim::ui::{
    active_transitions, choices, edge_groups, format_set, input_cells, make_simulator, next_text,
    resolves, state_indices, state_looks, status_text, step_label, update, Control, EdgeGroup,
    InputCell, Session, SimChoice, StateLook, Tone,
};

fn program(input: &str) -> Program {
    let spanned = tokenize_spanned(input).expect("lex falhou");
    let (tokens, spans): (Vec<_>, Vec<_>) = spanned.into_iter().unzip();
    parse(&tokens, &spans).expect("parse falhou")
}

const SRC: &str = r#"
    alfabeto { 'a', 'b' }
    automato AFN n {
        estados { s, p, f }
        inicial s
        finais { f }
        transicoes {
            s -> s com 'a'
            s -> p com 'a'
            p -> f com 'b'
            s -> s com 'b'
            p -> s com eps
        }
    }
    automato AFD d {
        estados { q0 }
        inicial q0
        finais { q0 }
        transicoes { q0 -> q0 com 'a' }
    }
    simular n com "ab"
    simular d com ""
    simular nada com "x"
"#;

#[test]
fn picker_entries() {
    let p = program(SRC);
    let c = choices(&p);
    assert_eq!(
        c,
        vec![
            SimChoice { index: 0, label: "n com \"ab\"".to_string() },
            SimChoice { index: 1, label: "d com \"\"".to_string() },
            SimChoice { index: 2, label: "nada com \"x\"".to_string() },
        ]
    );
}

#[test]
fn resolves_only_declared_automata() {
    let p = program(SRC);
    assert!(resolves(&p, 0));
    assert!(resolves(&p, 1));
    assert!(!resolves(&p, 2));
    assert!(!resolves(&p, 3));
}

#[test]
fn make_simulator_picks_named_automaton() {
    let p = program(SRC);
    let sim = make_simulator(&p, 1);
    assert_eq!(sim.automaton().name.value, "d");
    assert!(sim.input().is_empty());
    assert_eq!(sim.step_count(), 0);
}

#[test]
fn format_set_texts() {
    assert_eq!(format_set(&vec![]), "∅");
    assert_eq!(format_set(&vec!["q0".to_string()]), "q0");
    assert_eq!(format_set(&vec!["a".to_string(), "b".to_string(), "c".to_string()]), "{a,b,c}");
}

#[test]
fn history_labels() {
    let p = program(SRC);
    let mut sim = make_simulator(&p, 0);
    sim.step_forward();
    sim.step_forward();
    let h = sim.history();
    assert_eq!(step_label(&h[0], &h[1]), "'a': s>{p,s}");
    assert_eq!(step_label(&h[1], &h[2]), "'b': {p,s}>{f,s}");
    assert_eq!(step_label(&h[1], &h[0]), "—");
}

#[test]
fn next_step_texts() {
    let p = program(SRC);
    let mut sim = make_simulator(&p, 0);
    assert_eq!(next_text(&sim), "'a'");
    sim.step_forward();
    assert_eq!(next_text(&sim), "'b'");
    let sim2 = make_simulator(&p, 1);
    assert_eq!(next_text(&sim2), "—");
}

#[test]
fn active_transitions_of_last_step() {
    let p = program(SRC);
    let mut sim = make_simulator(&p, 0);
    assert!(active_transitions(&sim, sim.automaton()).is_empty());
    sim.step_forward();
    // Reading 'a' from {s}: s -> s and s -> p.
    assert_eq!(active_transitions(&sim, sim.automaton()), vec![0, 1]);
    sim.step_forward();
    // Reading 'b' from {p, s}: p -> f and s -> s.
    assert_eq!(active_transitions(&sim, sim.automaton()), vec![2, 3]);
}

#[test]
fn indices_of_states() {
    let p = program(SRC);
    let idx = state_indices(&p.automata[0]);
    assert_eq!(idx.len(), 3);
    assert_eq!(idx.get(&"s".to_string()), Some(&0));
    assert_eq!(idx.get(&"f".to_string()), Some(&2));
    assert_eq!(idx.get(&"x".to_string()), None);
}

#[test]
fn arrows_grouped_by_states() {
    let p = program(SRC);
    let a = &p.automata[0];
    let idx = state_indices(a);
    let groups = edge_groups(a, &idx, &vec![1]);
    assert_eq!(
        groups,
        vec![
            EdgeGroup { from: 0, to: 0, label: "'a','b'".to_string(), active: false, flip: false },
            EdgeGroup { from: 0, to: 1, label: "'a'".to_string(), active: true, flip: false },
            EdgeGroup { from: 1, to: 2, label: "'b'".to_string(), active: false, flip: false },
            EdgeGroup { from: 1, to: 0, label: "ε".to_string(), active: false, flip: true },
        ]
    );
}

#[test]
fn input_cell_kinds() {
    let p = program(SRC);
    let mut sim = make_simulator(&p, 0);
    assert_eq!(input_cells(&sim), vec![InputCell::Next, InputCell::Pending]);
    sim.step_forward();
    assert_eq!(input_cells(&sim), vec![InputCell::Read, InputCell::Next]);
    sim.run_to_end();
    assert_eq!(input_cells(&sim), vec![InputCell::Read, InputCell::Read]);
}

#[test]
fn rejected_character_is_marked() {
    let src = "alfabeto { 'a', 'b' } automato AFD m { estados { q } inicial q finais { q } transicoes { q -> q com 'a' } } simular m com \"aba\"";
    let p = program(src);
    let mut sim = make_simulator(&p, 0);
    sim.run_to_end();
    assert_eq!(input_cells(&sim), vec![InputCell::Read, InputCell::Rejected, InputCell::Pending]);
}

#[test]
fn state_looks_follow_status() {
    let p = program(SRC);
    let mut sim = make_simulator(&p, 0);
    let running = state_looks(&sim);
    assert_eq!(running[0], StateLook { tone: Tone::Active, is_final: false, pulse: true });
    assert_eq!(running[2], StateLook { tone: Tone::Idle, is_final: true, pulse: false });
    sim.run_to_end();
    assert_eq!(sim.status(), Status::Done(Verdict::Accepted));
    let done = state_looks(&sim);
    assert_eq!(done[2], StateLook { tone: Tone::Accepted, is_final: true, pulse: false });
}

#[test]
fn session_controls() {
    let p = program(SRC);
    let mut s = Session::new(p);
    assert_eq!(s.selected().index, 0);
    assert!(!s.auto());
    assert_eq!(status_text(&s), "Pausado");
    update(&mut s, Control::StepForward);
    assert_eq!(s.simulator().step_count(), 1);
    update(&mut s, Control::ToggleAuto);
    assert!(s.auto());
    assert_eq!(status_text(&s), "Rodando...");
    update(&mut s, Control::Tick);
    assert!(s.auto());
    assert_eq!(s.simulator().step_count(), 2);
    update(&mut s, Control::Tick);
    assert!(!s.auto());
    assert_eq!(status_text(&s), "ACEITA");
    update(&mut s, Control::StepBack);
    assert_eq!(s.simulator().step_count(), 1);
    update(&mut s, Control::Reset);
    assert_eq!(s.simulator().step_count(), 0);
}

#[test]
fn toggle_auto_restarts_finished_run() {
    let p = program(SRC);
    let mut s = Session::new(p);
    let choice = SimChoice { index: 1, label: "d com \"\"".to_string() };
    assert!(s.can_select(&choice));
    update(&mut s, Control::SelectSimulation(choice));
    assert_eq!(s.selected().index, 1);
    assert_eq!(status_text(&s), "ACEITA");
    let mut sim = Simulator::new(s.simulator().automaton().clone(), "");
    assert_eq!(sim.run_to_end(), Verdict::Accepted);
    update(&mut s, Control::ToggleAuto);
    assert!(s.auto());
    assert_eq!(s.simulator().step_count(), 0);
    assert!(!s.can_select(&SimChoice { index: 2, label: String::new() }));
}

#[test]
fn accepted_program_resolves_and_joins_states() {
    let src = r#"
        alfabeto { 'a' }
        automato AFN x { estados { p, q } inicial p finais { q } transicoes { p -> q com 'a' q -> p com eps } }
        automato AFD y { estados { r } inicial r finais { } transicoes { r -> r com 'a' } }
        simular y com "aa"
        simular x com "a"
    "#;
    let spanned = tokenize_spanned(src).unwrap();
    let (tokens, spans): (Vec<_>, Vec<_>) = spanned.into_iter().unzip();
    let p = parse(&tokens, &spans).unwrap();
    assert!(autosim::sema::analyse(&p, &spans).is_ok());
    for i in 0..p.simulations.len() {
        assert!(resolves(&p, i));
    }
    for a in &p.automata {
        let idx = state_indices(a);
        for t in &a.transitions {
            assert!(idx.contains_key(&t.from.value));
            assert!(idx.contains_key(&t.to.value));
        }
    }
}

#[test]
fn program_clone_keeps_spans() {
    let p = program(SRC);
    let q = p.clone();
    assert_eq!(p, q);
    assert_eq!(q.automata[0].name.span, p.automata[0].name.span);
}

#[test]
fn history_label_of_closure() {
    let src = "alfabeto { 'x' } automato AFN c { estados { a, b } inicial a finais { b } transicoes { a -> b com eps } } simular c com \"\"";
    let p = program(src);
    let mut sim = make_simulator(&p, 0);
    assert_eq!(next_text(&sim), "ε");
    sim.step_forward();
    let h = sim.history();
    assert_eq!(step_label(&h[0], &h[1]), "ε: a>{a,b}");
    assert_eq!(active_transitions(&sim, sim.automaton()), vec![0]);
}
