use autosim::lexer::tokenize_spanned;
use autosim::parser::parse;
use autosim::sema::{analyse, SemaError, SymbolTable};
use std::ops::Range;

fn run(input: &str) -> Result<SymbolTable, Vec<SemaError>> {
    let spanned = tokenize_spanned(input).expect("lex falhou");
    let (tokens, spans): (Vec<_>, Vec<_>) = spanned.into_iter().unzip();
    let program = parse(&tokens, &spans).expect("parse falhou");
    analyse(&program, &spans)
}

fn notes(e: &SemaError) -> Vec<(Range<usize>, &str)> {
    e.secondary.iter().map(|(r, l)| (r.clone(), l.as_str())).collect()
}

#[test]
fn duplicate_symbol_points_at_both_declarations() {
    let errors = run("alfabeto { 'a', 'a' }").unwrap_err();
    assert_eq!(errors.len(), 1);
    let e = &errors[0];
    assert_eq!(e.message, "símbolo 'a' duplicado no alfabeto");
    assert_eq!(e.primary.0, 16..19);
    assert_eq!(e.primary.1, "declarado novamente aqui");
    assert_eq!(notes(e), vec![(11..14, "primeira declaração")]);
}

#[test]
fn table_keeps_first_declaration() {
    let table = run("alfabeto { 'a', 'b' }").unwrap();
    assert_eq!(table.alphabet.get(&'a'), Some(&(11..14)));
    assert_eq!(table.alphabet.get(&'b'), Some(&(16..19)));
    assert_eq!(table.alphabet.get(&'c'), None);
    assert_eq!(table.automata.len(), 0);
}

#[test]
fn automaton_entry_records_declarations() {
    let src = "alfabeto { 'a' } automato AFN m { estados { q0, q1 } inicial q1 finais { q0, q1, q0 } transicoes { } }";
    let table = run(src).unwrap();
    let entry = table.automata.get(&String::from("m")).unwrap();
    assert_eq!(entry.initial, "q1");
    assert_eq!(entry.states.len(), 2);
    assert_eq!(entry.finals.len(), 2);
    // `m` is the 4th token: bytes 30..31.
    assert_eq!(entry.declared_at, 30..31);
    assert!(entry.states.contains_key(&String::from("q0")));
}

#[test]
fn duplicate_state_message() {
    let src = "alfabeto { 'a' } automato AFD m { estados { q0, q0 } inicial q0 finais { } transicoes { } }";
    let errors = run(src).unwrap_err();
    assert_eq!(errors.len(), 1);
    assert_eq!(errors[0].message, "estado 'q0' declarado duas vezes");
    assert_eq!(errors[0].primary.1, "redeclarado aqui");
    assert_eq!(notes(&errors[0]).len(), 1);
    assert_eq!(notes(&errors[0])[0].1, "primeira\n  declaração");
}

#[test]
fn nondeterministic_dfa_message() {
    let src = "alfabeto { 'a' } automato AFD m { estados { q0, q1 } inicial q0 finais { q1 } transicoes { q0 -> q1 com 'a' q0 -> q0 com 'a' } }";
    let errors = run(src).unwrap_err();
    assert_eq!(errors.len(), 1);
    assert_eq!(errors[0].message, "AFD 'm' não-determinístico: duas saídas de 'q0'\n  com 'a'");
    assert_eq!(errors[0].primary.1, "segunda transição");
    assert_eq!(notes(&errors[0])[0].1, "primeira transição");
}

#[test]
fn errors_come_in_check_order() {
    let src = "alfabeto { 'a', 'a' } automato AFD m { estados { q0 } inicial q5 finais { q9 } transicoes { qX -> q0 com 'z' q0 -> q0 com eps } } simular n com \"a\"";
    let errors = run(src).unwrap_err();
    let messages: Vec<&str> = errors.iter().map(|e| e.message.as_str()).collect();
    assert_eq!(
        messages,
        vec![
            "símbolo 'a' duplicado no alfabeto",
            "estado inicial 'q5' não declarado",
            "estado final 'q9' não declarado",
            "estado 'qX' não declarado",
            "símbolo 'z' não está no alfabeto",
            "autômato 'n' não declarado",
            "AFD não pode ter transição epsilon",
        ]
    );
}

#[test]
fn unknown_target_state() {
    let src = "alfabeto { 'a' } automato AFN m { estados { q0 } inicial q0 finais { } transicoes { q0 -> q7 com 'a' } }";
    let errors = run(src).unwrap_err();
    assert_eq!(errors.len(), 1);
    assert_eq!(errors[0].message, "estado 'q7' não declarado");
    assert_eq!(errors[0].primary.1, "destino desconhecido");
}

#[test]
fn redeclared_automaton_is_checked_against_first() {
    // The second `m` is reported, and its references are checked against the first.
    let src = "alfabeto { 'a' } automato AFN m { estados { q0 } inicial q0 finais { } transicoes { } } automato AFN m { estados { p } inicial p finais { } transicoes { } }";
    let errors = run(src).unwrap_err();
    let messages: Vec<&str> = errors.iter().map(|e| e.message.as_str()).collect();
    assert_eq!(
        messages,
        vec!["autômato 'm' declarado duas vezes", "estado inicial 'p' não declarado"]
    );
    assert_eq!(notes(&errors[0])[0].1, "primeira declaração");
}

#[test]
fn sema_error_builders() {
    let e = SemaError::new("m".to_string(), 1..2, "l").with_note(3..4, "n");
    assert_eq!(e.message, "m");
    assert_eq!(e.primary, (1..2, "l".to_string()));
    assert_eq!(e.secondary, vec![(3..4, "n".to_string())]);
}

#[test]
fn symbol_table_default_is_empty() {
    let t = SymbolTable::default();
    assert_eq!(t.alphabet.len(), 0);
    assert_eq!(t.automata.len(), 0);
}

#[test]
fn analysis_accepts_exactly_correct_programs() {
    let good = "alfabeto { 'a', 'b' } automato AFD m { estados { p, q } inicial p finais { q } transicoes { p -> q com 'a' p -> p com 'b' } } automato AFN n { estados { s } inicial s finais { } transicoes { s -> s com eps s -> s com eps } } simular m com \"ab\"";
    assert!(run(good).is_ok());
    let flaws = [
        // a repeated alphabet symbol
        good.replacen("'a', 'b'", "'a', 'a'", 1),
        // a repeated automaton name
        good.replacen("automato AFN n", "automato AFN m", 1),
        // a repeated state
        good.replacen("estados { p, q }", "estados { p, q, p }", 1),
        // an undeclared initial state
        good.replacen("inicial p", "inicial z", 1),
        // an undeclared final state
        good.replacen("finais { q }", "finais { z }", 1),
        // an undeclared transition end
        good.replacen("p -> q com 'a'", "p -> z com 'a'", 1),
        // a character outside the alphabet
        good.replacen("p -> p com 'b'", "p -> p com 'c'", 1),
        // an ε-transition in a DFA
        good.replacen("p -> p com 'b'", "p -> p com eps", 1),
        // two exits of a DFA state on one symbol
        good.replacen("p -> p com 'b'", "p -> p com 'a'", 1),
        // a simulation of an undeclared automaton
        good.replacen("simular m", "simular z", 1),
    ];
    for src in &flaws {
        assert!(run(src).is_err(), "{src}");
    }
}
