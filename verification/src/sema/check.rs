//! The semantic checks: declarations, references, and determinism of DFAs.
use vstd::prelude::*;
use core::ops::Range;
use crate::parser::error::to_char_span;
use crate::parser::{automata_view, chars_view, names_view, simulations_view, transitions_view};
use crate::parser::{Automaton, AutomatonKind, Program, Symbol};
use super::error::{errors_view, message_with_char, message_with_name, push_error, SemaError};
use super::spec::{
    alphabet_errors, alphabet_table, automata_errors, automata_ref_errors, automata_table,
    automaton_ref_errors, determinism_errors, dfa_errors, entry_of, final_errors, finals_table,
    msg_nondeterministic, seen_table, simulation_errors, spec_errors, spec_table_alphabet,
    spec_table_automata, state_errors, states_table, transition_ref_errors, transitions_ref_errors,
};
use super::laws::{law_analysis_accepts_exactly_correct_programs, program_ok};
use super::table::{entries_view, AssocMap, AutomatonEntry, SymbolTable};

verus! {

/// Checks a parsed program. On success, the table of its alphabet and automata; else
/// every error found, in order.
pub fn analyse(program: &Program, token_spans: &[Range<usize>]) -> (r: Result<
    SymbolTable,
    Vec<SemaError>,
>)
    ensures
        match r {
            Ok(t) => {
                &&& spec_errors(program@, token_spans@).len() == 0
                &&& t.alphabet@ == spec_table_alphabet(program@, token_spans@)
                &&& entries_view(t.automata@) == spec_table_automata(program@, token_spans@)
            },
            Err(es) => {
                &&& spec_errors(program@, token_spans@).len() > 0
                &&& errors_view(es@) == spec_errors(program@, token_spans@)
            },
        },
        r is Ok <==> program_ok(program@),
{
    proof {
        law_analysis_accepts_exactly_correct_programs(program@, token_spans@);
    }
    let mut errors: Vec<SemaError> = Vec::new();
    proof {
        assert(errors_view(errors@) =~= seq![]);
    }
    let table = build_table(program, token_spans, &mut errors);
    check_references(program, &table, token_spans, &mut errors);
    check_dfa_determinism(program, token_spans, &mut errors);
    proof {
        let p = program@;
        let sp = token_spans@;
        assert(errors_view(errors@) =~= spec_errors(p, sp));
    }
    if errors.len() == 0 {
        Ok(table)
    } else {
        Err(errors)
    }
}

/// Records the alphabet and the automata, reporting repeated declarations.
fn build_table(program: &Program, token_spans: &[Range<usize>], errors: &mut Vec<SemaError>) -> (t:
    SymbolTable)
    ensures
        t.alphabet@ == alphabet_table(program@.alphabet, token_spans@),
        entries_view(t.automata@) == automata_table(program@.automata, token_spans@),
        errors_view(final(errors)@) == errors_view(old(errors)@) + alphabet_errors(
            program@.alphabet,
            token_spans@,
        ) + automata_errors(program@.automata, token_spans@),
{
    let mut table = SymbolTable::new();
    let ghost sp = token_spans@;
    let ghost al = chars_view(program.alphabet@);
    let ghost start = errors_view(errors@);
    let mut i: usize = 0;
    while i < program.alphabet.len()
        invariant
            i <= program.alphabet@.len(),
            sp == token_spans@,
            al == chars_view(program.alphabet@),
            table.alphabet@ == alphabet_table(al.take(i as int), sp),
            table.automata@ == Map::<Seq<char>, AutomatonEntry>::empty(),
            errors_view(errors@) == start + alphabet_errors(al.take(i as int), sp),
        decreases program.alphabet@.len() - i,
    {
        let sym = &program.alphabet[i];
        let span = to_char_span(&sym.span, token_spans);
        proof {
            assert(al.take(i + 1).drop_last() =~= al.take(i as int));
            assert(al.take(i + 1).last() == sym@);
        }
        match table.alphabet.get(&sym.value) {
            Some(prev) => {
                let note = Range { start: prev.start, end: prev.end };
                let msg = message_with_char("símbolo '", sym.value, "' duplicado no alfabeto");
                let e = SemaError::new(msg, span, "declarado novamente aqui").with_note(
                    note,
                    "primeira declaração",
                );
                push_error(errors, e);
            },
            None => {
                table.alphabet.insert(sym.value, span);
            },
        }
        i = i + 1;
    }
    proof {
        assert(al.take(i as int) =~= al);
    }
    let ghost mid = errors_view(errors@);
    let ghost au = automata_view(program.automata@);
    let mut j: usize = 0;
    while j < program.automata.len()
        invariant
            j <= program.automata@.len(),
            sp == token_spans@,
            au == automata_view(program.automata@),
            al == chars_view(program.alphabet@),
            table.alphabet@ == alphabet_table(al, sp),
            entries_view(table.automata@) == automata_table(au.take(j as int), sp),
            errors_view(errors@) == mid + automata_errors(au.take(j as int), sp),
        decreases program.automata@.len() - j,
    {
        let aut = &program.automata[j];
        proof {
            assert(au.take(j + 1).drop_last() =~= au.take(j as int));
            assert(au.take(j + 1).last() == aut@);
        }
        let entry = build_automaton_entry(aut, token_spans, errors);
        let name_span = to_char_span(&aut.name.span, token_spans);
        match table.automata.get(&aut.name.value) {
            Some(prev) => {
                let note = Range { start: prev.declared_at.start, end: prev.declared_at.end };
                let msg = message_with_name("autômato '", &aut.name.value, "' declarado duas vezes");
                let e = SemaError::new(msg, name_span, "redeclarado aqui").with_note(
                    note,
                    "primeira declaração",
                );
                push_error(errors, e);
                proof {
                    assert(entries_view(table.automata@)[aut@.name.0] == prev@);
                }
            },
            None => {
                let ghost before = table.automata@;
                let ghost ev = entry@;
                table.automata.insert(aut.name.value.clone(), entry);
                proof {
                    assert(entries_view(table.automata@) =~= entries_view(before).insert(
                        aut@.name.0,
                        ev,
                    ));
                }
            },
        }
        proof {
            assert(errors_view(errors@) =~= mid + automata_errors(au.take(j + 1), sp));
        }
        j = j + 1;
    }
    proof {
        assert(au.take(j as int) =~= au);
        assert(errors_view(errors@) =~= start + alphabet_errors(al, sp) + automata_errors(au, sp));
    }
    table
}

/// The entry of one automaton, reporting its repeated states.
fn build_automaton_entry(aut: &Automaton, token_spans: &[Range<usize>], errors: &mut Vec<SemaError>) -> (e:
    AutomatonEntry)
    ensures
        e@ == entry_of(aut@, token_spans@),
        errors_view(final(errors)@) == errors_view(old(errors)@) + state_errors(
            aut@.states,
            token_spans@,
        ),
{
    let ghost sp = token_spans@;
    let ghost st = names_view(aut.states@);
    let ghost start = errors_view(errors@);
    let mut states: AssocMap<String, Range<usize>> = AssocMap::new();
    let mut i: usize = 0;
    while i < aut.states.len()
        invariant
            i <= aut.states@.len(),
            sp == token_spans@,
            st == names_view(aut.states@),
            states@ == states_table(st.take(i as int), sp),
            errors_view(errors@) == start + state_errors(st.take(i as int), sp),
        decreases aut.states@.len() - i,
    {
        let s = &aut.states[i];
        let span = to_char_span(&s.span, token_spans);
        proof {
            assert(st.take(i + 1).drop_last() =~= st.take(i as int));
            assert(st.take(i + 1).last() == s@);
        }
        match states.get(&s.value) {
            Some(prev) => {
                let note = Range { start: prev.start, end: prev.end };
                let msg = message_with_name("estado '", &s.value, "' declarado duas vezes");
                let e = SemaError::new(msg, span, "redeclarado aqui").with_note(
                    note,
                    "primeira\n  declaração",
                );
                push_error(errors, e);
            },
            None => {
                states.insert(s.value.clone(), span);
            },
        }
        i = i + 1;
    }
    let ghost fs = names_view(aut.finals@);
    let mut finals: AssocMap<String, Range<usize>> = AssocMap::new();
    let mut k: usize = 0;
    while k < aut.finals.len()
        invariant
            k <= aut.finals@.len(),
            sp == token_spans@,
            fs == names_view(aut.finals@),
            finals@ == finals_table(fs.take(k as int), sp),
        decreases aut.finals@.len() - k,
    {
        let f = &aut.finals[k];
        let span = to_char_span(&f.span, token_spans);
        proof {
            assert(fs.take(k + 1).drop_last() =~= fs.take(k as int));
            assert(fs.take(k + 1).last() == f@);
        }
        finals.insert(f.value.clone(), span);
        k = k + 1;
    }
    proof {
        assert(st.take(i as int) =~= st);
        assert(fs.take(k as int) =~= fs);
    }
    AutomatonEntry {
        kind: aut.kind,
        declared_at: to_char_span(&aut.name.span, token_spans),
        states,
        initial: aut.initial.value.clone(),
        finals,
    }
}

/// Checks that each automaton's initial state, final states and transitions name
/// declared states and symbols, and that each simulation names a declared automaton.
fn check_references(
    program: &Program,
    table: &SymbolTable,
    token_spans: &[Range<usize>],
    errors: &mut Vec<SemaError>,
)
    ensures
        errors_view(final(errors)@) == errors_view(old(errors)@) + automata_ref_errors(
            program@.automata,
            entries_view(table.automata@),
            table.alphabet@,
            token_spans@,
        ) + simulation_errors(program@.simulations, entries_view(table.automata@), token_spans@),
{
    let ghost sp = token_spans@;
    let ghost au = automata_view(program.automata@);
    let ghost tv = entries_view(table.automata@);
    let ghost alpha = table.alphabet@;
    let ghost start = errors_view(errors@);
    let mut j: usize = 0;
    while j < program.automata.len()
        invariant
            j <= program.automata@.len(),
            sp == token_spans@,
            au == automata_view(program.automata@),
            tv == entries_view(table.automata@),
            alpha == table.alphabet@,
            errors_view(errors@) == start + automata_ref_errors(au.take(j as int), tv, alpha, sp),
        decreases program.automata@.len() - j,
    {
        let aut = &program.automata[j];
        proof {
            assert(au.take(j + 1).drop_last() =~= au.take(j as int));
            assert(au.take(j + 1).last() == aut@);
        }
        let ghost before = errors_view(errors@);
        match table.automata.get(&aut.name.value) {
            None => {
                assert(automaton_ref_errors(aut@, tv, alpha, sp) =~= seq![]);
            },
            Some(entry) => {
                check_automaton_references(aut, entry, table, token_spans, errors);
                assert(tv[aut@.name.0] == entry@);
            },
        }
        proof {
            assert(errors_view(errors@) =~= start + automata_ref_errors(au.take(j + 1), tv, alpha, sp));
        }
        j = j + 1;
    }
    proof {
        assert(au.take(j as int) =~= au);
    }
    let ghost mid = errors_view(errors@);
    let ghost sims = simulations_view(program.simulations@);
    let mut k: usize = 0;
    while k < program.simulations.len()
        invariant
            k <= program.simulations@.len(),
            sp == token_spans@,
            sims == simulations_view(program.simulations@),
            tv == entries_view(table.automata@),
            errors_view(errors@) == mid + simulation_errors(sims.take(k as int), tv, sp),
        decreases program.simulations@.len() - k,
    {
        let sim = &program.simulations[k];
        proof {
            assert(sims.take(k + 1).drop_last() =~= sims.take(k as int));
            assert(sims.take(k + 1).last() == sim@);
        }
        if !table.automata.contains_key(&sim.automaton.value) {
            let msg = message_with_name("autômato '", &sim.automaton.value, "' não declarado");
            let span = to_char_span(&sim.automaton.span, token_spans);
            push_error(errors, SemaError::new(msg, span, "não existe"));
        }
        k = k + 1;
    }
    proof {
        assert(sims.take(k as int) =~= sims);
        assert(errors_view(errors@) =~= start + automata_ref_errors(au, tv, alpha, sp)
            + simulation_errors(sims, tv, sp));
    }
}

/// The reference checks of one automaton against its table entry.
fn check_automaton_references(
    aut: &Automaton,
    entry: &AutomatonEntry,
    table: &SymbolTable,
    token_spans: &[Range<usize>],
    errors: &mut Vec<SemaError>,
)
    requires
        entries_view(table.automata@).contains_key(aut@.name.0),
        entries_view(table.automata@)[aut@.name.0] == entry@,
    ensures
        errors_view(final(errors)@) == errors_view(old(errors)@) + automaton_ref_errors(
            aut@,
            entries_view(table.automata@),
            table.alphabet@,
            token_spans@,
        ),
{
    let ghost sp = token_spans@;
    let ghost states = entry.states@;
    let ghost alpha = table.alphabet@;
    let ghost start = errors_view(errors@);
    if !entry.states.contains_key(&aut.initial.value) {
        let msg = message_with_name("estado inicial '", &aut.initial.value, "' não declarado");
        let span = to_char_span(&aut.initial.span, token_spans);
        push_error(errors, SemaError::new(msg, span, "não está em `estados`"));
    }
    let ghost e0 = errors_view(errors@);
    let ghost fs = names_view(aut.finals@);
    let mut i: usize = 0;
    while i < aut.finals.len()
        invariant
            i <= aut.finals@.len(),
            sp == token_spans@,
            fs == names_view(aut.finals@),
            states == entry.states@,
            errors_view(errors@) == e0 + final_errors(fs.take(i as int), states, sp),
        decreases aut.finals@.len() - i,
    {
        let f = &aut.finals[i];
        proof {
            assert(fs.take(i + 1).drop_last() =~= fs.take(i as int));
            assert(fs.take(i + 1).last() == f@);
        }
        if !entry.states.contains_key(&f.value) {
            let msg = message_with_name("estado final '", &f.value, "' não declarado");
            let span = to_char_span(&f.span, token_spans);
            push_error(errors, SemaError::new(msg, span, "não está em `estados`"));
        }
        i = i + 1;
    }
    proof {
        assert(fs.take(i as int) =~= fs);
    }
    let ghost e1 = errors_view(errors@);
    let ghost ts = transitions_view(aut.transitions@);
    let mut k: usize = 0;
    while k < aut.transitions.len()
        invariant
            k <= aut.transitions@.len(),
            sp == token_spans@,
            ts == transitions_view(aut.transitions@),
            states == entry.states@,
            alpha == table.alphabet@,
            errors_view(errors@) == e1 + transitions_ref_errors(ts.take(k as int), states, alpha, sp),
        decreases aut.transitions@.len() - k,
    {
        let t = &aut.transitions[k];
        proof {
            assert(ts.take(k + 1).drop_last() =~= ts.take(k as int));
            assert(ts.take(k + 1).last() == t@);
        }
        let ghost b = errors_view(errors@);
        if !entry.states.contains_key(&t.from.value) {
            let msg = message_with_name("estado '", &t.from.value, "' não declarado");
            let span = to_char_span(&t.from.span, token_spans);
            push_error(errors, SemaError::new(msg, span, "origem desconhecida"));
        }
        if !entry.states.contains_key(&t.to.value) {
            let msg = message_with_name("estado '", &t.to.value, "' não declarado");
            let span = to_char_span(&t.to.span, token_spans);
            push_error(errors, SemaError::new(msg, span, "destino desconhecido"));
        }
        match t.symbol.value {
            Symbol::Char(c) => {
                if !table.alphabet.contains_key(&c) {
                    let msg = message_with_char("símbolo '", c, "' não está no alfabeto");
                    let span = to_char_span(&t.symbol.span, token_spans);
                    push_error(errors, SemaError::new(msg, span, "fora do alfabeto declarado"));
                }
            },
            Symbol::Epsilon => {},
        }
        proof {
            assert(errors_view(errors@) =~= b + transition_ref_errors(t@, states, alpha, sp));
            assert(errors_view(errors@) =~= e1 + transitions_ref_errors(ts.take(k + 1), states, alpha, sp));
        }
        k = k + 1;
    }
    proof {
        assert(ts.take(k as int) =~= ts);
        assert(errors_view(errors@) =~= start + automaton_ref_errors(
            aut@,
            entries_view(table.automata@),
            alpha,
            sp,
        ));
    }
}

/// "AFD '<name>' não-determinístico: duas saídas de '<from>'" and, on the next line,
/// "com '<c>'".
fn message_nondeterministic(name: &String, from: &String, c: char) -> (m: String)
    ensures
        m@ == msg_nondeterministic(name@, from@, c),
{
    let mut m = String::from_str("AFD '");
    m.append(name.as_str());
    m.append("' não-determinístico: duas saídas de '");
    m.append(from.as_str());
    m.append("'\n  com '");
    m.push(c);
    m.append("'");
    m
}

/// Reports, in each DFA, every ε-transition and every transition that repeats the
/// origin and symbol of an earlier one.
fn check_dfa_determinism(program: &Program, token_spans: &[Range<usize>], errors: &mut Vec<SemaError>)
    ensures
        errors_view(final(errors)@) == errors_view(old(errors)@) + determinism_errors(
            program@.automata,
            token_spans@,
        ),
{
    let ghost sp = token_spans@;
    let ghost au = automata_view(program.automata@);
    let ghost start = errors_view(errors@);
    let mut j: usize = 0;
    while j < program.automata.len()
        invariant
            j <= program.automata@.len(),
            sp == token_spans@,
            au == automata_view(program.automata@),
            errors_view(errors@) == start + determinism_errors(au.take(j as int), sp),
        decreases program.automata@.len() - j,
    {
        let aut = &program.automata[j];
        proof {
            assert(au.take(j + 1).drop_last() =~= au.take(j as int));
            assert(au.take(j + 1).last() == aut@);
        }
        let ghost before = errors_view(errors@);
        match aut.kind {
            AutomatonKind::Dfa => {
                check_one_dfa(aut, token_spans, errors);
            },
            AutomatonKind::Nfa => {},
        }
        proof {
            assert(errors_view(errors@) =~= start + determinism_errors(au.take(j + 1), sp));
        }
        j = j + 1;
    }
    proof {
        assert(au.take(j as int) =~= au);
    }
}

/// The determinism checks of one DFA.
fn check_one_dfa(aut: &Automaton, token_spans: &[Range<usize>], errors: &mut Vec<SemaError>)
    ensures
        errors_view(final(errors)@) == errors_view(old(errors)@) + dfa_errors(
            aut@.name.0,
            aut@.transitions,
            token_spans@,
        ),
{
    let ghost sp = token_spans@;
    let ghost ts = transitions_view(aut.transitions@);
    let ghost start = errors_view(errors@);
    let mut seen: AssocMap<(String, char), Range<usize>> = AssocMap::new();
    let mut k: usize = 0;
    while k < aut.transitions.len()
        invariant
            k <= aut.transitions@.len(),
            sp == token_spans@,
            ts == transitions_view(aut.transitions@),
            seen@ == seen_table(ts.take(k as int), sp),
            errors_view(errors@) == start + dfa_errors(aut@.name.0, ts.take(k as int), sp),
        decreases aut.transitions@.len() - k,
    {
        let t = &aut.transitions[k];
        proof {
            assert(ts.take(k + 1).drop_last() =~= ts.take(k as int));
            assert(ts.take(k + 1).last() == t@);
        }
        match t.symbol.value {
            Symbol::Epsilon => {
                let span = to_char_span(&t.symbol.span, token_spans);
                push_error(
                    errors,
                    SemaError::new(
                        String::from_str("AFD não pode ter transição epsilon"),
                        span,
                        "use AFN se precisar de epsilon",
                    ),
                );
            },
            Symbol::Char(c) => {
                let key = (t.from.value.clone(), c);
                let span = to_char_span(&t.from.span, token_spans);
                match seen.get(&key) {
                    Some(prev) => {
                        let note = Range { start: prev.start, end: prev.end };
                        let msg = message_nondeterministic(&aut.name.value, &t.from.value, c);
                        let e = SemaError::new(msg, span, "segunda transição").with_note(
                            note,
                            "primeira transição",
                        );
                        push_error(errors, e);
                    },
                    None => {
                        seen.insert(key, span);
                    },
                }
            },
        }
        k = k + 1;
    }
    proof {
        assert(ts.take(k as int) =~= ts);
    }
}

} // verus!
