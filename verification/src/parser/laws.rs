//! What the parser makes of well-formed declarations, stated over the tokens they are
//! written with.
use vstd::prelude::*;
use crate::lexer::TokenV;
use super::ast::{AutomatonKind, AutomatonV, NameV, SimulationV, Symbol, TransitionV};
use super::spec::{
    transition_at, automaton_at, chars_after_item, chars_after_open, items_from, names_after_item,
    names_after_open, simulation_at, spec_parse_tokens, transitions_from,
};

verus! {

// ---- declarations and the tokens they are written with ------------------------------------

/// A transition by its values: origin, target and symbol.
pub type TransitionShape = (Seq<char>, Seq<char>, Symbol);

/// An automaton declaration by its values.
pub struct AutomatonShape {
    pub kind: AutomatonKind,
    pub name: Seq<char>,
    pub states: Seq<Seq<char>>,
    pub initial: Seq<char>,
    pub finals: Seq<Seq<char>>,
    pub transitions: Seq<TransitionShape>,
}

/// What may follow the alphabet: an automaton or a simulation (automaton name, input).
pub enum ItemShape {
    Automaton(AutomatonShape),
    Simulation(Seq<char>, Seq<char>),
}

/// The items of a `{ ... }` list of names after its `{`: the names separated by commas,
/// then `}`.
pub open spec fn name_items(ns: Seq<Seq<char>>) -> Seq<TokenV>
    decreases ns.len(),
{
    if ns.len() == 0 {
        seq![TokenV::BraceClose]
    } else if ns.len() == 1 {
        seq![TokenV::Ident(ns[0]), TokenV::BraceClose]
    } else {
        seq![TokenV::Ident(ns[0]), TokenV::Comma] + name_items(ns.drop_first())
    }
}

/// A list's items after its `{`: the tokens separated by commas, then `}`.
pub open spec fn list_items(xs: Seq<TokenV>) -> Seq<TokenV>
    decreases xs.len(),
{
    if xs.len() == 0 {
        seq![TokenV::BraceClose]
    } else if xs.len() == 1 {
        seq![xs[0], TokenV::BraceClose]
    } else {
        seq![xs[0], TokenV::Comma] + list_items(xs.drop_first())
    }
}

pub open spec fn symbol_token(s: Symbol) -> TokenV {
    match s {
        Symbol::Char(c) => TokenV::CharLiteral(c),
        Symbol::Epsilon => TokenV::Epsilon,
    }
}

/// `from -> to com symbol`.
pub open spec fn transition_tokens(t: TransitionShape) -> Seq<TokenV> {
    seq![TokenV::Ident(t.0), TokenV::Arrow, TokenV::Ident(t.1), TokenV::With, symbol_token(t.2)]
}

/// The transitions one after the other, then `}`.
pub open spec fn transition_items(ts: Seq<TransitionShape>) -> Seq<TokenV>
    decreases ts.len(),
{
    if ts.len() == 0 {
        seq![TokenV::BraceClose]
    } else {
        transition_tokens(ts[0]) + transition_items(ts.drop_first())
    }
}

pub open spec fn kind_token(k: AutomatonKind) -> TokenV {
    match k {
        AutomatonKind::Dfa => TokenV::DFA,
        AutomatonKind::Nfa => TokenV::NFA,
    }
}

/// `automato <kind> <name> { estados { .. } inicial <name> finais { .. } transicoes { .. } }`.
pub open spec fn automaton_tokens(a: AutomatonShape) -> Seq<TokenV> {
    seq![
        TokenV::Automaton,
        kind_token(a.kind),
        TokenV::Ident(a.name),
        TokenV::BraceOpen,
        TokenV::States,
        TokenV::BraceOpen,
    ] + name_items(a.states) + seq![
        TokenV::Initial,
        TokenV::Ident(a.initial),
        TokenV::Final,
        TokenV::BraceOpen,
    ] + name_items(a.finals) + seq![TokenV::Transitions, TokenV::BraceOpen] + transition_items(a.transitions)
        + seq![TokenV::BraceClose]
}

/// `simular <name> com "<input>"`.
pub open spec fn simulation_tokens(name: Seq<char>, input: Seq<char>) -> Seq<TokenV> {
    seq![TokenV::Simulate, TokenV::Ident(name), TokenV::With, TokenV::StringLiteral(input)]
}

pub open spec fn item_tokens(i: ItemShape) -> Seq<TokenV> {
    match i {
        ItemShape::Automaton(a) => automaton_tokens(a),
        ItemShape::Simulation(n, t) => simulation_tokens(n, t),
    }
}

/// The items one after the other.
pub open spec fn items_tokens(is: Seq<ItemShape>) -> Seq<TokenV>
    decreases is.len(),
{
    if is.len() == 0 {
        seq![]
    } else {
        item_tokens(is[0]) + items_tokens(is.drop_first())
    }
}

/// `alfabeto { s1, .., sk }` (the symbols being character literals) followed by the items.
pub open spec fn program_tokens(symbols: Seq<TokenV>, is: Seq<ItemShape>) -> Seq<TokenV> {
    seq![TokenV::Alphabet, TokenV::BraceOpen] + list_items(symbols) + items_tokens(is)
}

/// The automata among the items, in order.
pub open spec fn automata_of(is: Seq<ItemShape>) -> Seq<AutomatonShape>
    decreases is.len(),
{
    if is.len() == 0 {
        seq![]
    } else {
        match is[0] {
            ItemShape::Automaton(a) => seq![a] + automata_of(is.drop_first()),
            ItemShape::Simulation(_, _) => automata_of(is.drop_first()),
        }
    }
}

/// The simulations among the items, in order.
pub open spec fn simulations_of(is: Seq<ItemShape>) -> Seq<(Seq<char>, Seq<char>)>
    decreases is.len(),
{
    if is.len() == 0 {
        seq![]
    } else {
        match is[0] {
            ItemShape::Automaton(_) => simulations_of(is.drop_first()),
            ItemShape::Simulation(n, t) => seq![(n, t)] + simulations_of(is.drop_first()),
        }
    }
}

// ---- parsed values without their token ranges ----------------------------------------------

pub open spec fn name_texts(ns: Seq<NameV>) -> Seq<Seq<char>> {
    ns.map_values(|n: NameV| n.0)
}

// ---- the tokens from position `q` on are `l` --------------------------------------------------

pub open spec fn at(ts: Seq<TokenV>, q: int, l: Seq<TokenV>) -> bool {
    &&& 0 <= q
    &&& q + l.len() <= ts.len()
    &&& ts.subrange(q, q + l.len()) == l
}

proof fn lemma_at_index(ts: Seq<TokenV>, q: int, l: Seq<TokenV>, i: int)
    requires
        at(ts, q, l),
        0 <= i < l.len(),
    ensures
        ts[q + i] == l[i],
{
    assert(ts.subrange(q, q + l.len())[i] == ts[q + i]);
}

proof fn lemma_at_split(ts: Seq<TokenV>, q: int, l1: Seq<TokenV>, l2: Seq<TokenV>)
    requires
        at(ts, q, l1 + l2),
    ensures
        at(ts, q, l1),
        at(ts, q + l1.len(), l2),
{
    let whole = ts.subrange(q, q + l1.len() + l2.len());
    assert(ts.subrange(q, q + l1.len()) =~= whole.subrange(0, l1.len() as int));
    assert((l1 + l2).subrange(0, l1.len() as int) =~= l1);
    assert(ts.subrange(q + l1.len(), q + l1.len() + l2.len()) =~= whole.subrange(l1.len() as int, whole.len() as int));
    assert((l1 + l2).subrange(l1.len() as int, (l1 + l2).len() as int) =~= l2);
}

// ---- each rule on well-formed tokens ------------------------------------------------------------

proof fn lemma_names(ts: Seq<TokenV>, q: int, ns: Seq<Seq<char>>)
    requires
        at(ts, q, name_items(ns)),
    ensures
        names_after_open(ts, q) is Ok,
        names_after_open(ts, q)->Ok_0.1 == q + name_items(ns).len(),
        name_texts(names_after_open(ts, q)->Ok_0.0) == ns,
    decreases ns.len(),
{
    let l = name_items(ns);
    lemma_at_index(ts, q, l, 0);
    if ns.len() == 0 {
        assert(name_texts(Seq::<NameV>::empty()) =~= ns);
    } else if ns.len() == 1 {
        lemma_at_index(ts, q, l, 1);
        assert(names_after_item(ts, q + 1) == Ok::<(Seq<NameV>, int), super::spec::PFail>((seq![], q + 2)));
        let xs = names_after_open(ts, q)->Ok_0.0;
        assert(name_texts(xs) =~= ns);
    } else {
        let rest = name_items(ns.drop_first());
        lemma_at_index(ts, q, l, 1);
        lemma_at_split(ts, q, seq![TokenV::Ident(ns[0]), TokenV::Comma], rest);
        lemma_names(ts, q + 2, ns.drop_first());
        assert(names_after_item(ts, q + 1) == names_after_open(ts, q + 2));
        let xs2 = names_after_open(ts, q + 2)->Ok_0.0;
        let xs = names_after_open(ts, q)->Ok_0.0;
        assert(xs == seq![super::spec::name_at(ts, q)] + xs2);
        assert(name_texts(xs) =~= seq![ns[0]] + name_texts(xs2));
        assert(seq![ns[0]] + ns.drop_first() =~= ns);
    }
}

proof fn lemma_chars(ts: Seq<TokenV>, q: int, xs: Seq<TokenV>)
    requires
        at(ts, q, list_items(xs)),
        forall|i: int| 0 <= i < xs.len() ==> (#[trigger] xs[i]) is CharLiteral,
    ensures
        chars_after_open(ts, q) is Ok,
        chars_after_open(ts, q)->Ok_0.1 == q + list_items(xs).len(),
        chars_after_open(ts, q)->Ok_0.0.len() == xs.len(),
        forall|i: int|
            0 <= i < xs.len() ==> #[trigger] xs[i] == TokenV::CharLiteral(chars_after_open(ts, q)->Ok_0.0[i].0),
    decreases xs.len(),
{
    let l = list_items(xs);
    lemma_at_index(ts, q, l, 0);
    if xs.len() == 1 {
        lemma_at_index(ts, q, l, 1);
        assert(xs[0] is CharLiteral);
        assert(chars_after_item(ts, q + 1) == Ok::<(Seq<(char, core::ops::Range<usize>)>, int), super::spec::PFail>((seq![], q + 2)));
    } else if xs.len() > 1 {
        let rest = list_items(xs.drop_first());
        lemma_at_index(ts, q, l, 1);
        assert(xs[0] is CharLiteral);
        lemma_at_split(ts, q, seq![xs[0], TokenV::Comma], rest);
        assert forall|i: int| 0 <= i < xs.drop_first().len() implies (#[trigger] xs.drop_first()[i]) is CharLiteral by {
            assert(xs.drop_first()[i] == xs[i + 1]);
        }
        lemma_chars(ts, q + 2, xs.drop_first());
        assert(chars_after_item(ts, q + 1) == chars_after_open(ts, q + 2));
        let ys2 = chars_after_open(ts, q + 2)->Ok_0.0;
        let ys = chars_after_open(ts, q)->Ok_0.0;
        assert(ys == seq![(ts[q]->CharLiteral_0, super::spec::one(q))] + ys2);
        assert forall|i: int| 0 <= i < xs.len() implies #[trigger] xs[i] == TokenV::CharLiteral(ys[i].0) by {
            if i > 0 {
                assert(xs[i] == xs.drop_first()[i - 1]);
                assert(ys[i] == ys2[i - 1]);
            }
        }
    }
}

proof fn lemma_transitions(ts: Seq<TokenV>, q: int, trs: Seq<TransitionShape>)
    requires
        at(ts, q, transition_items(trs)),
    ensures
        transitions_from(ts, q) is Ok,
        transitions_from(ts, q)->Ok_0.1 == q + transition_items(trs).len(),
        transitions_from(ts, q)->Ok_0.0.len() == trs.len(),
        forall|i: int|
            0 <= i < trs.len() ==> (#[trigger] transitions_from(ts, q)->Ok_0.0[i]).from.0 == trs[i].0
                && transitions_from(ts, q)->Ok_0.0[i].to.0 == trs[i].1
                && transitions_from(ts, q)->Ok_0.0[i].symbol.0 == trs[i].2,
    decreases trs.len(),
{
    let l = transition_items(trs);
    if trs.len() == 0 {
        lemma_at_index(ts, q, l, 0);
    } else {
        let t = trs[0];
        let first = transition_tokens(t);
        let rest = transition_items(trs.drop_first());
        assert(l == first + rest);
        lemma_at_split(ts, q, first, rest);
        lemma_at_index(ts, q, first, 0);
        lemma_at_index(ts, q, first, 1);
        lemma_at_index(ts, q, first, 2);
        lemma_at_index(ts, q, first, 3);
        lemma_at_index(ts, q, first, 4);
        let tr = transition_at(ts, q);
        match t.2 {
            Symbol::Char(c) => {
                assert(ts[q + 4] == TokenV::CharLiteral(c));
            },
            Symbol::Epsilon => {
                assert(ts[q + 4] == TokenV::Epsilon);
            },
        }
        assert(tr is Ok);
        assert(tr->Ok_0.1 == q + 5);
        assert(tr->Ok_0.0.from.0 == t.0 && tr->Ok_0.0.to.0 == t.1 && tr->Ok_0.0.symbol.0 == t.2);
        lemma_transitions(ts, q + 5, trs.drop_first());
        let r2 = transitions_from(ts, q + 5)->Ok_0.0;
        let r = transitions_from(ts, q)->Ok_0.0;
        assert(r == seq![tr->Ok_0.0] + r2);
        assert forall|i: int| 0 <= i < trs.len() implies (#[trigger] r[i]).from.0 == trs[i].0 && r[i].to.0
            == trs[i].1 && r[i].symbol.0 == trs[i].2 by {
            if i > 0 {
                assert(r[i] == r2[i - 1]);
                assert(trs[i] == trs.drop_first()[i - 1]);
            }
        }
    }
}

/// `av` is the automaton declared by `a`.
pub open spec fn automaton_matches(av: AutomatonV, a: AutomatonShape) -> bool {
    &&& av.kind == a.kind
    &&& av.name.0 == a.name
    &&& name_texts(av.states) == a.states
    &&& av.initial.0 == a.initial
    &&& name_texts(av.finals) == a.finals
    &&& av.transitions.len() == a.transitions.len()
    &&& forall|i: int|
        0 <= i < a.transitions.len() ==> (#[trigger] av.transitions[i]).from.0 == a.transitions[i].0
            && av.transitions[i].to.0 == a.transitions[i].1 && av.transitions[i].symbol.0 == a.transitions[i].2
}

/// `sv` is the simulation of automaton `name` on `input`.
pub open spec fn simulation_matches(sv: SimulationV, name: Seq<char>, input: Seq<char>) -> bool {
    sv.automaton.0 == name && sv.input == input
}

proof fn lemma_automaton(ts: Seq<TokenV>, q: int, a: AutomatonShape)
    requires
        at(ts, q, automaton_tokens(a)),
    ensures
        automaton_at(ts, q) is Ok,
        automaton_at(ts, q)->Ok_0.1 == q + automaton_tokens(a).len(),
        automaton_matches(automaton_at(ts, q)->Ok_0.0, a),
{
    let p1 = seq![
        TokenV::Automaton,
        kind_token(a.kind),
        TokenV::Ident(a.name),
        TokenV::BraceOpen,
        TokenV::States,
        TokenV::BraceOpen,
    ];
    let sl = name_items(a.states);
    let b4 = seq![TokenV::Initial, TokenV::Ident(a.initial), TokenV::Final, TokenV::BraceOpen];
    let fl = name_items(a.finals);
    let c2 = seq![TokenV::Transitions, TokenV::BraceOpen];
    let tl = transition_items(a.transitions);
    let e1 = seq![TokenV::BraceClose];
    let p2 = p1 + sl;
    let p3 = p2 + b4;
    let p4 = p3 + fl;
    let p5 = p4 + c2;
    let p6 = p5 + tl;
    assert(automaton_tokens(a) == p6 + e1);
    lemma_at_split(ts, q, p6, e1);
    lemma_at_split(ts, q, p5, tl);
    lemma_at_split(ts, q, p4, c2);
    lemma_at_split(ts, q, p3, fl);
    lemma_at_split(ts, q, p2, b4);
    lemma_at_split(ts, q, p1, sl);
    lemma_at_index(ts, q, p1, 0);
    lemma_at_index(ts, q, p1, 1);
    lemma_at_index(ts, q, p1, 2);
    lemma_at_index(ts, q, p1, 3);
    lemma_at_index(ts, q, p1, 4);
    lemma_at_index(ts, q, p1, 5);
    let r = q + p2.len();
    lemma_at_index(ts, r, b4, 0);
    lemma_at_index(ts, r, b4, 1);
    lemma_at_index(ts, r, b4, 2);
    lemma_at_index(ts, r, b4, 3);
    let u = q + p4.len();
    lemma_at_index(ts, u, c2, 0);
    lemma_at_index(ts, u, c2, 1);
    let w = q + p6.len();
    lemma_at_index(ts, w, e1, 0);
    lemma_names(ts, q + 6, a.states);
    lemma_names(ts, r + 4, a.finals);
    lemma_transitions(ts, u + 2, a.transitions);
    assert(super::spec::names_list(ts, q + 5) == names_after_open(ts, q + 6));
    assert(super::spec::names_list(ts, r + 3) == names_after_open(ts, r + 4));
    match a.kind {
        AutomatonKind::Dfa => {},
        AutomatonKind::Nfa => {},
    }
    let av = automaton_at(ts, q)->Ok_0.0;
    assert(automaton_matches(av, a));
}

proof fn lemma_simulation(ts: Seq<TokenV>, q: int, name: Seq<char>, input: Seq<char>)
    requires
        at(ts, q, simulation_tokens(name, input)),
    ensures
        simulation_at(ts, q) is Ok,
        simulation_at(ts, q)->Ok_0.1 == q + 4,
        simulation_matches(simulation_at(ts, q)->Ok_0.0, name, input),
{
    let l = simulation_tokens(name, input);
    lemma_at_index(ts, q, l, 0);
    lemma_at_index(ts, q, l, 1);
    lemma_at_index(ts, q, l, 2);
    lemma_at_index(ts, q, l, 3);
}

/// The parsed automata are the declared ones, in order.
pub open spec fn automata_match(avs: Seq<AutomatonV>, shapes: Seq<AutomatonShape>) -> bool {
    &&& avs.len() == shapes.len()
    &&& forall|i: int| 0 <= i < shapes.len() ==> automaton_matches(#[trigger] avs[i], shapes[i])
}

/// The parsed simulations are the declared ones, in order.
pub open spec fn simulations_match(svs: Seq<SimulationV>, shapes: Seq<(Seq<char>, Seq<char>)>) -> bool {
    &&& svs.len() == shapes.len()
    &&& forall|i: int| 0 <= i < shapes.len() ==> simulation_matches(#[trigger] svs[i], shapes[i].0, shapes[i].1)
}

proof fn lemma_items(ts: Seq<TokenV>, q: int, is: Seq<ItemShape>)
    requires
        at(ts, q, items_tokens(is)),
        q + items_tokens(is).len() == ts.len(),
    ensures
        items_from(ts, q) is Ok,
        automata_match(items_from(ts, q)->Ok_0.0, automata_of(is)),
        simulations_match(items_from(ts, q)->Ok_0.1, simulations_of(is)),
    decreases is.len(),
{
    if is.len() > 0 {
        let first = item_tokens(is[0]);
        let rest = items_tokens(is.drop_first());
        assert(items_tokens(is) == first + rest);
        lemma_at_split(ts, q, first, rest);
        let e = q + first.len();
        lemma_items(ts, e, is.drop_first());
        let (autos2, sims2) = items_from(ts, e)->Ok_0;
        match is[0] {
            ItemShape::Automaton(a) => {
                lemma_automaton(ts, q, a);
                lemma_at_index(ts, q, first, 0);
                let av = automaton_at(ts, q)->Ok_0.0;
                let (autos, sims) = items_from(ts, q)->Ok_0;
                assert(autos == seq![av] + autos2);
                assert(sims == sims2);
                let shapes = automata_of(is);
                assert(shapes == seq![a] + automata_of(is.drop_first()));
                assert forall|i: int| 0 <= i < shapes.len() implies automaton_matches(#[trigger] autos[i], shapes[i]) by {
                    if i > 0 {
                        assert(autos[i] == autos2[i - 1]);
                        assert(shapes[i] == automata_of(is.drop_first())[i - 1]);
                    }
                }
                assert(simulations_of(is) == simulations_of(is.drop_first()));
            },
            ItemShape::Simulation(n, t) => {
                lemma_simulation(ts, q, n, t);
                lemma_at_index(ts, q, first, 0);
                let sv = simulation_at(ts, q)->Ok_0.0;
                let (autos, sims) = items_from(ts, q)->Ok_0;
                assert(sims == seq![sv] + sims2);
                assert(autos == autos2);
                let shapes = simulations_of(is);
                assert(shapes == seq![(n, t)] + simulations_of(is.drop_first()));
                assert forall|i: int| 0 <= i < shapes.len() implies simulation_matches(
                    #[trigger] sims[i],
                    shapes[i].0,
                    shapes[i].1,
                ) by {
                    if i > 0 {
                        assert(sims[i] == sims2[i - 1]);
                        assert(shapes[i] == simulations_of(is.drop_first())[i - 1]);
                    }
                }
                assert(automata_of(is) == automata_of(is.drop_first()));
            },
        }
    }
}

/// A program written as `alfabeto { .. }` followed by automaton and simulation
/// declarations, in any order, parses; its alphabet is the listed symbols, its automata
/// are the declared automata and its simulations the declared simulations, each in
/// source order.
pub proof fn law_declarations_parse_in_any_order(symbols: Seq<TokenV>, is: Seq<ItemShape>)
    requires
        forall|i: int| 0 <= i < symbols.len() ==> (#[trigger] symbols[i]) is CharLiteral,
    ensures
        spec_parse_tokens(program_tokens(symbols, is)) is Ok,
        spec_parse_tokens(program_tokens(symbols, is))->Ok_0.alphabet.len() == symbols.len(),
        forall|i: int|
            0 <= i < symbols.len() ==> #[trigger] symbols[i] == TokenV::CharLiteral(
                spec_parse_tokens(program_tokens(symbols, is))->Ok_0.alphabet[i].0,
            ),
        automata_match(spec_parse_tokens(program_tokens(symbols, is))->Ok_0.automata, automata_of(is)),
        simulations_match(spec_parse_tokens(program_tokens(symbols, is))->Ok_0.simulations, simulations_of(is)),
{
    let ts = program_tokens(symbols, is);
    let head = seq![TokenV::Alphabet, TokenV::BraceOpen];
    let al = list_items(symbols);
    let it = items_tokens(is);
    assert(ts == (head + al) + it);
    assert(ts.subrange(0, ts.len() as int) =~= ts);
    lemma_at_split(ts, 0, head + al, it);
    lemma_at_split(ts, 0, head, al);
    lemma_at_index(ts, 0, head, 0);
    lemma_at_index(ts, 0, head, 1);
    lemma_chars(ts, 2, symbols);
    lemma_items(ts, 2 + al.len() as int, is);
}

} // verus!
