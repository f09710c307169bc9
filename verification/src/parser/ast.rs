use vstd::prelude::*;
use core::ops::Range;

verus! {

/// A value with the range of tokens it was parsed from.
#[derive(Debug, Clone, PartialEq, Eq)]
pub struct Spanned<T> {
    pub value: T,
    pub span: Range<usize>,
}

impl<T: View> View for Spanned<T> {
    type V = (T::V, Range<usize>);

    open spec fn view(&self) -> (T::V, Range<usize>) {
        (self.value@, self.span)
    }
}

/// A whole source file: the alphabet, then automata and simulations in any order.
#[derive(Debug, Clone, PartialEq, Eq)]
pub struct Program {
    pub alphabet: Vec<Spanned<char>>,
    pub automata: Vec<Automaton>,
    pub simulations: Vec<Simulation>,
}

#[derive(Debug, Clone, Copy, PartialEq, Eq, Structural)]
pub enum AutomatonKind {
    Dfa,
    Nfa,
}

#[derive(Debug, Clone, PartialEq, Eq)]
pub struct Automaton {
    pub kind: AutomatonKind,
    pub name: Spanned<String>,
    pub states: Vec<Spanned<String>>,
    pub initial: Spanned<String>,
    pub finals: Vec<Spanned<String>>,
    pub transitions: Vec<Transition>,
}

/// What a transition reads: one character, or nothing.
#[derive(Debug, Clone, Copy, PartialEq, Eq, Structural)]
pub enum Symbol {
    Char(char),
    Epsilon,
}

impl View for Symbol {
    type V = Symbol;

    open spec fn view(&self) -> Symbol {
        *self
    }
}

#[derive(Debug, Clone, PartialEq, Eq)]
pub struct Transition {
    pub from: Spanned<String>,
    pub to: Spanned<String>,
    pub symbol: Spanned<Symbol>,
}

#[derive(Debug, Clone, PartialEq, Eq)]
pub struct Simulation {
    pub automaton: Spanned<String>,
    pub input: String,
}

/// A name with its token range.
pub type NameV = (Seq<char>, Range<usize>);

pub struct TransitionV {
    pub from: NameV,
    pub to: NameV,
    pub symbol: (Symbol, Range<usize>),
}

pub struct AutomatonV {
    pub kind: AutomatonKind,
    pub name: NameV,
    pub states: Seq<NameV>,
    pub initial: NameV,
    pub finals: Seq<NameV>,
    pub transitions: Seq<TransitionV>,
}

pub struct SimulationV {
    pub automaton: NameV,
    pub input: Seq<char>,
}

pub struct ProgramV {
    pub alphabet: Seq<(char, Range<usize>)>,
    pub automata: Seq<AutomatonV>,
    pub simulations: Seq<SimulationV>,
}

pub open spec fn names_view(v: Seq<Spanned<String>>) -> Seq<NameV> {
    v.map_values(|x: Spanned<String>| x@)
}

pub open spec fn chars_view(v: Seq<Spanned<char>>) -> Seq<(char, Range<usize>)> {
    v.map_values(|x: Spanned<char>| x@)
}

pub open spec fn transitions_view(v: Seq<Transition>) -> Seq<TransitionV> {
    v.map_values(|x: Transition| x@)
}

pub open spec fn automata_view(v: Seq<Automaton>) -> Seq<AutomatonV> {
    v.map_values(|x: Automaton| x@)
}

pub open spec fn simulations_view(v: Seq<Simulation>) -> Seq<SimulationV> {
    v.map_values(|x: Simulation| x@)
}

impl View for Transition {
    type V = TransitionV;

    open spec fn view(&self) -> TransitionV {
        TransitionV { from: self.from@, to: self.to@, symbol: self.symbol@ }
    }
}

impl View for Automaton {
    type V = AutomatonV;

    open spec fn view(&self) -> AutomatonV {
        AutomatonV {
            kind: self.kind,
            name: self.name@,
            states: names_view(self.states@),
            initial: self.initial@,
            finals: names_view(self.finals@),
            transitions: transitions_view(self.transitions@),
        }
    }
}

impl View for Simulation {
    type V = SimulationV;

    open spec fn view(&self) -> SimulationV {
        SimulationV { automaton: self.automaton@, input: self.input@ }
    }
}

impl View for Program {
    type V = ProgramV;

    open spec fn view(&self) -> ProgramV {
        ProgramV {
            alphabet: chars_view(self.alphabet@),
            automata: automata_view(self.automata@),
            simulations: simulations_view(self.simulations@),
        }
    }
}

impl Spanned<String> {
    /// A copy with the same text and range.
    pub fn duplicate(&self) -> (r: Spanned<String>)
        ensures
            r@ == self@,
    {
        Spanned { value: self.value.clone(), span: Range { start: self.span.start, end: self.span.end } }
    }
}

impl Transition {
    /// A copy with the same value.
    pub fn duplicate(&self) -> (r: Transition)
        ensures
            r@ == self@,
    {
        Transition {
            from: self.from.duplicate(),
            to: self.to.duplicate(),
            symbol: Spanned {
                value: self.symbol.value,
                span: Range { start: self.symbol.span.start, end: self.symbol.span.end },
            },
        }
    }
}

/// Copies of the names, in order.
fn duplicate_names(v: &Vec<Spanned<String>>) -> (r: Vec<Spanned<String>>)
    ensures
        names_view(r@) == names_view(v@),
{
    let mut r: Vec<Spanned<String>> = Vec::new();
    let mut i: usize = 0;
    while i < v.len()
        invariant
            i <= v@.len(),
            names_view(r@) == names_view(v@).take(i as int),
        decreases v@.len() - i,
    {
        let ghost r0 = r@;
        let x = v[i].duplicate();
        r.push(x);
        proof {
            assert(names_view(r@) =~= names_view(r0).push(v@[i as int]@));
            assert(names_view(r@) =~= names_view(v@).take(i + 1));
        }
        i = i + 1;
    }
    proof {
        assert(names_view(v@).take(i as int) =~= names_view(v@));
    }
    r
}

impl Automaton {
    /// A copy with the same value.
    pub fn duplicate(&self) -> (r: Automaton)
        ensures
            r@ == self@,
    {
        let mut transitions: Vec<Transition> = Vec::new();
        let mut i: usize = 0;
        while i < self.transitions.len()
            invariant
                i <= self.transitions@.len(),
                transitions_view(transitions@) == transitions_view(self.transitions@).take(i as int),
            decreases self.transitions@.len() - i,
        {
            let ghost t0 = transitions@;
            let x = self.transitions[i].duplicate();
            transitions.push(x);
            proof {
                assert(transitions_view(transitions@) =~= transitions_view(t0).push(self.transitions@[i as int]@));
                assert(transitions_view(transitions@) =~= transitions_view(self.transitions@).take(i + 1));
            }
            i = i + 1;
        }
        proof {
            assert(transitions_view(self.transitions@).take(i as int) =~= transitions_view(self.transitions@));
        }
        Automaton {
            kind: self.kind,
            name: self.name.duplicate(),
            states: duplicate_names(&self.states),
            initial: self.initial.duplicate(),
            finals: duplicate_names(&self.finals),
            transitions,
        }
    }
}

} // verus!
