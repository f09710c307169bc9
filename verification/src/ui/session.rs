//! The state of the simulation viewer apart from drawing: which simulations can be
//! picked, the one picked, its simulator, and whether it runs on its own.
use vstd::prelude::*;
use crate::parser::{Automaton, AutomatonV, Program, ProgramV, Simulation, SimulationV};
use crate::runtime::spec::{initial_config, Status};
use crate::runtime::{can_step, finished, restarted, stepped, stepped_back, Simulator, SimulatorV};

verus! {

/// An entry of the simulation picker: the simulation's position and its text.
#[derive(Debug, PartialEq, Eq, Hash)]
pub struct SimChoice {
    pub index: usize,
    pub label: String,
}

pub struct ChoiceV {
    pub index: usize,
    pub label: Seq<char>,
}

impl View for SimChoice {
    type V = ChoiceV;

    open spec fn view(&self) -> ChoiceV {
        ChoiceV { index: self.index, label: self.label@ }
    }
}

impl SimChoice {
    /// A copy with the same value.
    pub fn duplicate(&self) -> (c: SimChoice)
        ensures
            c@ == self@,
    {
        SimChoice { index: self.index, label: self.label.clone() }
    }
}

pub open spec fn choices_view(v: Seq<SimChoice>) -> Seq<ChoiceV> {
    v.map_values(|c: SimChoice| c@)
}

/// `<automaton> com "<input>"`.
pub open spec fn choice_label(s: SimulationV) -> Seq<char> {
    s.automaton.0 + " com \""@ + s.input + "\""@
}

/// One entry per simulation, in order.
pub open spec fn choices_of(sims: Seq<SimulationV>) -> Seq<ChoiceV> {
    Seq::new(sims.len(), |i: int| ChoiceV { index: i as usize, label: choice_label(sims[i]) })
}

/// The first automaton called `name`.
pub open spec fn find_automaton(autos: Seq<AutomatonV>, name: Seq<char>) -> Option<AutomatonV>
    decreases autos.len(),
{
    if autos.len() == 0 {
        None
    } else if autos[0].name.0 == name {
        Some(autos[0])
    } else {
        find_automaton(autos.drop_first(), name)
    }
}

/// The automaton that simulation `index` runs.
pub open spec fn simulation_automaton(p: ProgramV, index: int) -> Option<AutomatonV> {
    find_automaton(p.automata, p.simulations[index].automaton.0)
}

/// Simulation `index` exists and names a declared automaton.
pub open spec fn resolvable(p: ProgramV, index: int) -> bool {
    0 <= index < p.simulations.len() && simulation_automaton(p, index) is Some
}

/// A simulator for simulation `index`, at its start.
pub open spec fn fresh_simulator(p: ProgramV, index: int) -> SimulatorV {
    let a = simulation_automaton(p, index).unwrap();
    SimulatorV { automaton: a, input: p.simulations[index].input, history: seq![initial_config(a)] }
}

/// Whether simulation `index` exists and names a declared automaton.
pub fn resolves(program: &Program, index: usize) -> (r: bool)
    ensures
        r == resolvable(program@, index as int),
{
    if index >= program.simulations.len() {
        return false;
    }
    find_automaton_index(&program.automata, &program.simulations[index].automaton.value).is_some()
}

/// Where the first automaton called `name` stands.
fn find_automaton_index(autos: &Vec<Automaton>, name: &String) -> (r: Option<usize>)
    ensures
        match r {
            Some(k) => k < autos@.len() && find_automaton(crate::parser::automata_view(autos@), name@)
                == Some(autos@[k as int]@),
            None => find_automaton(crate::parser::automata_view(autos@), name@) is None,
        },
{
    let ghost au = crate::parser::automata_view(autos@);
    let mut k: usize = 0;
    assert(au.skip(0) =~= au);
    while k < autos.len()
        invariant
            k <= autos@.len(),
            au == crate::parser::automata_view(autos@),
            find_automaton(au.skip(k as int), name@) == find_automaton(au, name@),
        decreases autos@.len() - k,
    {
        proof {
            assert(au.skip(k as int)[0] == autos@[k as int]@);
            assert(au.skip(k as int).drop_first() =~= au.skip(k + 1));
        }
        if autos[k].name.value == *name {
            return Some(k);
        }
        k = k + 1;
    }
    proof {
        assert(au.skip(k as int) =~= Seq::<AutomatonV>::empty());
    }
    None
}

/// A simulator for simulation `index` of the program, at its start.
pub fn make_simulator(program: &Program, index: usize) -> (s: Simulator)
    requires
        resolvable(program@, index as int),
    ensures
        s.wf(),
        s@ == fresh_simulator(program@, index as int),
{
    let sim_decl = &program.simulations[index];
    let k = find_automaton_index(&program.automata, &sim_decl.automaton.value).unwrap();
    let automaton = program.automata[k].duplicate();
    let s = Simulator::new(automaton, sim_decl.input.as_str());
    proof {
        let f = fresh_simulator(program@, index as int);
        assert(s@.automaton == f.automaton);
        assert(s@.input == f.input);
        assert(s@.history == f.history);
    }
    s
}

/// The text of the picker entry for a simulation.
fn choice_text(sim: &Simulation) -> (t: String)
    ensures
        t@ == choice_label(sim@),
{
    let mut t = sim.automaton.value.clone();
    t.append(" com \"");
    t.append(sim.input.as_str());
    t.append("\"");
    t
}

/// The picker entries, one per simulation.
pub fn choices(program: &Program) -> (v: Vec<SimChoice>)
    ensures
        choices_view(v@) == choices_of(program@.simulations),
{
    let ghost sims = program@.simulations;
    let mut v: Vec<SimChoice> = Vec::new();
    let mut i: usize = 0;
    while i < program.simulations.len()
        invariant
            i <= program.simulations@.len(),
            sims == program@.simulations,
            choices_view(v@) == choices_of(sims).take(i as int),
        decreases program.simulations@.len() - i,
    {
        let label = choice_text(&program.simulations[i]);
        let ghost v0 = v@;
        let c = SimChoice { index: i, label };
        v.push(c);
        proof {
            assert(sims[i as int] == program.simulations@[i as int]@);
            assert(choices_view(v@) =~= choices_view(v0).push(c@));
            assert(choices_view(v@) =~= choices_of(sims).take(i + 1));
        }
        i = i + 1;
    }
    proof {
        assert(choices_of(sims).take(i as int) =~= choices_of(sims));
    }
    v
}

/// What the viewer's controls ask of the simulation.
#[derive(Debug)]
pub enum Control {
    SelectSimulation(SimChoice),
    StepForward,
    StepBack,
    Reset,
    ToggleAuto,
    Tick,
}

/// The viewer's state: the program, the picker entries, the entry picked, its
/// simulator, and whether it steps on each tick.
pub struct Session {
    program: Program,
    choices: Vec<SimChoice>,
    selected: SimChoice,
    simulator: Simulator,
    auto: bool,
}

pub struct SessionV {
    pub program: ProgramV,
    pub choices: Seq<ChoiceV>,
    pub selected: ChoiceV,
    pub simulator: SimulatorV,
    pub auto: bool,
}

impl View for Session {
    type V = SessionV;

    closed spec fn view(&self) -> SessionV {
        SessionV {
            program: self.program@,
            choices: choices_view(self.choices@),
            selected: self.selected@,
            simulator: self.simulator@,
            auto: self.auto,
        }
    }
}

impl Session {
    /// The picker lists every simulation, the picked one exists and names a declared
    /// automaton, and the simulator runs it.
    pub open spec fn wf(&self) -> bool {
        &&& self@.choices == choices_of(self@.program.simulations)
        &&& resolvable(self@.program, self@.selected.index as int)
        &&& self.simulator_wf()
        &&& self@.simulator.automaton == simulation_automaton(
            self@.program,
            self@.selected.index as int,
        ).unwrap()
        &&& self@.simulator.input == self@.program.simulations[self@.selected.index as int].input
    }

    pub closed spec fn simulator_wf(&self) -> bool {
        self.simulator.wf()
    }

    /// The viewer for a program, on its first simulation.
    pub fn new(program: Program) -> (s: Session)
        requires
            program@.simulations.len() > 0,
            resolvable(program@, 0),
        ensures
            s.wf(),
            s@.program == program@,
            s@.selected == choices_of(program@.simulations)[0],
            s@.simulator == fresh_simulator(program@, 0),
            !s@.auto,
    {
        let choices = choices(&program);
        proof {
            assert(choices_view(choices@).len() == choices@.len());
            assert(choices_view(choices@)[0] == choices@[0]@);
        }
        let selected = choices[0].duplicate();
        let simulator = make_simulator(&program, selected.index);
        Session { program, choices, selected, simulator, auto: false }
    }

    pub fn program(&self) -> (p: &Program)
        ensures
            p@ == self@.program,
    {
        &self.program
    }

    pub fn choices(&self) -> (c: &[SimChoice])
        ensures
            choices_view(c@) == self@.choices,
    {
        self.choices.as_slice()
    }

    pub fn selected(&self) -> (c: &SimChoice)
        ensures
            c@ == self@.selected,
    {
        &self.selected
    }

    pub fn simulator(&self) -> (s: &Simulator)
        requires
            self.wf(),
        ensures
            s@ == self@.simulator,
            s.wf(),
    {
        &self.simulator
    }

    pub fn auto(&self) -> (a: bool)
        ensures
            a == self@.auto,
    {
        self.auto
    }

    /// Whether picking `choice` is possible: it names a simulation of the program
    /// whose automaton is declared.
    pub fn can_select(&self, choice: &SimChoice) -> (r: bool)
        ensures
            r == resolvable(self@.program, choice.index as int),
    {
        resolves(&self.program, choice.index)
    }
}

/// Applies one control to the viewer.
pub fn update(state: &mut Session, control: Control)
    requires
        old(state).wf(),
        control matches Control::SelectSimulation(c) ==> resolvable(old(state)@.program, c.index as int),
    ensures
        final(state).wf(),
        final(state)@.program == old(state)@.program,
        final(state)@.choices == old(state)@.choices,
        match control {
            Control::SelectSimulation(c) => {
                &&& final(state)@.simulator == fresh_simulator(old(state)@.program, c.index as int)
                &&& final(state)@.selected == c@
                &&& !final(state)@.auto
            },
            Control::StepForward => {
                &&& stepped(old(state)@.simulator, final(state)@.simulator)
                &&& final(state)@.selected == old(state)@.selected
                &&& final(state)@.auto == old(state)@.auto
            },
            Control::StepBack => {
                &&& stepped_back(old(state)@.simulator, final(state)@.simulator)
                &&& final(state)@.selected == old(state)@.selected
                &&& !final(state)@.auto
            },
            Control::Reset => {
                &&& restarted(old(state)@.simulator, final(state)@.simulator)
                &&& final(state)@.selected == old(state)@.selected
                &&& !final(state)@.auto
            },
            Control::ToggleAuto => {
                &&& final(state)@.selected == old(state)@.selected
                &&& final(state)@.auto == !old(state)@.auto
                &&& if !old(state)@.auto && finished(old(state)@.simulator) {
                    restarted(old(state)@.simulator, final(state)@.simulator)
                } else {
                    final(state)@.simulator == old(state)@.simulator
                }
            },
            Control::Tick => {
                &&& final(state)@.selected == old(state)@.selected
                &&& if old(state)@.auto {
                    &&& stepped(old(state)@.simulator, final(state)@.simulator)
                    &&& final(state)@.auto == can_step(old(state)@.simulator)
                } else {
                    &&& final(state)@.simulator == old(state)@.simulator
                    &&& !final(state)@.auto
                }
            },
        },
{
    match control {
        Control::SelectSimulation(choice) => {
            state.simulator = make_simulator(&state.program, choice.index);
            state.selected = choice;
            state.auto = false;
        },
        Control::StepForward => {
            state.simulator.step_forward();
        },
        Control::StepBack => {
            state.simulator.step_back();
            state.auto = false;
        },
        Control::Reset => {
            state.simulator.reset();
            state.auto = false;
        },
        Control::ToggleAuto => {
            if !state.auto {
                match state.simulator.status() {
                    Status::Done(_) => {
                        state.simulator.reset();
                    },
                    Status::Running => {},
                }
            }
            state.auto = !state.auto;
        },
        Control::Tick => {
            if state.auto && !state.simulator.step_forward() {
                state.auto = false;
            }
        },
    }
}

} // verus!
