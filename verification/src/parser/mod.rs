pub mod ast;
pub mod spec;
pub mod laws;

pub use ast::{
    automata_view, chars_view, names_view, simulations_view, transitions_view, Automaton,
    AutomatonKind, AutomatonV, NameV, Program, ProgramV, Simulation, SimulationV, Spanned, Symbol,
    Transition, TransitionV,
};
pub mod error;

pub use error::{ParseError, Rich, RichPattern};
mod grammar;

pub use grammar::{failure_span, found_at, parse, parse_matches};
