pub mod laws;
pub mod simulator;
pub mod spec;
pub mod stateset;

pub use simulator::{
    can_step, configs_view, finished, restarted, stepped, stepped_back, Configuration, Simulator,
    SimulatorV,
};
pub use spec::{LastStep, NextStep, Status, Verdict};
