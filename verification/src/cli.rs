//! The command line of the simulator.
use vstd::prelude::*;

verus! {

/// `std::path::PathBuf`, declared so that a path can be held in a field; nothing is
/// claimed of it, and the library never looks inside.
#[verifier::external_type_specification]
#[verifier::external_body]
pub struct ExPathBuf(std::path::PathBuf);

/// The command line: the path of the source file to load.
pub struct Args {
    pub path: std::path::PathBuf,
}

} // verus!
