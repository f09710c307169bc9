pub mod error;
pub mod spec;
pub mod table;
pub mod check;
pub mod laws;

pub use check::analyse;
pub use error::SemaError;
pub use table::{AssocMap, AutomatonEntry, KeyEq, SymbolTable};
