//! A small job-control shell core: tokenizing, built-ins, and the table of
//! background jobs, with the decisions around process spawning verified.
pub mod executor;
pub mod parser;
pub mod path;

pub use executor::TaskManager;
pub use parser::parse;
