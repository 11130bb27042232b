//! TESC: a language for writing command-line tests. A script starts programs, writes
//! lines to them and checks the lines they print:
//!
//! ```text
//! test add("python3 calculator.py") {
//!     self send "1 + 1";
//!     self expect "2";
//! };
//! ```
//!
//! The library lexes, parses and type checks scripts, and runs their tests as decisions
//! on plain values: the caller performs the actions of a run and feeds back the lines
//! that the programs print.
use vstd::prelude::*;

pub mod ast;
pub mod chars;
pub mod check;
pub mod environment;
pub mod error;
pub mod eval;
pub mod lexer;
pub mod message;
pub mod parser;
pub mod pipeline;
pub mod processes;
pub mod replay;
pub mod soundness;
pub mod span;
pub mod test_error;
pub mod types;

verus! {

/// Command-line arguments of the test runner: the path of the script to run.
pub struct TescArgs {
    pub path: String,
}

} // verus!
