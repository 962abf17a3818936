//! A streaming pretty-printing engine: boxes, text and break hints go in,
//! lines that respect a right margin come out.
//!
//! `printer` holds the engine, `token` what it works on. `model` says what
//! every operation does, as a function on a mathematical state; `bounds`
//! holds the invariant of that state and the proofs that it is kept;
//! `laws` and `streams` hold what follows for the engine as a whole.

pub mod bounds;
pub mod laws;
pub mod model;
pub mod printer;
pub mod streams;
pub mod token;

pub use printer::BufPrinter;
pub use token::{PpBox, PpQueueT, PpScanT, PpToken, Size, INFINITY};
