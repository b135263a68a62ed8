//! A tree-walking interpreter for a small Lisp in the MAL family: an
//! s-expression reader, a printer, a structurally shared value model with a
//! single mutable-cell primitive, chained environments, and a tail-call
//! iterative evaluator with user-defined macros and quasiquotation.
//!
//! The reader and printer carry exact specifications (`reader::read_spec`,
//! `printer::print_val`); the evaluator's contract pins down symbol lookup,
//! `quote`, `def!`, `defmacro!` and `fn*` — including that defining an `fn*`
//! closure always succeeds and changes exactly one binding — and guarantees
//! that evaluation keeps the interpreter's invariant; `laws` holds the
//! proved equality and round-trip laws.
pub mod env;
pub mod eval;
pub mod laws;
pub mod malcore;
pub mod printer;
pub mod reader;
pub mod types;
