//! Incremental macro-expansion driver core: span provenance tracking across
//! expansion rounds, detection of remaining macro invocations, and the
//! per-round bookkeeping that decides when the expansion loop is done.
//!
//! Parsing source text, the macro-expansion engine itself, and
//! pretty-printing are external collaborators; this crate holds the state
//! they share between rounds and the rules that keep it consistent.

pub mod definitions;
pub mod driver;
pub mod provenance;
pub mod registry;
pub mod scanner;
pub mod span;
pub mod tree;
