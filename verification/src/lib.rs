//! A lint/format pass for a package of Leo source files.
//!
//! The crate has two parts: a source normalizer — a single-pass text
//! rewriting automaton that puts a source file into canonical form — and a
//! lint orchestrator — a state machine that drives dependency staging,
//! per-file compilation checks and in-place reformatting across a package's
//! local dependency closure.  All filesystem, network and compiler work is
//! performed by a driver outside this crate; the orchestrator only decides,
//! step by step, which action comes next.

pub mod normalizer;
pub mod laws;
pub mod orchestrator;
