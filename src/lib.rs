//! Thompson's construction: a regular-expression tree becomes a
//! nondeterministic automaton held in a petgraph directed graph.

pub mod ast;
pub mod automaton;
pub mod graph;
pub mod language;
