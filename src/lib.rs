//! Space-time diagram of the elementary cellular automaton rule 30, with a
//! fast evaluator of its left diagonals.
pub mod cell;
pub mod rules;
pub mod row;
pub mod automaton;
pub mod automaton_analysis;
pub mod pattern;
pub mod utils;
pub mod text;
pub mod fast_30;
