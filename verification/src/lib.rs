//! Bite-sized language puzzles: finite automata and context-free grammars
//! over tiny alphabets, generated from a small deterministic random source.

pub mod rng;
pub mod text;
pub mod sample;
pub mod dfa;
pub mod grammar;
pub mod puzzle;
pub mod game;
pub mod diagram;
