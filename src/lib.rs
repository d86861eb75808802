//! Symbolic words, rewriting dictionaries and a maximal-munch segmenter that
//! drive Lindenmayer-style fractal generation.

pub mod alphabet;
pub mod common_fractals;
pub mod dictionary;
pub mod error;
pub mod fractal;
pub mod grammar;
pub mod letter;
pub mod rewrite;
pub mod segment;
pub mod semantics;
pub mod word;
