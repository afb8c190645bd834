//! A manufacturing transfer line: machines whose operational status evolves
//! by a weighted probabilistic state machine, connected by capacity-bounded
//! buffers through which items flow tick by tick.
//!
//! Probabilities are fixed-point fractions of [`markov::PROB_ONE`], so that
//! every transition weight, random draw and matrix entry is a plain integer.

pub mod errors;
pub mod random;
pub mod item;
pub mod buffer;
pub mod markov;
pub mod machine;
pub mod recipe;
pub mod transfer_lines;
