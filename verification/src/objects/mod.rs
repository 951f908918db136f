//! The parts of an Open Badge document that the rules of a run look at.

pub mod identity;
pub mod verification;
