//! Small helpers.

pub mod defaults;
