//! Saved base commands: a named table of command settings with a defaulting
//! lookup.

pub mod settings;
