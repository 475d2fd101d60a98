//! The run command's domain: its mutator scope and its persisted settings
//! (saved commands and bounded history).

pub mod mutators;
pub mod settings;
