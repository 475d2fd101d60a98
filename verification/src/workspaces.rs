//! Workspaces: named sets of persisted variables, one of which is current;
//! the current workspace's variables feed a mutator scope of their own.

pub mod mutators;
pub mod settings;
