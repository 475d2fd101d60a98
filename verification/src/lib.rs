//! A command-template engine: argument templates with `${name}`-style
//! placeholders are resolved against named variable scopes, and the
//! surrounding settings (saved commands, bounded history, workspaces) are
//! kept in a module-keyed persisted document.

use vstd::prelude::*;

pub mod command;
pub mod common;
pub mod config;
pub mod endpoints;
pub mod laws;
pub mod run;
pub mod scan;
pub mod settings;
pub mod strutil;
pub mod table;
pub mod templates;
pub mod value_map;
pub mod variables;
pub mod workspaces;

verus! {

} // verus!
