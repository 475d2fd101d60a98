//! The settings store: one persisted JSON document, partitioned into
//! independently-schemad module slices, behind a pluggable storage device.

pub mod codec;
pub mod global_settings;
pub mod json;
pub mod traits;
