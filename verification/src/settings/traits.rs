//! The storage device behind the settings store: something that can hand
//! back the stored bytes, if any, and overwrite them.

use vstd::prelude::*;

verus! {

/// A place the serialized settings document is kept: a file, or an
/// in-memory stand-in under test.
pub trait Storage {
    /// Overwrites the stored document.
    fn write(&self, content: &str);

    /// The stored document, or `None` when nothing has been stored yet.
    fn get(&self) -> Option<String>;
}

} // verus!
