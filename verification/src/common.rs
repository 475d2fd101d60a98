//! The shared command record: one unresolved argument list together with
//! the values it is rendered with.

use vstd::prelude::*;

use crate::value_map::ValueMap;

verus! {

/// One runnable command: the argument template as the user wrote it, and
/// the variable values collected for it.
pub struct CurldCommand {
    /// The values substituted on rendering.
    pub value_map: ValueMap,
    /// The argument list as the user wrote it.
    pub user_args: Vec<String>,
}

/// The mathematical content of a command record: its value entries and its
/// arguments, as sequences.
pub ghost struct CurldAbs {
    pub value_map: Seq<(Seq<char>, Seq<char>)>,
    pub user_args: Seq<Seq<char>>,
}

/// A command record's content.
pub open spec fn curld_view(c: CurldCommand) -> CurldAbs {
    CurldAbs { value_map: c.value_map@, user_args: c.user_args.deep_view() }
}

impl CurldCommand {
    pub fn new(user_args: Vec<String>, value_map: ValueMap) -> (r: CurldCommand)
        ensures
            r.user_args == user_args,
            r.value_map == value_map,
    {
        CurldCommand { value_map, user_args }
    }
}

} // verus!
