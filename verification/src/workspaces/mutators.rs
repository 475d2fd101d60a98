//! The workspace mutator scope: placeholders written `w{name}`, resolved
//! from the current workspace's own stored variables.

use vstd::prelude::*;

use super::settings::Workspace;
use crate::scan;
use crate::scan::{delims_ok, dedup_spec, insert_all, scan_spec, ParseError};
use crate::templates::parse::template_close;
use crate::value_map::ValueMap;

verus! {

/// The opening token of a workspace placeholder: `w{`. The closing token is
/// the shared `}`.
pub open spec fn workspace_open() -> Seq<char> {
    seq!['w', '{']
}

/// The literal token has that view, and the pair is sane.
pub proof fn lemma_workspace_delims()
    ensures
        "w{"@ == workspace_open(),
        "}"@ == template_close(),
        delims_ok(workspace_open(), template_close()),
{
    reveal_strlit("w{");
    reveal_strlit("}");
    assert("w{"@ =~= workspace_open());
    assert("}"@ =~= template_close());
    assert forall|k: int| 0 <= k < workspace_open().len() implies #[trigger] scan::overlap_breaks(
        workspace_open(),
        template_close(),
        k,
    ) by {
        assert(template_close()[0] != workspace_open()[k + 0]);
    }
}

/// An inserter (and extractor) bound to one workspace's variable map.
pub struct WorkspaceMutator {
    value_map: ValueMap,
}

impl View for WorkspaceMutator {
    type V = Seq<(Seq<char>, Seq<char>)>;

    closed spec fn view(&self) -> Seq<(Seq<char>, Seq<char>)> {
        self.value_map@
    }
}

impl WorkspaceMutator {
    /// A mutator over the workspace's variables.
    pub fn new(workspace: &Workspace) -> (r: WorkspaceMutator)
        ensures
            r@ == workspace.variables@,
    {
        WorkspaceMutator { value_map: workspace.variables.clone() }
    }

    /// Replaces every `w{key}` whose key the workspace binds by the
    /// workspace's value, in entry order.
    pub fn insert(&self, template: &str) -> (r: String)
        ensures
            r@ == insert_all(template@, self@, workspace_open(), template_close()),
    {
        proof {
            lemma_workspace_delims();
        }
        scan::insert_entries(template, self.value_map.entry_list(), "w{", "}")
    }

    /// The names of the `w{...}` placeholders of the template, each once.
    pub fn extract(&self, template: &str) -> (r: Result<Vec<String>, ParseError>)
        ensures
            match r {
                Ok(names) => scan_spec(template@, workspace_open(), template_close()) matches Ok(
                    all,
                ) && names.deep_view() == dedup_spec(all),
                Err(e) => scan_spec(template@, workspace_open(), template_close()) == Err::<
                    Seq<Seq<char>>,
                    ParseError,
                >(e),
            },
    {
        proof {
            lemma_workspace_delims();
        }
        scan::extract_names(template, "w{", "}")
    }
}

} // verus!
