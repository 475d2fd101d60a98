//! The workspace settings module: a table of named workspaces and the name
//! of the current one.

use vstd::prelude::*;

use super::mutators::WorkspaceMutator;
use crate::common::{curld_view, CurldAbs, CurldCommand};
use crate::settings::codec;
use crate::settings::codec::{
    curld_spec, curlds_from, find_field_spec, lemma_curlds_from, lemma_curlds_from_none,
    value_map_spec,
};
use crate::settings::global_settings::SettingsDocument;
use crate::settings::json;
use crate::settings::json::{json_array_elems, json_object_fields, json_string_of};
use crate::table::Table;
use crate::value_map::ValueMap;

verus! {

/// One workspace: its name, its variables, and the commands saved under it.
pub struct Workspace {
    pub name: String,
    pub variables: ValueMap,
    pub commands: Vec<CurldCommand>,
}

impl Workspace {
    /// A fresh workspace of that name, without variables or commands.
    pub fn empty(name: String) -> (r: Workspace)
        ensures
            r.name == name,
            r.variables@.len() == 0,
            r.commands@.len() == 0,
    {
        Workspace { name, variables: ValueMap::new(), commands: Vec::new() }
    }
}

/// The persisted workspace module: every workspace by name, and the current
/// one's name.
pub struct WorkspaceSettings {
    pub current_workspace: String,
    pub workspaces: Table<Workspace>,
}

impl WorkspaceSettings {
    /// The settings are well formed when the current name is bound in the
    /// table.
    pub open spec fn wf(&self) -> bool {
        self.workspaces.spec_contains(self.current_workspace@)
    }

    /// An empty document slice: no workspaces, no current name.
    pub fn empty() -> (r: WorkspaceSettings)
        ensures
            r.workspaces@.len() == 0,
            r.current_workspace@.len() == 0,
    {
        WorkspaceSettings { current_workspace: String::new(), workspaces: Table::new() }
    }
}

/// The mathematical content of one workspace.
pub ghost struct WorkspaceAbs {
    pub name: Seq<char>,
    pub variables: Seq<(Seq<char>, Seq<char>)>,
    pub commands: Seq<CurldAbs>,
}

/// A workspace's content.
pub open spec fn workspace_view(w: Workspace) -> WorkspaceAbs {
    WorkspaceAbs {
        name: w.name@,
        variables: w.variables@,
        commands: Seq::new(w.commands@.len(), |i: int| curld_view(w.commands@[i])),
    }
}

/// The mathematical content of the workspace module slice.
pub ghost struct WorkspaceSettingsAbs {
    pub current_workspace: Seq<char>,
    pub workspaces: Seq<(Seq<char>, WorkspaceAbs)>,
}

/// A module slice's content.
pub open spec fn ws_settings_view(s: WorkspaceSettings) -> WorkspaceSettingsAbs {
    WorkspaceSettingsAbs {
        current_workspace: s.current_workspace@,
        workspaces: Seq::new(
            s.workspaces@.len(),
            |i: int| (s.workspaces@[i].0, workspace_view(s.workspaces@[i].1)),
        ),
    }
}

/// The workspace a JSON value holds: its `name`, `variables` and `commands`
/// fields, a missing field being its default; `None` for a value that is
/// not an object or whose fields have the wrong shape.
pub open spec fn workspace_spec(v: serde_json::Value) -> Option<WorkspaceAbs> {
    match json_object_fields(v) {
        None => None,
        Some(fields) => match (match find_field_spec(fields, "name"@) {
            None => Some(Seq::<char>::empty()),
            Some(f) => json_string_of(f),
        }) {
            None => None,
            Some(name) => match (match find_field_spec(fields, "variables"@) {
                None => Some(Seq::<(Seq<char>, Seq<char>)>::empty()),
                Some(f) => value_map_spec(f),
            }) {
                None => None,
                Some(variables) => match (match find_field_spec(fields, "commands"@) {
                    None => Some(Seq::<CurldAbs>::empty()),
                    Some(f) => match json_array_elems(f) {
                        None => None,
                        Some(items) => curlds_from(items, 0),
                    },
                }) {
                    None => None,
                    Some(commands) => Some(WorkspaceAbs { name, variables, commands }),
                },
            },
        },
    }
}

/// The workspace entries of the fields from position `i` on, provided
/// every field's value holds a workspace.
pub open spec fn workspaces_from(fields: Seq<(Seq<char>, serde_json::Value)>, i: int) -> Option<
    Seq<(Seq<char>, WorkspaceAbs)>,
>
    decreases fields.len() - i,
        when 0 <= i <= fields.len()
{
    if i == fields.len() {
        Some(Seq::empty())
    } else {
        match workspace_spec(fields[i].1) {
            None => None,
            Some(w) => match workspaces_from(fields, i + 1) {
                None => None,
                Some(rest) => Some(seq![(fields[i].0, w)] + rest),
            },
        }
    }
}

/// A suffix whose entries are known is decoded to exactly those entries.
proof fn lemma_workspaces_from(
    fields: Seq<(Seq<char>, serde_json::Value)>,
    out: Seq<(Seq<char>, WorkspaceAbs)>,
    k: int,
)
    requires
        0 <= k <= fields.len(),
        out.len() == fields.len() - k,
        forall|j: int|
            0 <= j < out.len() ==> out[j].0 == fields[k + j].0 && workspace_spec(fields[k + j].1)
                == Some(out[j].1),
    ensures
        workspaces_from(fields, k) == Some(out),
    decreases fields.len() - k,
{
    if k < fields.len() {
        lemma_workspaces_from(fields, out.drop_first(), k + 1);
        assert(out[0].0 == fields[k + 0].0 && workspace_spec(fields[k + 0].1) == Some(out[0].1));
        assert(seq![(fields[k].0, out[0].1)] + out.drop_first() =~= out);
    } else {
        assert(out =~= Seq::<(Seq<char>, WorkspaceAbs)>::empty());
    }
}

/// One malformed field value anywhere after `k` makes the suffix
/// undecodable.
proof fn lemma_workspaces_from_none(fields: Seq<(Seq<char>, serde_json::Value)>, k: int, j: int)
    requires
        0 <= k <= j < fields.len(),
        workspace_spec(fields[j].1) is None,
    ensures
        workspaces_from(fields, k) is None,
    decreases j - k,
{
    if k < j {
        lemma_workspaces_from_none(fields, k + 1, j);
    }
}

/// The workspace module slice a JSON value holds; a missing field is its
/// default, a malformed one makes the whole slice unreadable.
pub open spec fn ws_settings_spec(v: serde_json::Value) -> Option<WorkspaceSettingsAbs> {
    match json_object_fields(v) {
        None => None,
        Some(fields) => match (match find_field_spec(fields, "current_workspace"@) {
            None => Some(Seq::<char>::empty()),
            Some(f) => json_string_of(f),
        }) {
            None => None,
            Some(current) => match (match find_field_spec(fields, "workspaces"@) {
                None => Some(Seq::<(Seq<char>, WorkspaceAbs)>::empty()),
                Some(f) => match json_object_fields(f) {
                    None => None,
                    Some(wf) => workspaces_from(wf, 0),
                },
            }) {
                None => None,
                Some(workspaces) => Some(
                    WorkspaceSettingsAbs { current_workspace: current, workspaces },
                ),
            },
        },
    }
}

/// The shape the constructor bootstraps over an empty table: exactly one
/// workspace named `default`, without variables or commands, set current.
pub open spec fn bootstrap_shape(s: WorkspaceSettings) -> bool {
    &&& s.workspaces@.len() == 1
    &&& s.workspaces@[0].0 == "default"@
    &&& s.workspaces@[0].1.name@ == "default"@
    &&& s.workspaces@[0].1.variables@.len() == 0
    &&& s.workspaces@[0].1.commands@.len() == 0
    &&& s.current_workspace@ == "default"@
}

/// The workspace module's manager. From construction on, the current
/// workspace name always names an existing workspace.
pub struct WorkspacesManager {
    workspace_settings: WorkspaceSettings,
}

impl WorkspacesManager {
    /// The module's slice of the document.
    pub closed spec fn spec_settings(&self) -> WorkspaceSettings {
        self.workspace_settings
    }

    /// Decodes the `workspace` module out of the document; when the
    /// decoded table is empty (in particular over a fresh document) one
    /// workspace named `default` is synthesized and made current, and the
    /// slice is written back at once. A current name that no workspace
    /// bears falls back to the first workspace.
    pub fn new(stored_settings: &mut SettingsDocument) -> (r: WorkspacesManager)
        ensures
            r.spec_settings().wf(),
            match old(stored_settings).spec_modules().spec_get("workspace"@) {
                None => bootstrap_shape(r.spec_settings()),
                Some(v) => match ws_settings_spec(v) {
                    Some(abs) => if abs.workspaces.len() > 0 {
                        &&& ws_settings_view(r.spec_settings()).workspaces == abs.workspaces
                        &&& if exists|i: int|
                            0 <= i < abs.workspaces.len() && (#[trigger] abs.workspaces[i].0)
                                == abs.current_workspace {
                            r.spec_settings().current_workspace@ == abs.current_workspace
                        } else {
                            r.spec_settings().current_workspace@ == abs.workspaces[0].0
                        }
                    } else {
                        bootstrap_shape(r.spec_settings())
                    },
                    None => bootstrap_shape(r.spec_settings()),
                },
            },
            final (stored_settings).spec_modules().spec_contains("workspace"@),
            final (stored_settings).working_dir == old(stored_settings).working_dir,
    {
        let mut workspace_settings = match stored_settings.get_module("workspace") {
            Some(v) => match decode_workspace_settings(v) {
                Some(s) => s,
                None => WorkspaceSettings::empty(),
            },
            None => WorkspaceSettings::empty(),
        };
        let ghost decoded = ws_settings_view(workspace_settings);
        if workspace_settings.workspaces.len() == 0 {
            let default_name = "default".to_owned();
            workspace_settings.workspaces.insert(
                default_name.clone(),
                Workspace::empty(default_name.clone()),
            );
            workspace_settings.current_workspace = default_name;
            assert(workspace_settings.workspaces@[0].0 == "default"@);
            assert(workspace_settings.workspaces.spec_contains(
                workspace_settings.current_workspace@,
            ));
        } else {
            if !workspace_settings.workspaces.contains_key(
                workspace_settings.current_workspace.as_str(),
            ) {
                proof {
                    assert forall|i: int|
                        0 <= i < decoded.workspaces.len() implies (
                    #[trigger] decoded.workspaces[i].0) != decoded.current_workspace by {
                        assert(!workspace_settings.workspaces.spec_contains(
                            workspace_settings.current_workspace@,
                        ));
                        assert(workspace_settings.workspaces@[i].0 == decoded.workspaces[i].0);
                    }
                }
                let names = workspace_settings.workspaces.keys();
                assert(names.deep_view()[0] == workspace_settings.workspaces@[0].0);
                workspace_settings.current_workspace = names[0].clone();
                assert(names@[0].deep_view() == names.deep_view()[0]);
                assert(workspace_settings.workspaces@[0].0
                    == workspace_settings.current_workspace@);
            } else {
                proof {
                    let w = choose|w: int|
                        0 <= w < workspace_settings.workspaces@.len()
                            && workspace_settings.workspaces@[w].0
                            == workspace_settings.current_workspace@;
                    assert(decoded.workspaces[w].0 == decoded.current_workspace);
                }
            }
        }
        proof {
            assert(ws_settings_view(workspace_settings).workspaces =~= decoded.workspaces
                || workspace_settings.workspaces@.len() == 1);
        }
        let manager = WorkspacesManager { workspace_settings };
        manager.save_to_parent(stored_settings);
        manager
    }

    /// Switches to the named workspace, creating an empty one first when
    /// none of that name exists, and persists the slice.
    pub fn change_workspace(&mut self, workspace_name: &str, stored_settings: &mut SettingsDocument)
        ensures
            final (self).spec_settings().wf(),
            final (self).spec_settings().current_workspace@ == workspace_name@,
            final (self).spec_settings().workspaces.spec_contains(workspace_name@),
            old(self).spec_settings().workspaces.spec_contains(workspace_name@) ==> final (
            self).spec_settings().workspaces == old(self).spec_settings().workspaces,
            !old(self).spec_settings().workspaces.spec_contains(workspace_name@) ==> {
                &&& final (self).spec_settings().workspaces@.len() == old(
                    self,
                ).spec_settings().workspaces@.len() + 1
                &&& forall|j: int|
                    0 <= j < old(self).spec_settings().workspaces@.len() ==> final (
                    self).spec_settings().workspaces@[j] == old(
                        self,
                    ).spec_settings().workspaces@[j]
                &&& final (self).spec_settings().workspaces@.last().0 == workspace_name@
                &&& final (self).spec_settings().workspaces@.last().1.name@ == workspace_name@
                &&& final (self).spec_settings().workspaces@.last().1.variables@.len() == 0
                &&& final (self).spec_settings().workspaces@.last().1.commands@.len() == 0
            },
            final (stored_settings).spec_modules().spec_contains("workspace"@),
            final (stored_settings).working_dir == old(stored_settings).working_dir,
    {
        if !self.workspace_settings.workspaces.contains_key(workspace_name) {
            let created = Workspace::empty(workspace_name.to_owned());
            self.workspace_settings.workspaces.insert(workspace_name.to_owned(), created);
        }
        self.workspace_settings.current_workspace = workspace_name.to_owned();
        self.save_to_parent(stored_settings);
    }

    /// Whether the current name is bound in the workspace table; true from
    /// construction on.
    pub fn current_exists(&self) -> (r: bool)
        ensures
            r == self.spec_settings().wf(),
    {
        self.workspace_settings.workspaces.contains_key(
            self.workspace_settings.current_workspace.as_str(),
        )
    }

    /// The current workspace.
    pub fn get_current_workspace(&self) -> (r: &Workspace)
        requires
            self.spec_settings().wf(),
        ensures
            self.spec_settings().workspaces.spec_get(self.spec_settings().current_workspace@)
                == Some(*r),
    {
        match self.workspace_settings.workspaces.get(
            self.workspace_settings.current_workspace.as_str(),
        ) {
            Some(w) => w,
            None => {
                proof {
                    assert(false);
                }
                unreached()
            },
        }
    }

    /// Every workspace name, in insertion order.
    pub fn get_workspaces_names(&self) -> (r: Vec<String>)
        ensures
            r.deep_view().len() == self.spec_settings().workspaces@.len(),
            forall|m: int|
                0 <= m < r.deep_view().len() ==> r.deep_view()[m]
                    == self.spec_settings().workspaces@[m].0,
    {
        self.workspace_settings.workspaces.keys()
    }

    /// Binds the variable on the current workspace — an existing binding is
    /// overwritten in place, a new one goes to the end — leaves that
    /// workspace's name and commands and every other workspace untouched,
    /// and persists the slice.
    pub fn set_variable(&mut self, key: &str, value: &str, stored_settings: &mut SettingsDocument)
        requires
            old(self).spec_settings().wf(),
        ensures
            final (self).spec_settings().wf(),
            final (self).spec_settings().current_workspace == old(
                self,
            ).spec_settings().current_workspace,
            final (self).spec_settings().workspaces@.len() == old(
                self,
            ).spec_settings().workspaces@.len(),
            forall|j: int|
                0 <= j < old(self).spec_settings().workspaces@.len() && j != old(
                    self,
                ).spec_settings().workspaces.index_of(
                    old(self).spec_settings().current_workspace@,
                ) ==> final (self).spec_settings().workspaces@[j] == old(
                    self,
                ).spec_settings().workspaces@[j],
            ({
                let idx = old(self).spec_settings().workspaces.index_of(
                    old(self).spec_settings().current_workspace@,
                );
                let old_ws = old(self).spec_settings().workspaces@[idx].1;
                let new_ws = final (self).spec_settings().workspaces@[idx].1;
                &&& final (self).spec_settings().workspaces@[idx].0 == old(
                    self,
                ).spec_settings().current_workspace@
                &&& new_ws.name@ == old_ws.name@
                &&& workspace_view(new_ws).commands == workspace_view(old_ws).commands
                &&& new_ws.variables.spec_get(key@) == Some(value@)
                &&& old_ws.variables.spec_contains(key@) ==> new_ws.variables@
                    == old_ws.variables@.update(
                    old_ws.variables.index_of(key@),
                    (key@, value@),
                )
                &&& !old_ws.variables.spec_contains(key@) ==> new_ws.variables@
                    == old_ws.variables@.push((key@, value@))
            }),
            final (stored_settings).spec_modules().spec_contains("workspace"@),
            final (stored_settings).working_dir == old(stored_settings).working_dir,
    {
        let ghost idx = old(self).spec_settings().workspaces.index_of(
            old(self).spec_settings().current_workspace@,
        );
        let current = self.get_current_workspace();
        proof {
            let w = choose|w: int|
                0 <= w < self.workspace_settings.workspaces@.len()
                    && self.workspace_settings.workspaces@[w].0
                    == self.workspace_settings.current_workspace@;
            assert(*current == self.workspace_settings.workspaces@[idx].1);
        }
        let mut workspace = Workspace {
            name: current.name.clone(),
            variables: current.variables.clone(),
            commands: clone_commands(&current.commands),
        };
        proof {
            assert(workspace_view(workspace).commands =~= workspace_view(
                self.workspace_settings.workspaces@[idx].1,
            ).commands);
        }
        workspace.variables.insert(key.to_owned(), value.to_owned());
        let name = self.workspace_settings.current_workspace.clone();
        self.workspace_settings.workspaces.insert(name, workspace);
        self.save_to_parent(stored_settings);
    }

    /// A mutator over the current workspace's variables, for registration
    /// into a pipeline.
    pub fn get_workspace_mutator(&self) -> (r: WorkspaceMutator)
        requires
            self.spec_settings().wf(),
        ensures
            match self.spec_settings().workspaces.spec_get(
                self.spec_settings().current_workspace@,
            ) {
                Some(w) => r@ == w.variables@,
                None => false,
            },
    {
        WorkspaceMutator::new(self.get_current_workspace())
    }

    /// Writes the module slice back into the document, under the
    /// `workspace` module name.
    fn save_to_parent(&self, stored_settings: &mut SettingsDocument)
        ensures
            final (stored_settings).spec_modules().spec_contains("workspace"@),
            final (stored_settings).working_dir == old(stored_settings).working_dir,
    {
        let encoded = encode_workspace_settings(&self.workspace_settings);
        stored_settings.insert_module("workspace", encoded);
    }
}

/// The commands of a workspace, copied: each copy has its original's
/// content.
fn clone_commands(commands: &Vec<CurldCommand>) -> (r: Vec<CurldCommand>)
    ensures
        r@.len() == commands@.len(),
        forall|i: int| 0 <= i < r@.len() ==> curld_view(r@[i]) == curld_view(commands@[i]),
{
    let mut r: Vec<CurldCommand> = Vec::new();
    let mut i: usize = 0;
    while i < commands.len()
        invariant
            i <= commands@.len(),
            r@.len() == i,
            forall|m: int| 0 <= m < i ==> curld_view(r@[m]) == curld_view(commands@[m]),
        decreases commands@.len() - i,
    {
        let mut args: Vec<String> = Vec::new();
        let mut j: usize = 0;
        while j < commands[i].user_args.len()
            invariant
                i < commands@.len(),
                j <= commands@[i as int].user_args@.len(),
                args@.len() == j,
                forall|m: int|
                    0 <= m < j ==> args.deep_view()[m]
                        == commands@[i as int].user_args.deep_view()[m],
            decreases commands@[i as int].user_args@.len() - j,
        {
            let ghost prev = args@;
            let ghost prev_deep = args.deep_view();
            args.push(commands[i].user_args[j].clone());
            proof {
                assert forall|m: int| 0 <= m < j + 1 implies args.deep_view()[m]
                    == commands@[i as int].user_args.deep_view()[m] by {
                    if m < j as int {
                        assert(args@[m] == prev[m]);
                        assert(prev_deep[m] == prev[m].deep_view());
                    }
                }
            }
            j += 1;
        }
        proof {
            assert(args.deep_view() =~= commands@[i as int].user_args.deep_view());
        }
        r.push(CurldCommand { value_map: commands[i].value_map.clone(), user_args: args });
        i += 1;
    }
    r
}

/// One workspace as a JSON object.
fn encode_workspace(w: &Workspace) -> serde_json::Value {
    let mut fields: Vec<(String, serde_json::Value)> = Vec::new();
    fields.push(("name".to_owned(), json::string_value(w.name.as_str())));
    fields.push(("variables".to_owned(), codec::encode_value_map(&w.variables)));
    let mut commands: Vec<serde_json::Value> = Vec::new();
    let mut i: usize = 0;
    while i < w.commands.len()
        decreases w.commands@.len() - i,
    {
        commands.push(codec::encode_curld(&w.commands[i]));
        i += 1;
    }
    fields.push(("commands".to_owned(), json::array_value(commands)));
    json::object_value(fields)
}

/// One workspace out of a JSON object, exactly as [`workspace_spec`] says.
#[verifier::loop_isolation(false)]
fn decode_workspace(v: &serde_json::Value) -> (r: Option<Workspace>)
    ensures
        match r {
            Some(w) => workspace_spec(*v) == Some(workspace_view(w)),
            None => workspace_spec(*v) is None,
        },
{
    let entries = match json::object_entries(v) {
        Some(entries) => entries,
        None => {
            return None;
        },
    };
    proof {
        assert(codec::fields_view(entries@) =~= json_object_fields(*v)->Some_0);
    }
    let name = match codec::get_field(&entries, "name") {
        Some(f) => match json::value_as_string(f) {
            Some(s) => s,
            None => {
                return None;
            },
        },
        None => String::new(),
    };
    let variables = match codec::get_field(&entries, "variables") {
        Some(f) => match codec::decode_value_map(f) {
            Some(m) => m,
            None => {
                return None;
            },
        },
        None => ValueMap::new(),
    };
    let mut commands: Vec<CurldCommand> = Vec::new();
    match codec::get_field(&entries, "commands") {
        Some(f) => {
            let items = match json::array_items(f) {
                Some(items) => items,
                None => {
                    return None;
                },
            };
            let mut i: usize = 0;
            while i < items.len()
                invariant
                    i <= items@.len(),
                    commands@.len() == i,
                    forall|j: int|
                        0 <= j < i ==> curld_spec(items@[j]) == Some(curld_view(commands@[j])),
                decreases items@.len() - i,
            {
                match codec::decode_curld(&items[i]) {
                    Some(c) => commands.push(c),
                    None => {
                        proof {
                            lemma_curlds_from_none(items@, 0, i as int);
                        }
                        return None;
                    },
                }
                i += 1;
            }
            proof {
                let out = Seq::new(commands@.len(), |j: int| curld_view(commands@[j]));
                lemma_curlds_from(items@, out, 0);
            }
        },
        None => {},
    }
    let w = Workspace { name, variables, commands };
    proof {
        let abs = workspace_spec(*v)->Some_0;
        assert(workspace_view(w).commands =~= abs.commands);
    }
    Some(w)
}

/// The workspace module slice as a JSON object.
fn encode_workspace_settings(s: &WorkspaceSettings) -> serde_json::Value {
    let mut ws_fields: Vec<(String, serde_json::Value)> = Vec::new();
    let keys = s.workspaces.keys();
    let mut i: usize = 0;
    while i < keys.len()
        decreases keys@.len() - i,
    {
        match s.workspaces.get(keys[i].as_str()) {
            Some(w) => {
                ws_fields.push((keys[i].clone(), encode_workspace(w)));
            },
            None => {},
        }
        i += 1;
    }
    let mut fields: Vec<(String, serde_json::Value)> = Vec::new();
    fields.push((
        "current_workspace".to_owned(),
        json::string_value(s.current_workspace.as_str()),
    ));
    fields.push(("workspaces".to_owned(), json::object_value(ws_fields)));
    json::object_value(fields)
}

/// The workspace module slice out of a JSON object, exactly as
/// [`ws_settings_spec`] says.
#[verifier::loop_isolation(false)]
fn decode_workspace_settings(v: &serde_json::Value) -> (r: Option<WorkspaceSettings>)
    ensures
        match r {
            Some(s) => ws_settings_spec(*v) == Some(ws_settings_view(s)),
            None => ws_settings_spec(*v) is None,
        },
{
    let entries = match json::object_entries(v) {
        Some(entries) => entries,
        None => {
            return None;
        },
    };
    proof {
        assert(codec::fields_view(entries@) =~= json_object_fields(*v)->Some_0);
    }
    let current_workspace = match codec::get_field(&entries, "current_workspace") {
        Some(f) => match json::value_as_string(f) {
            Some(s) => s,
            None => {
                return None;
            },
        },
        None => String::new(),
    };
    let mut workspaces: Table<Workspace> = Table::new();
    match codec::get_field(&entries, "workspaces") {
        Some(f) => {
            let ws_entries = match json::object_entries(f) {
                Some(ws_entries) => ws_entries,
                None => {
                    return None;
                },
            };
            let ghost wf = json_object_fields(*f)->Some_0;
            let mut i: usize = 0;
            while i < ws_entries.len()
                invariant
                    i <= ws_entries@.len(),
                    workspaces@.len() == i,
                    forall|j: int|
                        0 <= j < i ==> workspaces@[j].0 == wf[j].0 && workspace_spec(wf[j].1)
                            == Some(workspace_view(workspaces@[j].1)),
                decreases ws_entries@.len() - i,
            {
                let ghost prev = workspaces@;
                match decode_workspace(&ws_entries[i].1) {
                    Some(w) => {
                        proof {
                            if workspaces.spec_contains(ws_entries@[i as int].0@) {
                                let x = choose|x: int|
                                    0 <= x < prev.len() && prev[x].0
                                        == ws_entries@[i as int].0@;
                                assert(wf[x].0 == wf[i as int].0);
                            }
                        }
                        workspaces.insert(ws_entries[i].0.clone(), w);
                    },
                    None => {
                        proof {
                            lemma_workspaces_from_none(wf, 0, i as int);
                        }
                        return None;
                    },
                }
                i += 1;
            }
            proof {
                let out = Seq::new(
                    workspaces@.len(),
                    |j: int| (workspaces@[j].0, workspace_view(workspaces@[j].1)),
                );
                lemma_workspaces_from(wf, out, 0);
            }
        },
        None => {},
    }
    let s = WorkspaceSettings { current_workspace, workspaces };
    proof {
        let abs = ws_settings_spec(*v)->Some_0;
        assert(ws_settings_view(s).workspaces =~= abs.workspaces);
    }
    Some(s)
}

} // verus!
