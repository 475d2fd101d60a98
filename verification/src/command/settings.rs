//! The command settings module: a table of base commands with the extra
//! arguments saved for each, and a lookup that falls back to a bare
//! command.

use vstd::prelude::*;

use crate::settings::codec;
use crate::settings::codec::{find_field_spec, string_vec_spec};
use crate::settings::global_settings::SettingsDocument;
use crate::settings::json;
use crate::settings::json::{json_object_fields, json_string_of};
use crate::table::Table;

verus! {

/// One saved base command: the command itself and its saved arguments.
pub struct CommandSettings {
    pub command: String,
    pub saved_args: Vec<String>,
}

/// The mathematical content of one saved command.
pub ghost struct CommandSettingsAbs {
    pub command: Seq<char>,
    pub saved_args: Seq<Seq<char>>,
}

/// A saved command's content.
pub open spec fn command_settings_view(c: CommandSettings) -> CommandSettingsAbs {
    CommandSettingsAbs { command: c.command@, saved_args: c.saved_args.deep_view() }
}

/// The saved command a JSON value holds: its `command` and `saved_args`
/// fields, a missing field being its default; `None` for a value that is
/// not an object or whose fields have the wrong shape.
pub open spec fn command_settings_spec(v: serde_json::Value) -> Option<CommandSettingsAbs> {
    match json_object_fields(v) {
        None => None,
        Some(fields) => match (match find_field_spec(fields, "command"@) {
            None => Some(Seq::<char>::empty()),
            Some(f) => json_string_of(f),
        }) {
            None => None,
            Some(command) => match (match find_field_spec(fields, "saved_args"@) {
                None => Some(Seq::<Seq<char>>::empty()),
                Some(f) => string_vec_spec(f),
            }) {
                None => None,
                Some(saved_args) => Some(CommandSettingsAbs { command, saved_args }),
            },
        },
    }
}

/// The command entries of the fields from position `i` on, provided every
/// field's value holds a saved command.
pub open spec fn commands_from(fields: Seq<(Seq<char>, serde_json::Value)>, i: int) -> Option<
    Seq<(Seq<char>, CommandSettingsAbs)>,
>
    decreases fields.len() - i,
        when 0 <= i <= fields.len()
{
    if i == fields.len() {
        Some(Seq::empty())
    } else {
        match command_settings_spec(fields[i].1) {
            None => None,
            Some(c) => match commands_from(fields, i + 1) {
                None => None,
                Some(rest) => Some(seq![(fields[i].0, c)] + rest),
            },
        }
    }
}

/// A suffix whose entries are known is decoded to exactly those entries.
proof fn lemma_commands_from(
    fields: Seq<(Seq<char>, serde_json::Value)>,
    out: Seq<(Seq<char>, CommandSettingsAbs)>,
    k: int,
)
    requires
        0 <= k <= fields.len(),
        out.len() == fields.len() - k,
        forall|j: int|
            0 <= j < out.len() ==> out[j].0 == fields[k + j].0 && command_settings_spec(
                fields[k + j].1,
            ) == Some(out[j].1),
    ensures
        commands_from(fields, k) == Some(out),
    decreases fields.len() - k,
{
    if k < fields.len() {
        lemma_commands_from(fields, out.drop_first(), k + 1);
        assert(out[0].0 == fields[k + 0].0 && command_settings_spec(fields[k + 0].1) == Some(
            out[0].1,
        ));
        assert(seq![(fields[k].0, out[0].1)] + out.drop_first() =~= out);
    } else {
        assert(out =~= Seq::<(Seq<char>, CommandSettingsAbs)>::empty());
    }
}

/// One malformed field value anywhere after `k` makes the suffix
/// undecodable.
proof fn lemma_commands_from_none(fields: Seq<(Seq<char>, serde_json::Value)>, k: int, j: int)
    requires
        0 <= k <= j < fields.len(),
        command_settings_spec(fields[j].1) is None,
    ensures
        commands_from(fields, k) is None,
    decreases j - k,
{
    if k < j {
        lemma_commands_from_none(fields, k + 1, j);
    }
}

/// The command module slice a JSON value holds; a missing table is empty,
/// a malformed one makes the whole slice unreadable.
pub open spec fn commands_spec(v: serde_json::Value) -> Option<Seq<(Seq<char>, CommandSettingsAbs)>> {
    match json_object_fields(v) {
        None => None,
        Some(fields) => match find_field_spec(fields, "commands_map"@) {
            None => Some(Seq::<(Seq<char>, CommandSettingsAbs)>::empty()),
            Some(f) => match json_object_fields(f) {
                None => None,
                Some(cf) => commands_from(cf, 0),
            },
        },
    }
}

/// The persisted slice of the command module.
pub struct Commands {
    pub commands_map: Table<CommandSettings>,
}

/// A module slice's content.
pub open spec fn commands_view(c: Commands) -> Seq<(Seq<char>, CommandSettingsAbs)> {
    Seq::new(
        c.commands_map@.len(),
        |i: int| (c.commands_map@[i].0, command_settings_view(c.commands_map@[i].1)),
    )
}

/// The command module's manager.
pub struct CommandManager {
    pub commands: Commands,
}

impl CommandManager {
    /// Decodes the `command` module out of the document: a stored, readable
    /// slice is taken over exactly as it is stored; an absent or unreadable
    /// slice is an empty table.
    pub fn new(stored_settings: &SettingsDocument) -> (r: CommandManager)
        ensures
            match stored_settings.spec_modules().spec_get("command"@) {
                None => r.commands.commands_map@.len() == 0,
                Some(v) => match commands_spec(v) {
                    Some(abs) => commands_view(r.commands) == abs,
                    None => r.commands.commands_map@.len() == 0,
                },
            },
    {
        let commands = match stored_settings.get_module("command") {
            Some(v) => match decode_commands(v) {
                Some(c) => c,
                None => Commands { commands_map: Table::new() },
            },
            None => Commands { commands_map: Table::new() },
        };
        CommandManager { commands }
    }

    /// The settings saved for the command, or a bare default carrying the
    /// command itself and no arguments.
    pub fn get_command(&self, cmd: &str) -> (r: CommandSettings)
        ensures
            match self.commands.commands_map.spec_get(cmd@) {
                Some(c) => r.command@ == c.command@ && r.saved_args.deep_view()
                    == c.saved_args.deep_view(),
                None => r.command@ == cmd@ && r.saved_args@.len() == 0,
            },
    {
        match self.commands.commands_map.get(cmd) {
            Some(c) => {
                let mut saved_args: Vec<String> = Vec::new();
                let mut i: usize = 0;
                while i < c.saved_args.len()
                    invariant
                        i <= c.saved_args@.len(),
                        saved_args@.len() == i,
                        forall|m: int|
                            0 <= m < i ==> saved_args.deep_view()[m]
                                == c.saved_args.deep_view()[m],
                    decreases c.saved_args@.len() - i,
                {
                    let ghost prev = saved_args@;
                    let ghost prev_deep = saved_args.deep_view();
                    saved_args.push(c.saved_args[i].clone());
                    proof {
                        assert forall|m: int| 0 <= m < i + 1 implies saved_args.deep_view()[m]
                            == c.saved_args.deep_view()[m] by {
                            if m < i as int {
                                assert(saved_args@[m] == prev[m]);
                                assert(prev_deep[m] == prev[m].deep_view());
                            }
                        }
                    }
                    i += 1;
                }
                proof {
                    assert(saved_args.deep_view() =~= c.saved_args.deep_view());
                }
                CommandSettings { command: c.command.clone(), saved_args }
            },
            None => CommandSettings { command: cmd.to_owned(), saved_args: Vec::new() },
        }
    }
}

/// One saved command out of a JSON object, exactly as
/// [`command_settings_spec`] says.
#[verifier::loop_isolation(false)]
fn decode_command_settings(v: &serde_json::Value) -> (r: Option<CommandSettings>)
    ensures
        match r {
            Some(c) => command_settings_spec(*v) == Some(command_settings_view(c)),
            None => command_settings_spec(*v) is None,
        },
{
    let entries = match json::object_entries(v) {
        Some(entries) => entries,
        None => {
            return None;
        },
    };
    proof {
        assert(codec::fields_view(entries@) =~= json_object_fields(*v)->Some_0);
    }
    let command = match codec::get_field(&entries, "command") {
        Some(f) => match json::value_as_string(f) {
            Some(s) => s,
            None => {
                return None;
            },
        },
        None => String::new(),
    };
    let saved_args = match codec::get_field(&entries, "saved_args") {
        Some(f) => match codec::decode_string_vec(f) {
            Some(a) => a,
            None => {
                return None;
            },
        },
        None => {
            let empty_args: Vec<String> = Vec::new();
            assert(empty_args.deep_view() =~= Seq::<Seq<char>>::empty());
            empty_args
        },
    };
    Some(CommandSettings { command, saved_args })
}

/// The command module slice out of a JSON object, exactly as
/// [`commands_spec`] says.
#[verifier::loop_isolation(false)]
fn decode_commands(v: &serde_json::Value) -> (r: Option<Commands>)
    ensures
        match r {
            Some(c) => commands_spec(*v) == Some(commands_view(c)),
            None => commands_spec(*v) is None,
        },
{
    let entries = match json::object_entries(v) {
        Some(entries) => entries,
        None => {
            return None;
        },
    };
    proof {
        assert(codec::fields_view(entries@) =~= json_object_fields(*v)->Some_0);
    }
    let mut commands_map: Table<CommandSettings> = Table::new();
    match codec::get_field(&entries, "commands_map") {
        Some(f) => {
            let cmd_entries = match json::object_entries(f) {
                Some(cmd_entries) => cmd_entries,
                None => {
                    return None;
                },
            };
            let ghost cf = json_object_fields(*f)->Some_0;
            let mut i: usize = 0;
            while i < cmd_entries.len()
                invariant
                    i <= cmd_entries@.len(),
                    commands_map@.len() == i,
                    forall|j: int|
                        0 <= j < i ==> commands_map@[j].0 == cf[j].0 && command_settings_spec(
                            cf[j].1,
                        ) == Some(command_settings_view(commands_map@[j].1)),
                decreases cmd_entries@.len() - i,
            {
                let ghost prev = commands_map@;
                match decode_command_settings(&cmd_entries[i].1) {
                    Some(c) => {
                        proof {
                            if commands_map.spec_contains(cmd_entries@[i as int].0@) {
                                let x = choose|x: int|
                                    0 <= x < prev.len() && prev[x].0
                                        == cmd_entries@[i as int].0@;
                                assert(cf[x].0 == cf[i as int].0);
                            }
                        }
                        commands_map.insert(cmd_entries[i].0.clone(), c);
                    },
                    None => {
                        proof {
                            lemma_commands_from_none(cf, 0, i as int);
                        }
                        return None;
                    },
                }
                i += 1;
            }
            proof {
                let out = Seq::new(
                    commands_map@.len(),
                    |j: int| (commands_map@[j].0, command_settings_view(commands_map@[j].1)),
                );
                lemma_commands_from(cf, out, 0);
            }
        },
        None => {},
    }
    let c = Commands { commands_map };
    proof {
        let abs = commands_spec(*v)->Some_0;
        assert(commands_view(c) =~= abs);
    }
    Some(c)
}

} // verus!
