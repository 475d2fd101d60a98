//! The run settings module: saved command records by id, and a bounded
//! history with the most recent record first. Every history insertion is
//! written through into the settings document.

use vstd::prelude::*;

use super::mutators::RunMutators;
use crate::common::{curld_view, CurldAbs, CurldCommand};
use crate::settings::codec;
use crate::settings::codec::{
    curld_spec, curlds_from, find_field_spec, lemma_curlds_from, lemma_curlds_from_none,
};
use crate::settings::global_settings::SettingsDocument;
use crate::settings::json;
use crate::settings::json::{json_array_elems, json_object_fields, json_u64_of};
use crate::strutil;
use crate::strutil::dec_str;
use crate::table::Table;
use crate::value_map::ValueMap;
use crate::variables::builder::VariablesBuilder;
use crate::variables::pipeline_insert_spec;

verus! {

/// The mathematical content of the run module slice.
pub ghost struct RunSettingsAbs {
    pub saved: Seq<(Seq<char>, CurldAbs)>,
    pub history_len: int,
    pub history: Seq<CurldAbs>,
}

/// The saved entries of the fields from position `i` on, provided every
/// field's value holds a command record.
pub open spec fn saved_from(fields: Seq<(Seq<char>, serde_json::Value)>, i: int) -> Option<
    Seq<(Seq<char>, CurldAbs)>,
>
    decreases fields.len() - i,
        when 0 <= i <= fields.len()
{
    if i == fields.len() {
        Some(Seq::empty())
    } else {
        match curld_spec(fields[i].1) {
            None => None,
            Some(c) => match saved_from(fields, i + 1) {
                None => None,
                Some(rest) => Some(seq![(fields[i].0, c)] + rest),
            },
        }
    }
}

/// A suffix whose entries are known is decoded to exactly those entries.
proof fn lemma_saved_from(
    fields: Seq<(Seq<char>, serde_json::Value)>,
    out: Seq<(Seq<char>, CurldAbs)>,
    k: int,
)
    requires
        0 <= k <= fields.len(),
        out.len() == fields.len() - k,
        forall|j: int|
            0 <= j < out.len() ==> out[j].0 == fields[k + j].0 && curld_spec(fields[k + j].1)
                == Some(out[j].1),
    ensures
        saved_from(fields, k) == Some(out),
    decreases fields.len() - k,
{
    if k < fields.len() {
        lemma_saved_from(fields, out.drop_first(), k + 1);
        assert(out[0].0 == fields[k + 0].0 && curld_spec(fields[k + 0].1) == Some(out[0].1));
        assert(seq![(fields[k].0, out[0].1)] + out.drop_first() =~= out);
    } else {
        assert(out =~= Seq::<(Seq<char>, CurldAbs)>::empty());
    }
}

/// One malformed field value anywhere after `k` makes the suffix
/// undecodable.
proof fn lemma_saved_from_none(fields: Seq<(Seq<char>, serde_json::Value)>, k: int, j: int)
    requires
        0 <= k <= j < fields.len(),
        curld_spec(fields[j].1) is None,
    ensures
        saved_from(fields, k) is None,
    decreases j - k,
{
    if k < j {
        lemma_saved_from_none(fields, k + 1, j);
    }
}

/// The run module slice a JSON value holds: the saved records, the
/// capacity (never beyond the machine's), and the history truncated to the
/// capacity; a missing field is its default, a malformed one makes the
/// whole slice unreadable.
pub open spec fn run_settings_spec(v: serde_json::Value) -> Option<RunSettingsAbs> {
    match json_object_fields(v) {
        None => None,
        Some(fields) => match (match find_field_spec(fields, "saved"@) {
            None => Some(Seq::<(Seq<char>, CurldAbs)>::empty()),
            Some(f) => match json_object_fields(f) {
                None => None,
                Some(sf) => saved_from(sf, 0),
            },
        }) {
            None => None,
            Some(saved) => match (match find_field_spec(fields, "history_len"@) {
                None => Some(0int),
                Some(f) => match json_u64_of(f) {
                    None => None,
                    Some(n) => if n > usize::MAX as u64 {
                        None
                    } else {
                        Some(n as int)
                    },
                },
            }) {
                None => None,
                Some(hl) => match (match find_field_spec(fields, "history"@) {
                    None => Some(Seq::<CurldAbs>::empty()),
                    Some(f) => match json_array_elems(f) {
                        None => None,
                        Some(items) => curlds_from(items, 0),
                    },
                }) {
                    None => None,
                    Some(hs) => Some(
                        RunSettingsAbs {
                            saved,
                            history_len: hl,
                            history: if hs.len() <= hl {
                                hs
                            } else {
                                hs.take(hl)
                            },
                        },
                    ),
                },
            },
        },
    }
}

/// The persisted slice of the run module: saved records and the bounded
/// history, most recent first.
pub struct RunSettings {
    saved: Table<CurldCommand>,
    history_len: usize,
    history: Vec<CurldCommand>,
}

impl RunSettings {
    /// The history never exceeds its capacity.
    #[verifier::type_invariant]
    pub open spec fn inv(&self) -> bool {
        self.spec_history().len() <= self.spec_history_len()
    }

    /// The saved-record table.
    pub closed spec fn spec_saved(&self) -> Table<CurldCommand> {
        self.saved
    }

    /// The history records, most recent first.
    pub closed spec fn spec_history(&self) -> Seq<CurldCommand> {
        self.history@
    }

    /// The history capacity.
    pub closed spec fn spec_history_len(&self) -> nat {
        self.history_len as nat
    }

    /// A fresh module slice: nothing saved, an empty history that keeps
    /// ten records.
    pub fn default() -> (r: RunSettings)
        ensures
            r.spec_saved()@.len() == 0,
            r.spec_history().len() == 0,
            r.spec_history_len() == 10,
    {
        RunSettings { saved: Table::new(), history_len: 10, history: Vec::new() }
    }
}

/// A module slice's content.
pub open spec fn run_settings_view(s: RunSettings) -> RunSettingsAbs {
    RunSettingsAbs {
        saved: Seq::new(
            s.spec_saved()@.len(),
            |i: int| (s.spec_saved()@[i].0, curld_view(s.spec_saved()@[i].1)),
        ),
        history_len: s.spec_history_len() as int,
        history: Seq::new(s.spec_history().len(), |i: int| curld_view(s.spec_history()[i])),
    }
}

/// The fresh module slice's shape: nothing saved, an empty history that
/// keeps ten records.
pub open spec fn run_default_shape(s: RunSettings) -> bool {
    &&& s.spec_saved()@.len() == 0
    &&& s.spec_history().len() == 0
    &&& s.spec_history_len() == 10
}

/// One bounded insertion: the record goes to the front, and the oldest
/// records beyond the capacity are dropped.
pub open spec fn push_front_truncate(
    h: Seq<CurldCommand>,
    r: CurldCommand,
    cap: nat,
) -> Seq<CurldCommand> {
    if h.len() < cap {
        seq![r] + h
    } else {
        (seq![r] + h).take(cap as int)
    }
}

/// The history a sequence of insertions leaves behind, first record of the
/// list inserted first.
pub open spec fn history_after(
    h: Seq<CurldCommand>,
    rs: Seq<CurldCommand>,
    cap: nat,
) -> Seq<CurldCommand>
    decreases rs.len(),
{
    if rs.len() == 0 {
        h
    } else {
        history_after(push_front_truncate(h, rs[0], cap), rs.drop_first(), cap)
    }
}

/// What a sequence of insertions leaves: the most recent records, most
/// recent first, padded from the starting history when fewer than the
/// capacity were inserted.
pub proof fn lemma_history_after(h: Seq<CurldCommand>, rs: Seq<CurldCommand>, cap: nat)
    requires
        h.len() <= cap,
    ensures
        history_after(h, rs, cap).len() == if h.len() + rs.len() <= cap {
            (h.len() + rs.len()) as int
        } else {
            cap as int
        },
        forall|j: int|
            0 <= j < rs.len() && j < cap ==> history_after(h, rs, cap)[j] == rs[rs.len() - 1 - j],
        forall|j: int|
            rs.len() <= j < history_after(h, rs, cap).len() ==> history_after(h, rs, cap)[j]
                == h[j - rs.len()],
    decreases rs.len(),
{
    if rs.len() > 0 {
        let h2 = push_front_truncate(h, rs[0], cap);
        let rest = rs.drop_first();
        lemma_history_after(h2, rest, cap);
        let out = history_after(h, rs, cap);
        assert(out == history_after(h2, rest, cap));
        assert(forall|x: int| 0 <= x < rest.len() ==> rest[x] == rs[x + 1]);
        if cap == 0 {
            assert(h2 =~= Seq::<CurldCommand>::empty());
        } else {
            assert(h2[0] == rs[0]);
            assert(forall|x: int| 1 <= x < h2.len() ==> h2[x] == h[x - 1]);
            assert forall|j: int| 0 <= j < rs.len() && j < cap implies out[j] == rs[rs.len() - 1
                - j] by {
                if j < rest.len() {
                    assert(out[j] == rest[rest.len() - 1 - j]);
                } else {
                    assert(j == rest.len());
                    assert(out[j] == h2[j - rest.len()]);
                }
            }
        }
    }
}

/// Bounded-history law: after at least `cap` insertions the history holds
/// exactly the last `cap` records inserted, most recent first.
pub proof fn lemma_history_most_recent(h: Seq<CurldCommand>, rs: Seq<CurldCommand>, cap: nat)
    requires
        h.len() <= cap,
        rs.len() >= cap,
    ensures
        history_after(h, rs, cap).len() == cap,
        forall|j: int|
            0 <= j < cap ==> history_after(h, rs, cap)[j] == rs[rs.len() - 1 - j],
{
    lemma_history_after(h, rs, cap);
}

/// The run module's manager: the decoded slice, reconciled back into the
/// settings document on every history insertion.
pub struct RunManager {
    settings: RunSettings,
}

impl RunManager {
    /// The module's slice of the document.
    pub closed spec fn spec_settings(&self) -> RunSettings {
        self.settings
    }

    /// Decodes the `run` module out of the document: a stored, readable
    /// slice is taken over exactly as it is stored; an absent or unreadable
    /// slice is the default one.
    pub fn new(stored_settings: &SettingsDocument) -> (r: RunManager)
        ensures
            match stored_settings.spec_modules().spec_get("run"@) {
                None => run_default_shape(r.spec_settings()),
                Some(v) => match run_settings_spec(v) {
                    Some(abs) => run_settings_view(r.spec_settings()) == abs,
                    None => run_default_shape(r.spec_settings()),
                },
            },
    {
        let settings = match stored_settings.get_module("run") {
            Some(v) => match decode_run_settings(v) {
                Some(s) => s,
                None => RunSettings::default(),
            },
            None => RunSettings::default(),
        };
        RunManager { settings }
    }

    /// Saves the record under the id: an existing entry is overwritten in
    /// place, a new one goes to the end, and every other entry stays as it
    /// is. Saved records are persisted with the next history insertion or
    /// document write.
    pub fn add_saved(&mut self, id: String, history: CurldCommand)
        ensures
            final (self).spec_settings().spec_saved().spec_get(id@) == Some(history),
            old(self).spec_settings().spec_saved().spec_contains(id@) ==> final (
            self).spec_settings().spec_saved()@ == old(self).spec_settings().spec_saved()@.update(
                old(self).spec_settings().spec_saved().index_of(id@),
                (id@, history),
            ),
            !old(self).spec_settings().spec_saved().spec_contains(id@) ==> final (
            self).spec_settings().spec_saved()@ == old(
                self,
            ).spec_settings().spec_saved()@.push((id@, history)),
            final (self).spec_settings().spec_history() == old(self).spec_settings().spec_history(),
            final (self).spec_settings().spec_history_len() == old(
                self,
            ).spec_settings().spec_history_len(),
    {
        proof {
            use_type_invariant(&self.settings);
        }
        let mut saved: Table<CurldCommand> = Table::new();
        core::mem::swap(&mut self.settings.saved, &mut saved);
        saved.insert(id, history);
        core::mem::swap(&mut self.settings.saved, &mut saved);
    }

    /// The record saved under the id, if any.
    pub fn get_saved(&self, id: &String) -> (r: Option<&CurldCommand>)
        ensures
            match r {
                Some(c) => self.spec_settings().spec_saved().spec_get(id@) == Some(*c),
                None => !self.spec_settings().spec_saved().spec_contains(id@),
            },
    {
        self.settings.saved.get(id.as_str())
    }

    /// The saved ids, in insertion order.
    pub fn get_saved_keys(&self) -> (r: Vec<String>)
        ensures
            r.deep_view().len() == self.spec_settings().spec_saved()@.len(),
            forall|m: int|
                0 <= m < r.deep_view().len() ==> r.deep_view()[m]
                    == self.spec_settings().spec_saved()@[m].0,
    {
        self.settings.saved.keys()
    }

    /// Puts the record at the front of the history and drops the oldest
    /// records beyond the capacity, then writes the module slice back into
    /// the document.
    pub fn insert_history(&mut self, cmd: CurldCommand, stored_settings: &mut SettingsDocument)
        ensures
            final (self).spec_settings().spec_history() == push_front_truncate(
                old(self).spec_settings().spec_history(),
                cmd,
                old(self).spec_settings().spec_history_len(),
            ),
            final (self).spec_settings().spec_history().len() <= final (
            self).spec_settings().spec_history_len(),
            final (self).spec_settings().spec_history_len() == old(
                self,
            ).spec_settings().spec_history_len(),
            final (self).spec_settings().spec_saved() == old(self).spec_settings().spec_saved(),
            final (stored_settings).spec_modules().spec_contains("run"@),
            final (stored_settings).working_dir == old(stored_settings).working_dir,
    {
        proof {
            use_type_invariant(&self.settings);
        }
        let ghost old_hist = self.settings.history@;
        let mut history: Vec<CurldCommand> = Vec::new();
        core::mem::swap(&mut self.settings.history, &mut history);
        history.insert(0, cmd);
        proof {
            assert(history@ =~= seq![cmd] + old_hist);
        }
        if history.len() > self.settings.history_len {
            history.truncate(self.settings.history_len);
        }
        core::mem::swap(&mut self.settings.history, &mut history);
        self.save_to_parent(stored_settings);
    }

    /// Every history record, written `index| command`, rendered through the
    /// pipeline live at call time, most recent record first.
    pub fn get_history_entries(&self, builder: &VariablesBuilder) -> (r: Vec<String>)
        ensures
            r.deep_view().len() == self.spec_settings().spec_history().len(),
            forall|i: int|
                0 <= i < r.deep_view().len() ==> r.deep_view()[i] == dec_str(i as nat) + "| "@
                    + pipeline_insert_spec(
                    builder.spec_inserters(),
                    strutil::join_spaces(
                        self.spec_settings().spec_history()[i].user_args.deep_view(),
                    ),
                    self.spec_settings().spec_history()[i].value_map@,
                ),
    {
        let mut r: Vec<String> = Vec::new();
        let mut i: usize = 0;
        while i < self.settings.history.len()
            invariant
                i <= self.settings.history@.len(),
                self.spec_settings().spec_history() == self.settings.history@,
                r@.len() == i,
                forall|j: int|
                    0 <= j < i ==> r.deep_view()[j] == dec_str(j as nat) + "| "@
                        + pipeline_insert_spec(
                        builder.spec_inserters(),
                        strutil::join_spaces(
                            self.spec_settings().spec_history()[j].user_args.deep_view(),
                        ),
                        self.spec_settings().spec_history()[j].value_map@,
                    ),
            decreases self.settings.history@.len() - i,
        {
            let ghost prev = r@;
            let ghost prev_deep = r.deep_view();
            let mut line = strutil::usize_to_string(i);
            line.append("| ");
            let rendered = builder.to_string(&self.settings.history[i]);
            line.append(rendered.as_str());
            r.push(line);
            proof {
                assert forall|j: int| 0 <= j < i + 1 implies r.deep_view()[j] == dec_str(j as nat)
                    + "| "@ + pipeline_insert_spec(
                    builder.spec_inserters(),
                    strutil::join_spaces(
                        self.spec_settings().spec_history()[j].user_args.deep_view(),
                    ),
                    self.spec_settings().spec_history()[j].value_map@,
                ) by {
                    if j < i as int {
                        assert(r@[j] == prev[j]);
                        assert(prev_deep[j] == prev[j].deep_view());
                    }
                }
            }
            i += 1;
        }
        r
    }

    /// The history record at the index, if the index is in range; index 0
    /// is the most recent record.
    pub fn get_history_entry(&self, index: usize) -> (r: Option<&CurldCommand>)
        ensures
            match r {
                Some(c) => index < self.spec_settings().spec_history().len() && *c
                    == self.spec_settings().spec_history()[index as int],
                None => index >= self.spec_settings().spec_history().len(),
            },
    {
        if index < self.settings.history.len() {
            Some(&self.settings.history[index])
        } else {
            None
        }
    }

    /// The mutator of the run command's ad-hoc scope.
    pub fn get_mutators(&self) -> RunMutators {
        RunMutators {  }
    }

    /// Writes the module slice back into the document, under the `run`
    /// module name.
    fn save_to_parent(&self, stored_settings: &mut SettingsDocument)
        ensures
            final (stored_settings).spec_modules().spec_contains("run"@),
            final (stored_settings).working_dir == old(stored_settings).working_dir,
    {
        let encoded = encode_run_settings(&self.settings);
        stored_settings.insert_module("run", encoded);
    }
}

/// The run module slice as a JSON object: the saved records by id, the
/// capacity, and the history records in order.
fn encode_run_settings(s: &RunSettings) -> serde_json::Value {
    let mut saved_fields: Vec<(String, serde_json::Value)> = Vec::new();
    let keys = s.saved.keys();
    let mut i: usize = 0;
    while i < keys.len()
        decreases keys@.len() - i,
    {
        match s.saved.get(keys[i].as_str()) {
            Some(c) => {
                saved_fields.push((keys[i].clone(), codec::encode_curld(c)));
            },
            None => {},
        }
        i += 1;
    }
    let mut history_items: Vec<serde_json::Value> = Vec::new();
    let mut j: usize = 0;
    while j < s.history.len()
        decreases s.history@.len() - j,
    {
        history_items.push(codec::encode_curld(&s.history[j]));
        j += 1;
    }
    let mut fields: Vec<(String, serde_json::Value)> = Vec::new();
    fields.push(("saved".to_owned(), json::object_value(saved_fields)));
    fields.push(("history_len".to_owned(), json::u64_value(s.history_len as u64)));
    fields.push(("history".to_owned(), json::array_value(history_items)));
    json::object_value(fields)
}

/// The run module slice out of a JSON object, exactly as
/// [`run_settings_spec`] says.
#[verifier::loop_isolation(false)]
fn decode_run_settings(v: &serde_json::Value) -> (r: Option<RunSettings>)
    ensures
        match r {
            Some(s) => run_settings_spec(*v) == Some(run_settings_view(s)),
            None => run_settings_spec(*v) is None,
        },
{
    let entries = match json::object_entries(v) {
        Some(entries) => entries,
        None => {
            return None;
        },
    };
    let ghost fields = json_object_fields(*v)->Some_0;
    proof {
        assert(codec::fields_view(entries@) =~= fields);
    }
    let mut saved: Table<CurldCommand> = Table::new();
    match codec::get_field(&entries, "saved") {
        Some(f) => {
            let saved_entries = match json::object_entries(f) {
                Some(saved_entries) => saved_entries,
                None => {
                    return None;
                },
            };
            let ghost sf = json_object_fields(*f)->Some_0;
            let mut i: usize = 0;
            while i < saved_entries.len()
                invariant
                    i <= saved_entries@.len(),
                    sf.len() == saved_entries@.len(),
                    forall|j: int|
                        0 <= j < sf.len() ==> sf[j] == (
                            saved_entries@[j].0@,
                            saved_entries@[j].1,
                        ),
                    json::fields_unique(sf),
                    saved@.len() == i,
                    forall|j: int|
                        0 <= j < i ==> saved@[j].0 == sf[j].0 && curld_spec(sf[j].1) == Some(
                            curld_view(saved@[j].1),
                        ),
                decreases saved_entries@.len() - i,
            {
                let ghost prev = saved@;
                match codec::decode_curld(&saved_entries[i].1) {
                    Some(c) => {
                        proof {
                            if saved.spec_contains(saved_entries@[i as int].0@) {
                                let w = choose|w: int|
                                    0 <= w < prev.len() && prev[w].0
                                        == saved_entries@[i as int].0@;
                                assert(sf[w].0 == sf[i as int].0);
                            }
                        }
                        saved.insert(saved_entries[i].0.clone(), c);
                    },
                    None => {
                        proof {
                            lemma_saved_from_none(sf, 0, i as int);
                        }
                        return None;
                    },
                }
                i += 1;
            }
            proof {
                let out = Seq::new(
                    saved@.len(),
                    |j: int| (saved@[j].0, curld_view(saved@[j].1)),
                );
                lemma_saved_from(sf, out, 0);
            }
        },
        None => {},
    }
    let history_len: usize = match codec::get_field(&entries, "history_len") {
        Some(f) => match json::value_as_u64(f) {
            Some(n) => {
                if n > usize::MAX as u64 {
                    return None;
                }
                n as usize
            },
            None => {
                return None;
            },
        },
        None => 0,
    };
    let mut history: Vec<CurldCommand> = Vec::new();
    match codec::get_field(&entries, "history") {
        Some(f) => {
            let items = match json::array_items(f) {
                Some(items) => items,
                None => {
                    return None;
                },
            };
            let mut i: usize = 0;
            while i < items.len()
                invariant
                    i <= items@.len(),
                    json_array_elems(*f) == Some(items@),
                    history@.len() == i,
                    forall|j: int|
                        0 <= j < i ==> curld_spec(items@[j]) == Some(curld_view(history@[j])),
                decreases items@.len() - i,
            {
                match codec::decode_curld(&items[i]) {
                    Some(c) => history.push(c),
                    None => {
                        proof {
                            lemma_curlds_from_none(items@, 0, i as int);
                        }
                        return None;
                    },
                }
                i += 1;
            }
            proof {
                let out = Seq::new(history@.len(), |j: int| curld_view(history@[j]));
                lemma_curlds_from(items@, out, 0);
            }
        },
        None => {},
    }
    if history.len() > history_len {
        history.truncate(history_len);
    }
    let s = RunSettings { saved, history_len, history };
    proof {
        let abs = run_settings_spec(*v)->Some_0;
        assert(run_settings_view(s).saved =~= abs.saved);
        assert(run_settings_view(s).history =~= abs.history);
    }
    Some(s)
}

} // verus!
