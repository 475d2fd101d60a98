//! The settings document and the store around it: one `working_dir` string
//! and a module map whose values the store never inspects, loaded from and
//! written to a storage device as one JSON object.

use vstd::prelude::*;

use super::codec;
use super::codec::{fields_view, find_field_spec};
use super::json;
use super::json::{clone_value, json_object_fields, json_parse, json_string_of, json_text};
use super::traits::Storage;
use crate::table::Table;

verus! {

/// What can go wrong with the persisted document as a whole.
#[derive(Clone, Copy, Debug, PartialEq, Eq, Structural)]
pub enum SettingsError {
    /// Bytes were stored, but they do not hold a JSON settings document.
    CorruptDocument,
}

/// The mathematical content of a settings document: the working directory
/// and the module fields.
pub ghost struct DocAbs {
    pub working_dir: Seq<char>,
    pub modules: Seq<(Seq<char>, serde_json::Value)>,
}

/// The document a JSON value holds: its `working_dir` string field (empty
/// when absent) and the fields of its `module_settings` object (none when
/// absent); `None` when the value is not an object or a field has the wrong
/// shape.
pub open spec fn doc_of_value(v: serde_json::Value) -> Option<DocAbs> {
    match json_object_fields(v) {
        None => None,
        Some(fields) => match (match find_field_spec(fields, "working_dir"@) {
            None => Some(Seq::<char>::empty()),
            Some(f) => json_string_of(f),
        }) {
            None => None,
            Some(wd) => match (match find_field_spec(fields, "module_settings"@) {
                None => Some(Seq::<(Seq<char>, serde_json::Value)>::empty()),
                Some(f) => json_object_fields(f),
            }) {
                None => None,
                Some(mods) => Some(DocAbs { working_dir: wd, modules: mods }),
            },
        },
    }
}

/// The document a text holds: the parse of the text, read as a document.
pub open spec fn doc_of_text(text: Seq<char>) -> Option<DocAbs> {
    match json_parse(text) {
        None => None,
        Some(v) => doc_of_value(v),
    }
}

/// The in-memory settings document: a working directory and one opaque
/// serialized value per module name.
pub struct SettingsDocument {
    pub working_dir: String,
    pub modules: Table<serde_json::Value>,
}

/// A document's content.
pub open spec fn doc_view(d: SettingsDocument) -> DocAbs {
    DocAbs { working_dir: d.working_dir@, modules: d.modules@ }
}

impl SettingsDocument {
    /// The module map.
    pub open spec fn spec_modules(&self) -> Table<serde_json::Value> {
        self.modules
    }

    /// A fresh document: no modules, an empty working directory.
    pub fn empty() -> (r: SettingsDocument)
        ensures
            r.spec_modules()@.len() == 0,
            r.working_dir@.len() == 0,
    {
        SettingsDocument { working_dir: String::new(), modules: Table::new() }
    }

    /// The stored slice of the module, if any. The store hands the slice
    /// out as it was stored and never inspects it.
    pub fn get_module(&self, module_name: &str) -> (r: Option<&serde_json::Value>)
        ensures
            match r {
                Some(v) => self.spec_modules().spec_get(module_name@) == Some(*v),
                None => !self.spec_modules().spec_contains(module_name@),
            },
    {
        self.modules.get(module_name)
    }

    /// Overwrites the slice of the module.
    pub fn insert_module(&mut self, module_name: &str, settings: serde_json::Value)
        ensures
            final (self).spec_modules().spec_get(module_name@) == Some(settings),
            old(self).spec_modules().spec_contains(module_name@) ==> final (
            self).spec_modules()@ == old(self).spec_modules()@.update(
                old(self).spec_modules().index_of(module_name@),
                (module_name@, settings),
            ),
            !old(self).spec_modules().spec_contains(module_name@) ==> final (
            self).spec_modules()@ == old(self).spec_modules()@.push((module_name@, settings)),
            final (self).working_dir == old(self).working_dir,
    {
        self.modules.insert(module_name.to_owned(), settings);
    }

    /// Reads a document out of its JSON text: `Ok` with exactly the
    /// document the text holds, or the corrupt-document error exactly when
    /// the text holds none.
    pub fn from_text(text: &str) -> (r: Result<SettingsDocument, SettingsError>)
        ensures
            match r {
                Ok(d) => doc_of_text(text@) == Some(doc_view(d)),
                Err(e) => e == SettingsError::CorruptDocument && doc_of_text(text@) is None,
            },
    {
        let top = match json::parse_value(text) {
            Ok(v) => v,
            Err(_) => {
                return Err(SettingsError::CorruptDocument);
            },
        };
        let entries = match json::object_entries(&top) {
            Some(entries) => entries,
            None => {
                return Err(SettingsError::CorruptDocument);
            },
        };
        let ghost fields = json_object_fields(top)->Some_0;
        proof {
            assert(fields_view(entries@) =~= fields);
        }
        let working_dir = match codec::get_field(&entries, "working_dir") {
            Some(f) => match json::value_as_string(f) {
                Some(s) => s,
                None => {
                    return Err(SettingsError::CorruptDocument);
                },
            },
            None => String::new(),
        };
        let mut modules: Table<serde_json::Value> = Table::new();
        match codec::get_field(&entries, "module_settings") {
            Some(f) => {
                let module_entries = match json::object_entries(f) {
                    Some(module_entries) => module_entries,
                    None => {
                        return Err(SettingsError::CorruptDocument);
                    },
                };
                let ghost mods = json_object_fields(*f)->Some_0;
                let mut i: usize = 0;
                while i < module_entries.len()
                    invariant
                        i <= module_entries@.len(),
                        mods.len() == module_entries@.len(),
                        forall|j: int|
                            0 <= j < mods.len() ==> mods[j] == (
                                module_entries@[j].0@,
                                module_entries@[j].1,
                            ),
                        json::fields_unique(mods),
                        modules@ == mods.take(i as int),
                    decreases module_entries@.len() - i,
                {
                    let ghost prev = modules@;
                    let name = module_entries[i].0.clone();
                    let value = clone_value(&module_entries[i].1);
                    proof {
                        if modules.spec_contains(name@) {
                            let w = choose|w: int| 0 <= w < prev.len() && prev[w].0 == name@;
                            assert(mods[w].0 == mods[i as int].0);
                        }
                    }
                    modules.insert(name, value);
                    proof {
                        assert(modules@ =~= mods.take(i + 1));
                    }
                    i += 1;
                }
                proof {
                    assert(mods.take(mods.len() as int) =~= mods);
                }
            },
            None => {
                proof {
                    assert(modules@ =~= Seq::<(Seq<char>, serde_json::Value)>::empty());
                }
            },
        }
        Ok(SettingsDocument { working_dir, modules })
    }

    /// The document as JSON text: the text is the serialization of a JSON
    /// value holding exactly this document's working directory and module
    /// fields equivalent to this document's (the serialized object orders
    /// its keys). Whenever the text parses at all — the parser caps
    /// nesting — the document it holds is this one.
    pub fn to_text(&self) -> (r: String)
        ensures
            exists|w: serde_json::Value|
                r@ == #[trigger] json_text(w) && (doc_of_value(w) matches Some(abs)
                    && abs.working_dir == self.working_dir@ && json::fields_equivalent(
                    abs.modules,
                    self.spec_modules()@,
                )),
            doc_of_text(r@) matches Some(abs) ==> abs.working_dir == self.working_dir@
                && json::fields_equivalent(abs.modules, self.spec_modules()@),
            json_parse(r@) is Some ==> doc_of_text(r@) is Some,
    {
        proof {
            use_type_invariant(&self.modules);
        }
        let mut module_fields: Vec<(String, serde_json::Value)> = Vec::new();
        let keys = self.modules.keys();
        let mut i: usize = 0;
        while i < keys.len()
            invariant
                i <= keys@.len(),
                self.modules.inv(),
                keys.deep_view().len() == self.modules@.len(),
                forall|m: int|
                    0 <= m < self.modules@.len() ==> keys.deep_view()[m] == self.modules@[m].0,
                module_fields@.len() == i,
                forall|j: int|
                    0 <= j < i ==> (module_fields@[j].0@, module_fields@[j].1)
                        == self.modules@[j],
            decreases keys@.len() - i,
        {
            let ghost prev = module_fields@;
            let key = keys[i].clone();
            proof {
                assert(keys@[i as int].deep_view() == keys.deep_view()[i as int]);
                assert(key@ == self.modules@[i as int].0);
            }
            match self.modules.get(key.as_str()) {
                Some(v) => {
                    proof {
                        assert(self.modules.spec_contains(key@));
                        let w = self.modules.index_of(key@);
                        if w != i as int {
                            assert(self.modules@[w].0 == self.modules@[i as int].0);
                        }
                        assert(*v == self.modules@[i as int].1);
                    }
                    let value = clone_value(v);
                    module_fields.push((key, value));
                },
                None => {
                    proof {
                        assert(self.modules.spec_contains(key@));
                        assert(false);
                    }
                },
            }
            i += 1;
        }
        let ghost mods_built = fields_view(module_fields@);
        proof {
            assert(mods_built =~= self.modules@);
            assert forall|a: int, b: int|
                0 <= a < b < module_fields@.len() implies module_fields@[a].0@
                != module_fields@[b].0@ by {
                assert(self.modules@[a].0 != self.modules@[b].0);
                assert(mods_built[a].0 == module_fields@[a].0@);
                assert(mods_built[b].0 == module_fields@[b].0@);
            }
        }
        let module_value = json::object_value(module_fields);
        proof {
            assert(json::fields_equivalent(json_object_fields(module_value)->Some_0, mods_built));
        }
        let wd_value = json::string_value(self.working_dir.as_str());
        let mut fields: Vec<(String, serde_json::Value)> = Vec::new();
        fields.push(("working_dir".to_owned(), wd_value));
        fields.push(("module_settings".to_owned(), module_value));
        proof {
            reveal_strlit("working_dir");
            reveal_strlit("module_settings");
            assert("working_dir"@.len() == 11 && "module_settings"@.len() == 15);
            assert("working_dir"@ != "module_settings"@);
            assert(fields@[0].0@ == "working_dir"@);
            assert(fields@[1].0@ == "module_settings"@);
            assert forall|a: int, b: int| 0 <= a < b < fields@.len() implies fields@[a].0@
                != fields@[b].0@ by {
                assert(a == 0 && b == 1);
            }
        }
        let whole = json::object_value(fields);
        let text = match json::value_to_text(&whole) {
            Ok(text) => text,
            Err(_) => unreached(),
        };
        proof {
            let built = fields_view(fields@);
            assert(built.len() == 2);
            assert(built[0] == ("working_dir"@, wd_value));
            assert(built[1] == ("module_settings"@, module_value));
            let fs = json_object_fields(whole)->Some_0;
            assert(json::fields_equivalent(fs, built));
            codec::lemma_find_two(
                built,
                "working_dir"@,
                wd_value,
                "module_settings"@,
                module_value,
            );
            codec::lemma_find_in_equivalent(fs, built, "working_dir"@);
            codec::lemma_find_in_equivalent(fs, built, "module_settings"@);
            assert(find_field_spec(fs, "working_dir"@) == Some(wd_value));
            assert(find_field_spec(fs, "module_settings"@) == Some(module_value));
            assert(json_string_of(wd_value) == Some(self.working_dir@));
            assert(doc_of_value(whole) == Some(
                DocAbs {
                    working_dir: self.working_dir@,
                    modules: json_object_fields(module_value)->Some_0,
                },
            ));
            assert(text@ == json_text(whole));
            if json_parse(text@) is Some {
                assert(json_parse(text@) == Some(whole));
            }
        }
        text
    }
}

/// The settings store: the document together with the storage device it
/// was loaded from and is written back to.
pub struct GlobalSettings<S: Storage> {
    storage: S,
    pub document: SettingsDocument,
}

/// What loading yields for each outcome of the storage device: no stored
/// bytes is a fresh document; stored text holding a document is that
/// document; anything else is the corrupt-document error.
pub fn load_document(stored: Option<String>) -> (r: Result<SettingsDocument, SettingsError>)
    ensures
        match stored {
            None => r matches Ok(d) && doc_view(d) == (DocAbs {
                working_dir: Seq::<char>::empty(),
                modules: Seq::<(Seq<char>, serde_json::Value)>::empty(),
            }),
            Some(t) => match r {
                Ok(d) => doc_of_text(t@) == Some(doc_view(d)),
                Err(e) => e == SettingsError::CorruptDocument && doc_of_text(t@) is None,
            },
        },
{
    match stored {
        Some(text) => SettingsDocument::from_text(text.as_str()),
        None => {
            let d = SettingsDocument::empty();
            proof {
                assert(d.modules@ =~= Seq::<(Seq<char>, serde_json::Value)>::empty());
                assert(d.working_dir@ =~= Seq::<char>::empty());
            }
            Ok(d)
        },
    }
}

impl<S: Storage> GlobalSettings<S> {
    /// Loads the document from the storage device, exactly as
    /// [`load_document`] says of whatever the device handed back: no stored
    /// bytes is a fresh document; stored bytes that hold no document are
    /// fatal, the one error being the corrupt-document one.
    pub fn new(storage: S) -> (r: Result<GlobalSettings<S>, SettingsError>)
        ensures
            r matches Err(e) ==> e == SettingsError::CorruptDocument,
    {
        let document = match load_document(storage.get()) {
            Ok(document) => document,
            Err(e) => {
                return Err(e);
            },
        };
        Ok(GlobalSettings { storage, document })
    }

    /// Serializes the whole document — [`SettingsDocument::to_text`]'s
    /// contract fixes the text to one that holds exactly this document —
    /// and hands it to the storage device.
    pub fn write(&self) {
        let text = self.document.to_text();
        self.storage.write(text.as_str());
    }
}

} // verus!
