//! Tests of the settings store and the module managers.

use std::cell::RefCell;

use curld::command::settings::CommandManager;
use curld::common::CurldCommand;
use curld::run::settings::RunManager;
use curld::settings::global_settings::{GlobalSettings, SettingsDocument};
use curld::settings::traits::Storage;
use curld::value_map::ValueMap;
use curld::variables::builder::VariablesBuilder;
use curld::workspaces::settings::WorkspacesManager;

struct TestStorage {
    content: RefCell<Option<String>>,
}

impl Storage for TestStorage {
    fn write(&self, content: &str) {
        *self.content.borrow_mut() = Some(content.to_string());
    }

    fn get(&self) -> Option<String> {
        self.content.borrow().clone()
    }
}

impl Storage for &TestStorage {
    fn write(&self, content: &str) {
        *self.content.borrow_mut() = Some(content.to_string());
    }

    fn get(&self) -> Option<String> {
        self.content.borrow().clone()
    }
}

const SETTINGS: &str = r##"{
        "working_dir": "test/dir",
        "module_settings": {
            "test_module": {
                "name": "test module"
            }
        }
    }"##;

fn map_of(pairs: &[(&str, &str)]) -> ValueMap {
    let mut m = ValueMap::new();
    for (k, v) in pairs {
        m.insert(k.to_string(), v.to_string());
    }
    m
}

#[test]
fn should_try_to_load_settings_from_storage_without_panicing() {
    let storage = TestStorage { content: RefCell::new(Some(String::from(SETTINGS))) };
    GlobalSettings::new(storage).unwrap();
}

#[test]
fn should_insert_module() {
    let storage = TestStorage { content: RefCell::new(Some(String::from(SETTINGS))) };
    let mut global_settings = GlobalSettings::new(storage).unwrap();

    let module = serde_json::Value::String("inserted_module".to_string());

    global_settings.document.insert_module("inserted_module", module);
}

#[test]
fn should_retrieve_test_module() {
    let storage = TestStorage { content: RefCell::new(Some(String::from(SETTINGS))) };
    let global_settings = GlobalSettings::new(storage).unwrap();

    let module = global_settings.document.get_module("test_module").unwrap();

    assert_eq!(module.get("name").unwrap().as_str().unwrap(), "test module");
}

#[test]
fn corrupt_document_is_fatal() {
    let storage = TestStorage { content: RefCell::new(Some(String::from("not json at all"))) };
    assert!(GlobalSettings::new(storage).is_err());
}

#[test]
fn missing_document_is_a_fresh_one() {
    let storage = TestStorage { content: RefCell::new(None) };
    let global_settings = GlobalSettings::new(storage).unwrap();
    assert!(global_settings.document.get_module("run").is_none());
}

#[test]
fn written_document_loads_back() {
    let mut document = SettingsDocument::empty();
    document.working_dir = "somewhere".to_string();
    document.insert_module("marker", serde_json::Value::String("kept".to_string()));

    let text = document.to_text();
    let reloaded = SettingsDocument::from_text(&text).unwrap();
    assert_eq!(reloaded.working_dir, "somewhere");
    assert_eq!(
        reloaded.get_module("marker").unwrap().as_str().unwrap(),
        "kept"
    );
}

#[test]
fn write_hands_the_serialized_document_to_the_storage() {
    let storage = TestStorage { content: RefCell::new(None) };
    let mut global_settings = GlobalSettings::new(&storage).unwrap();
    global_settings
        .document
        .insert_module("marker", serde_json::Value::String("kept".to_string()));
    global_settings.write();

    let stored = storage.content.borrow().clone().unwrap();
    let reloaded = SettingsDocument::from_text(&stored).unwrap();
    assert_eq!(
        reloaded.get_module("marker").unwrap().as_str().unwrap(),
        "kept"
    );
}

#[test]
fn new_should_return_empty_hash_map() {
    let stored_settings = SettingsDocument::empty();

    let command_manager = CommandManager::new(&stored_settings);

    assert_eq!(command_manager.commands.commands_map.len(), 0);
}

#[test]
fn get_command_should_return_default_command() {
    let stored_settings = SettingsDocument::empty();

    let command_manager = CommandManager::new(&stored_settings);

    let command = command_manager.get_command("test");

    assert_eq!(command.command, "test");
    assert_eq!(command.saved_args.len(), 0);
}

#[test]
fn change_workspace_should_return_workspace_even_when_it_does_not_exist() {
    let mut stored_settings = SettingsDocument::empty();

    let mut manager = WorkspacesManager::new(&mut stored_settings);
    manager.change_workspace("test", &mut stored_settings);

    let current_workspace = manager.get_current_workspace();

    assert_eq!(current_workspace.name, "test");
}

#[test]
fn new_should_create_default_workspace_when_none_exist() {
    let mut stored_settings = SettingsDocument::empty();

    let manager = WorkspacesManager::new(&mut stored_settings);

    assert_eq!(manager.get_workspaces_names().len(), 1);
}

#[test]
fn workspace_bootstrap_sets_default_current() {
    let mut stored_settings = SettingsDocument::empty();

    let manager = WorkspacesManager::new(&mut stored_settings);

    assert_eq!(manager.get_workspaces_names(), vec!["default".to_string()]);
    assert_eq!(manager.get_current_workspace().name, "default");
}

#[test]
fn workspace_variables_round_trip_through_the_document() {
    let mut stored_settings = SettingsDocument::empty();

    let mut manager = WorkspacesManager::new(&mut stored_settings);
    manager.set_variable("base_url", "test.com", &mut stored_settings);

    let reloaded = WorkspacesManager::new(&mut stored_settings);
    let current = reloaded.get_current_workspace();
    assert_eq!(current.variables.get("base_url").unwrap(), "test.com");
}

#[test]
fn set_variable_keeps_other_variables_and_workspaces() {
    let mut doc = SettingsDocument::empty();
    let mut manager = WorkspacesManager::new(&mut doc);
    manager.change_workspace("alpha", &mut doc);
    manager.set_variable("a", "1", &mut doc);
    manager.set_variable("b", "2", &mut doc);
    manager.change_workspace("beta", &mut doc);
    manager.set_variable("c", "3", &mut doc);
    manager.change_workspace("alpha", &mut doc);
    let ws = manager.get_current_workspace();
    assert_eq!(ws.variables.get("a").unwrap(), "1");
    assert_eq!(ws.variables.get("b").unwrap(), "2");
    assert!(ws.variables.get("c").is_none());
}

#[test]
fn reloaded_manager_keeps_the_current_workspace() {
    let mut doc = SettingsDocument::empty();
    let mut manager = WorkspacesManager::new(&mut doc);
    manager.change_workspace("beta", &mut doc);

    let reloaded = WorkspacesManager::new(&mut doc);
    assert_eq!(reloaded.get_current_workspace().name, "beta");
    let mut names = reloaded.get_workspaces_names();
    names.sort();
    assert_eq!(names, vec!["beta".to_string(), "default".to_string()]);
}

#[test]
fn add_saved_keeps_earlier_entries() {
    let doc = SettingsDocument::empty();
    let mut manager = RunManager::new(&doc);
    manager.add_saved(
        "one".to_string(),
        CurldCommand::new(vec!["first".to_string()], ValueMap::new()),
    );
    manager.add_saved(
        "two".to_string(),
        CurldCommand::new(vec!["second".to_string()], ValueMap::new()),
    );
    assert_eq!(
        manager.get_saved(&"one".to_string()).unwrap().user_args,
        vec!["first".to_string()]
    );
    assert_eq!(
        manager.get_saved(&"two".to_string()).unwrap().user_args,
        vec!["second".to_string()]
    );
}

#[test]
fn run_settings_round_trip_through_the_document() {
    let mut stored_settings = SettingsDocument::empty();

    let mut manager = RunManager::new(&stored_settings);
    let cmd = CurldCommand::new(
        vec!["-X".to_string(), "${method}".to_string()],
        map_of(&[("method", "GET")]),
    );
    manager.add_saved("fetch".to_string(), cmd);
    let history_cmd = CurldCommand::new(vec!["plain".to_string()], ValueMap::new());
    manager.insert_history(history_cmd, &mut stored_settings);

    let reloaded = RunManager::new(&stored_settings);
    let saved = reloaded.get_saved(&"fetch".to_string()).unwrap();
    assert_eq!(saved.user_args, vec!["-X".to_string(), "${method}".to_string()]);
    assert_eq!(saved.value_map.get("method").unwrap(), "GET");
    assert_eq!(reloaded.get_saved_keys(), vec!["fetch".to_string()]);
    let entry = reloaded.get_history_entry(0).unwrap();
    assert_eq!(entry.user_args, vec!["plain".to_string()]);
}

#[test]
fn command_manager_reads_the_command_module() {
    let text = r#"{"module_settings": {"command": {"commands_map": {"deploy": {"command": "kubectl", "saved_args": ["apply"]}}}}}"#;
    let doc = SettingsDocument::from_text(text).unwrap();
    let manager = CommandManager::new(&doc);
    let cmd = manager.get_command("deploy");
    assert_eq!(cmd.command, "kubectl");
    assert_eq!(cmd.saved_args, vec!["apply".to_string()]);
}

#[test]
fn unreadable_module_slice_falls_back_to_default() {
    let text = r#"{"module_settings": {"run": 5}}"#;
    let doc = SettingsDocument::from_text(text).unwrap();
    let manager = RunManager::new(&doc);
    assert!(manager.get_saved_keys().is_empty());
}

#[test]
fn run_history_entries_are_indexed_and_rendered() {
    let mut stored_settings = SettingsDocument::empty();
    let mut manager = RunManager::new(&stored_settings);
    let cmd = CurldCommand::new(
        vec!["echo".to_string(), "${word}".to_string()],
        map_of(&[("word", "hi")]),
    );
    manager.insert_history(cmd, &mut stored_settings);

    let mut builder = VariablesBuilder::new();
    builder.add_inserter(curld::variables::ScopeMutator::Run(
        curld::run::mutators::RunMutators {},
    ));
    let entries = manager.get_history_entries(&builder);
    assert_eq!(entries, vec!["0| echo hi".to_string()]);
}
