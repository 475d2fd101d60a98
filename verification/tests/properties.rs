//! Scenario tests for the engine's documented behaviour: identity and
//! idempotence of rendering, deduplication, scope disjointness, the bounded
//! history, and the end-to-end rendering example.

use curld::common::CurldCommand;
use curld::run::mutators::RunMutators;
use curld::run::settings::RunManager;
use curld::settings::global_settings::SettingsDocument;
use curld::templates::parse as template_parse;
use curld::templates::TemplateBuilder;
use curld::value_map::ValueMap;
use curld::workspaces::mutators::WorkspaceMutator;
use curld::workspaces::settings::Workspace;

fn map_of(pairs: &[(&str, &str)]) -> ValueMap {
    let mut m = ValueMap::new();
    for (k, v) in pairs {
        m.insert(k.to_string(), v.to_string());
    }
    m
}

#[test]
fn rendering_without_placeholders_is_identity() {
    let template = vec!["-X".to_string(), "GET".to_string(), "https://plain.test".to_string()];
    let anything = map_of(&[("a", "1"), ("GET", "nope"), ("plain", "nope")]);

    let mut builder = TemplateBuilder::new(template.clone()).unwrap();
    builder.insert_values(anything);
    assert_eq!(builder.cmd(), template);
}

#[test]
fn rendering_twice_changes_nothing_more() {
    let template = "https://${base_url}/v1/${endpoint}?q=${q}";
    let values = map_of(&[("base_url", "test.com"), ("q", "x")]);

    let once = template_parse::insert_template_values(template, &values);
    let twice = template_parse::insert_template_values(&once, &values);
    assert_eq!(once, "https://test.com/v1/${endpoint}?q=x");
    assert_eq!(twice, once);
}

#[test]
fn extraction_after_rendering_drops_the_resolved_names() {
    let template = "https://${base_url}/v1/${endpoint}?q=${q}";
    let values = map_of(&[("base_url", "test.com"), ("q", "x")]);

    let rendered = template_parse::insert_template_values(template, &values);
    let mut left = template_parse::extract_template_names(&rendered).unwrap();
    left.sort();
    assert_eq!(left, vec!["endpoint".to_string()]);
}

#[test]
fn extraction_deduplicates() {
    let names = template_parse::extract_template_names("${a} ${a} ${b}").unwrap();
    let mut sorted = names.clone();
    sorted.sort();
    assert_eq!(names.len(), 2);
    assert_eq!(sorted, vec!["a".to_string(), "b".to_string()]);
}

#[test]
fn unterminated_placeholder_fails_extraction() {
    let result = template_parse::extract_template_names("https://${base_url/v1/${endpoint}");
    assert!(result.is_err());
}

#[test]
fn scopes_are_textually_disjoint() {
    let template = "$w{key} ${key2}";

    let workspace = Workspace {
        name: "test".to_string(),
        variables: ValueMap::new(),
        commands: vec![],
    };
    let workspace_names = WorkspaceMutator::new(&workspace).extract(template).unwrap();
    assert_eq!(workspace_names, vec!["key".to_string()]);

    let user_names = RunMutators {}.extract(template).unwrap();
    assert_eq!(user_names, vec!["key2".to_string()]);
}

#[test]
fn history_never_exceeds_its_capacity() {
    let mut doc = SettingsDocument::empty();
    let mut manager = RunManager::new(&doc);
    for i in 0..13 {
        let cmd = CurldCommand::new(vec![format!("cmd{}", i)], ValueMap::new());
        manager.insert_history(cmd, &mut doc);
    }
    // Ten records are kept: the most recent ones, newest first.
    assert!(manager.get_history_entry(10).is_none());
    for i in 0..10 {
        let entry = manager.get_history_entry(i).unwrap();
        assert_eq!(entry.user_args, vec![format!("cmd{}", 12 - i)]);
    }
}

#[test]
fn end_to_end_template_renders_to_the_expected_arguments() {
    let template = vec![
        "-X".to_string(),
        "${method}".to_string(),
        "-d".to_string(),
        r#"{ "one": "${thing}" }"#.to_string(),
        "https://${base_url}".to_string(),
    ];
    let values = map_of(&[
        ("method", "POST"),
        ("thing", "one_value"),
        ("base_url", "test.com"),
    ]);

    let mut builder = TemplateBuilder::new(template).unwrap();
    builder.insert_values(values);
    assert_eq!(
        builder.cmd(),
        vec![
            "-X".to_string(),
            "POST".to_string(),
            "-d".to_string(),
            r#"{ "one": "one_value" }"#.to_string(),
            "https://test.com".to_string(),
        ]
    );
}
