//! Tests of the template builder and the mutator pipeline.

use curld::common::CurldCommand;
use curld::config::Config;
use curld::run::mutators::RunMutators;
use curld::templates::TemplateBuilder;
use curld::value_map::ValueMap;
use curld::variables::builder::VariablesBuilder;
use curld::variables::ScopeMutator;
use curld::workspaces::mutators::WorkspaceMutator;
use curld::workspaces::settings::Workspace;

fn map_of(pairs: &[(&str, &str)]) -> ValueMap {
    let mut m = ValueMap::new();
    for (k, v) in pairs {
        m.insert(k.to_string(), v.to_string());
    }
    m
}

#[test]
fn should_convert_to_string() {
    let curl_cmd: Vec<String> = [
        "-X",
        "POST",
        "-d",
        r#"{ "one": "${thing}" }"#,
        "https://${base_url}",
    ]
    .map(String::from)
    .to_vec();

    let value_map = map_of(&[("thing", "one_value"), ("base_url", "test.com")]);

    let mut templates = TemplateBuilder::new(curl_cmd).unwrap();
    templates.insert_values(value_map);

    assert_eq!(
        templates.build_string(),
        r#"-X POST -d { "one": "one_value" } https://test.com"#
    )
}

#[test]
fn should_extract_templates_from_cmd() {
    let curl_cmd = vec![
        "--request".to_string(),
        "${method}".to_string(),
        "-d".to_string(),
        "'{ 'one': ${one}, 'two': 'no_two', 'three': '${three}' }'".to_string(),
        "https://${base_url}.com/${env}/resource".to_string(),
    ];

    let templates = TemplateBuilder::new(curl_cmd).unwrap();

    assert!(templates.keys.contains(&String::from("method")));
    assert!(templates.keys.contains(&String::from("one")));
    assert!(templates.keys.contains(&String::from("three")));
    assert!(templates.keys.contains(&String::from("base_url")));
    assert!(templates.keys.contains(&String::from("env")));
}

#[test]
fn mod_should_return_cmd_with_inserted_values() {
    let curl_cmd = vec![
        "--request".to_string(),
        "${method}".to_string(),
        "-d".to_string(),
        r#"{ "one": ${one}, "two": "no_two", "three": "${three}" }"#.to_string(),
        "https://${base_url}.com/${env}/resource".to_string(),
    ];
    let mut template = TemplateBuilder::new(curl_cmd).unwrap();
    let value_map = map_of(&[
        ("method", "GET"),
        ("one", "one_value"),
        ("three", "three_value"),
        ("base_url", "test.com"),
        ("env", "test_env"),
    ]);

    template.insert_values(value_map);

    assert_eq!(
        template.cmd(),
        vec![
            "--request",
            "GET",
            "-d",
            r#"{ "one": one_value, "two": "no_two", "three": "three_value" }"#,
            "https://test.com.com/test_env/resource"
        ]
    );
}

#[test]
fn should_build_string_from_cmd_with_variables() {
    let curl_cmd: Vec<String> = [
        "-X",
        "POST",
        "-d",
        r#"{ "one": "${thing}" }"#,
        "https://${base_url}",
    ]
    .map(String::from)
    .to_vec();

    let value_map = map_of(&[("thing", "one_value"), ("base_url", "test.com")]);

    let mut builder = VariablesBuilder::new();
    builder.add_inserter(ScopeMutator::Run(RunMutators {}));
    let curld = CurldCommand::new(curl_cmd, value_map);

    assert_eq!(
        builder.to_string(&curld),
        r#"-X POST -d { "one": "one_value" } https://test.com"#
    )
}

#[test]
fn should_extract_variables_from_cmd() {
    let curl_cmd = vec![
        "-X".to_string(),
        "${method}".to_string(),
        "-d".to_string(),
        "'{ 'one': ${one}, 'two': 'no_two', 'three': '${three}' }'".to_string(),
        "https://${base_url}.com/${env}/resource".to_string(),
    ];

    let mut builder = VariablesBuilder::new();
    builder.add_extractor(ScopeMutator::Run(RunMutators {}));
    let keys = builder.extract(&curl_cmd).unwrap();

    assert!(keys.contains(&String::from("method")));
    assert!(keys.contains(&String::from("one")));
    assert!(keys.contains(&String::from("three")));
    assert!(keys.contains(&String::from("base_url")));
    assert!(keys.contains(&String::from("env")));
}

#[test]
fn variables_builder_should_return_cmd_with_inserted_values() {
    let curl_cmd = vec![
        "-X".to_string(),
        "${method}".to_string(),
        "-d".to_string(),
        r#"{ "one": ${one}, "two": "no_two", "three": "${three}" }"#.to_string(),
        "https://${base_url}.com/${env}/resource".to_string(),
    ];
    let value_map = map_of(&[
        ("method", "GET"),
        ("one", "one_value"),
        ("three", "three_value"),
        ("base_url", "test.com"),
        ("env", "test_env"),
    ]);

    let mut builder = VariablesBuilder::new();
    builder.add_inserter(ScopeMutator::Run(RunMutators {}));
    let curld = CurldCommand::new(curl_cmd, value_map);

    assert_eq!(
        builder.insert(&curld),
        vec![
            "-X",
            "GET",
            "-d",
            r#"{ "one": one_value, "two": "no_two", "three": "three_value" }"#,
            "https://test.com.com/test_env/resource"
        ]
    );
}

#[test]
fn inserter_should_insert_values_for_workspace() {
    let workspace = Workspace {
        name: "test".to_string(),
        variables: map_of(&[("key", "value")]),
        commands: vec![],
    };
    let mutator = WorkspaceMutator::new(&workspace);

    let result = mutator.insert("test w{key}");

    assert_eq!("test value", result);
}

#[test]
fn workspace_scope_runs_before_user_scope() {
    let workspace = Workspace {
        name: "test".to_string(),
        variables: map_of(&[("base_url", "test.com")]),
        commands: vec![],
    };
    let mut builder = VariablesBuilder::new();
    builder.add_inserter(ScopeMutator::Workspace(WorkspaceMutator::new(&workspace)));
    builder.add_inserter(ScopeMutator::Run(RunMutators {}));

    let curld = CurldCommand::new(
        vec!["https://w{base_url}/${endpoint}".to_string()],
        map_of(&[("endpoint", "users")]),
    );
    assert_eq!(builder.insert(&curld), vec!["https://test.com/users"]);
}

#[test]
fn config_registers_the_run_scope() {
    let mutators = Config::get_mutators();
    assert_eq!(mutators.extractors.len(), 1);
    assert_eq!(mutators.inserters.len(), 1);
}
