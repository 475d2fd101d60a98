//! Tests of the endpoint helpers and the endpoint settings module.

use curld::endpoints::commands;
use curld::endpoints::endpoint_settings::EndpointSettings;
use curld::endpoints::utils;
use curld::templates::TemplateBuilder;
use curld::value_map::ValueMap;

fn map_of(pairs: &[(&str, &str)]) -> ValueMap {
    let mut m = ValueMap::new();
    for (k, v) in pairs {
        m.insert(k.to_string(), v.to_string());
    }
    m
}

#[test]
fn utils_extract_template_names_should_parse() {
    let test_str = "https://${base_url}/v1/${endpoint}";

    let mut names = utils::extract_template_names(&test_str).unwrap();
    // Order the vector for a stable comparison
    names.sort();
    assert_eq!(names.get(0).unwrap(), "base_url");
    assert_eq!(names.get(1).unwrap(), "endpoint")
}

#[test]
fn utils_extract_template_names_should_error_on_bad_parse() {
    let test_str = "https://${base_url/v1/${endpoint}";

    match utils::extract_template_names(&test_str) {
        Ok(_) => panic!("extract template names succeeded when it should fail"),
        Err(_) => {},
    };
}

#[test]
fn utils_insert_template_values_succeeds() {
    let test_str = "https://${base_url}/v1/${resource}/${resouceId}";
    let value_map = map_of(&[
        ("base_url", "something.com"),
        ("resource", "user"),
        ("resouceId", "uuid"),
    ]);

    let replaced_str = utils::insert_template_values(&test_str, &value_map);
    assert_eq!(replaced_str, "https://something.com/v1/user/uuid")
}

#[test]
fn tests_extract_template_names_should_parse() {
    let test_str = String::from("https://${base_url}/v1/${endpoint}");

    let mut names = commands::extract_template_names(&test_str).unwrap();
    // Order the vector for a stable comparison
    names.sort();
    assert_eq!(names.get(0).unwrap(), "base_url");
    assert_eq!(names.get(1).unwrap(), "endpoint")
}

#[test]
fn tests_extract_template_names_should_error_on_bad_parse() {
    let test_str = String::from("https://${base_url/v1/${endpoint}");

    match commands::extract_template_names(&test_str) {
        Ok(_) => assert!(false),
        Err(_) => assert!(true),
    };
}

#[test]
fn tests_insert_template_values_succeeds() {
    let test_str = String::from("https://${base_url}/v1/${resource}/${resouceId}");
    let value_map = map_of(&[
        ("base_url", "something.com"),
        ("resource", "user"),
        ("resouceId", "uuid"),
    ]);

    let replaced_str = commands::insert_template_values(&test_str, value_map);
    assert_eq!(replaced_str, "https://something.com/v1/user/uuid")
}

#[test]
fn construct_curl_cmd_builds_the_full_command() {
    let cmd = utils::construct_curl_cmd(
        &"/v1/users".to_string(),
        &"GET".to_string(),
        &"".to_string(),
        &"https://api.test.com".to_string(),
        &vec!["Accept: application/json".to_string()],
    );
    assert_eq!(
        cmd,
        "--request -X GET --header 'Accept: application/json' https://api.test.com/v1/users"
    );
}

#[test]
fn construct_curl_cmd_quotes_data() {
    let cmd = utils::construct_curl_cmd(
        &"/v1/users".to_string(),
        &"POST".to_string(),
        &r#"{"a":1}"#.to_string(),
        &"https://api.test.com".to_string(),
        &vec![],
    );
    assert_eq!(
        cmd,
        "--request -X POST --data '{\"a\":1}' https://api.test.com/v1/users"
    );
}

#[test]
fn construct_curl_args_orders_the_arguments() {
    let args = utils::construct_curl_args(
        &"/v1/users".to_string(),
        &"POST".to_string(),
        &r#"{"a":1}"#.to_string(),
        &"https://api.test.com".to_string(),
        &vec!["Accept: application/json".to_string()],
    );
    assert_eq!(
        args,
        vec![
            "-X".to_string(),
            "POST".to_string(),
            "--header".to_string(),
            "Accept: application/json".to_string(),
            "-d".to_string(),
            r#"{"a":1}"#.to_string(),
            "https://api.test.com/v1/users".to_string(),
        ]
    );
}

#[test]
fn construct_curl_args_without_headers_has_no_empty_argument() {
    let args = utils::construct_curl_args(
        &"/v1/users".to_string(),
        &"GET".to_string(),
        &"".to_string(),
        &"https://api.test.com".to_string(),
        &vec![],
    );
    assert_eq!(
        args,
        vec![
            "-X".to_string(),
            "GET".to_string(),
            "https://api.test.com/v1/users".to_string(),
        ]
    );
}

#[test]
fn construct_curl_endpoint_with_all_parts() {
    let cmd = commands::construct_curl_endpoint(
        &"/v1/users".to_string(),
        &"GET".to_string(),
        &Some("payload".to_string()),
        &Some("https://api.test.com".to_string()),
        &Some(vec!["A: b".to_string()]),
    );
    assert_eq!(
        cmd,
        "--request GET --header 'A: b' --data 'payload' https://api.test.com/v1/users"
    );
}

#[test]
fn construct_curl_endpoint_without_optional_parts() {
    let cmd =
        curld::endpoints::construct_curl_endpoint("users".to_string(), "GET".to_string(), None, None, None);
    assert_eq!(cmd, "--request GET users");
}

#[test]
fn construct_curl_endpoint_prefixes_base_url() {
    let cmd = curld::endpoints::construct_curl_endpoint(
        "users".to_string(),
        "GET".to_string(),
        None,
        Some("https://api.test.com".to_string()),
        None,
    );
    assert_eq!(cmd, "--request GET https://api.test.com/users");
}

#[test]
fn endpoint_settings_save_and_look_up() {
    let mut settings = EndpointSettings::default();
    let template = TemplateBuilder::new(vec!["${a}".to_string()]).unwrap();
    settings.add_saved("mine".to_string(), template);

    assert!(settings.get_saved(&"mine".to_string()).is_some());
    assert!(settings.get_saved(&"other".to_string()).is_none());
    assert_eq!(settings.get_saved_keys(), vec!["mine".to_string()]);
}

#[test]
fn endpoint_history_is_bounded_and_keeps_the_most_recent() {
    let mut settings = EndpointSettings::default();
    for i in 0..13 {
        settings.insert_history(&format!("cmd{}", i));
    }
    let entries = settings.get_history_entries();
    assert_eq!(entries.len(), 10);
    // The oldest three entries were dropped.
    assert_eq!(entries[0], "0 | cmd3");
    assert_eq!(entries[9], "9 | cmd12");
    assert_eq!(settings.get_history_entry(0).unwrap(), "cmd3");
    assert!(settings.get_history_entry(10).is_none());
}
