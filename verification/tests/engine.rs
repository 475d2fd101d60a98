//! Tests of the delimiter scanner: extraction, substitution, parse errors.

use curld::scan::ParseError;
use curld::templates::parse as template_parse;
use curld::value_map::ValueMap;
use curld::variables::parse as variable_parse;

static VAR_OPEN: &str = "${";
static VAR_CLOSE: &str = "}";

static W_OPEN: &str = "$w{";
static W_CLOSE: &str = "}";

fn map_of(pairs: &[(&str, &str)]) -> ValueMap {
    let mut m = ValueMap::new();
    for (k, v) in pairs {
        m.insert(k.to_string(), v.to_string());
    }
    m
}

#[test]
fn extract_template_names_should_parse() {
    let test_str = "-X ${method} https://${base_url}/v1/${endpoint}";

    let mut names = template_parse::extract_template_names(&test_str).unwrap();
    // Order the vector for a stable comparison
    names.sort();
    assert_eq!(names.get(0).unwrap(), "base_url");
    assert_eq!(names.get(1).unwrap(), "endpoint");
    assert_eq!(names.get(2).unwrap(), "method");
}

#[test]
fn extract_template_names_should_parse_json() {
    let test_str = r#"'{ 'one': { 'sub': 'something' } ,'two': ${one} }'"#;

    let names = template_parse::extract_template_names(test_str).unwrap();

    assert_eq!(names.get(0).unwrap(), "one")
}

#[test]
fn parse_insert_template_values_succeeds() {
    let test_str = "https://${base_url}/v1/${resource}/${resouceId}";
    let value_map = map_of(&[
        ("base_url", "something.com"),
        ("resource", "user"),
        ("resouceId", "uuid"),
    ]);

    let replaced_str = template_parse::insert_template_values(&test_str, &value_map);
    assert_eq!(replaced_str, "https://something.com/v1/user/uuid");
}

#[test]
fn insert_template_values_json() {
    let test_str = r#"{ "one": "${one_value}", "two": ${two_value} }"#;
    let value_map = map_of(&[("one_value", "first_value"), ("two_value", "2")]);

    let replaced_str = template_parse::insert_template_values(&test_str, &value_map);
    assert_eq!(replaced_str, r#"{ "one": "first_value", "two": 2 }"#);
}

#[test]
fn insert_workspace_variables() {
    let test_str = "-X ${METHOD} https://$w{base_url}/$w{version}/${endpoint}";
    let workspace_variables = map_of(&[("base_url", "test.com"), ("version", "v1")]);

    let workspace_inserted =
        variable_parse::insert_variable_values(&test_str, &workspace_variables, W_OPEN, W_CLOSE);

    assert_eq!(
        workspace_inserted,
        "-X ${METHOD} https://test.com/v1/${endpoint}"
    );
}

#[test]
fn extract_variable_names_should_parse() {
    let test_str = "-X ${method} https://${base_url}/v1/${endpoint}";

    let mut names = variable_parse::extract_variable_names(&test_str, VAR_OPEN, VAR_CLOSE).unwrap();
    // Order the vector for a stable comparison
    names.sort();
    assert_eq!(names.get(0).unwrap(), "base_url");
    assert_eq!(names.get(1).unwrap(), "endpoint");
    assert_eq!(names.get(2).unwrap(), "method");
}

#[test]
fn extract_variable_names_should_parse_json() {
    let test_str = r#"'{ 'one': { 'sub': 'something' } ,'two': ${one} }'"#;

    let names = variable_parse::extract_variable_names(test_str, VAR_OPEN, VAR_CLOSE).unwrap();

    assert_eq!(names.get(0).unwrap(), "one")
}

#[test]
fn insert_variable_values_succeeds() {
    let test_str = "https://${base_url}/v1/${resource}/${resouceId}";
    let value_map = map_of(&[
        ("base_url", "something.com"),
        ("resource", "user"),
        ("resouceId", "uuid"),
    ]);

    let replaced_str =
        variable_parse::insert_variable_values(&test_str, &value_map, VAR_OPEN, VAR_CLOSE);
    assert_eq!(replaced_str, "https://something.com/v1/user/uuid");
}

#[test]
fn insert_variable_values_json() {
    let test_str = r#"{ "one": "${one_value}", "two": ${two_value} }"#;
    let value_map = map_of(&[("one_value", "first_value"), ("two_value", "2")]);

    let replaced_str =
        variable_parse::insert_variable_values(&test_str, &value_map, VAR_OPEN, VAR_CLOSE);
    assert_eq!(replaced_str, r#"{ "one": "first_value", "two": 2 }"#);
}

#[test]
fn unterminated_placeholder_is_a_parse_error() {
    let result = template_parse::extract_template_names("https://${base_url");
    assert_eq!(result.unwrap_err(), ParseError::Unterminated);
}

#[test]
fn nested_placeholder_is_a_parse_error() {
    let result = template_parse::extract_template_names("https://${base_url/v1/${endpoint}");
    assert_eq!(result.unwrap_err(), ParseError::Nested);
}

#[test]
fn unresolved_placeholders_stay_verbatim() {
    let value_map = map_of(&[("known", "value")]);
    let rendered =
        template_parse::insert_template_values("${known} and ${unknown}", &value_map);
    assert_eq!(rendered, "value and ${unknown}");
}

#[test]
fn numbers_render_in_decimal() {
    assert_eq!(curld::strutil::usize_to_string(0), "0");
    assert_eq!(curld::strutil::usize_to_string(10), "10");
    assert_eq!(curld::strutil::usize_to_string(1234), "1234");
}

#[test]
fn value_map_insert_overwrites_and_keeps_order() {
    let mut m = ValueMap::new();
    m.insert("a".to_string(), "1".to_string());
    m.insert("b".to_string(), "2".to_string());
    m.insert("a".to_string(), "3".to_string());
    assert_eq!(m.len(), 2);
    assert_eq!(m.get("a").unwrap(), "3");
    assert_eq!(m.get("b").unwrap(), "2");
    assert_eq!(m.keys(), vec!["a".to_string(), "b".to_string()]);
    assert!(m.get("c").is_none());
}
