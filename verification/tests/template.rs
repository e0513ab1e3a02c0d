use shelf::template::{extract_parameters, interpolate_command};

#[test]
fn test_extract_two_parameters() {
    let params = extract_parameters("ssh {{user}}@{{host}}");
    assert_eq!(params, vec!["user", "host"]);
}

#[test]
fn test_extract_skips_escaped() {
    let params = extract_parameters("echo \\{{literal}}");
    assert!(params.is_empty());
}

#[test]
fn test_extract_dedup_keeps_first_order() {
    let params = extract_parameters("{{b}} {{a}} {{b}} {{a}}");
    assert_eq!(params, vec!["b", "a"]);
}

#[test]
fn test_extract_rejects_non_word_names() {
    assert!(extract_parameters("{{a b}}").is_empty());
    assert!(extract_parameters("{{}}").is_empty());
    assert!(extract_parameters("{ {a} }").is_empty());
    assert_eq!(extract_parameters("{{a_1}}"), vec!["a_1"]);
}

#[test]
fn test_extract_mixed_escaped_and_not() {
    let params = extract_parameters("\\{{x}} {{y}}");
    assert_eq!(params, vec!["y"]);
}

#[test]
fn test_interpolate_fills_values() {
    let values = vec![
        ("user".to_string(), "alice".to_string()),
        ("host".to_string(), "example.org".to_string()),
    ];
    let r = interpolate_command("ssh {{user}}@{{host}}", &values);
    assert_eq!(r, "ssh alice@example.org");
}

#[test]
fn test_interpolate_every_occurrence() {
    let values = vec![("x".to_string(), "1".to_string())];
    let r = interpolate_command("{{x}} and {{x}}", &values);
    assert_eq!(r, "1 and 1");
}

#[test]
fn test_interpolate_unescapes() {
    let values: Vec<(String, String)> = Vec::new();
    let r = interpolate_command("echo \\{{literal}}", &values);
    assert_eq!(r, "echo {{literal}}");
}
