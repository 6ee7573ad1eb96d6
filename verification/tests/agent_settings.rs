use panko::agent_settings::merge_panko_permissions;

#[test]
fn missing_permissions_are_appended_in_order() {
    let merged = merge_panko_permissions("{\"permissions\":{\"allow\":[\"Bash(panko show*)\"]},\"x\":1}").unwrap();
    let expected = "{\n  \"permissions\": {\n    \"allow\": [\n      \"Bash(panko show*)\",\n      \"Bash(panko comments*)\",\n      \"Bash(panko resolve*)\",\n      \"Bash(panko unresolve*)\",\n      \"Bash(panko reply*)\",\n      \"Bash(panko comment*)\",\n      \"Bash(panko delete*)\"\n    ]\n  },\n  \"x\": 1\n}";
    assert_eq!(merged, expected);
}

#[test]
fn permissions_are_made_where_missing() {
    let merged = merge_panko_permissions("{}").unwrap();
    assert!(merged.contains("\"allow\": ["));
    assert_eq!(merged.matches("Bash(panko").count(), 7);
    let again = merge_panko_permissions(&merged).unwrap();
    assert_eq!(again, merged);
}

#[test]
fn wrong_settings_shapes_are_errors() {
    assert_eq!(merge_panko_permissions("nope"), Err("Failed to parse settings JSON".to_string()));
    assert_eq!(merge_panko_permissions("[1]"), Err("Settings must be a JSON object".to_string()));
    assert_eq!(merge_panko_permissions("{\"permissions\": 3}"), Err("permissions must be an object".to_string()));
    assert_eq!(
        merge_panko_permissions("{\"permissions\": {\"allow\": {}}}"),
        Err("permissions.allow must be an array".to_string())
    );
}
