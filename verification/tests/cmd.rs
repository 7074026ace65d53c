use azure_vm_info::cmd::{command_output_json, split_and_strip, strip_tokens, RunError};

#[test]
fn test_split_and_strip_complex() {
    let input = "Hello 'World War'  'fail' Rust";
    let expected = vec!["Hello", "World War", "fail", "Rust"];
    assert_eq!(split_and_strip(input).unwrap(), expected);
}

#[test]
fn test_split_and_strip_nospaces() {
    let input2 = "NoSpacesHere";
    let expected2 = vec!["NoSpacesHere"];
    assert_eq!(split_and_strip(input2).unwrap(), expected2);
}

#[test]
fn test_split_and_strip_empty_quotes() {
    let input3 = "Empty '' Single Quotes";
    let expected3 = vec!["Empty", "", "Single", "Quotes"];
    assert_eq!(split_and_strip(input3).unwrap(), expected3);
}

#[test]
fn split_and_strip_az_command() {
    let words = split_and_strip("az account list --query '[].name' --output json").unwrap();
    assert_eq!(
        words,
        vec!["az", "account", "list", "--query", "[].name", "--output", "json"]
    );
    for w in &words {
        assert!("az account list --query '[].name' --output json".contains(w.as_str()));
    }
}

#[test]
fn strip_tokens_removes_space_then_quotes() {
    let matches = vec![
        "'a b' ".to_string(),
        " x ".to_string(),
        "''".to_string(),
        "' q '".to_string(),
        "\t'''z'''\n".to_string(),
    ];
    assert_eq!(strip_tokens(&matches), vec!["a b", "x", "", " q ", "z"]);
}

#[test]
fn command_output_is_read_as_json() {
    assert_eq!(
        command_output_json(true, "{ \"a\" : 1,\n \"b\": [true, null, \"x\"] }\n"),
        Ok("{\"a\":1,\"b\":[true,null,\"x\"]}".to_string())
    );
    assert_eq!(command_output_json(true, "[]"), Ok("[]".to_string()));
    assert_eq!(command_output_json(true, "not json"), Err(RunError::NotJson));
    assert_eq!(command_output_json(true, ""), Err(RunError::NotJson));
    assert_eq!(command_output_json(false, "{}"), Err(RunError::Failed));
    let long = format!("[0.{}]", "0".repeat(32768));
    assert_eq!(command_output_json(true, &long), Err(RunError::LongDigitRun));
    let fits = format!("[0.{}]", "0".repeat(32766));
    assert!(command_output_json(true, &fits).is_ok());
}
