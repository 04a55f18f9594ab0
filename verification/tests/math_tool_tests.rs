use tinyedgellmagents::tools::{ToolError, evaluate_expression, execute_shell_command_wasm,
    parse_command, parse_url_and_method, perform_http_request_wasm};

#[test]
fn test_simple_addition() {
    assert_eq!(evaluate_expression("2+2").unwrap(), "4");
    assert_eq!(evaluate_expression("2 + 2").unwrap(), "4");
}

#[test]
fn test_multiplication() {
    assert_eq!(evaluate_expression("5*7").unwrap(), "35");
    assert_eq!(evaluate_expression("5 * 7").unwrap(), "35");
}

#[test]
fn test_sqrt() {
    assert_eq!(evaluate_expression("sqrt(16)").unwrap(), "4");
    assert_eq!(evaluate_expression("sqrt(9)").unwrap(), "3");
}

#[test]
fn test_subtraction_and_exact_division() {
    assert_eq!(evaluate_expression("10-3").unwrap(), "7");
    assert_eq!(evaluate_expression("8/2").unwrap(), "4");
    assert_eq!(evaluate_expression("20/4").unwrap(), "5");
    assert_eq!(evaluate_expression("-6/3").unwrap(), "-2");
}

#[test]
fn test_unsupported_expressions_are_reported() {
    let err = evaluate_expression("7/2").unwrap_err();
    match err {
        ToolError::UnsupportedExpression { expression } => assert_eq!(expression, "7/2"),
        other => panic!("unexpected error: {:?}", other),
    }
    assert!(evaluate_expression("sqrt(2)").is_err());
    assert!(evaluate_expression("hello").is_err());
    assert!(evaluate_expression("1/0").is_err());
}

#[test]
fn test_parse_command_splits_tokens() {
    let (cmd, args) = parse_command("ls -la /tmp");
    assert_eq!(cmd, "ls");
    assert_eq!(args, vec!["-la".to_string(), "/tmp".to_string()]);

    let (cmd, args) = parse_command("   ");
    assert_eq!(cmd, "echo");
    assert_eq!(args, vec!["Invalid command".to_string()]);
}

#[test]
fn test_shell_simulation() {
    let out = execute_shell_command_wasm("echo", &vec!["hi".to_string(), "there".to_string()])
        .unwrap();
    assert_eq!(out, "hi there");
    assert_eq!(execute_shell_command_wasm("pwd", &vec![]).unwrap(), "/home/user/workspace");
    let err = execute_shell_command_wasm("rm", &vec![]).unwrap_err();
    assert!(matches!(err, ToolError::CommandNotAllowed { .. }));
}

#[test]
fn test_parse_url_and_method() {
    let (url, method) = parse_url_and_method("https://example.com");
    assert_eq!(url, "https://example.com");
    assert_eq!(method, "GET");

    let (url, method) = parse_url_and_method("post https://api.example.com");
    assert_eq!(url, "https://api.example.com");
    assert_eq!(method, "POST");
}

#[test]
fn test_http_simulation() {
    let out = perform_http_request_wasm("https://example.com/x", "get").unwrap();
    assert_eq!(out, "{\"url\": \"https://example.com/x\", \"method\": \"GET\", \"simulated\": true}");
    let canned = perform_http_request_wasm("https://httpbin.org/json", "GET").unwrap();
    assert_eq!(canned, "{\"slideshow\": {\"title\": \"Sample Slide Show\"}}");
    let err = perform_http_request_wasm("https://example.com", "DELETE").unwrap_err();
    assert!(matches!(err, ToolError::UnsupportedMethod { .. }));
}

#[test]
fn test_overflow_is_unsupported() {
    assert_eq!(
        evaluate_expression("9223372036854775806+1").unwrap(),
        "9223372036854775807"
    );
    assert!(evaluate_expression("9223372036854775807+1").is_err());
    assert_eq!(evaluate_expression("0-9223372036854775807").unwrap(), "-9223372036854775807");
}
