use tinyedgellmagents::planner::{ActionPlan, ExecutionStrategy, PlanError, Planner};

#[test]
fn test_json_parsing() {
    let planner = Planner::default();

    let json_input = r#"{"tool": "math", "args": ["2+2"], "reasoning": "Simple addition"}"#;
    let plan = planner.parse_llm_response(json_input).unwrap();

    assert_eq!(plan.actions.len(), 1);
    assert_eq!(plan.actions[0].tool, "math");
    assert_eq!(plan.actions[0].args[0], "2+2");
}

#[test]
fn test_natural_language_math() {
    let planner = Planner::default();

    let text = "I need to calculate 5 * 7 for my homework";
    let plan = planner.parse_llm_response(text).unwrap();

    assert_eq!(plan.actions.len(), 1);
    assert_eq!(plan.actions[0].tool, "math");
}

#[test]
fn test_system_prompt_generation() {
    let planner = Planner::default();
    let prompt = planner.generate_system_prompt();

    assert!(prompt.contains("math"));
    assert!(prompt.contains("fetch"));
    assert!(prompt.contains("shell"));
    assert!(prompt.contains("JSON"));
}

#[test]
fn test_single_action_plan_is_sequential_with_default_timeout() {
    let planner = Planner::default();
    let plan = planner
        .parse_llm_response(r#"{"tool":"math","args":["2+2"],"reasoning":"add"}"#)
        .unwrap();
    assert_eq!(plan.actions.len(), 1);
    assert_eq!(plan.actions[0].tool, "math");
    assert_eq!(plan.actions[0].args, vec!["2+2".to_string()]);
    assert!(matches!(plan.execution_strategy, ExecutionStrategy::Sequential));
    assert_eq!(plan.timeout_seconds, 30);
}

#[test]
fn test_structured_text_line() {
    let planner = Planner::default();
    let plan = planner.parse_llm_response("Use tool: math with args: 5*7").unwrap();
    assert_eq!(plan.actions.len(), 1);
    assert_eq!(plan.actions[0].tool, "math");
    assert_eq!(plan.actions[0].args, vec!["5*7".to_string()]);
}

#[test]
fn test_structured_text_call_form() {
    let planner = Planner::default();
    let plan = planner.parse_llm_response("please run shell(echo, hello)").unwrap();
    assert_eq!(plan.actions.len(), 1);
    assert_eq!(plan.actions[0].tool, "shell");
    assert_eq!(plan.actions[0].args, vec!["echo".to_string(), "hello".to_string()]);
}

#[test]
fn test_natural_language_extracted_expression() {
    let planner = Planner::default();
    let plan = planner
        .parse_llm_response("I need to calculate 5 * 7 for my homework")
        .unwrap();
    assert!(plan.actions[0].args[0].contains("5 * 7"));
    assert_eq!(
        plan.actions[0].reasoning.as_deref(),
        Some("Detected math expression in natural language")
    );
}

#[test]
fn test_full_plan_object_keeps_strategy_and_timeout() {
    let planner = Planner::default();
    let text = r#"{"actions": [{"tool": "math", "args": ["1+2"]}],
                   "execution_strategy": "Priority", "timeout_seconds": 7}"#;
    let plan = planner.parse_llm_response(text).unwrap();
    assert_eq!(plan.actions.len(), 1);
    assert!(matches!(plan.execution_strategy, ExecutionStrategy::Priority));
    assert_eq!(plan.timeout_seconds, 7);
}

#[test]
fn test_unparseable_response_keeps_text() {
    let planner = Planner::default();
    let err = planner.parse_llm_response("nothing actionable here").unwrap_err();
    match err {
        PlanError::Unparseable { response } => {
            assert_eq!(response, "nothing actionable here");
        }
        other => panic!("unexpected error: {:?}", other),
    }
}

#[test]
fn test_unknown_tool_falls_through_to_unparseable() {
    let planner = Planner::default();
    let err = planner
        .parse_llm_response(r#"{"tool": "nope", "args": ["x"]}"#)
        .unwrap_err();
    assert!(matches!(err, PlanError::Unparseable { .. }));
}

#[test]
fn test_url_heuristic_builds_fetch_action() {
    let planner = Planner::default();
    let plan = planner
        .parse_llm_response("please look at https://example.org/data now")
        .unwrap();
    assert_eq!(plan.actions[0].tool, "fetch");
    assert_eq!(
        plan.actions[0].args,
        vec!["get".to_string(), "https://example.org/data".to_string()]
    );
}

#[test]
fn test_shell_indicator_builds_diagnostic_action() {
    let planner = Planner::default();
    let plan = planner.parse_llm_response("would you run command for me").unwrap();
    let shell = plan
        .actions
        .iter()
        .find(|a| a.tool == "shell")
        .expect("a shell action");
    assert_eq!(shell.args, vec!["echo".to_string(), "Hello from shell".to_string()]);
}

#[test]
fn test_cache_key_ignores_context_reasoning_priority() {
    let a = ActionPlan::new("math", vec!["2+2".to_string()]);
    let b = ActionPlan::new("math", vec!["2+2".to_string()])
        .with_context("homework")
        .with_reasoning("because")
        .with_priority(9);
    assert_eq!(a.cache_key(), b.cache_key());

    let c = ActionPlan::new("math", vec!["2+3".to_string()]);
    assert_ne!(a.cache_key(), c.cache_key());
    assert!(a.cache_key().starts_with("math_"));
}

#[test]
fn test_with_priority_clamps_into_range() {
    let low = ActionPlan::new("math", vec!["1".to_string()]).with_priority(0);
    let high = ActionPlan::new("math", vec!["1".to_string()]).with_priority(200);
    let mid = ActionPlan::new("math", vec!["1".to_string()]).with_priority(7);
    assert_eq!(low.priority, 1);
    assert_eq!(high.priority, 10);
    assert_eq!(mid.priority, 7);
}

#[test]
fn test_empty_registry_rejects_everything() {
    let planner = Planner::new();
    assert!(planner.parse_llm_response(r#"{"tool": "math", "args": ["2+2"]}"#).is_err());
}
