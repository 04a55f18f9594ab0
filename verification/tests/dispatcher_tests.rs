use tinyedgellmagents::dispatcher::{ActionOutcome, ToolDispatcher, ToolResult,
    assemble_parallel_results, build_tool_input, finish_action, interpret_tool_output};
use tinyedgellmagents::planner::{ActionPlan, ExecutionPlan, ExecutionStrategy};

#[test]
fn test_alias_prefers_native_implementations() {
    let mut d = ToolDispatcher::new();
    d.register_tool("math-wasm", "/tools/math.wasm");
    d.register_tool("math-native", "/tools/math-native");
    assert_eq!(d.map_tool_alias("math"), "math-native");

    let mut only_wasm = ToolDispatcher::new();
    only_wasm.register_tool("math-wasm", "/tools/math.wasm");
    assert_eq!(only_wasm.map_tool_alias("math"), "math-wasm");
}

#[test]
fn test_alias_resolution_is_idempotent() {
    let mut d = ToolDispatcher::new();
    d.register_tool("math-native", "/tools/math-native");
    // an already-concrete name comes back unchanged
    assert_eq!(d.map_tool_alias("math-native"), "math-native");
    // resolving a resolved name changes nothing
    let once = d.map_tool_alias("math");
    assert_eq!(d.map_tool_alias(&once), once);
    // an unresolvable name comes back unchanged, again and again
    assert_eq!(d.map_tool_alias("fetch"), "fetch");
    assert_eq!(d.map_tool_alias("mystery"), "mystery");
}

fn action_with_priority(tag: &str, p: u8) -> ActionPlan {
    ActionPlan::new(tag, vec!["x".to_string()]).with_priority(p)
}

#[test]
fn test_priority_order_runs_high_to_low() {
    let d = ToolDispatcher::new();
    let plan = ExecutionPlan {
        actions: vec![
            action_with_priority("a", 3),
            action_with_priority("b", 9),
            action_with_priority("c", 1),
        ],
        execution_strategy: ExecutionStrategy::Priority,
        timeout_seconds: 30,
    };
    let ordered = d.order_for_execution(&plan);
    let tags: Vec<&str> = ordered.iter().map(|a| a.tool.as_str()).collect();
    assert_eq!(tags, vec!["b", "a", "c"]);
}

#[test]
fn test_priority_tie_keeps_original_order() {
    let d = ToolDispatcher::new();
    let plan = ExecutionPlan {
        actions: vec![
            action_with_priority("first", 5),
            action_with_priority("second", 5),
            action_with_priority("urgent", 8),
        ],
        execution_strategy: ExecutionStrategy::Priority,
        timeout_seconds: 30,
    };
    let ordered = d.order_for_execution(&plan);
    let tags: Vec<&str> = ordered.iter().map(|a| a.tool.as_str()).collect();
    assert_eq!(tags, vec!["urgent", "first", "second"]);
}

#[test]
fn test_sequential_order_is_list_order() {
    let d = ToolDispatcher::new();
    let plan = ExecutionPlan {
        actions: vec![action_with_priority("a", 1), action_with_priority("b", 9)],
        execution_strategy: ExecutionStrategy::Sequential,
        timeout_seconds: 30,
    };
    let ordered = d.order_for_execution(&plan);
    assert_eq!(ordered[0].tool, "a");
    assert_eq!(ordered[1].tool, "b");
}

#[test]
fn test_parallel_results_keep_count_and_slots() {
    let outcomes: Vec<Result<ToolResult, String>> = vec![
        Ok(ToolResult::success("math", "4", 12)),
        Err("spawn failed".to_string()),
        Ok(ToolResult::success("shell", "ok", 3)),
    ];
    let results = assemble_parallel_results(outcomes);
    assert_eq!(results.len(), 3);
    assert!(results[0].success);
    assert_eq!(results[0].tool_name, "math");
    assert!(!results[1].success);
    assert_eq!(results[1].tool_name, "unknown");
    assert_eq!(results[1].error.as_deref(), Some("spawn failed"));
    assert!(results[2].success);
}

#[test]
fn test_timed_out_action_is_flagged() {
    let r = finish_action("math-native", &ActionOutcome::TimedOut, 30000);
    assert!(!r.success);
    assert_eq!(r.error.as_deref(), Some("Tool execution timeout"));
    assert!(r.execution_time_ms >= 30000);
    assert_eq!(r.tool_name, "math-native");
}

#[test]
fn test_failed_launch_keeps_message() {
    let r = finish_action("shell", &ActionOutcome::Failed("no such file".to_string()), 5);
    assert!(!r.success);
    assert_eq!(r.error.as_deref(), Some("no such file"));
    assert_eq!(r.result, "");
}

#[test]
fn test_tool_input_envelope() {
    let single = ActionPlan::new("math", vec!["2+2".to_string()]);
    assert_eq!(
        build_tool_input(&single),
        "{\"operation\":\"2+2\",\"args\":[],\"context\":null}"
    );

    let multi = ActionPlan::new("shell", vec!["echo".to_string(), "hi".to_string()])
        .with_context("greeting");
    assert_eq!(
        build_tool_input(&multi),
        "{\"operation\":\"echo\",\"args\":[\"hi\"],\"context\":\"greeting\"}"
    );
}

#[test]
fn test_tool_output_interpretation() {
    let r = finish_action(
        "math",
        &ActionOutcome::Output("{\"result\": \"4\", \"status\": \"success\"}".to_string()),
        2,
    );
    assert!(r.success);
    // the result field is kept in its rendered form
    assert_eq!(r.result, "\"4\"");

    assert_eq!(interpret_tool_output("  plain text  "), "plain text");
    assert_eq!(interpret_tool_output("{\"status\": \"ok\"}"), "{\"status\": \"ok\"}");
}

#[test]
fn test_register_overwrites_and_stats_report() {
    let mut d = ToolDispatcher::new();
    d.register_tool("math", "/old");
    d.register_tool("math", "/new");
    d.register_tool("shell", "/bin");
    d.set_timeout(12);
    let stats = d.get_stats();
    assert_eq!(stats.total_tools, 2);
    assert_eq!(stats.tool_names, vec!["math".to_string(), "shell".to_string()]);
    assert_eq!(stats.timeout_seconds, 12);
    assert_eq!(d.get_tool_info("math").unwrap().tool_path, "/new");
    assert!(d.get_tool_info("absent").is_none());
}

#[test]
fn test_health_probe_inputs_and_interpretation() {
    let d = ToolDispatcher::new();
    assert_eq!(
        d.health_probe_input("math-native"),
        "{\"operation\":\"1+1\",\"args\":[],\"context\":null}"
    );
    assert_eq!(
        d.health_probe_input("mystery"),
        "{\"operation\":\"ping\",\"args\":[],\"context\":null}"
    );
    assert!(d.healthy_output("{\"result\": \"2\"}"));
    assert!(!d.healthy_output(""));
    assert!(!d.healthy_output("an ERROR happened"));
}
