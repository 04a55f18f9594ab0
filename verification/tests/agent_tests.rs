use tinyedgellmagents::agent::{TinyEdgeAgent, build_task_prompt, cache_updates,
    summarize_results};
use tinyedgellmagents::dispatcher::ToolResult;
use tinyedgellmagents::json::{JsonValue, parse_json, render_json};
use tinyedgellmagents::llm::{SuperTinyWasmLLM, simulate_inference};
use tinyedgellmagents::planner::{ActionPlan, ExecutionPlan, ExecutionStrategy, Planner};

#[test]
fn test_agent_starts_empty() {
    let agent = TinyEdgeAgent::new("test_model.gguf");
    assert!(!agent.model_loaded);
    assert_eq!(agent.get_available_tools().len(), 0);
    assert_eq!(agent.get_memory_stats().session_entries, 0);
}

#[test]
fn test_agent_memory_access() {
    let mut agent = TinyEdgeAgent::new("test_model.gguf");
    agent.memory.store("test_key", "test_value");
    assert_eq!(agent.memory.retrieve("test_key"), Some("test_value"));
    let stats = agent.get_memory_stats();
    assert_eq!(stats.session_entries, 1);
    agent.clear_memory();
    assert_eq!(agent.get_memory_stats().session_entries, 0);
}

#[test]
fn test_adopting_only_healthy_tools() {
    let mut agent = TinyEdgeAgent::new("m.gguf");
    agent.dispatcher.register_tool("math-native", "/t/math");
    agent.dispatcher.register_tool("shell", "/t/shell");
    let health = vec![("math-native".to_string(), true), ("shell".to_string(), false)];
    agent.adopt_healthy_tools(&health);
    let tools = agent.planner.get_available_tools();
    assert_eq!(tools.len(), 1);
    assert_eq!(tools[0].name, "math-native");
    assert_eq!(tools[0].description, "Tool: math-native");
}

#[test]
fn test_summarize_results_mixes_success_and_errors() {
    let results = vec![
        ToolResult::success("math", "4", 2),
        ToolResult::error("shell", "spawn failed", 1),
        ToolResult::success("fetch", "ok", 3),
    ];
    let (text, used, all_ok) = summarize_results(&results);
    assert_eq!(text, "4Error in shell: spawn failed; ok");
    assert_eq!(
        used,
        vec!["math".to_string(), "shell".to_string(), "fetch".to_string()]
    );
    assert!(!all_ok);

    let happy = vec![ToolResult::success("math", "4", 2)];
    let (text, _, all_ok) = summarize_results(&happy);
    assert_eq!(text, "4");
    assert!(all_ok);
}

#[test]
fn test_cache_updates_key_successful_results() {
    let a = ActionPlan::new("math", vec!["2+2".to_string()]);
    let key = a.cache_key();
    let plan = ExecutionPlan {
        actions: vec![a],
        execution_strategy: ExecutionStrategy::Sequential,
        timeout_seconds: 30,
    };
    let results = vec![
        ToolResult::success("math", "4", 2),
        ToolResult::error("math", "later failure", 1),
        ToolResult::success("absent", "ignored", 1),
    ];
    let updates = cache_updates(&plan, &results);
    assert_eq!(updates.len(), 1);
    assert_eq!(updates[0].0, key);
    assert_eq!(updates[0].1, "4");
}

#[test]
fn test_task_prompt_layout() {
    let p = build_task_prompt("SYSTEM", "CONTEXT", "add 1 and 2");
    assert_eq!(p, "SYSTEM\n\nCONTEXT\n\nUser task: add 1 and 2");
}

#[test]
fn test_simulation_answers_known_arithmetic() {
    let out = simulate_inference("What is 2+2?");
    assert_eq!(
        out,
        "{\"tool\": \"math-native\", \"args\": [\"2+2\"], \"reasoning\": \"Simple addition calculation\"}"
    );
    let out = simulate_inference("compute 5 * 7 please");
    assert!(out.contains("\"5*7\""));
}

#[test]
fn test_simulation_echoes_unknown_requests() {
    let out = simulate_inference("Tell me a story");
    assert_eq!(out, "I understand you want to: Tell me a story. Let me help with that.");
}

#[test]
fn test_simulation_feeds_planner() {
    let planner = Planner::default();
    let response = simulate_inference("What is 2+2?");
    let plan = planner.parse_llm_response(&response).unwrap();
    assert_eq!(plan.actions.len(), 1);
    assert_eq!(plan.actions[0].tool, "math-native");
    assert_eq!(plan.actions[0].args, vec!["2+2".to_string()]);
}

#[test]
fn test_model_loading_rules() {
    let mut llm = SuperTinyWasmLLM::new("model.gguf".to_string());
    assert!(!llm.is_loaded());
    assert_eq!(llm.model_path(), "model.gguf");

    assert!(llm.load_model_data(vec![1, 2]).is_err());
    assert!(!llm.is_loaded());

    // the magic header spells GGUF
    assert!(llm.load_model_data(vec![71, 71, 85, 70, 0, 0]).unwrap());
    assert!(llm.is_loaded());

    let mut other = SuperTinyWasmLLM::new("m".to_string());
    assert!(!other.load_model_data(vec![9, 9, 9, 9]).unwrap());
}

#[test]
fn test_json_codec_round_trip() {
    let value = JsonValue::Obj(vec![
        ("name".to_string(), JsonValue::Str("line1\nline2 \"quoted\"".to_string())),
        ("count".to_string(), JsonValue::Num(18446744073709551615)),
        (
            "items".to_string(),
            JsonValue::Arr(vec![JsonValue::Bool(true), JsonValue::Null, JsonValue::Num(0)]),
        ),
    ]);
    let text = render_json(&value);
    let back = parse_json(&text).expect("own rendering parses");
    assert_eq!(render_json(&back), text);
}

#[test]
fn test_json_parser_tolerates_whitespace_and_rejects_junk() {
    let v = parse_json("  { \"a\" : [ 1 , 2 ] ,\n \"b\" : \"x\\u0041\" }  ").unwrap();
    match v {
        JsonValue::Obj(ms) => {
            assert_eq!(ms.len(), 2);
            match &ms[1].1 {
                JsonValue::Str(s) => assert_eq!(s, "xA"),
                other => panic!("unexpected value: {:?}", other),
            }
        }
        other => panic!("unexpected value: {:?}", other),
    }
    assert!(parse_json("{\"a\": }").is_none());
    assert!(parse_json("[1, 2").is_none());
    assert!(parse_json("12x").is_none());
}
