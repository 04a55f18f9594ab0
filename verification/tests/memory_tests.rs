use tinyedgellmagents::memory::{AgentMemory, Message};

#[test]
fn test_memory_basic_operations() {
    let mut memory = AgentMemory::new();

    // Test session storage
    memory.store("user_name", "Alice");
    assert_eq!(memory.retrieve("user_name"), Some("Alice"));

    // Test history
    let msg = Message::new("user", "Hello");
    memory.add_to_history(msg);
    assert_eq!(memory.get_history().len(), 1);

    // Test context building
    let context = memory.build_context_prompt(10);
    assert!(context.contains("user_name: Alice"));
    assert!(context.contains("user: Hello"));
}

#[test]
fn test_memory_size_limits() {
    let mut memory = AgentMemory::new();
    memory.max_history_size = 3;

    // Add more messages than limit
    for i in 0..5 {
        memory.add_to_history(Message::new("user", &format!("Message {}", i)));
    }

    // Should only keep last 3
    assert_eq!(memory.get_history().len(), 3);
    assert_eq!(memory.get_history()[0].content, "Message 2");
}

#[test]
fn test_tool_caching() {
    let mut memory = AgentMemory::new();

    memory.cache_tool_result("math_2+2", "4");
    assert_eq!(memory.get_cached_tool_result("math_2+2"), Some("4"));
    assert_eq!(memory.get_cached_tool_result("nonexistent"), None);
}

#[test]
fn test_history_eviction_is_first_in_first_out() {
    let mut memory = AgentMemory::new();
    memory.max_history_size = 2;
    memory.add_to_history(Message::new("user", "one"));
    memory.add_to_history(Message::new("user", "two"));
    memory.add_to_history(Message::new("user", "three"));
    let h = memory.get_history();
    assert_eq!(h.len(), 2);
    assert_eq!(h[0].content, "two");
    assert_eq!(h[1].content, "three");
}

#[test]
fn test_recent_history_returns_tail() {
    let mut memory = AgentMemory::new();
    for i in 0..4 {
        memory.add_to_history(Message::new("user", &format!("m{}", i)));
    }
    let recent = memory.get_recent_history(2);
    assert_eq!(recent.len(), 2);
    assert_eq!(recent[0].content, "m2");
    assert_eq!(recent[1].content, "m3");
    assert_eq!(memory.get_recent_history(10).len(), 4);
}

#[test]
fn test_snapshot_round_trip() {
    let mut memory = AgentMemory::new();
    memory.store("city", "Paris");
    memory.store("quote", "say \"hi\"\nthen leave");
    memory.add_to_history(Message::new("user", "Hello").with_metadata("lang", "en"));
    memory.add_to_history(Message::new("assistant", "Bonjour"));
    memory.cache_tool_result("k1", "v1");

    let exported = memory.export_to_json();

    let mut fresh = AgentMemory::new();
    fresh.import_from_json(&exported).expect("import of a fresh export");

    assert_eq!(fresh.retrieve("city"), Some("Paris"));
    assert_eq!(fresh.retrieve("quote"), Some("say \"hi\"\nthen leave"));
    assert_eq!(fresh.get_cached_tool_result("k1"), Some("v1"));
    let h0 = memory.get_history();
    let h1 = fresh.get_history();
    assert_eq!(h1.len(), h0.len());
    for i in 0..h0.len() {
        assert_eq!(h1[i].role, h0[i].role);
        assert_eq!(h1[i].content, h0[i].content);
        assert_eq!(h1[i].timestamp, h0[i].timestamp);
    }
    // re-exporting the imported state reproduces the same text
    assert_eq!(fresh.export_to_json(), exported);
}

#[test]
fn test_import_rejects_malformed_payload() {
    let mut memory = AgentMemory::new();
    memory.store("keep", "me");
    assert!(memory.import_from_json("not json at all").is_err());
    assert!(memory.import_from_json("{\"session_data\": {}}").is_err());
    assert!(
        memory
            .import_from_json(
                "{\"session_data\": {}, \"conversation_history\": 7, \"tool_results_cache\": {}}"
            )
            .is_err()
    );
    // a failed import leaves the state untouched
    assert_eq!(memory.retrieve("keep"), Some("me"));
}

#[test]
fn test_context_prompt_sections_are_omitted_when_empty() {
    let memory = AgentMemory::new();
    assert_eq!(memory.build_context_prompt(5), "");

    let mut with_session = AgentMemory::new();
    with_session.store("a", "1");
    let text = with_session.build_context_prompt(5);
    assert_eq!(text, "Session Context:\n- a: 1\n\n");
    assert!(!text.contains("Recent Conversation:"));
}

#[test]
fn test_memory_stats_counts() {
    let mut memory = AgentMemory::new();
    memory.store("ab", "cd");
    memory.add_to_history(Message::new("user", "hey"));
    memory.cache_tool_result("k", "v");
    let stats = memory.get_stats();
    assert_eq!(stats.session_entries, 1);
    assert_eq!(stats.history_messages, 1);
    assert_eq!(stats.cached_tool_results, 1);
    // "ab" + "cd" + "hey" + "user" + "k" + "v"
    assert_eq!(stats.memory_usage_estimate, 13);
}

#[test]
fn test_remove_and_clear_session() {
    let mut memory = AgentMemory::new();
    memory.store("a", "1");
    memory.store("b", "2");
    assert_eq!(memory.remove("a"), Some("1".to_string()));
    assert_eq!(memory.remove("a"), None);
    memory.clear_session();
    assert_eq!(memory.retrieve("b"), None);
}

#[test]
fn test_store_overwrites_equal_key_in_place() {
    let mut memory = AgentMemory::new();
    memory.store("k", "first");
    memory.store("other", "x");
    memory.store("k", "second");
    assert_eq!(memory.retrieve("k"), Some("second"));
    // the overwritten key keeps its position in the rendered context
    let text = memory.build_context_prompt(0);
    assert_eq!(text, "Session Context:\n- k: second\n- other: x\n\n");
}
