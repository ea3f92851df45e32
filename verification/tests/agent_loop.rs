use free_agent::agent::{dedup_with_counts, AgentLoop, ModelOutcome};
use free_agent::messages::{
    LlmResponse, Message, MessageContent, ProviderError, Role, ToolCall, Usage,
};

fn answer(text: &str) -> ModelOutcome {
    Ok((
        LlmResponse {
            content: Some(text.to_string()),
            tool_calls: Vec::new(),
            usage: Usage { prompt_tokens: 5, completion_tokens: 7 },
        },
        "gemini".to_string(),
    ))
}

fn tool_turn(text: Option<&str>, calls: &[(&str, &str)]) -> ModelOutcome {
    let tool_calls = calls
        .iter()
        .enumerate()
        .map(|(i, (name, args))| ToolCall {
            id: format!("call-{}-{}", name, i),
            name: name.to_string(),
            arguments: args.to_string(),
        })
        .collect();
    Ok((
        LlmResponse {
            content: text.map(|t| t.to_string()),
            tool_calls,
            usage: Usage { prompt_tokens: 5, completion_tokens: 7 },
        },
        "gemini".to_string(),
    ))
}

fn no_cancel(n: usize) -> Vec<bool> {
    vec![false; n]
}

#[test]
fn plain_answer_ends_after_one_turn_with_no_tools() {
    let record = AgentLoop::run(
        "be helpful",
        MessageContent::Text("hello".to_string()),
        Vec::new(),
        10,
        &no_cancel(10),
        &(0..10).map(|_| answer("hi there")).collect::<Vec<_>>(),
        &Vec::new(),
    );
    let result = record.outcome.expect("the run should succeed");
    assert_eq!(result.turns, 1);
    assert_eq!(result.response, "hi there");
    assert!(result.tools_used.is_empty());
    assert!(result.tools_count.is_empty());
    assert_eq!(result.provider, "gemini");
    assert_eq!(record.model_calls, 1);
}

#[test]
fn three_tool_turns_then_answer_count_multiplicities() {
    let models = vec![
        tool_turn(Some("looking"), &[("search", "{\"q\":\"a\"}")]),
        tool_turn(None, &[("read", "{\"f\":\"x\"}")]),
        tool_turn(None, &[("search", "{\"q\":\"b\"}")]),
        answer("done"),
    ];
    let outputs = vec![
        "result-1".to_string(),
        "result-2".to_string(),
        "result-3".to_string(),
    ];
    let record = AgentLoop::run(
        "sys",
        MessageContent::Text("go".to_string()),
        Vec::new(),
        10,
        &no_cancel(10),
        &models.into_iter().chain((0..6).map(|_| answer("x"))).collect::<Vec<_>>(),
        &outputs,
    );
    let result = record.outcome.unwrap();
    assert_eq!(result.turns, 4);
    assert_eq!(result.response, "done");
    // first-use order with exact multiplicities
    assert_eq!(result.tools_used, vec!["search", "read"]);
    assert_eq!(result.tools_count, vec![2, 1]);
    assert_eq!(record.model_calls, 4);
}

#[test]
fn budget_exhaustion_returns_last_assistant_text() {
    let models: Vec<ModelOutcome> = (0..5)
        .map(|i| tool_turn(Some(&format!("thinking {}", i)), &[("search", "{}")]))
        .collect();
    let outputs: Vec<String> = (0..5).map(|i| format!("out {}", i)).collect();
    let record = AgentLoop::run(
        "sys",
        MessageContent::Text("go".to_string()),
        Vec::new(),
        5,
        &no_cancel(5),
        &models,
        &outputs,
    );
    let result = record.outcome.unwrap();
    assert_eq!(result.turns, 5);
    assert_eq!(result.response, "thinking 4");
    assert_eq!(result.tools_used, vec!["search"]);
    assert_eq!(result.tools_count, vec![5]);
    assert_eq!(record.model_calls, 5);
}

#[test]
fn budget_exhaustion_without_any_assistant_text_uses_the_limit_notice() {
    let record = AgentLoop::run(
        "sys",
        MessageContent::Text("go".to_string()),
        Vec::new(),
        0,
        &Vec::new(),
        &Vec::new(),
        &Vec::new(),
    );
    let result = record.outcome.unwrap();
    assert_eq!(result.turns, 0);
    assert_eq!(result.response, "Reached max processing limit. Please try again.");
    assert_eq!(record.model_calls, 0);
}

#[test]
fn cancellation_between_turns_keeps_the_last_text_and_stops_calling() {
    // two full tool turns, then the flag is seen at the start of turn 3
    let mut cancelled = no_cancel(5);
    cancelled[2] = true;
    let models = vec![
        tool_turn(Some("step one"), &[("search", "{}")]),
        tool_turn(Some("step two"), &[("search", "{}")]),
        answer("never reached"),
        answer("never reached"),
        answer("never reached"),
    ];
    let outputs = vec!["o1".to_string(), "o2".to_string()];
    let record = AgentLoop::run(
        "sys",
        MessageContent::Text("go".to_string()),
        Vec::new(),
        5,
        &cancelled,
        &models,
        &outputs,
    );
    let result = record.outcome.unwrap();
    assert_eq!(result.turns, 2);
    assert_eq!(result.response, "step two\n\n_— Query đã bị dừng._");
    // the turn-3 model call was never issued
    assert_eq!(record.model_calls, 2);
}

#[test]
fn cancellation_before_any_answer_uses_the_bare_notice() {
    let cancelled = vec![true];
    let record = AgentLoop::run(
        "sys",
        MessageContent::Text("go".to_string()),
        Vec::new(),
        1,
        &cancelled,
        &vec![answer("unused")],
        &Vec::new(),
    );
    let result = record.outcome.unwrap();
    assert_eq!(result.turns, 0);
    assert_eq!(result.response, "Query đã bị dừng.");
    assert_eq!(record.model_calls, 0);
}

#[test]
fn cancellation_falls_back_to_history_assistant_text() {
    let history = vec![
        Message { role: Role::User, content: MessageContent::Text("earlier".to_string()) },
        Message {
            role: Role::Assistant,
            content: MessageContent::Text("remembered answer".to_string()),
        },
    ];
    let cancelled = vec![true];
    let record = AgentLoop::run(
        "sys",
        MessageContent::Text("go".to_string()),
        history,
        1,
        &cancelled,
        &vec![answer("unused")],
        &Vec::new(),
    );
    let result = record.outcome.unwrap();
    assert_eq!(result.response, "remembered answer\n\n_— Query đã bị dừng._");
}

#[test]
fn pool_failure_propagates_as_a_loop_error() {
    let models: Vec<ModelOutcome> = vec![Err(ProviderError::AuthError("HTTP 401".to_string()))];
    let record = AgentLoop::run(
        "sys",
        MessageContent::Text("go".to_string()),
        Vec::new(),
        1,
        &no_cancel(1),
        &models,
        &Vec::new(),
    );
    match record.outcome {
        Err(msg) => assert_eq!(msg, "LLM error: auth error: HTTP 401"),
        Ok(_) => panic!("the pool failure should abort the run"),
    }
    assert_eq!(record.model_calls, 1);
}

#[test]
fn tool_results_follow_their_calls_in_issued_order() {
    let models = vec![
        tool_turn(Some("batch"), &[("search", "{}"), ("read", "{}"), ("grep", "{}")]),
        answer("done"),
    ];
    let outputs = vec!["first".to_string(), "second".to_string(), "third".to_string()];
    let record = AgentLoop::run(
        "sys",
        MessageContent::Text("go".to_string()),
        Vec::new(),
        4,
        &no_cancel(4),
        &models.into_iter().chain((0..2).map(|_| answer("x"))).collect::<Vec<_>>(),
        &outputs,
    );
    assert!(record.outcome.is_ok());
    // transcript: system, user, assistant-with-calls, then one result per
    // call, in exactly the order the calls were issued
    let t = &record.transcript;
    assert_eq!(t.len(), 6);
    assert!(matches!(t[0].role, Role::System));
    assert!(matches!(t[1].role, Role::User));
    match &t[2].content {
        MessageContent::AssistantWithToolCalls { tool_calls, .. } => {
            assert_eq!(tool_calls.len(), 3);
            assert_eq!(tool_calls[0].name, "search");
            assert_eq!(tool_calls[1].name, "read");
            assert_eq!(tool_calls[2].name, "grep");
        }
        other => panic!("expected the assistant's tool calls, got {:?}", other),
    }
    let expected = [
        ("call-search-0", "search", "first"),
        ("call-read-1", "read", "second"),
        ("call-grep-2", "grep", "third"),
    ];
    for (slot, (id, name, text)) in t[3..6].iter().zip(expected.iter()) {
        assert!(matches!(slot.role, Role::Tool));
        match &slot.content {
            MessageContent::ToolResult { tool_call_id, name: n, content } => {
                assert_eq!(tool_call_id, id);
                assert_eq!(n, name);
                assert_eq!(content, text);
            }
            other => panic!("expected a tool result, got {:?}", other),
        }
    }
}

#[test]
fn dedup_counts_in_first_use_order() {
    let raw = vec![
        "b".to_string(),
        "a".to_string(),
        "b".to_string(),
        "b".to_string(),
        "c".to_string(),
        "a".to_string(),
    ];
    let (names, counts) = dedup_with_counts(&raw);
    assert_eq!(names, vec!["b", "a", "c"]);
    assert_eq!(counts, vec![3, 2, 1]);
}

#[test]
fn dedup_of_nothing_is_empty() {
    let (names, counts) = dedup_with_counts(&Vec::new());
    assert!(names.is_empty());
    assert!(counts.is_empty());
}
