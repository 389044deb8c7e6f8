use failover_proxy::terminal::{
    anthropic_terminal_chunks, anthropic_terminal_events, discard_incomplete_anthropic_blocks,
    ensure_anthropic_silent_recovery, HeldAnthropicContentBlock, StopReason, SyntheticEvent,
};
use failover_proxy::turn::{
    anthropic_can_complete_safely, anthropic_can_repair_truncated_turn,
    describe_anthropic_sse_block, observe_anthropic_sse_block, AnthropicEvent,
    AnthropicTerminalState,
};
use std::collections::BTreeMap;

fn same(a: &AnthropicEvent, b: &AnthropicEvent) {
    assert_eq!(a.event_type, b.event_type);
    assert_eq!(a.index, b.index);
    assert_eq!(a.block_type, b.block_type);
    assert_eq!(a.tool_input, b.tool_input);
    assert_eq!(a.delta_type, b.delta_type);
    assert_eq!(a.delta_text, b.delta_text);
    assert_eq!(a.partial_json, b.partial_json);
    assert_eq!(a.stop_reason, b.stop_reason);
    assert_eq!(a.error_type, b.error_type);
    assert_eq!(a.error_message, b.error_message);
}

fn turn(blocks: &[&str]) -> AnthropicTerminalState {
    let mut state = AnthropicTerminalState::new();
    for block in blocks {
        observe_anthropic_sse_block(block, &mut state);
    }
    state
}

const START: &str = "event: message_start\ndata: {\"type\":\"message_start\"}";

fn block_start(index: u64, block: &str) -> String {
    format!("data: {{\"type\":\"content_block_start\",\"index\":{index},\"content_block\":{block}}}")
}

fn block_stop(index: u64) -> String {
    format!("data: {{\"type\":\"content_block_stop\",\"index\":{index}}}")
}

#[test]
fn what_the_proxy_writes_is_read_as_what_it_says() {
    let events = vec![
        SyntheticEvent::MessageStart,
        SyntheticEvent::ContentBlockStop(0),
        SyntheticEvent::ContentBlockStop(u64::MAX),
        SyntheticEvent::MessageDelta(StopReason::ToolUse),
        SyntheticEvent::MessageDelta(StopReason::MaxTokens),
        SyntheticEvent::MessageStop,
        SyntheticEvent::Error {
            error_type: "stream_error".to_string(),
            message: "quote \" and\nline 行".to_string(),
        },
    ];
    for event in events {
        let block = event.render();
        assert!(block.ends_with("\n\n"));
        same(&describe_anthropic_sse_block(&block), &event.event());
    }
}

#[test]
fn a_rendered_block_is_exact() {
    assert_eq!(
        SyntheticEvent::ContentBlockStop(12).render(),
        "event: content_block_stop\ndata: {\"type\":\"content_block_stop\",\"index\":12}\n\n"
    );
    assert_eq!(
        SyntheticEvent::MessageDelta(StopReason::ToolUse).render(),
        "event: message_delta\ndata: {\"type\":\"message_delta\",\"delta\":{\"stop_reason\":\"tool_use\",\"stop_sequence\":null},\"usage\":{\"output_tokens\":0}}\n\n"
    );
    assert_eq!(
        SyntheticEvent::MessageStop.render(),
        "event: message_stop\ndata: {\"type\":\"message_stop\"}\n\n"
    );
}

#[test]
fn the_payload_names_the_event_before_the_event_line() {
    let event = describe_anthropic_sse_block("event:  ping \ndata: {\"type\":\"error\",\"index\":3}");
    assert_eq!(event.event_type, "error");
    assert_eq!(event.index, Some(3));
    let event = describe_anthropic_sse_block("event:  ping \nevent: other\ndata: {broken");
    assert_eq!(event.event_type, "ping");
    let event = describe_anthropic_sse_block("data: {\"index\":-1}\n");
    assert_eq!(event.event_type, "");
    assert_eq!(event.index, None);
    let event = describe_anthropic_sse_block("data: {\"type\":\ndata: \"message_stop\"}");
    assert_eq!(event.event_type, "message_stop");
}

#[test]
fn the_input_of_a_tool_call_is_put_together() {
    let start = block_start(1, "{\"type\":\"tool_use\",\"input\":{\"b\":[1,2]}}");
    assert_eq!(
        describe_anthropic_sse_block(&start).tool_input,
        "{\"b\":[1,2]}"
    );
    let state = turn(&[START, &start]);
    assert_eq!(state.tool_input_json.get(&1).unwrap(), "{\"b\":[1,2]}");
    let empty = block_start(2, "{\"type\":\"tool_use\",\"input\":{}}");
    let state = turn(&[
        START,
        &empty,
        "data: {\"type\":\"content_block_delta\",\"index\":2,\"delta\":{\"type\":\"input_json_delta\",\"partial_json\":\"{\\\"a\\\":\"}}",
        "data: {\"type\":\"content_block_delta\",\"index\":2,\"delta\":{\"type\":\"input_json_delta\",\"partial_json\":\"1}\"}}",
    ]);
    assert_eq!(state.tool_input_json.get(&2).unwrap(), "{\"a\":1}");
    let mut state = state;
    observe_anthropic_sse_block(&block_stop(2), &mut state);
    assert!(state.saw_tool_use_block);
    assert!(state.open_content_blocks.is_empty());
}

#[test]
fn a_broken_tool_call_is_remembered() {
    let start = block_start(0, "{\"type\":\"tool_use\",\"input\":\"x\"}");
    let state = turn(&[START, &start, &block_stop(0)]);
    assert!(state.saw_tool_use_block);
    let start = block_start(0, "{\"type\":\"tool_use\"}");
    let state = turn(&[
        START,
        &start,
        "data: {\"type\":\"content_block_delta\",\"index\":0,\"delta\":{\"type\":\"input_json_delta\",\"partial_json\":\"{\"}}",
        &block_stop(0),
    ]);
    assert!(state.saw_invalid_non_text_block);
    assert!(!anthropic_can_repair_truncated_turn(&state));
}

#[test]
fn blocks_of_unknown_types_are_unsafe_while_open() {
    for block in ["{\"type\":\"server_tool_use\"}", "{}", "{\"type\":\"thinking\"}"] {
        let mut state = turn(&[START, &block_start(4, block)]);
        state.silent_recovery_requested = true;
        assert!(!anthropic_can_repair_truncated_turn(&state));
        observe_anthropic_sse_block(&block_stop(4), &mut state);
        assert!(anthropic_can_repair_truncated_turn(&state));
    }
}

#[test]
fn a_repair_closes_blocks_from_the_lowest_on() {
    let text = "{\"type\":\"text\"}";
    let state = turn(&[
        START,
        &block_start(7, text),
        &block_start(3, text),
        &block_start(20, text),
        "data: {\"type\":\"content_block_delta\",\"index\":3,\"delta\":{\"type\":\"text_delta\",\"text\":\"t\"}}",
    ]);
    assert!(!anthropic_can_complete_safely(&state));
    let mut after = turn(&[]);
    after.open_content_blocks = state.open_content_blocks.clone();
    after.saw_message_start = true;
    let mut closed = Vec::new();
    for event in anthropic_terminal_events(&state, "stream_error", "m", true) {
        if let SyntheticEvent::ContentBlockStop(index) = &event {
            closed.push(*index);
        }
        after.observe_event(&event.event());
    }
    assert_eq!(closed, vec![3, 7, 20]);
    assert!(after.saw_message_stop);
    assert!(anthropic_can_complete_safely(&after));
    let blocks = anthropic_terminal_chunks(&state, "stream_error", "m", false);
    assert_eq!(blocks.len(), 1);
    assert!(blocks[0].starts_with("event: error\n"));
}

#[test]
fn an_ended_turn_gets_nothing_more() {
    let state = turn(&[START, "data: {\"type\":\"message_stop\"}"]);
    assert!(anthropic_terminal_chunks(&state, "t", "m", true).is_empty());
    let state = turn(&["data: {\"type\":\"error\"}"]);
    assert!(anthropic_terminal_chunks(&state, "t", "m", true).is_empty());
    assert_eq!(state.error_status, Some(502));
    assert_eq!(state.error_type.as_deref(), Some("stream_error"));
    assert_eq!(
        state.error_message.as_deref(),
        Some("Upstream stream returned an error event")
    );
}

#[test]
fn a_delta_without_a_reason_is_not_final() {
    let state = turn(&[
        START,
        "data: {\"type\":\"message_delta\",\"delta\":{\"stop_reason\":\"end_turn\"}}",
    ]);
    assert!(anthropic_can_complete_safely(&state));
    let mut state = state;
    observe_anthropic_sse_block(
        "data: {\"type\":\"message_delta\",\"delta\":{\"stop_reason\":\"\"}}",
        &mut state,
    );
    assert!(!anthropic_can_complete_safely(&state));
}

#[test]
fn a_silent_recovery_opens_the_turn_once() {
    let mut state = AnthropicTerminalState::new();
    let blocks = ensure_anthropic_silent_recovery(&mut state);
    assert_eq!(blocks, vec![SyntheticEvent::MessageStart.render()]);
    assert!(state.saw_message_start && state.silent_recovery_requested);
    assert!(ensure_anthropic_silent_recovery(&mut state).is_empty());
}

#[test]
fn dropping_held_blocks_asks_for_a_recovery() {
    let mut state = AnthropicTerminalState::new();
    let mut held = BTreeMap::new();
    assert!(!discard_incomplete_anthropic_blocks(&mut held, &mut state));
    assert!(!state.silent_recovery_requested);
    held.insert(
        1,
        HeldAnthropicContentBlock {
            block_type: "tool_use".to_string(),
            events: Vec::new(),
            bytes: 0,
        },
    );
    assert!(discard_incomplete_anthropic_blocks(&mut held, &mut state));
    assert!(held.is_empty());
    assert!(state.silent_recovery_requested);
}

#[test]
fn what_was_seen_of_a_turn_stays_seen() {
    let text = "{\"type\":\"text\"}";
    let error = "data: {\"type\":\"error\",\"error\":{\"type\":\"overloaded\",\"message\":\"m\"}}";
    let mut state = turn(&[START, &block_start(0, text), error]);
    for block in [START, &block_start(0, "{\"type\":\"odd\"}"), &block_stop(0)] {
        observe_anthropic_sse_block(block, &mut state);
        assert!(state.saw_message_start);
        assert!(state.saw_text_block);
        assert!(state.saw_error);
        assert!(state
            .open_unsafe_content_blocks
            .iter()
            .all(|index| state.open_content_blocks.contains_key(index)));
    }
}
