use failover_proxy::relay::{SseTerminalPolicy, MAX_HELD_ANTHROPIC_BLOCK_BYTES};
use failover_proxy::sse::{append_utf8_safe, strip_sse_field, take_sse_block};
use failover_proxy::stream::{
    create_logged_passthrough_stream, PassthroughStream, StreamAction, StreamingTimeoutConfig,
    MAX_UNFRAMED_ANTHROPIC_SSE_BYTES,
};
use failover_proxy::usage::{SseUsageCollector, StreamTerminalOutcome};
use serde_json::Value;

/// What came out of a stream.
struct Output {
    sent: Vec<u8>,
    broken: Option<String>,
    guard: Vec<String>,
    events: Vec<Value>,
    outcome: Option<StreamTerminalOutcome>,
    finished: usize,
}

impl Output {
    fn new() -> Output {
        Output {
            sent: Vec::new(),
            broken: None,
            guard: Vec::new(),
            events: Vec::new(),
            outcome: None,
            finished: 0,
        }
    }

    fn text(&self) -> String {
        String::from_utf8(self.sent.clone()).unwrap()
    }

    fn perform(&mut self, actions: Vec<StreamAction>, collector: &mut Option<SseUsageCollector>) {
        for action in actions {
            match action {
                StreamAction::Offer(data) => {
                    if let Some(c) = collector {
                        c.offer(&data, None, 7);
                    }
                }
                StreamAction::Fail { status, message } => {
                    if let Some(c) = collector {
                        c.set_terminal_failure(status, &message);
                    }
                }
                StreamAction::GuardSuccess => self.guard.push("success".to_string()),
                StreamAction::GuardFailure(message) => {
                    self.guard.push(format!("failure: {message}"))
                }
                StreamAction::GuardError { error_type, message } => {
                    self.guard.push(format!("error {error_type}: {message}"))
                }
                StreamAction::SendBlock(block) => self.sent.extend_from_slice(block.as_bytes()),
                StreamAction::SendBytes(bytes) => self.sent.extend_from_slice(&bytes),
                StreamAction::SendError(message) => self.broken = Some(message),
                StreamAction::Finish => {
                    self.finished += 1;
                    if let Some(c) = collector {
                        if let Some(report) = c.finish() {
                            self.events = report.events;
                            self.outcome = Some(report.outcome);
                        }
                    }
                }
            }
        }
    }
}

fn stream_with(policy: SseTerminalPolicy, first_byte: u64, idle: u64) -> PassthroughStream {
    create_logged_passthrough_stream(
        true,
        false,
        StreamingTimeoutConfig {
            first_byte_timeout: first_byte,
            idle_timeout: idle,
        },
        policy,
    )
}

fn passthrough(
    source: Vec<Result<Vec<u8>, String>>,
    collector: Option<SseUsageCollector>,
    policy: SseTerminalPolicy,
) -> Output {
    let mut collector = collector;
    let mut stream = create_logged_passthrough_stream(
        collector.is_some(),
        false,
        StreamingTimeoutConfig {
            first_byte_timeout: 0,
            idle_timeout: 0,
        },
        policy,
    );
    let mut output = Output::new();
    for piece in source {
        let actions = match piece {
            Ok(bytes) => stream.on_chunk(&bytes),
            Err(message) => stream.on_error(&message),
        };
        output.perform(actions, &mut collector);
    }
    let actions = stream.on_end();
    output.perform(actions, &mut collector);
    output
}

fn input_json_delta(index: u64, partial_json: &str) -> Value {
    let mut delta = serde_json::Map::new();
    delta.insert("type".to_string(), Value::from("input_json_delta"));
    delta.insert("partial_json".to_string(), Value::from(partial_json));
    let mut event = serde_json::Map::new();
    event.insert("type".to_string(), Value::from("content_block_delta"));
    event.insert("index".to_string(), Value::from(index));
    event.insert("delta".to_string(), Value::Object(delta));
    Value::Object(event)
}

#[test]
fn test_strip_sse_field_accepts_optional_space() {
    assert_eq!(
        strip_sse_field("data: {\"ok\":true}", "data"),
        Some("{\"ok\":true}")
    );
    assert_eq!(
        strip_sse_field("data:{\"ok\":true}", "data"),
        Some("{\"ok\":true}")
    );
    assert_eq!(
        strip_sse_field("event: message_start", "event"),
        Some("message_start")
    );
    assert_eq!(
        strip_sse_field("event:message_start", "event"),
        Some("message_start")
    );
    assert_eq!(strip_sse_field("id:1", "data"), None);
}

#[test]
fn anthropic_clean_eof_without_terminal_emits_protocol_error() {
    let collector = SseUsageCollector::new();
    let source = vec![Ok(b"event: message_start\ndata: {\"type\":\"message_start\"}\n\nevent: content_block_start\ndata: {\"type\":\"content_block_start\",\"index\":0}\n\nevent: content_block_delta\ndata: {\"type\":\"content_block_delta\",\"index\":0,\"delta\":{\"type\":\"text_delta\",\"text\":\"partial\"}}\n\n".to_vec())];
    let output = passthrough(source, Some(collector), SseTerminalPolicy::AnthropicMessages);
    assert!(output.broken.is_none());
    let text = output.text();
    assert!(text.contains("event: error"), "{text}");
    assert!(text.contains("stream_truncated"), "{text}");
    assert!(!text.contains("event: message_stop"), "{text}");
    let terminal = output.outcome.expect("terminal outcome");
    assert_eq!(terminal.status_code_override, Some(502));
    assert_eq!(
        terminal.error_message.as_deref(),
        Some("Upstream stream ended before message_stop")
    );
}

#[test]
fn anthropic_io_error_is_encoded_as_sse_not_body_error() {
    let source = vec![Err("disconnected".to_string())];
    let output = passthrough(source, None, SseTerminalPolicy::AnthropicMessages);
    assert!(output.broken.is_none());
    let text = output.text();
    assert!(text.contains("event: error"), "{text}");
    assert!(text.contains("stream_error"), "{text}");
}

#[test]
fn anthropic_truncated_pure_text_is_closed_with_max_tokens() {
    let source = vec![Ok(b"event: message_start\ndata: {\"type\":\"message_start\"}\n\nevent: content_block_start\ndata: {\"type\":\"content_block_start\",\"index\":0,\"content_block\":{\"type\":\"text\",\"text\":\"\"}}\n\nevent: content_block_delta\ndata: {\"type\":\"content_block_delta\",\"index\":0,\"delta\":{\"type\":\"text_delta\",\"text\":\"partial\"}}\n\n".to_vec())];
    let output = passthrough(source, None, SseTerminalPolicy::AnthropicMessages);
    assert!(output.broken.is_none());
    let text = output.text();
    assert!(text.contains("event: content_block_stop"), "{text}");
    assert!(text.contains("\"stop_reason\":\"max_tokens\""), "{text}");
    assert!(text.contains("event: message_stop"), "{text}");
    assert!(!text.contains("event: error"), "{text}");
}

#[test]
fn anthropic_closed_thinking_then_partial_text_is_repaired() {
    let source = vec![Ok(b"event: message_start\ndata: {\"type\":\"message_start\"}\n\nevent: content_block_start\ndata: {\"type\":\"content_block_start\",\"index\":0,\"content_block\":{\"type\":\"thinking\",\"thinking\":\"\"}}\n\nevent: content_block_delta\ndata: {\"type\":\"content_block_delta\",\"index\":0,\"delta\":{\"type\":\"thinking_delta\",\"thinking\":\"reason\"}}\n\nevent: content_block_stop\ndata: {\"type\":\"content_block_stop\",\"index\":0}\n\nevent: content_block_start\ndata: {\"type\":\"content_block_start\",\"index\":1,\"content_block\":{\"type\":\"text\",\"text\":\"\"}}\n\nevent: content_block_delta\ndata: {\"type\":\"content_block_delta\",\"index\":1,\"delta\":{\"type\":\"text_delta\",\"text\":\"partial\"}}\n\n".to_vec())];
    let output = passthrough(source, None, SseTerminalPolicy::AnthropicMessages);
    let text = output.text();
    assert!(text.contains("\"stop_reason\":\"max_tokens\""), "{text}");
    assert!(text.contains("event: message_stop"), "{text}");
    assert!(!text.contains("event: error"), "{text}");
}

#[test]
fn anthropic_closed_tool_use_is_repaired_with_tool_stop_reason() {
    let source = vec![Ok(b"event: message_start\ndata: {\"type\":\"message_start\"}\n\nevent: content_block_start\ndata: {\"type\":\"content_block_start\",\"index\":0,\"content_block\":{\"type\":\"tool_use\",\"id\":\"tool_1\",\"name\":\"Bash\",\"input\":{}}}\n\nevent: content_block_delta\ndata: {\"type\":\"content_block_delta\",\"index\":0,\"delta\":{\"type\":\"input_json_delta\",\"partial_json\":\"{\\\"cmd\\\":\\\"pwd\\\"}\"}}\n\nevent: content_block_stop\ndata: {\"type\":\"content_block_stop\",\"index\":0}\n\n".to_vec())];
    let output = passthrough(source, None, SseTerminalPolicy::AnthropicMessages);
    let text = output.text();
    assert!(text.contains("\"stop_reason\":\"tool_use\""), "{text}");
    assert!(text.contains("event: message_stop"), "{text}");
    assert!(!text.contains("event: error"), "{text}");
}

#[test]
fn anthropic_closed_tool_use_with_invalid_json_is_not_forged() {
    let invalid_delta = input_json_delta(0, "{\"cmd\":");
    let source = format!(
        "event: message_start\ndata: {{\"type\":\"message_start\"}}\n\nevent: content_block_start\ndata: {{\"type\":\"content_block_start\",\"index\":0,\"content_block\":{{\"type\":\"tool_use\",\"id\":\"tool_1\",\"name\":\"Bash\",\"input\":{{}}}}}}\n\nevent: content_block_delta\ndata: {invalid_delta}\n\nevent: content_block_stop\ndata: {{\"type\":\"content_block_stop\",\"index\":0}}\n\n"
    );
    let output = passthrough(vec![Ok(source.into_bytes())], None, SseTerminalPolicy::AnthropicMessages);
    let text = output.text();
    assert!(text.contains("event: error"), "{text}");
    assert!(!text.contains("\"stop_reason\":\"tool_use\""), "{text}");
}

#[test]
fn anthropic_partial_sse_tail_is_dropped_before_terminal_repair() {
    let source = vec![
        Ok(b"event: message_start\ndata: {\"type\":\"message_start\"}\n\nevent: content_block_start\ndata: {\"type\":\"content_block_start\",\"index\":0,\"content_block\":{\"type\":\"text\",\"text\":\"\"}}\n\nevent: content_block_delta\ndata: {\"type\":\"content_block_delta\",\"index\":0,\"delta\":{\"type\":\"text_delta\",\"text\":\"safe\"}}\n\n".to_vec()),
        Ok(b"event: content_block_delta\ndata: {\"type\":\"content_block_delta\",\"index\":0,\"delta\":{\"type\":\"text_delta\",\"text\":\"BROKEN_TAIL".to_vec()),
    ];
    let output = passthrough(source, None, SseTerminalPolicy::ClaudeDesktopAnthropic);
    let text = output.text();
    assert!(text.contains("\"text\":\"safe\""), "{text}");
    assert!(
        !text.contains("BROKEN_TAIL"),
        "incomplete tail leaked: {text}"
    );
    assert!(text.contains("event: message_stop"), "{text}");
    assert!(!text.contains("event: error"), "{text}");
}

#[test]
fn anthropic_open_tool_use_is_never_forged_as_complete() {
    let source = vec![Ok(b"event: message_start\ndata: {\"type\":\"message_start\"}\n\nevent: content_block_start\ndata: {\"type\":\"content_block_start\",\"index\":0,\"content_block\":{\"type\":\"tool_use\",\"id\":\"tool_1\",\"name\":\"Bash\",\"input\":{}}}\n\nevent: content_block_delta\ndata: {\"type\":\"content_block_delta\",\"index\":0,\"delta\":{\"type\":\"input_json_delta\",\"partial_json\":\"{\\\"cmd\\\":\"\"}}\n\n".to_vec())];
    let output = passthrough(source, None, SseTerminalPolicy::AnthropicMessages);
    let text = output.text();
    assert!(text.contains("event: error"), "{text}");
    assert!(!text.contains("\"stop_reason\":\"tool_use\""), "{text}");
}

#[test]
fn claude_desktop_text_then_open_tool_is_rewritten_without_api_error() {
    let source = vec![Ok("event: message_start\ndata: {\"type\":\"message_start\"}\n\nevent: content_block_start\ndata: {\"type\":\"content_block_start\",\"index\":0,\"content_block\":{\"type\":\"text\",\"text\":\"\"}}\n\nevent: content_block_delta\ndata: {\"type\":\"content_block_delta\",\"index\":0,\"delta\":{\"type\":\"text_delta\",\"text\":\"先检查一下。\"}}\n\nevent: content_block_stop\ndata: {\"type\":\"content_block_stop\",\"index\":0}\n\nevent: content_block_start\ndata: {\"type\":\"content_block_start\",\"index\":1,\"content_block\":{\"type\":\"tool_use\",\"id\":\"tool_1\",\"name\":\"Bash\",\"input\":{}}}\n\nevent: content_block_delta\ndata: {\"type\":\"content_block_delta\",\"index\":1,\"delta\":{\"type\":\"input_json_delta\",\"partial_json\":\"{\\\"cmd\\\":\"}}\n\nevent: message_stop\ndata: {\"type\":\"message_stop\"}\n\n".as_bytes().to_vec())];
    let output = passthrough(source, None, SseTerminalPolicy::ClaudeDesktopAnthropic);
    let text = output.text();
    assert!(text.contains("先检查一下。"), "{text}");
    assert!(!text.contains("CC Switch"), "{text}");
    assert!(!text.contains("安全取消"), "{text}");
    assert!(!text.contains("自动续试"), "{text}");
    assert!(!text.contains("\"type\":\"tool_use\""), "{text}");
    assert!(text.contains("\"stop_reason\":\"max_tokens\""), "{text}");
    assert!(text.contains("event: message_stop"), "{text}");
    assert!(!text.contains("event: error"), "{text}");
}

#[test]
fn claude_desktop_dropped_tool_use_rewrites_upstream_tool_stop_reason() {
    let source = vec![Ok("event: message_start\ndata: {\"type\":\"message_start\"}\n\nevent: content_block_start\ndata: {\"type\":\"content_block_start\",\"index\":0,\"content_block\":{\"type\":\"text\",\"text\":\"\"}}\n\nevent: content_block_delta\ndata: {\"type\":\"content_block_delta\",\"index\":0,\"delta\":{\"type\":\"text_delta\",\"text\":\"kept\"}}\n\nevent: content_block_stop\ndata: {\"type\":\"content_block_stop\",\"index\":0}\n\nevent: content_block_start\ndata: {\"type\":\"content_block_start\",\"index\":1,\"content_block\":{\"type\":\"tool_use\",\"id\":\"tool_1\",\"name\":\"Bash\",\"input\":{}}}\n\nevent: content_block_delta\ndata: {\"type\":\"content_block_delta\",\"index\":1,\"delta\":{\"type\":\"input_json_delta\",\"partial_json\":\"{\\\"cmd\\\":\"}}\n\nevent: message_delta\ndata: {\"type\":\"message_delta\",\"delta\":{\"stop_reason\":\"tool_use\",\"stop_sequence\":null},\"usage\":{\"output_tokens\":1}}\n\nevent: message_stop\ndata: {\"type\":\"message_stop\"}\n\n".as_bytes().to_vec())];
    let collector = SseUsageCollector::new();
    let output = passthrough(source, Some(collector), SseTerminalPolicy::ClaudeDesktopAnthropic);
    let text = output.text();
    assert!(text.contains("kept"), "{text}");
    assert!(!text.contains("\"type\":\"tool_use\""), "{text}");
    assert!(!text.contains("\"stop_reason\":\"tool_use\""), "{text}");
    assert!(text.contains("\"stop_reason\":\"max_tokens\""), "{text}");
    assert_eq!(text.matches("event: message_stop").count(), 1, "{text}");
    assert!(!text.contains("event: error"), "{text}");
    let outcome = output.outcome.expect("terminal outcome");
    assert_eq!(outcome.status_code_override, Some(502));
    assert!(outcome
        .error_message
        .as_deref()
        .is_some_and(|message| message.contains("message_stop")));
}

#[test]
fn claude_desktop_eof_after_dropped_tool_marks_log_failure() {
    let source = vec![Ok("event: message_start\ndata: {\"type\":\"message_start\"}\n\nevent: content_block_start\ndata: {\"type\":\"content_block_start\",\"index\":0,\"content_block\":{\"type\":\"text\",\"text\":\"\"}}\n\nevent: content_block_delta\ndata: {\"type\":\"content_block_delta\",\"index\":0,\"delta\":{\"type\":\"text_delta\",\"text\":\"kept\"}}\n\nevent: content_block_stop\ndata: {\"type\":\"content_block_stop\",\"index\":0}\n\nevent: content_block_start\ndata: {\"type\":\"content_block_start\",\"index\":1,\"content_block\":{\"type\":\"tool_use\",\"id\":\"tool_1\",\"name\":\"Bash\",\"input\":{}}}\n\nevent: content_block_delta\ndata: {\"type\":\"content_block_delta\",\"index\":1,\"delta\":{\"type\":\"input_json_delta\",\"partial_json\":\"{\\\"cmd\\\":\"}}\n\n".as_bytes().to_vec())];
    let collector = SseUsageCollector::new();
    let output = passthrough(source, Some(collector), SseTerminalPolicy::ClaudeDesktopAnthropic);
    let text = output.text();
    assert!(text.contains("kept"), "{text}");
    assert!(!text.contains("\"type\":\"tool_use\""), "{text}");
    assert!(text.contains("\"stop_reason\":\"max_tokens\""), "{text}");
    assert!(text.contains("event: message_stop"), "{text}");
    let outcome = output.outcome.expect("terminal outcome");
    assert_eq!(outcome.status_code_override, Some(502));
    assert!(outcome
        .error_message
        .as_deref()
        .is_some_and(|message| message.contains("before message_stop")));
}

#[test]
fn claude_desktop_midstream_error_preserves_text_as_completed_turn() {
    let source = vec![Ok(b"event: message_start\ndata: {\"type\":\"message_start\"}\n\nevent: content_block_start\ndata: {\"type\":\"content_block_start\",\"index\":0,\"content_block\":{\"type\":\"text\",\"text\":\"\"}}\n\nevent: content_block_delta\ndata: {\"type\":\"content_block_delta\",\"index\":0,\"delta\":{\"type\":\"text_delta\",\"text\":\"partial answer\"}}\n\nevent: error\ndata: {\"type\":\"error\",\"error\":{\"type\":\"rate_limit_error\",\"message\":\"Please retry later\"}}\n\n".to_vec())];
    let output = passthrough(source, None, SseTerminalPolicy::ClaudeDesktopAnthropic);
    let text = output.text();
    assert!(text.contains("partial answer"), "{text}");
    assert!(text.contains("\"stop_reason\":\"max_tokens\""), "{text}");
    assert!(text.contains("event: message_stop"), "{text}");
    assert!(!text.contains("event: error"), "{text}");
}

#[test]
fn claude_desktop_error_after_thinking_becomes_continuable_turn() {
    let source = vec![Ok(b"event: message_start\ndata: {\"type\":\"message_start\"}\n\nevent: content_block_start\ndata: {\"type\":\"content_block_start\",\"index\":0,\"content_block\":{\"type\":\"thinking\",\"thinking\":\"\"}}\n\nevent: content_block_delta\ndata: {\"type\":\"content_block_delta\",\"index\":0,\"delta\":{\"type\":\"thinking_delta\",\"thinking\":\"reasoning\"}}\n\nevent: content_block_stop\ndata: {\"type\":\"content_block_stop\",\"index\":0}\n\nevent: error\ndata: {\"type\":\"error\",\"error\":{\"type\":\"rate_limit_error\",\"message\":\"Please retry later\"}}\n\n".to_vec())];
    let output = passthrough(source, None, SseTerminalPolicy::ClaudeDesktopAnthropic);
    let text = output.text();
    assert!(text.contains("reasoning"), "{text}");
    assert!(!text.contains("CC Switch"), "{text}");
    assert!(!text.contains("安全取消"), "{text}");
    assert!(!text.contains("自动续试"), "{text}");
    assert!(text.contains("\"stop_reason\":\"max_tokens\""), "{text}");
    assert!(text.contains("event: message_stop"), "{text}");
    assert!(!text.contains("event: error"), "{text}");
}

#[test]
fn claude_desktop_error_before_message_start_is_silent_and_continuable() {
    let source = vec![Ok(b"event: error\ndata: {\"type\":\"error\",\"error\":{\"type\":\"rate_limit_error\",\"message\":\"Please retry later\"}}\n\n".to_vec())];
    let output = passthrough(source, None, SseTerminalPolicy::ClaudeDesktopAnthropic);
    let text = output.text();
    assert!(text.contains("event: message_start"), "{text}");
    assert!(text.contains("\"stop_reason\":\"max_tokens\""), "{text}");
    assert!(text.contains("event: message_stop"), "{text}");
    assert!(!text.contains("event: error"), "{text}");
    assert!(!text.contains("text_delta"), "{text}");
    assert!(!text.contains("content_block_start"), "{text}");
    assert!(!text.contains("content_block_stop"), "{text}");
    assert!(!text.contains("CC Switch"), "{text}");
    assert!(!text.contains("自动续试"), "{text}");
    assert!(!text.contains("安全取消"), "{text}");
}

#[test]
fn claude_desktop_eof_before_message_start_is_silent_and_continuable() {
    let output = passthrough(Vec::new(), None, SseTerminalPolicy::ClaudeDesktopAnthropic);
    let text = output.text();
    assert!(text.contains("event: message_start"), "{text}");
    assert!(text.contains("\"stop_reason\":\"max_tokens\""), "{text}");
    assert!(text.contains("event: message_stop"), "{text}");
    assert!(!text.contains("event: error"), "{text}");
    assert!(!text.contains("text_delta"), "{text}");
    assert!(!text.contains("content_block_start"), "{text}");
    assert!(!text.contains("content_block_stop"), "{text}");
    assert!(!text.contains("CC Switch"), "{text}");
}

#[test]
fn claude_desktop_caps_held_tool_memory_and_falls_back() {
    let oversized = "x".repeat(MAX_HELD_ANTHROPIC_BLOCK_BYTES + 1);
    let delta = input_json_delta(1, &oversized);
    let source = format!(
        "event: message_start\ndata: {{\"type\":\"message_start\"}}\n\nevent: content_block_start\ndata: {{\"type\":\"content_block_start\",\"index\":0,\"content_block\":{{\"type\":\"text\",\"text\":\"\"}}}}\n\nevent: content_block_delta\ndata: {{\"type\":\"content_block_delta\",\"index\":0,\"delta\":{{\"type\":\"text_delta\",\"text\":\"safe\"}}}}\n\nevent: content_block_stop\ndata: {{\"type\":\"content_block_stop\",\"index\":0}}\n\nevent: content_block_start\ndata: {{\"type\":\"content_block_start\",\"index\":1,\"content_block\":{{\"type\":\"tool_use\",\"id\":\"tool_1\",\"name\":\"Bash\",\"input\":{{}}}}}}\n\nevent: content_block_delta\ndata: {delta}\n\nevent: message_stop\ndata: {{\"type\":\"message_stop\"}}\n\n"
    );
    let output = passthrough(vec![Ok(source.into_bytes())], None, SseTerminalPolicy::ClaudeDesktopAnthropic);
    let text = output.text();
    assert!(text.contains("safe"), "{text}");
    assert!(!text.contains("CC Switch"), "{text}");
    assert!(!text.contains("安全取消"), "{text}");
    assert!(!text.contains("自动续试"), "{text}");
    assert!(
        !text.contains(&"x".repeat(1024)),
        "oversized tool payload leaked"
    );
    assert!(text.contains("event: message_stop"), "{text}");
    assert!(!text.contains("event: error"), "{text}");
}

#[test]
fn claude_desktop_closed_server_tools_allow_text_eof_repair() {
    let source = vec![Ok(b"event: message_start\ndata: {\"type\":\"message_start\"}\n\nevent: content_block_start\ndata: {\"type\":\"content_block_start\",\"index\":0,\"content_block\":{\"type\":\"server_tool_use\",\"id\":\"srv_1\",\"name\":\"web_search\",\"input\":{}}}\n\nevent: content_block_delta\ndata: {\"type\":\"content_block_delta\",\"index\":0,\"delta\":{\"type\":\"input_json_delta\",\"partial_json\":\"{\\\"query\\\":\\\"rust\\\"}\"}}\n\nevent: content_block_stop\ndata: {\"type\":\"content_block_stop\",\"index\":0}\n\nevent: content_block_start\ndata: {\"type\":\"content_block_start\",\"index\":1,\"content_block\":{\"type\":\"web_search_tool_result\",\"tool_use_id\":\"srv_1\",\"content\":[]}}\n\nevent: content_block_stop\ndata: {\"type\":\"content_block_stop\",\"index\":1}\n\nevent: content_block_start\ndata: {\"type\":\"content_block_start\",\"index\":2,\"content_block\":{\"type\":\"text\",\"text\":\"\"}}\n\nevent: content_block_delta\ndata: {\"type\":\"content_block_delta\",\"index\":2,\"delta\":{\"type\":\"text_delta\",\"text\":\"partial web answer\"}}\n\n".to_vec())];
    let output = passthrough(source, None, SseTerminalPolicy::ClaudeDesktopAnthropic);
    let text = output.text();
    assert!(text.contains("partial web answer"), "{text}");
    assert!(text.contains("event: message_stop"), "{text}");
    assert!(!text.contains("event: error"), "{text}");
}

#[test]
fn claude_desktop_caps_unframed_sse_event() {
    let oversized = "z".repeat(MAX_UNFRAMED_ANTHROPIC_SSE_BYTES + 1);
    let incomplete = format!(
        "event: content_block_delta\ndata: {{\"type\":\"content_block_delta\",\"index\":0,\"delta\":{{\"type\":\"text_delta\",\"text\":\"{oversized}"
    );
    let source = vec![
        Ok(b"event: message_start\ndata: {\"type\":\"message_start\"}\n\nevent: content_block_start\ndata: {\"type\":\"content_block_start\",\"index\":0,\"content_block\":{\"type\":\"text\",\"text\":\"\"}}\n\nevent: content_block_delta\ndata: {\"type\":\"content_block_delta\",\"index\":0,\"delta\":{\"type\":\"text_delta\",\"text\":\"safe prefix\"}}\n\n".to_vec()),
        Ok(incomplete.into_bytes()),
    ];
    let output = passthrough(source, None, SseTerminalPolicy::ClaudeDesktopAnthropic);
    let text = output.text();
    assert!(text.contains("safe prefix"), "{text}");
    assert!(!text.contains(&"z".repeat(1024)), "unframed payload leaked");
    assert!(text.contains("event: message_stop"), "{text}");
    assert!(!text.contains("event: error"), "{text}");
}

#[test]
fn anthropic_text_start_without_delta_is_not_repaired_as_success() {
    let source = vec![Ok(b"event: message_start\ndata: {\"type\":\"message_start\"}\n\nevent: content_block_start\ndata: {\"type\":\"content_block_start\",\"index\":0,\"content_block\":{\"type\":\"text\",\"text\":\"\"}}\n\n".to_vec())];
    let output = passthrough(source, None, SseTerminalPolicy::AnthropicMessages);
    let text = output.text();
    assert!(text.contains("event: error"), "{text}");
    assert!(!text.contains("\"stop_reason\":\"max_tokens\""), "{text}");
}

#[test]
fn anthropic_text_io_error_preserves_partial_text_as_completed_turn() {
    let source = vec![
        Ok(b"event: message_start\ndata: {\"type\":\"message_start\"}\n\nevent: content_block_start\ndata: {\"type\":\"content_block_start\",\"index\":0,\"content_block\":{\"type\":\"text\",\"text\":\"\"}}\n\nevent: content_block_delta\ndata: {\"type\":\"content_block_delta\",\"index\":0,\"delta\":{\"type\":\"text_delta\",\"text\":\"partial\"}}\n\n".to_vec()),
        Err("connection reset".to_string()),
    ];
    let output = passthrough(source, None, SseTerminalPolicy::ClaudeDesktopAnthropic);
    let text = output.text();
    assert!(text.contains("event: content_block_stop"), "{text}");
    assert!(text.contains("\"stop_reason\":\"max_tokens\""), "{text}");
    assert!(text.contains("event: message_stop"), "{text}");
    assert!(!text.contains("event: error"), "{text}");
}

const TURN: &str = "event: message_start\ndata: {\"type\":\"message_start\"}\n\nevent: content_block_start\ndata: {\"type\":\"content_block_start\",\"index\":0,\"content_block\":{\"type\":\"text\",\"text\":\"\"}}\n\nevent: content_block_delta\ndata: {\"type\":\"content_block_delta\",\"index\":0,\"delta\":{\"type\":\"text_delta\",\"text\":\"héllo\"}}\n\nevent: content_block_stop\ndata: {\"type\":\"content_block_stop\",\"index\":0}\n\nevent: message_delta\ndata: {\"type\":\"message_delta\",\"delta\":{\"stop_reason\":\"end_turn\"}}\n\nevent: message_stop\ndata: {\"type\":\"message_stop\"}\n\n";

const STOP: &str = "event: message_stop\ndata: {\"type\":\"message_stop\"}\n\n";

#[test]
fn a_complete_turn_passes_unchanged_and_succeeds() {
    let output = passthrough(
        vec![Ok(TURN.as_bytes().to_vec())],
        Some(SseUsageCollector::new()),
        SseTerminalPolicy::ClaudeDesktopAnthropic,
    );
    assert_eq!(output.text(), TURN);
    assert_eq!(output.guard, vec!["success".to_string()]);
    assert_eq!(output.events.len(), 6);
    assert_eq!(output.finished, 1);
    let outcome = output.outcome.expect("outcome");
    assert_eq!(outcome, StreamTerminalOutcome::default());
}

#[test]
fn every_cut_of_a_stream_gives_the_client_the_same() {
    let bytes = TURN.as_bytes();
    for policy in [
        SseTerminalPolicy::AnthropicMessages,
        SseTerminalPolicy::ClaudeDesktopAnthropic,
        SseTerminalPolicy::Passthrough,
    ] {
        for cut in 0..bytes.len() {
            let output = passthrough(
                vec![Ok(bytes[..cut].to_vec()), Ok(bytes[cut..].to_vec())],
                None,
                policy,
            );
            assert_eq!(output.text(), TURN);
        }
    }
}

#[test]
fn carriage_returns_end_blocks_too() {
    let source = "event: ping\r\ndata: {\"type\":\"ping\"}\r\n\r\ndata: x\n\n";
    let output = passthrough(
        vec![Ok(source.as_bytes().to_vec())],
        None,
        SseTerminalPolicy::AnthropicMessages,
    );
    let text = output.text();
    assert!(
        text.starts_with("event: ping\r\ndata: {\"type\":\"ping\"}\n\ndata: x\n\n"),
        "{text}"
    );
}

#[test]
fn a_complete_turn_lacking_only_its_stop_is_stopped() {
    let source = TURN.replace(STOP, "");
    for policy in [
        SseTerminalPolicy::AnthropicMessages,
        SseTerminalPolicy::ClaudeDesktopAnthropic,
    ] {
        let output = passthrough(
            vec![Ok(source.clone().into_bytes())],
            Some(SseUsageCollector::new()),
            policy,
        );
        assert_eq!(output.text(), TURN);
        assert_eq!(output.outcome.expect("outcome").error_message, None);
    }
}

#[test]
fn a_read_error_after_all_but_the_stop_is_no_failure_of_the_record() {
    let source = TURN.replace(STOP, "");
    let output = passthrough(
        vec![Ok(source.into_bytes()), Err("reset".to_string())],
        Some(SseUsageCollector::new()),
        SseTerminalPolicy::ClaudeDesktopAnthropic,
    );
    assert_eq!(output.text(), TURN);
    assert_eq!(output.outcome.expect("outcome").error_message, None);
    assert_eq!(
        output.guard,
        vec!["failure: Upstream stream ended with an I/O error".to_string()]
    );
}

#[test]
fn nothing_follows_the_end_of_a_stream() {
    let mut stream = stream_with(SseTerminalPolicy::AnthropicMessages, 5, 5);
    let actions = stream.on_chunk(TURN.as_bytes());
    assert!(matches!(actions.last(), Some(StreamAction::Finish)));
    assert!(stream.on_chunk(b"data: more\n\n").is_empty());
    assert!(stream.on_timeout().is_empty());
    assert!(stream.on_error("late").is_empty());
    assert!(stream.on_end().is_empty());
}

#[test]
fn the_first_bytes_have_their_own_time_limit() {
    let mut stream = stream_with(SseTerminalPolicy::Passthrough, 30, 120);
    assert_eq!(stream.next_timeout(), Some(30));
    let mut output = Output::new();
    let actions = stream.on_timeout();
    let mut collector = Some(SseUsageCollector::new());
    output.perform(actions, &mut collector);
    assert_eq!(output.broken.as_deref(), Some("流式响应首字节超时"));
    let outcome = output.outcome.expect("outcome");
    assert_eq!(outcome.status_code_override, Some(504));
    assert_eq!(
        outcome.error_message.as_deref(),
        Some("Upstream stream was idle for 30 seconds")
    );

    let mut stream = stream_with(SseTerminalPolicy::Passthrough, 30, 120);
    let _ = stream.on_chunk(b"x");
    assert_eq!(stream.next_timeout(), Some(120));
    let mut output = Output::new();
    let actions = stream.on_timeout();
    output.perform(actions, &mut None);
    assert_eq!(output.broken.as_deref(), Some("流式响应静默期超时"));

    let mut stream = stream_with(SseTerminalPolicy::Passthrough, 0, 0);
    assert_eq!(stream.next_timeout(), None);
    assert!(stream.on_timeout().is_empty());
}

#[test]
fn a_silent_anthropic_stream_ends_with_a_timeout_event() {
    let mut stream = stream_with(SseTerminalPolicy::AnthropicMessages, 9, 9);
    let mut output = Output::new();
    let actions = stream.on_timeout();
    output.perform(actions, &mut None);
    assert_eq!(
        output.text(),
        "event: error\ndata: {\"error\":{\"message\":\"Upstream stream was idle for 9 seconds\",\"type\":\"stream_timeout\"},\"type\":\"error\"}\n\n"
    );
}

#[test]
fn a_passthrough_stream_reports_its_read_error() {
    let output = passthrough(
        vec![Ok(b"abc".to_vec()), Err("reset".to_string())],
        Some(SseUsageCollector::new()),
        SseTerminalPolicy::Passthrough,
    );
    assert_eq!(output.sent, b"abc");
    assert_eq!(output.broken.as_deref(), Some("reset"));
    let outcome = output.outcome.expect("outcome");
    assert_eq!(outcome.status_code_override, Some(502));
    assert_eq!(
        outcome.error_message.as_deref(),
        Some("Upstream stream I/O error: reset")
    );
}

#[test]
fn an_error_event_reaches_an_anthropic_client_and_the_record() {
    let source = "event: error\ndata: {\"type\":\"error\",\"error\":{\"type\":\"stream_timeout\",\"message\":\"too slow\"}}\n\n";
    let output = passthrough(
        vec![Ok(source.as_bytes().to_vec())],
        Some(SseUsageCollector::new()),
        SseTerminalPolicy::AnthropicMessages,
    );
    assert_eq!(output.text(), source);
    let outcome = output.outcome.expect("outcome");
    assert_eq!(outcome.status_code_override, Some(504));
    assert_eq!(outcome.error_message.as_deref(), Some("too slow"));
}

#[test]
fn a_suppressed_error_is_told_to_the_guard_and_the_record() {
    let source = "event: error\ndata: {\"type\":\"error\",\"error\":{\"type\":\"rate_limit_error\",\"message\":\"Please retry later\"}}\n\n";
    let output = passthrough(
        vec![Ok(source.as_bytes().to_vec())],
        Some(SseUsageCollector::new()),
        SseTerminalPolicy::ClaudeDesktopAnthropic,
    );
    assert_eq!(
        output.guard,
        vec!["error rate_limit_error: Please retry later".to_string()]
    );
    let outcome = output.outcome.expect("outcome");
    assert_eq!(outcome.status_code_override, Some(502));
    assert_eq!(outcome.error_message.as_deref(), Some("Please retry later"));
    assert!(output.events.is_empty());
}

#[test]
fn a_held_tool_call_is_released_whole() {
    let start = "event: content_block_start\ndata: {\"type\":\"content_block_start\",\"index\":1,\"content_block\":{\"type\":\"tool_use\",\"id\":\"t\",\"name\":\"Bash\",\"input\":{}}}\n\n";
    let delta = "event: content_block_delta\ndata: {\"type\":\"content_block_delta\",\"index\":1,\"delta\":{\"type\":\"input_json_delta\",\"partial_json\":\"{}\"}}\n\n";
    let stop = "event: content_block_stop\ndata: {\"type\":\"content_block_stop\",\"index\":1}\n\n";
    let mut stream = stream_with(SseTerminalPolicy::ClaudeDesktopAnthropic, 0, 0);
    let mut output = Output::new();
    for piece in [start, delta] {
        let actions = stream.on_chunk(piece.as_bytes());
        output.perform(actions, &mut None);
        assert!(output.sent.is_empty());
    }
    let actions = stream.on_chunk(stop.as_bytes());
    output.perform(actions, &mut None);
    assert_eq!(output.text(), format!("{start}{delta}{stop}"));
}

#[test]
fn a_tool_call_that_starts_with_broken_input_is_dropped() {
    let source = "event: content_block_start\ndata: {\"type\":\"content_block_start\",\"index\":1,\"content_block\":{\"type\":\"tool_use\",\"input\":{\"a\":1}}}\n\nevent: content_block_delta\ndata: {\"type\":\"content_block_delta\",\"index\":1,\"delta\":{\"type\":\"input_json_delta\",\"partial_json\":\"x\"}}\n\nevent: content_block_stop\ndata: {\"type\":\"content_block_stop\",\"index\":1}\n\n";
    let output = passthrough(
        vec![Ok(source.as_bytes().to_vec())],
        None,
        SseTerminalPolicy::ClaudeDesktopAnthropic,
    );
    let text = output.text();
    assert!(!text.contains("tool_use"), "{text}");
    assert!(text.contains("\"stop_reason\":\"max_tokens\""), "{text}");
}

#[test]
fn done_markers_are_not_offered() {
    let source = "data: {\"a\":1}\n\ndata: [DONE]\n\ndata: not json\n\n";
    let output = passthrough(
        vec![Ok(source.as_bytes().to_vec())],
        Some(SseUsageCollector::new()),
        SseTerminalPolicy::Passthrough,
    );
    assert_eq!(output.text(), source);
    assert_eq!(output.events.len(), 1);
    assert_eq!(output.events[0].to_string(), "{\"a\":1}");
}

#[test]
fn bytes_are_decoded_across_pieces() {
    let bytes = "aé€😀z".as_bytes();
    for cut in 0..=bytes.len() {
        let mut buffer = String::new();
        let mut rest = Vec::new();
        append_utf8_safe(&mut buffer, &mut rest, &bytes[..cut]);
        append_utf8_safe(&mut buffer, &mut rest, &bytes[cut..]);
        assert_eq!(buffer, "aé€😀z");
        assert!(rest.is_empty());
    }
}

#[test]
fn ill_formed_bytes_are_replaced_as_the_standard_library_does() {
    let cases: Vec<Vec<u8>> = vec![
        vec![0xff, b'a'],
        vec![0xc0, 0x80, b'a'],
        vec![0xe2, 0x82, b'a'],
        vec![0xed, 0xa0, 0x80, b'a'],
        vec![0xf0, 0x90, 0x80, b'a'],
        vec![0xf4, 0x90, 0x80, 0x80, b'a'],
        vec![0xe2, 0x28, 0xa1, b'a'],
        vec![0x80, 0xbf, b'a'],
    ];
    for case in cases {
        let mut buffer = String::new();
        let mut rest = Vec::new();
        append_utf8_safe(&mut buffer, &mut rest, &case);
        assert_eq!(buffer, String::from_utf8_lossy(&case));
        assert!(rest.is_empty());
    }
    let mut buffer = String::new();
    let mut rest = Vec::new();
    append_utf8_safe(&mut buffer, &mut rest, &[b'a', 0xf0, 0x9f, 0x98]);
    assert_eq!(buffer, "a");
    assert_eq!(rest, vec![0xf0, 0x9f, 0x98]);
}

#[test]
fn the_earliest_delimiter_ends_a_block() {
    let mut buffer = "a\r\n\r\nb\n\nc".to_string();
    assert_eq!(take_sse_block(&mut buffer), Some("a".to_string()));
    assert_eq!(take_sse_block(&mut buffer), Some("b".to_string()));
    assert_eq!(take_sse_block(&mut buffer), None);
    assert_eq!(buffer, "c");
}

#[test]
fn wherever_a_stream_breaks_off_the_client_learns_of_the_end() {
    for policy in [
        SseTerminalPolicy::AnthropicMessages,
        SseTerminalPolicy::ClaudeDesktopAnthropic,
    ] {
        for n in 0..=TURN.len() {
            let head = TURN.as_bytes()[..n].to_vec();
            for source in [
                vec![Ok(head.clone())],
                vec![Ok(head.clone()), Err("reset".to_string())],
            ] {
                let output = passthrough(source, None, policy);
                let text = output.text();
                let told = text.contains("event: message_stop\n") || text.contains("event: error\n");
                assert!(told, "cut at {n}: {text}");
                assert_eq!(output.finished, 1);
            }
        }
    }
}
