use failover_proxy::provider::{App, AppNames, AppType};
use failover_proxy::response::{
    body_timeout, body_timeout_error, handle_non_streaming, handle_streaming, is_sse_response,
    process_response, read_decoded_body, read_response_json, terminal_policy, Decompression,
    ProxyError, ProxyResponse, ResponseRoute, MAX_RESPONSE_BODY_BYTES,
};
use failover_proxy::relay::SseTerminalPolicy;
use failover_proxy::stream::StreamingTimeoutConfig;
use failover_proxy::usage::{
    create_usage_collector, log_usage_internal, spawn_log_usage, stream_record,
    usage_logging_enabled, RequestContext, SseUsageCollector, StreamTerminalOutcome, TokenUsage,
    UsageRecord,
};
use http::HeaderMap;
use serde_json::Value;

fn named(name: &str) -> App {
    let names = AppNames {
        claude: "code".to_string(),
        claude_desktop: "code-desktop".to_string(),
        claude_desktop_title: "Code Desktop".to_string(),
    };
    App::named(&names, name, true)
}

fn context(outbound: Option<&str>) -> RequestContext {
    RequestContext {
        app_type: "code".to_string(),
        provider_id: "provider-1".to_string(),
        request_model: "req-model".to_string(),
        outbound_model: outbound.map(str::to_string),
        session_id: "session".to_string(),
    }
}

fn usage(model: Option<&str>) -> TokenUsage {
    TokenUsage {
        input_tokens: 1_000_000,
        output_tokens: 0,
        cache_read_tokens: 0,
        cache_creation_tokens: 0,
        model: model.map(str::to_string),
        message_id: None,
    }
}

fn record_of(body: &str, found: Option<TokenUsage>, outbound: Option<&str>) -> UsageRecord {
    let mut headers = HeaderMap::new();
    let parsed = read_response_json(None, body.as_bytes());
    handle_non_streaming(
        &mut headers,
        None,
        &context(outbound),
        &parsed,
        found,
        200,
        10,
    )
    .expect("record")
}

#[test]
fn test_request_pricing_mode_anchors_to_outbound_model() {
    let record = spawn_log_usage(
        Some(true),
        &context(Some("outbound-model")),
        usage(None),
        "resp-model",
        "req-model",
        200,
        false,
        10,
    )
    .expect("record");
    assert_eq!(record.model, "resp-model");
    assert_eq!(record.request_model, "req-model");
    assert_eq!(log_usage_internal(&record, "request"), "outbound-model");
    assert_eq!(log_usage_internal(&record, "response"), "resp-model");
}

#[test]
fn a_response_is_booked_under_the_best_known_model() {
    let body = "{\"model\":\"body-model\"}";
    assert_eq!(
        record_of(body, Some(usage(Some("usage-model"))), Some("out")).model,
        "usage-model"
    );
    assert_eq!(
        record_of(body, Some(usage(Some(""))), Some("out")).model,
        "body-model"
    );
    assert_eq!(record_of(body, None, Some("out")).model, "body-model");
    assert_eq!(
        record_of("{\"model\":\"\"}", Some(usage(None)), Some("out")).model,
        "out"
    );
    assert_eq!(record_of("{\"model\":7}", None, None).model, "req-model");
    let record = record_of("no json", Some(usage(Some("usage-model"))), Some("out"));
    assert_eq!(record.model, "out");
    assert_eq!(record.usage.input_tokens, 0);
    assert_eq!(record.status_code, 200);
    assert_eq!(record.outbound_model, "out");
    assert!(!record.is_streaming);
}

#[test]
fn nothing_is_recorded_where_recording_is_off() {
    assert!(usage_logging_enabled(None));
    assert!(usage_logging_enabled(Some(true)));
    assert!(!usage_logging_enabled(Some(false)));
    assert!(create_usage_collector(Some(false)).is_none());
    assert!(create_usage_collector(None).is_some());
    assert!(read_response_json(Some(false), b"{}").is_none());
    let record = spawn_log_usage(
        Some(false),
        &context(None),
        usage(None),
        "m",
        "r",
        200,
        true,
        1,
    );
    assert!(record.is_none());
}

#[test]
fn the_first_failure_and_the_first_event_stand() {
    let mut collector = SseUsageCollector::new();
    assert!(!collector.offer("{\"a\":1}", Some(false), 3));
    assert!(!collector.offer("{", None, 4));
    assert!(collector.offer("{\"a\":1}", Some(true), 5));
    collector.push(Value::from(2u64), 6);
    collector.set_terminal_failure(504, "slow");
    collector.set_terminal_failure(502, "later");
    assert!(collector.should_collect(None));
    let report = collector.finish().expect("report");
    assert_eq!(report.first_token_ms, Some(5));
    assert_eq!(report.events.len(), 2);
    assert_eq!(
        report.outcome,
        StreamTerminalOutcome {
            status_code_override: Some(504),
            error_message: Some("slow".to_string()),
        }
    );
    assert!(collector.finish().is_none());
}

#[test]
fn a_failed_stream_is_recorded_with_its_failure() {
    let outcome = StreamTerminalOutcome {
        status_code_override: Some(502),
        error_message: Some("broken".to_string()),
    };
    let record = stream_record(
        &context(None),
        200,
        Some(12),
        outcome,
        None,
        "model".to_string(),
        99,
    );
    assert_eq!(record.status_code, 502);
    assert_eq!(record.error_message.as_deref(), Some("broken"));
    assert_eq!(record.first_token_ms, Some(12));
    assert_eq!(record.latency_ms, 99);
    assert_eq!(record.usage.input_tokens, 0);
    assert_eq!(record.outbound_model, "req-model");
    assert!(record.is_streaming);
    let record = stream_record(
        &context(None),
        200,
        None,
        StreamTerminalOutcome::default(),
        Some(usage(None)),
        "model".to_string(),
        1,
    );
    assert_eq!(record.status_code, 200);
    assert_eq!(record.error_message, None);
    assert_eq!(record.usage.input_tokens, 1_000_000);
}

#[test]
fn a_response_goes_the_way_of_its_kind() {
    let mut response = ProxyResponse {
        status: 200,
        headers: HeaderMap::new(),
        sse: true,
    };
    assert!(is_sse_response(&response));
    assert_eq!(process_response(&response), ResponseRoute::Streaming);
    response.sse = false;
    assert!(!is_sse_response(&response));
    assert_eq!(process_response(&response), ResponseRoute::Whole);
}

#[test]
fn each_application_has_its_stream_policy() {
    assert_eq!(
        terminal_policy(AppType::ClaudeDesktop),
        SseTerminalPolicy::ClaudeDesktopAnthropic
    );
    assert_eq!(
        terminal_policy(AppType::Claude),
        SseTerminalPolicy::AnthropicMessages
    );
    assert_eq!(terminal_policy(AppType::Codex), SseTerminalPolicy::Passthrough);
    assert!(!SseTerminalPolicy::Passthrough.is_anthropic());
    assert!(SseTerminalPolicy::AnthropicMessages.is_anthropic());
    assert!(!SseTerminalPolicy::AnthropicMessages.is_claude_desktop());
    assert!(SseTerminalPolicy::ClaudeDesktopAnthropic.is_claude_desktop());
}

#[test]
fn a_streamed_response_is_set_up_for_its_application() {
    let timeouts = StreamingTimeoutConfig {
        first_byte_timeout: 3,
        idle_timeout: 4,
    };
    let mut headers = HeaderMap::new();
    headers.insert("connection", "close".parse().unwrap());
    let (stream, collector) =
        handle_streaming(&mut headers, &named("codex"), Some(false), false, timeouts);
    assert!(headers.is_empty());
    assert!(collector.is_none());
    assert!(!stream.inspect);
    let (stream, collector) = handle_streaming(&mut headers, &named("code"), None, false, timeouts);
    assert!(collector.is_some());
    assert!(stream.inspect);
    assert_eq!(stream.next_timeout(), Some(3));
}

#[test]
fn only_failover_limits_the_body() {
    assert_eq!(body_timeout(true, 30), 30);
    assert_eq!(body_timeout(true, 0), 0);
    assert_eq!(body_timeout(false, 30), 0);
    match body_timeout_error(30) {
        ProxyError::Timeout(message) => assert_eq!(
            message,
            "响应体读取超时: 30s（上游发完响应头后 body 未到达）"
        ),
        ProxyError::ResponseBodyTooLarge(_) => panic!("wrong error"),
    }
}

#[test]
fn a_body_is_passed_on_with_headers_that_fit_it() {
    let mut headers = HeaderMap::new();
    headers.insert("content-encoding", "gzip".parse().unwrap());
    let raw = vec![1, 2, 3];
    let body = read_decoded_body(&mut headers, raw.clone(), Some(Decompression::Unsupported));
    assert_eq!(body.ok(), Some(raw.clone()));
    let body = read_decoded_body(&mut headers, raw.clone(), Some(Decompression::Failed));
    assert_eq!(body.ok(), Some(raw.clone()));
    let body = read_decoded_body(&mut headers, raw.clone(), None);
    assert_eq!(body.ok(), Some(raw.clone()));
    assert!(headers.contains_key("content-encoding"));
    let error = read_decoded_body(&mut headers, raw.clone(), Some(Decompression::TooLarge));
    assert!(matches!(
        error,
        Err(ProxyError::ResponseBodyTooLarge(MAX_RESPONSE_BODY_BYTES))
    ));
    assert!(headers.contains_key("content-encoding"));
    let body = read_decoded_body(&mut headers, raw, Some(Decompression::Decoded(vec![9])));
    assert_eq!(body.ok(), Some(vec![9]));
    assert!(!headers.contains_key("content-encoding"));
}

#[test]
fn an_empty_model_name_counts_as_none() {
    let body = "{\"model\":\"\"}";
    assert_eq!(record_of(body, None, Some("")).model, "req-model");
    assert_eq!(record_of(body, Some(usage(Some(""))), Some("")).model, "req-model");
    assert_eq!(record_of(body, None, Some("out")).model, "out");
    assert_eq!(record_of("no json", None, Some("")).model, "");
    assert_eq!(record_of("no json", None, None).model, "req-model");
}
