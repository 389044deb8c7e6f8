//! The handling of an upstream response, whole or streamed.

use crate::headers::{
    entity_names, header_entries, passed_headers, strip_entity_headers_for_rebuilt_body,
    strip_hop_by_hop_response_headers,
};
use crate::json::{json_parse_bytes, optional_json, parse_bytes};
use crate::provider::{App, AppType};
use crate::relay::SseTerminalPolicy;
use crate::stream::{
    create_logged_passthrough_stream, fresh_stream, PassthroughStream, StreamingTimeoutConfig,
};
use crate::text::{concat3, decimal, decimal_string};
use crate::usage::{
    create_usage_collector, logs_usage, no_failure, optional_record, optional_usage, usage_logging_enabled,
    whole_record, whole_response_record, RequestContext, SseUsageCollector, TokenUsage, UsageRecord,
};
use http::HeaderMap;
use serde_json::Value;
use vstd::prelude::*;
use vstd::string::*;

verus! {

/// How many bytes of a response body are read at most.
pub const MAX_RESPONSE_BODY_BYTES: u64 = 134217728;

/// An upstream response whose body has not been read.
pub struct ProxyResponse {
    pub status: u16,
    pub headers: HeaderMap,
    /// Whether the body is a stream of server-sent events.
    pub sse: bool,
}

/// Whether a response is a stream of server-sent events.
pub fn is_sse_response(response: &ProxyResponse) -> (res: bool)
    ensures
        res == response.sse,
{
    response.sse
}

/// How a response is handled.
#[derive(Debug, Clone, Copy, PartialEq, Eq, Structural)]
pub enum ResponseRoute {
    Streaming,
    Whole,
}

/// How a response is handled.
pub fn process_response(response: &ProxyResponse) -> (route: ResponseRoute)
    ensures
        route == (if response.sse {
            ResponseRoute::Streaming
        } else {
            ResponseRoute::Whole
        }),
{
    if is_sse_response(response) {
        ResponseRoute::Streaming
    } else {
        ResponseRoute::Whole
    }
}

/// How the streams of an application are relayed and ended.
pub open spec fn policy_of(app: AppType) -> SseTerminalPolicy {
    match app {
        AppType::ClaudeDesktop => SseTerminalPolicy::ClaudeDesktopAnthropic,
        AppType::Claude => SseTerminalPolicy::AnthropicMessages,
        _ => SseTerminalPolicy::Passthrough,
    }
}

/// How the streams of an application are relayed and ended.
pub fn terminal_policy(app: AppType) -> (policy: SseTerminalPolicy)
    ensures
        policy == policy_of(app),
{
    match app {
        AppType::ClaudeDesktop => SseTerminalPolicy::ClaudeDesktopAnthropic,
        AppType::Claude => SseTerminalPolicy::AnthropicMessages,
        _ => SseTerminalPolicy::Passthrough,
    }
}

/// Prepares a streamed response: its headers are made ready to be passed on, and its passage
/// and its usage collector are set up. `configured` is what the settings say of recording
/// usage, where they can be read; `debugging` is whether the debug log is on.
pub fn handle_streaming(
    headers: &mut HeaderMap,
    app: &App,
    configured: Option<bool>,
    debugging: bool,
    timeouts: StreamingTimeoutConfig,
) -> (res: (PassthroughStream, Option<SseUsageCollector>))
    ensures
        header_entries(*final(headers)) == passed_headers(header_entries(*old(headers))),
        res.0@ == fresh_stream(logs_usage(configured), debugging, timeouts, policy_of(app@.kind)),
        res.1 is Some == logs_usage(configured),
        res.1 matches Some(collector) ==> collector@.events.len() == 0 && !collector@.finished
            && collector@.outcome == no_failure() && collector@.first_event_ms is None,
{
    strip_hop_by_hop_response_headers(headers);
    let collector = create_usage_collector(configured);
    let stream = create_logged_passthrough_stream(
        collector.is_some(),
        debugging,
        timeouts,
        terminal_policy(app.kind()),
    );
    (stream, collector)
}

/// How long the body of a whole response may take, in seconds; 0 sets no limit. Only requests
/// that can fail over have a limit.
pub fn body_timeout(auto_failover_enabled: bool, non_streaming_timeout: u32) -> (seconds: u64)
    ensures
        seconds == (if auto_failover_enabled {
            non_streaming_timeout as u64
        } else {
            0
        }),
{
    if auto_failover_enabled && non_streaming_timeout > 0 {
        non_streaming_timeout as u64
    } else {
        0
    }
}

/// Parses the body of a whole response. It is not parsed where usage is not recorded.
pub fn read_response_json(configured: Option<bool>, body: &[u8]) -> (parsed: Option<Value>)
    ensures
        optional_json(parsed) == (if logs_usage(configured) {
            json_parse_bytes(body@)
        } else {
            None
        }),
{
    if usage_logging_enabled(configured) {
        parse_bytes(body)
    } else {
        None
    }
}

/// Handles a whole response: its headers are made ready to be passed on, and its usage is
/// recorded. `parsed` is its parsed body, and `usage` what the parser of the application found
/// there.
pub fn handle_non_streaming(
    headers: &mut HeaderMap,
    configured: Option<bool>,
    ctx: &RequestContext,
    parsed: &Option<Value>,
    usage: Option<TokenUsage>,
    status_code: u16,
    latency_ms: u64,
) -> (record: Option<UsageRecord>)
    ensures
        header_entries(*final(headers)) == passed_headers(header_entries(*old(headers))),
        optional_record(record) == (if logs_usage(configured) {
            Some(
                whole_record(
                    ctx@,
                    optional_json(*parsed),
                    optional_usage(usage),
                    status_code,
                    latency_ms,
                ),
            )
        } else {
            None
        }),
        record is Some == (configured is None || configured->0),
        record is Some && parsed is Some && usage is Some ==> record->0@.usage == usage->0@,
{
    strip_hop_by_hop_response_headers(headers);
    whole_response_record(configured, ctx, parsed, usage, status_code, latency_ms)
}

/// What became of the attempt to decode a body.
pub enum Decompression {
    /// The body was decoded.
    Decoded(Vec<u8>),
    /// Its encoding is not known.
    Unsupported,
    /// It is too large when decoded.
    TooLarge,
    /// It is not what its encoding says.
    Failed,
}

/// Why a response cannot be passed on.
pub enum ProxyError {
    Timeout(String),
    /// The body is larger than this many bytes.
    ResponseBodyTooLarge(u64),
}

pub open spec fn body_timeout_message(seconds: u64) -> Seq<char> {
    "响应体读取超时: "@ + decimal(seconds as nat) + "s（上游发完响应头后 body 未到达）"@
}

/// The error of a body that did not come in time.
pub fn body_timeout_error(seconds: u64) -> (error: ProxyError)
    ensures
        error matches ProxyError::Timeout(message) && message@ == body_timeout_message(seconds),
{
    let numeral = decimal_string(seconds);
    ProxyError::Timeout(
        concat3("响应体读取超时: ", numeral.as_str(), "s（上游发完响应头后 body 未到达）"),
    )
}

/// The body that is passed on, with headers that fit it. `decoding` is what became of the
/// attempt to decode a body with a content encoding. A body that cannot be decoded is passed
/// on as it came, and keeps the header that says how it is encoded.
pub fn read_decoded_body(
    headers: &mut HeaderMap,
    raw: Vec<u8>,
    decoding: Option<Decompression>,
) -> (res: Result<Vec<u8>, ProxyError>)
    ensures
        match res {
            Ok(body) => !(decoding matches Some(Decompression::TooLarge)) && body@ == (
            match decoding {
                Some(Decompression::Decoded(decoded)) => decoded@,
                _ => raw@,
            }),
            Err(error) => (decoding matches Some(Decompression::TooLarge)) && (
            error matches ProxyError::ResponseBodyTooLarge(limit) && limit
                == MAX_RESPONSE_BODY_BYTES),
        },
        header_entries(*final(headers)) == (match decoding {
            Some(Decompression::Decoded(_)) => header_entries(*old(headers)).remove_keys(
                entity_names().to_set(),
            ),
            _ => header_entries(*old(headers)),
        }),
{
    match decoding {
        None => Ok(raw),
        Some(Decompression::Decoded(decoded)) => {
            strip_entity_headers_for_rebuilt_body(headers);
            Ok(decoded)
        },
        Some(Decompression::Unsupported) => Ok(raw),
        Some(Decompression::TooLarge) => Err(
            ProxyError::ResponseBodyTooLarge(MAX_RESPONSE_BODY_BYTES),
        ),
        Some(Decompression::Failed) => Ok(raw),
    }
}

} // verus!
