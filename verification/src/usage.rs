//! The usage record of a request: what is collected from a stream, and which model and price
//! it is booked under.

use crate::json::{
    json_member, json_parse, json_string, json_view, member_string, optional_json, parse_text, Json,
};
use crate::text::str_eq;
use serde_json::Value;
use vstd::prelude::*;
use vstd::string::*;

verus! {

/// How a stream ended, where it did not end well.
#[derive(Debug, PartialEq, Eq)]
pub struct StreamTerminalOutcome {
    pub status_code_override: Option<u16>,
    pub error_message: Option<String>,
}

/// How a stream ended, where it did not end well.
#[verifier::ext_equal]
pub struct OutcomeView {
    pub status_code_override: Option<u16>,
    pub error_message: Option<Seq<char>>,
}

impl View for StreamTerminalOutcome {
    type V = OutcomeView;

    open spec fn view(&self) -> OutcomeView {
        OutcomeView {
            status_code_override: self.status_code_override,
            error_message: self.error_message.deep_view(),
        }
    }
}

/// Nothing went wrong.
pub open spec fn no_failure() -> OutcomeView {
    OutcomeView { status_code_override: None, error_message: None }
}

/// The outcome after a failure was reported: the first one counts.
pub open spec fn with_failure(outcome: OutcomeView, status: u16, message: Seq<char>) -> OutcomeView {
    if outcome.error_message is None {
        OutcomeView { status_code_override: Some(status), error_message: Some(message) }
    } else {
        outcome
    }
}

impl Default for StreamTerminalOutcome {
    fn default() -> (outcome: StreamTerminalOutcome)
        ensures
            outcome@ == no_failure(),
    {
        StreamTerminalOutcome { status_code_override: None, error_message: None }
    }
}

impl Clone for StreamTerminalOutcome {
    fn clone(&self) -> (copy: StreamTerminalOutcome)
        ensures
            copy@ == self@,
    {
        StreamTerminalOutcome {
            status_code_override: self.status_code_override,
            error_message: match &self.error_message {
                Some(message) => Some(message.clone()),
                None => None,
            },
        }
    }
}

/// The contents of collected events.
pub open spec fn json_views(events: Seq<Value>) -> Seq<Json> {
    events.map_values(|event: Value| json_view(event))
}

/// What a stream has shown so far.
#[verifier::ext_equal]
pub struct CollectorView {
    pub events: Seq<Json>,
    pub first_event_ms: Option<u64>,
    pub outcome: OutcomeView,
    pub finished: bool,
}

/// What a stream has shown, once it has ended.
pub struct UsageReport {
    pub events: Vec<Value>,
    /// The time from the request to the first collected event, in milliseconds.
    pub first_token_ms: Option<u64>,
    pub outcome: StreamTerminalOutcome,
}

/// Collects what a stream says of its usage.
pub struct SseUsageCollector {
    pub events: Vec<Value>,
    pub first_event_ms: Option<u64>,
    pub outcome: StreamTerminalOutcome,
    pub finished: bool,
}

impl View for SseUsageCollector {
    type V = CollectorView;

    open spec fn view(&self) -> CollectorView {
        CollectorView {
            events: json_views(self.events@),
            first_event_ms: self.first_event_ms,
            outcome: self.outcome@,
            finished: self.finished,
        }
    }
}

/// The collector after an event. The time of the first one is kept.
pub open spec fn collected(c: CollectorView, event: Json, elapsed_ms: u64) -> CollectorView {
    CollectorView {
        events: c.events.push(event),
        first_event_ms: match c.first_event_ms {
            Some(first) => Some(first),
            None => Some(elapsed_ms),
        },
        ..c
    }
}

/// Whether an event is collected. `wanted` is what the filter says, where there is one.
pub open spec fn wants(wanted: Option<bool>) -> bool {
    wanted != Some(false)
}

/// The collector after a payload line was offered: it is collected where it is wanted and is
/// JSON.
pub open spec fn after_offer(
    c: CollectorView,
    parsed: Option<Json>,
    wanted: Option<bool>,
    elapsed_ms: u64,
) -> CollectorView {
    match parsed {
        Some(event) if wants(wanted) => collected(c, event, elapsed_ms),
        _ => c,
    }
}

impl SseUsageCollector {
    /// A collector that has seen nothing.
    pub fn new() -> (collector: SseUsageCollector)
        ensures
            collector@ == (CollectorView {
                events: Seq::empty(),
                first_event_ms: None,
                outcome: no_failure(),
                finished: false,
            }),
    {
        let collector = SseUsageCollector {
            events: Vec::new(),
            first_event_ms: None,
            outcome: StreamTerminalOutcome { status_code_override: None, error_message: None },
            finished: false,
        };
        assert(collector@.events =~= Seq::<Json>::empty());
        collector
    }

    /// Whether an event is collected. `wanted` is what the filter says, where there is one.
    pub fn should_collect(&self, wanted: Option<bool>) -> (res: bool)
        ensures
            res == wants(wanted),
    {
        match wanted {
            Some(wanted) => wanted,
            None => true,
        }
    }

    /// Collects an event that came so many milliseconds after the request.
    pub fn push(&mut self, event: Value, elapsed_ms: u64)
        ensures
            final(self)@ == collected(old(self)@, json_view(event), elapsed_ms),
    {
        if self.first_event_ms.is_none() {
            self.first_event_ms = Some(elapsed_ms);
        }
        let ghost before = json_views(self.events@);
        self.events.push(event);
        assert(json_views(self.events@) =~= before.push(json_view(event)));
    }

    /// Offers a payload line that came so many milliseconds after the request. Whether it was
    /// collected.
    pub fn offer(&mut self, data: &str, wanted: Option<bool>, elapsed_ms: u64) -> (taken: bool)
        ensures
            taken == (wants(wanted) && json_parse(data@) is Some),
            final(self)@ == after_offer(old(self)@, json_parse(data@), wanted, elapsed_ms),
    {
        if !self.should_collect(wanted) {
            return false;
        }
        match parse_text(data) {
            Some(event) => {
                self.push(event, elapsed_ms);
                true
            },
            None => false,
        }
    }

    /// Reports that the stream failed. The first failure counts.
    pub fn set_terminal_failure(&mut self, status_code: u16, message: &str)
        ensures
            final(self)@ == (CollectorView {
                outcome: with_failure(old(self)@.outcome, status_code, message@),
                ..old(self)@
            }),
    {
        if self.outcome.error_message.is_none() {
            self.outcome.status_code_override = Some(status_code);
            self.outcome.error_message = Some(message.to_owned());
        }
    }

    /// Ends the collection and hands out what was collected. It is handed out once.
    pub fn finish(&mut self) -> (report: Option<UsageReport>)
        ensures
            report is Some == !old(self)@.finished,
            report matches Some(report) ==> json_views(report.events@) == old(self)@.events
                && report.first_token_ms == old(self)@.first_event_ms && report.outcome@
                == old(self)@.outcome,
            final(self)@ == (CollectorView {
                events: if old(self)@.finished {
                    old(self)@.events
                } else {
                    Seq::empty()
                },
                finished: true,
                ..old(self)@
            }),
    {
        if self.finished {
            return None;
        }
        self.finished = true;
        let mut events: Vec<Value> = Vec::new();
        std::mem::swap(&mut events, &mut self.events);
        assert(json_views(self.events@) =~= Seq::<Json>::empty());
        Some(
            UsageReport {
                events,
                first_token_ms: self.first_event_ms,
                outcome: self.outcome.clone(),
            },
        )
    }
}

/// Of several failures of a stream the first one stands.
pub proof fn law_the_first_failure_stands(
    outcome: OutcomeView,
    status: u16,
    message: Seq<char>,
    later_status: u16,
    later_message: Seq<char>,
)
    ensures
        with_failure(with_failure(outcome, status, message), later_status, later_message)
            == with_failure(outcome, status, message),
{
}

/// What is not wanted, or is no JSON, leaves no trace, not even of its time.
pub proof fn law_what_is_not_collected_leaves_no_trace(
    c: CollectorView,
    parsed: Option<Json>,
    wanted: Option<bool>,
    elapsed_ms: u64,
)
    requires
        !wants(wanted) || parsed is None,
    ensures
        after_offer(c, parsed, wanted, elapsed_ms) == c,
{
}

/// Whether usage is recorded. `configured` is what the settings say, where they can be read.
pub open spec fn logs_usage(configured: Option<bool>) -> bool {
    configured != Some(false)
}

/// Whether usage is recorded. `configured` is what the settings say, where they can be read.
pub fn usage_logging_enabled(configured: Option<bool>) -> (res: bool)
    ensures
        res == logs_usage(configured),
{
    match configured {
        Some(enabled) => enabled,
        None => true,
    }
}

/// What a response says of the tokens it used.
pub struct TokenUsage {
    pub input_tokens: u32,
    pub output_tokens: u32,
    pub cache_read_tokens: u32,
    pub cache_creation_tokens: u32,
    pub model: Option<String>,
    pub message_id: Option<String>,
}

/// What a response says of the tokens it used.
#[verifier::ext_equal]
pub struct TokenUsageView {
    pub input_tokens: u32,
    pub output_tokens: u32,
    pub cache_read_tokens: u32,
    pub cache_creation_tokens: u32,
    pub model: Option<Seq<char>>,
    pub message_id: Option<Seq<char>>,
}

impl View for TokenUsage {
    type V = TokenUsageView;

    open spec fn view(&self) -> TokenUsageView {
        TokenUsageView {
            input_tokens: self.input_tokens,
            output_tokens: self.output_tokens,
            cache_read_tokens: self.cache_read_tokens,
            cache_creation_tokens: self.cache_creation_tokens,
            model: self.model.deep_view(),
            message_id: self.message_id.deep_view(),
        }
    }
}

/// No usage.
pub open spec fn no_usage() -> TokenUsageView {
    TokenUsageView {
        input_tokens: 0,
        output_tokens: 0,
        cache_read_tokens: 0,
        cache_creation_tokens: 0,
        model: None,
        message_id: None,
    }
}

impl Default for TokenUsage {
    fn default() -> (usage: TokenUsage)
        ensures
            usage@ == no_usage(),
    {
        TokenUsage {
            input_tokens: 0,
            output_tokens: 0,
            cache_read_tokens: 0,
            cache_creation_tokens: 0,
            model: None,
            message_id: None,
        }
    }
}

pub open spec fn usage_or_none(usage: Option<TokenUsage>) -> TokenUsageView {
    match usage {
        Some(usage) => usage@,
        None => no_usage(),
    }
}

/// What is known of a request.
pub struct RequestContext {
    pub app_type: String,
    pub provider_id: String,
    /// The model that the client asked for.
    pub request_model: String,
    /// The model that the request was sent out with, where the proxy mapped it.
    pub outbound_model: Option<String>,
    pub session_id: String,
}

/// What is known of a request.
#[verifier::ext_equal]
pub struct ContextView {
    pub app_type: Seq<char>,
    pub provider_id: Seq<char>,
    pub request_model: Seq<char>,
    pub outbound_model: Option<Seq<char>>,
    pub session_id: Seq<char>,
}

impl View for RequestContext {
    type V = ContextView;

    open spec fn view(&self) -> ContextView {
        ContextView {
            app_type: self.app_type@,
            provider_id: self.provider_id@,
            request_model: self.request_model@,
            outbound_model: self.outbound_model.deep_view(),
            session_id: self.session_id@,
        }
    }
}

/// The model that the request went out with: the mapped one, or the one that was asked for.
pub open spec fn sent_model(ctx: ContextView) -> Seq<char> {
    match ctx.outbound_model {
        Some(model) => model,
        None => ctx.request_model,
    }
}

/// A text that is not empty.
pub open spec fn non_empty(text: Option<Seq<char>>) -> Option<Seq<char>> {
    match text {
        Some(text) if text.len() > 0 => Some(text),
        _ => None,
    }
}

/// The model that a JSON response is booked under: what the usage says, or else what the response
/// says, or else what the proxy mapped the request to, or else what the client asked for. An
/// empty name counts as none.
pub open spec fn booked_model(
    ctx: ContextView,
    usage_model: Option<Seq<char>>,
    response_model: Option<Seq<char>>,
) -> Seq<char> {
    match non_empty(usage_model) {
        Some(model) => model,
        None => match non_empty(response_model) {
            Some(model) => model,
            None => match non_empty(ctx.outbound_model) {
                Some(model) => model,
                None => ctx.request_model,
            },
        },
    }
}

/// A line of the usage record.
pub struct UsageRecord {
    pub provider_id: String,
    pub app_type: String,
    pub model: String,
    pub request_model: String,
    pub outbound_model: String,
    pub usage: TokenUsage,
    pub latency_ms: u64,
    pub first_token_ms: Option<u64>,
    pub is_streaming: bool,
    pub status_code: u16,
    pub error_message: Option<String>,
    pub session_id: String,
}

/// A line of the usage record.
#[verifier::ext_equal]
pub struct RecordView {
    pub provider_id: Seq<char>,
    pub app_type: Seq<char>,
    pub model: Seq<char>,
    pub request_model: Seq<char>,
    pub outbound_model: Seq<char>,
    pub usage: TokenUsageView,
    pub latency_ms: u64,
    pub first_token_ms: Option<u64>,
    pub is_streaming: bool,
    pub status_code: u16,
    pub error_message: Option<Seq<char>>,
    pub session_id: Seq<char>,
}

impl View for UsageRecord {
    type V = RecordView;

    open spec fn view(&self) -> RecordView {
        RecordView {
            provider_id: self.provider_id@,
            app_type: self.app_type@,
            model: self.model@,
            request_model: self.request_model@,
            outbound_model: self.outbound_model@,
            usage: self.usage@,
            latency_ms: self.latency_ms,
            first_token_ms: self.first_token_ms,
            is_streaming: self.is_streaming,
            status_code: self.status_code,
            error_message: self.error_message.deep_view(),
            session_id: self.session_id@,
        }
    }
}

/// The record of a request that was not streamed, or of one without a stream's own times.
pub open spec fn plain_record(
    ctx: ContextView,
    usage: TokenUsageView,
    model: Seq<char>,
    request_model: Seq<char>,
    status_code: u16,
    is_streaming: bool,
    latency_ms: u64,
) -> RecordView {
    RecordView {
        provider_id: ctx.provider_id,
        app_type: ctx.app_type,
        model,
        request_model,
        outbound_model: sent_model(ctx),
        usage,
        latency_ms,
        first_token_ms: None,
        is_streaming,
        status_code,
        error_message: None,
        session_id: ctx.session_id,
    }
}

pub open spec fn optional_record(record: Option<UsageRecord>) -> Option<RecordView> {
    match record {
        Some(record) => Some(record@),
        None => None,
    }
}

/// The model that the request went out with.
pub fn outbound_or_request(ctx: &RequestContext) -> (model: String)
    ensures
        model@ == sent_model(ctx@),
{
    match &ctx.outbound_model {
        Some(model) => model.clone(),
        None => ctx.request_model.clone(),
    }
}

/// The record of a request, where usage is recorded.
pub fn spawn_log_usage(
    configured: Option<bool>,
    ctx: &RequestContext,
    usage: TokenUsage,
    model: &str,
    request_model: &str,
    status_code: u16,
    is_streaming: bool,
    latency_ms: u64,
) -> (record: Option<UsageRecord>)
    ensures
        optional_record(record) == (if logs_usage(configured) {
            Some(
                plain_record(
                    ctx@,
                    usage@,
                    model@,
                    request_model@,
                    status_code,
                    is_streaming,
                    latency_ms,
                ),
            )
        } else {
            None
        }),
{
    if !usage_logging_enabled(configured) {
        return None;
    }
    Some(
        UsageRecord {
            provider_id: ctx.provider_id.clone(),
            app_type: ctx.app_type.clone(),
            model: model.to_owned(),
            request_model: request_model.to_owned(),
            outbound_model: outbound_or_request(ctx),
            usage,
            latency_ms,
            first_token_ms: None,
            is_streaming,
            status_code,
            error_message: None,
            session_id: ctx.session_id.clone(),
        },
    )
}

/// The collector of a stream, where usage is recorded.
pub fn create_usage_collector(configured: Option<bool>) -> (collector: Option<SseUsageCollector>)
    ensures
        collector is Some == logs_usage(configured),
        collector matches Some(collector) ==> collector@.events.len() == 0
            && collector@.first_event_ms is None && collector@.outcome == no_failure()
            && !collector@.finished,
{
    if !usage_logging_enabled(configured) {
        return None;
    }
    Some(SseUsageCollector::new())
}

/// The record of a stream. Where the stream failed, its failure takes the place of the
/// response's status.
pub open spec fn stream_record_view(
    ctx: ContextView,
    status_code: u16,
    first_token_ms: Option<u64>,
    outcome: OutcomeView,
    usage: TokenUsageView,
    model: Seq<char>,
    latency_ms: u64,
) -> RecordView {
    RecordView {
        status_code: match outcome.status_code_override {
            Some(status) => status,
            None => status_code,
        },
        error_message: outcome.error_message,
        first_token_ms,
        ..plain_record(ctx, usage, model, ctx.request_model, status_code, true, latency_ms)
    }
}

/// The record of a stream that has ended. `usage` and `model` are what its events say.
pub fn stream_record(
    ctx: &RequestContext,
    status_code: u16,
    first_token_ms: Option<u64>,
    outcome: StreamTerminalOutcome,
    usage: Option<TokenUsage>,
    model: String,
    latency_ms: u64,
) -> (record: UsageRecord)
    ensures
        record@ == stream_record_view(
            ctx@,
            status_code,
            first_token_ms,
            outcome@,
            usage_or_none(usage),
            model@,
            latency_ms,
        ),
{
    UsageRecord {
        provider_id: ctx.provider_id.clone(),
        app_type: ctx.app_type.clone(),
        model,
        request_model: ctx.request_model.clone(),
        outbound_model: outbound_or_request(ctx),
        usage: match usage {
            Some(usage) => usage,
            None => TokenUsage::default(),
        },
        latency_ms,
        first_token_ms,
        is_streaming: true,
        status_code: match outcome.status_code_override {
            Some(status) => status,
            None => status_code,
        },
        error_message: outcome.error_message,
        session_id: ctx.session_id.clone(),
    }
}

/// The source of prices that goes by the request and not by what the upstream says.
pub const PRICING_SOURCE_REQUEST: &'static str = "request";

/// The model whose price a record is charged at. Going by the request means the model that was
/// sent out, not the alias that the client asked for.
pub open spec fn priced_model(record: RecordView, source: Seq<char>) -> Seq<char> {
    if source == PRICING_SOURCE_REQUEST@ {
        record.outbound_model
    } else {
        record.model
    }
}

/// The model whose price a record is charged at.
pub fn log_usage_internal(record: &UsageRecord, pricing_model_source: &str) -> (model: String)
    ensures
        model@ == priced_model(record@, pricing_model_source@),
{
    if str_eq(pricing_model_source, PRICING_SOURCE_REQUEST) {
        record.outbound_model.clone()
    } else {
        record.model.clone()
    }
}

/// A text that is not empty.
fn keep_non_empty(text: Option<String>) -> (kept: Option<String>)
    ensures
        kept.deep_view() == non_empty(text.deep_view()),
{
    match text {
        Some(text) => if text.as_str().is_empty() {
            None
        } else {
            Some(text)
        },
        None => None,
    }
}

/// The model that a parsed response names.
pub open spec fn response_model(parsed: Option<Json>) -> Option<Seq<char>> {
    match parsed {
        Some(value) => json_string(json_member(value, "model"@)),
        None => None,
    }
}

/// The record of a whole response. `usage` is what the parser of the application found in a
/// response that is JSON. One that is not is booked under the model that it went out with.
pub open spec fn whole_record(
    ctx: ContextView,
    parsed: Option<Json>,
    usage: Option<TokenUsageView>,
    status_code: u16,
    latency_ms: u64,
) -> RecordView {
    let found = if parsed is Some {
        usage
    } else {
        None
    };
    let model = if parsed is Some {
        booked_model(
            ctx,
            match found {
                Some(usage) => usage.model,
                None => None,
            },
            response_model(parsed),
        )
    } else {
        sent_model(ctx)
    };
    plain_record(
        ctx,
        match found {
            Some(usage) => usage,
            None => no_usage(),
        },
        model,
        ctx.request_model,
        status_code,
        false,
        latency_ms,
    )
}

pub open spec fn optional_usage(usage: Option<TokenUsage>) -> Option<TokenUsageView> {
    match usage {
        Some(usage) => Some(usage@),
        None => None,
    }
}

/// The record of a whole response, where usage is recorded. `usage` is what the parser of the
/// application found in the parsed response.
pub fn whole_response_record(
    configured: Option<bool>,
    ctx: &RequestContext,
    parsed: &Option<Value>,
    usage: Option<TokenUsage>,
    status_code: u16,
    latency_ms: u64,
) -> (record: Option<UsageRecord>)
    ensures
        optional_record(record) == (if logs_usage(configured) {
            Some(
                whole_record(
                    ctx@,
                    optional_json(*parsed),
                    optional_usage(usage),
                    status_code,
                    latency_ms,
                ),
            )
        } else {
            None
        }),
        record is Some == (configured is None || configured->0),
        record is Some && parsed is Some && usage is Some ==> record->0@.usage == usage->0@,
{
    let found = if parsed.is_some() {
        usage
    } else {
        None
    };
    let usage_model = match &found {
        Some(usage) => match &usage.model {
            Some(model) => Some(model.clone()),
            None => None,
        },
        None => None,
    };
    let model = if parsed.is_some() {
        match keep_non_empty(usage_model) {
            Some(model) => model,
            None => match keep_non_empty(member_string(parsed, "model")) {
                Some(model) => model,
                None => match keep_non_empty(ctx.outbound_model.clone()) {
                    Some(model) => model,
                    None => ctx.request_model.clone(),
                },
            },
        }
    } else {
        outbound_or_request(ctx)
    };
    let counted = match found {
        Some(usage) => usage,
        None => TokenUsage::default(),
    };
    spawn_log_usage(
        configured,
        ctx,
        counted,
        model.as_str(),
        ctx.request_model.as_str(),
        status_code,
        false,
        latency_ms,
    )
}

/// A JSON response is booked under a name: it is empty only where the client itself asked for none.
pub proof fn law_a_record_is_booked_under_a_model(
    ctx: ContextView,
    usage_model: Option<Seq<char>>,
    response_model: Option<Seq<char>>,
)
    requires
        ctx.request_model.len() > 0,
    ensures
        booked_model(ctx, usage_model, response_model).len() > 0,
{
}

/// Priced by the request, a record is charged at the model that was sent out, whatever model
/// the upstream claims to have used.
pub proof fn law_pricing_by_request_ignores_the_upstream(
    ctx: ContextView,
    usage: TokenUsageView,
    model: Seq<char>,
    status_code: u16,
    is_streaming: bool,
    latency_ms: u64,
)
    ensures
        priced_model(
            plain_record(
                ctx,
                usage,
                model,
                ctx.request_model,
                status_code,
                is_streaming,
                latency_ms,
            ),
            PRICING_SOURCE_REQUEST@,
        ) == sent_model(ctx),
{
}

} // verus!
