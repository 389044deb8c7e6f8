//! What holds of every usage record.

use crate::json::{json_member, json_string, Json};
use crate::picking::{lemma_picked_next, lemma_picked_none, picked};
use crate::usage::{
    after_offer, logs_usage, no_failure, plain_record, priced_model, stream_record_view,
    usage_or_none, wants, whole_record, with_failure, CollectorView, ContextView, OutcomeView,
    RecordView, TokenUsage, TokenUsageView,
};
use vstd::prelude::*;

verus! {

/// What is charged for a whole response is what its parser found; nothing where the parser found
/// nothing or the body is no JSON.
pub proof fn law_a_response_is_charged_what_it_used(
    ctx: ContextView,
    parsed: Option<Json>,
    usage: Option<TokenUsageView>,
    status_code: u16,
    latency_ms: u64,
)
    ensures
        ({
            let record = whole_record(ctx, parsed, usage, status_code, latency_ms);
            if parsed is Some && usage is Some {
                record.usage == usage->0
            } else {
                record.usage.input_tokens == 0 && record.usage.output_tokens == 0
                    && record.usage.cache_read_tokens == 0 && record.usage.cache_creation_tokens
                    == 0 && record.usage.model is None && record.usage.message_id is None
            }
        }),
{
}

/// Two responses that used different amounts are charged differently.
pub proof fn law_different_usage_makes_different_records(
    ctx: ContextView,
    body: Json,
    a: TokenUsageView,
    b: TokenUsageView,
    status_code: u16,
    latency_ms: u64,
)
    requires
        a != b,
    ensures
        whole_record(ctx, Some(body), Some(a), status_code, latency_ms) != whole_record(
            ctx,
            Some(body),
            Some(b),
            status_code,
            latency_ms,
        ),
{
}

/// A whole response is booked under the first name that is not empty: what the usage says, what
/// the response says, what the proxy mapped the request to, what the client asked for. One that
/// is no JSON is booked under what the request went out with.
pub proof fn law_the_first_known_model_is_booked(
    ctx: ContextView,
    parsed: Option<Json>,
    usage: Option<TokenUsageView>,
    status_code: u16,
    latency_ms: u64,
)
    ensures
        ({
            let model = whole_record(ctx, parsed, usage, status_code, latency_ms).model;
            let used: Seq<char> = if usage is Some && usage->0.model is Some {
                usage->0.model->0
            } else {
                Seq::empty()
            };
            let said: Seq<char> = if parsed is Some && (json_member(parsed->0, "model"@) matches Some(
                Json::Text(_),
            )) {
                json_string(json_member(parsed->0, "model"@))->0
            } else {
                Seq::empty()
            };
            let mapped: Seq<char> = if ctx.outbound_model is Some {
                ctx.outbound_model->0
            } else {
                Seq::empty()
            };
            if parsed is None {
                &&& ctx.outbound_model is Some ==> model == mapped
                &&& ctx.outbound_model is None ==> model == ctx.request_model
            } else {
                &&& used.len() > 0 ==> model == used
                &&& used.len() == 0 && said.len() > 0 ==> model == said
                &&& used.len() == 0 && said.len() == 0 && mapped.len() > 0 ==> model == mapped
                &&& used.len() == 0 && said.len() == 0 && mapped.len() == 0 ==> model
                    == ctx.request_model
            }
        }),
{
}

/// Whose request it was, what was asked for and sent out, how long it took and how it was answered
/// stand in the record of a whole response as they were.
pub proof fn law_a_record_tells_of_its_request(
    ctx: ContextView,
    parsed: Option<Json>,
    usage: Option<TokenUsageView>,
    status_code: u16,
    latency_ms: u64,
)
    ensures
        ({
            let record = whole_record(ctx, parsed, usage, status_code, latency_ms);
            &&& record.provider_id == ctx.provider_id
            &&& record.app_type == ctx.app_type
            &&& record.session_id == ctx.session_id
            &&& record.request_model == ctx.request_model
            &&& ctx.outbound_model is Some ==> record.outbound_model == ctx.outbound_model->0
            &&& ctx.outbound_model is None ==> record.outbound_model == ctx.request_model
            &&& record.latency_ms == latency_ms
            &&& record.status_code == status_code
            &&& record.first_token_ms is None
            &&& record.error_message is None
            &&& !record.is_streaming
        }),
{
}

/// The record of a single request holds what it is made of.
pub proof fn law_a_plain_record_holds_what_it_is_made_of(
    ctx: ContextView,
    usage: TokenUsageView,
    model: Seq<char>,
    request_model: Seq<char>,
    status_code: u16,
    is_streaming: bool,
    latency_ms: u64,
)
    ensures
        ({
            let record = plain_record(
                ctx,
                usage,
                model,
                request_model,
                status_code,
                is_streaming,
                latency_ms,
            );
            &&& record.provider_id == ctx.provider_id
            &&& record.app_type == ctx.app_type
            &&& record.session_id == ctx.session_id
            &&& record.model == model
            &&& record.request_model == request_model
            &&& ctx.outbound_model is Some ==> record.outbound_model == ctx.outbound_model->0
            &&& ctx.outbound_model is None ==> record.outbound_model == ctx.request_model
            &&& record.usage == usage
            &&& record.latency_ms == latency_ms
            &&& record.status_code == status_code
            &&& record.is_streaming == is_streaming
            &&& record.first_token_ms is None
            &&& record.error_message is None
        }),
{
}

/// The record of a stream holds what its events used, the time to its first event, and how it
/// ended: its own failure where it had one, and the response's status where it had none.
pub proof fn law_a_stream_is_recorded_as_it_ended(
    ctx: ContextView,
    status_code: u16,
    first_token_ms: Option<u64>,
    outcome: OutcomeView,
    usage: TokenUsageView,
    model: Seq<char>,
    latency_ms: u64,
)
    ensures
        ({
            let record = stream_record_view(
                ctx,
                status_code,
                first_token_ms,
                outcome,
                usage,
                model,
                latency_ms,
            );
            &&& record.usage == usage
            &&& record.model == model
            &&& record.first_token_ms == first_token_ms
            &&& record.error_message == outcome.error_message
            &&& outcome.status_code_override is Some ==> record.status_code
                == outcome.status_code_override->0
            &&& outcome.status_code_override is None ==> record.status_code == status_code
            &&& record.is_streaming
            &&& record.latency_ms == latency_ms
            &&& record.provider_id == ctx.provider_id
            &&& record.app_type == ctx.app_type
            &&& record.session_id == ctx.session_id
            &&& record.request_model == ctx.request_model
            &&& ctx.outbound_model is Some ==> record.outbound_model == ctx.outbound_model->0
            &&& ctx.outbound_model is None ==> record.outbound_model == ctx.request_model
        }),
{
}

/// A stream of which no usage is known counts no tokens; one that says what it used counts that.
pub proof fn law_unknown_usage_counts_nothing(usage: Option<TokenUsage>)
    ensures
        match usage {
            Some(usage) => usage_or_none(Some(usage)) == usage@,
            None => usage_or_none(usage) == (TokenUsageView {
                input_tokens: 0,
                output_tokens: 0,
                cache_read_tokens: 0,
                cache_creation_tokens: 0,
                model: None,
                message_id: None,
            }),
        },
{
}

/// A record is charged at the model that was sent out where prices go by the request, and at the
/// model it is booked under otherwise.
pub proof fn law_which_model_is_charged(record: RecordView, source: Seq<char>)
    ensures
        source == "request"@ ==> priced_model(record, source) == record.outbound_model,
        source != "request"@ ==> priced_model(record, source) == record.model,
{
}

/// Usage is recorded unless the settings say that it is not.
pub proof fn law_usage_is_recorded_unless_switched_off(configured: Option<bool>)
    ensures
        logs_usage(configured) <==> configured is None || configured->0,
        wants(configured) <==> configured is None || configured->0,
{
}

/// The first failure of a stream is kept with its status and message; none is made up.
pub proof fn law_a_failure_is_kept_as_it_was_reported(
    outcome: OutcomeView,
    status: u16,
    message: Seq<char>,
)
    ensures
        no_failure().status_code_override is None && no_failure().error_message is None,
        outcome.error_message is None ==> with_failure(outcome, status, message).error_message
            == Some(message) && with_failure(outcome, status, message).status_code_override == Some(
            status,
        ),
        outcome.error_message is Some ==> with_failure(outcome, status, message) == outcome,
{
}

/// A payload line that came from a stream: what it parses to, what the filter says of it, and when
/// it came.
pub struct Offer {
    pub parsed: Option<Json>,
    pub wanted: Option<bool>,
    pub elapsed_ms: u64,
}

/// The collector after several payload lines.
pub open spec fn after_offers(c: CollectorView, offers: Seq<Offer>) -> CollectorView
    decreases offers.len(),
{
    if offers.len() == 0 {
        c
    } else {
        let last = offers.last();
        after_offer(
            after_offers(c, offers.drop_last()),
            last.parsed,
            last.wanted,
            last.elapsed_ms,
        )
    }
}

/// Of all payload lines of a stream exactly those that are wanted and are JSON are collected, in
/// order. The time of the first of them is kept, and nothing else changes.
pub proof fn law_a_collector_keeps_what_is_wanted(c: CollectorView, offers: Seq<Offer>, first: int)
    requires
        c.events.len() == 0,
        c.first_event_ms is None,
        0 <= first <= offers.len(),
        forall|i: int|
            0 <= i < first ==> (#[trigger] offers[i]).parsed is None || offers[i].wanted == Some(
                false,
            ),
        first < offers.len() ==> offers[first].parsed is Some && offers[first].wanted != Some(
            false,
        ),
    ensures
        ({
            let after = after_offers(c, offers);
            &&& picked(
                offers.len() as int,
                |i: int| offers[i].parsed is Some && offers[i].wanted != Some(false),
                |i: int| offers[i].parsed->0,
                after.events,
            )
            &&& first < offers.len() ==> after.first_event_ms == Some(offers[first].elapsed_ms)
            &&& first == offers.len() ==> after.first_event_ms is None
            &&& after.outcome == c.outcome
            &&& after.finished == c.finished
        }),
    decreases offers.len(),
{
    let keep = |i: int| offers[i].parsed is Some && offers[i].wanted != Some(false);
    let image = |i: int| offers[i].parsed->0;
    if offers.len() == 0 {
        lemma_picked_none(keep, image);
        assert(c.events =~= Seq::empty());
    } else {
        let front = offers.drop_last();
        let front_first = if first < front.len() {
            first
        } else {
            front.len() as int
        };
        assert forall|i: int| 0 <= i < front_first implies (#[trigger] front[i]).parsed is None
            || front[i].wanted == Some(false) by {
            assert(front[i] == offers[i]);
        }
        law_a_collector_keeps_what_is_wanted(c, front, front_first);
        lemma_picked_next(
            front.len() as int,
            |i: int| front[i].parsed is Some && front[i].wanted != Some(false),
            |i: int| front[i].parsed->0,
            after_offers(c, front).events,
            keep,
            image,
        );
        assert(offers[offers.len() - 1] == offers.last());
    }
}

} // verus!
