//! What the models of the library's values hold of them: everything, and under its own name.

use crate::failover::FailoverQueueItem;
use crate::provider::{provider_views, Provider};
use crate::router::{HealthUpdate, ProviderRouter, Route, RoutePlan};
use crate::stream::{action_views, Action, PassthroughStream, StreamAction};
use crate::switch::{Expectation, Move, Reply, SwitchEvent, SwitchExpectation, SwitchStep};
use crate::terminal::{HeldAnthropicContentBlock, Synthetic, SyntheticEvent};
use crate::toggle::{Answer, Step, ToggleEvent, ToggleStep};
use crate::turn::{AnthropicEvent, AnthropicTerminalState};
use crate::usage::{
    RequestContext, SseUsageCollector, StreamTerminalOutcome, TokenUsage, UsageRecord,
};
use vstd::prelude::*;
use vstd::string::*;

verus! {

/// The characters of a text that may be missing.
pub open spec fn characters(text: Option<String>) -> Option<Seq<char>> {
    match text {
        Some(text) => Some(text@),
        None => None,
    }
}

/// What a response used is modelled token by token.
pub proof fn law_the_model_of_usage(usage: TokenUsage)
    ensures
        usage@.input_tokens == usage.input_tokens,
        usage@.output_tokens == usage.output_tokens,
        usage@.cache_read_tokens == usage.cache_read_tokens,
        usage@.cache_creation_tokens == usage.cache_creation_tokens,
        usage@.model == characters(usage.model),
        usage@.message_id == characters(usage.message_id),
{
}

/// A line of the usage record is modelled field by field.
pub proof fn law_the_model_of_a_record(record: UsageRecord)
    ensures
        record@.provider_id == record.provider_id@,
        record@.app_type == record.app_type@,
        record@.model == record.model@,
        record@.request_model == record.request_model@,
        record@.outbound_model == record.outbound_model@,
        record@.usage == record.usage@,
        record@.latency_ms == record.latency_ms,
        record@.first_token_ms == record.first_token_ms,
        record@.is_streaming == record.is_streaming,
        record@.status_code == record.status_code,
        record@.error_message == characters(record.error_message),
        record@.session_id == record.session_id@,
{
}

/// What is known of a request is modelled field by field.
pub proof fn law_the_model_of_a_request(ctx: RequestContext)
    ensures
        ctx@.app_type == ctx.app_type@,
        ctx@.provider_id == ctx.provider_id@,
        ctx@.request_model == ctx.request_model@,
        ctx@.outbound_model == characters(ctx.outbound_model),
        ctx@.session_id == ctx.session_id@,
{
}

/// A collector is modelled with every event that it holds, the time of the first one, and how its
/// stream ended.
pub proof fn law_the_model_of_a_collector(
    collector: SseUsageCollector,
    outcome: StreamTerminalOutcome,
)
    ensures
        collector@.events.len() == collector.events@.len(),
        collector@.first_event_ms == collector.first_event_ms,
        collector@.outcome == collector.outcome@,
        collector@.finished == collector.finished,
        outcome@.status_code_override == outcome.status_code_override,
        outcome@.error_message == characters(outcome.error_message),
{
}

/// Providers and entries of the queue are modelled field by field, and lists of them in order.
pub proof fn law_the_model_of_a_provider(
    provider: Provider,
    item: FailoverQueueItem,
    providers: Seq<Provider>,
)
    ensures
        provider@.id == provider.id@,
        provider@.name == provider.name@,
        provider@.desktop_official == provider.desktop_official,
        provider@.desktop_mode == provider.desktop_mode,
        provider@.desktop_proxy_valid == provider.desktop_proxy_valid,
        provider@.codex_official == provider.codex_official,
        item@.provider_id == item.provider_id@,
        item@.provider_name == item.provider_name@,
        provider_views(providers).len() == providers.len(),
        forall|i: int|
            0 <= i < providers.len() ==> (#[trigger] provider_views(providers)[i]) == providers[i]@,
{
}

/// Where a request may go is modelled with the same providers in the same order.
pub proof fn law_the_model_of_a_route(plan: RoutePlan)
    ensures
        match plan {
            RoutePlan::Nowhere => plan@ == Route::Nowhere,
            RoutePlan::Single(provider) => plan@ == Route::Single(provider@),
            RoutePlan::Candidates(providers) => plan@ == Route::Candidates(
                provider_views(providers@),
            ),
        },
{
}

/// What the store is told of a provider, and what a router keeps, are modelled field by field.
pub proof fn law_the_model_of_a_router<B>(router: ProviderRouter<B>, update: HealthUpdate)
    ensures
        router@.breakers == router.circuit_breakers@,
        router@.cooldowns == router.rate_limit_cooldowns@,
        update@.provider_id == update.provider_id@,
        update@.app_type == update.app_type@,
        update@.success == update.success,
        update@.error_msg == characters(update.error_msg),
        update@.failure_threshold == update.failure_threshold,
{
}

/// What is to be done for a stream is modelled as it is, and in order.
pub proof fn law_the_model_of_an_action(action: StreamAction, actions: Seq<StreamAction>)
    ensures
        match action {
            StreamAction::Offer(data) => action@ == Action::Offer(data@),
            StreamAction::Fail { status, message } => action@ == Action::Fail(status, message@),
            StreamAction::GuardSuccess => action@ == Action::GuardSuccess,
            StreamAction::GuardFailure(message) => action@ == Action::GuardFailure(message@),
            StreamAction::GuardError { error_type, message } => action@ == Action::GuardError(
                error_type@,
                message@,
            ),
            StreamAction::SendBlock(block) => action@ == Action::SendBlock(block@),
            StreamAction::SendBytes(bytes) => action@ == Action::SendBytes(bytes@),
            StreamAction::SendError(message) => action@ == Action::SendError(message@),
            StreamAction::Finish => action@ == Action::Finish,
        },
        action_views(actions).len() == actions.len(),
        forall|i: int|
            0 <= i < actions.len() ==> (#[trigger] action_views(actions)[i]) == actions[i]@,
{
}

/// A stream is modelled field by field.
pub proof fn law_the_model_of_a_stream(stream: PassthroughStream)
    ensures
        stream@.buffer == stream.buffer@,
        stream@.remainder == stream.utf8_remainder@,
        stream@.inspect == stream.inspect,
        stream@.first == stream.first,
        stream@.finished == stream.finished,
        stream@.timeouts == stream.timeouts,
        stream@.relay.policy == stream.relay.policy,
        stream@.relay.turn == stream.relay.turn@,
        stream@.relay.held.dom() == stream.relay.held@.dom(),
        forall|index: u64| #[trigger]
            stream.relay.held@.contains_key(index) ==> stream@.relay.held[index]
                == stream.relay.held@[index]@,
        stream@.relay.held_bytes == stream.relay.held_bytes,
        stream@.relay.ignored == stream.relay.ignored@,
        stream@.relay.rewrote == stream.relay.rewrote,
        stream@.relay.suppressed is Some == stream.relay.suppressed is Some,
        match stream.relay.suppressed {
            Some((error_type, message)) => stream@.relay.suppressed == Some(
                (error_type@, message@),
            ),
            None => true,
        },
{
}

/// A content block that is kept back is modelled with its events in order.
pub proof fn law_the_model_of_a_held_block(held: HeldAnthropicContentBlock)
    ensures
        held@.block_type == held.block_type@,
        held@.bytes == held.bytes,
        held@.events.len() == held.events@.len(),
        forall|i: int| 0 <= i < held.events@.len() ==> (#[trigger] held@.events[i])
            == held.events@[i]@,
{
}

/// An event and the state of a turn are modelled field by field.
pub proof fn law_the_model_of_a_turn(event: AnthropicEvent, turn: AnthropicTerminalState)
    ensures
        event@.event_type == event.event_type@,
        event@.index == event.index,
        event@.block_type == characters(event.block_type),
        event@.tool_input == event.tool_input@,
        event@.delta_type == characters(event.delta_type),
        event@.delta_text == characters(event.delta_text),
        event@.partial_json == characters(event.partial_json),
        event@.stop_reason == characters(event.stop_reason),
        event@.error_type == characters(event.error_type),
        event@.error_message == characters(event.error_message),
        turn@.saw_message_start == turn.saw_message_start,
        turn@.saw_final_message_delta == turn.saw_final_message_delta,
        turn@.saw_message_stop == turn.saw_message_stop,
        turn@.saw_error == turn.saw_error,
        turn@.error_status == turn.error_status,
        turn@.error_type == characters(turn.error_type),
        turn@.error_message == characters(turn.error_message),
        turn@.open.dom() == turn.open_content_blocks@.dom(),
        forall|index: u64| #[trigger]
            turn.open_content_blocks@.contains_key(index) ==> turn@.open[index]
                == turn.open_content_blocks@[index]@,
        turn@.tool_input.dom() == turn.tool_input_json@.dom(),
        forall|index: u64| #[trigger]
            turn.tool_input_json@.contains_key(index) ==> turn@.tool_input[index]
                == turn.tool_input_json@[index]@,
        turn@.saw_text_block == turn.saw_text_block,
        turn@.saw_text_delta == turn.saw_text_delta,
        turn@.saw_tool_use_block == turn.saw_tool_use_block,
        turn@.unsafe_open == turn.open_unsafe_content_blocks@,
        turn@.saw_invalid_non_text_block == turn.saw_invalid_non_text_block,
        turn@.silent_recovery_requested == turn.silent_recovery_requested,
{
}

/// An event that the proxy writes is modelled as it is.
pub proof fn law_the_model_of_a_written_event(event: SyntheticEvent)
    ensures
        match event {
            SyntheticEvent::MessageStart => event@ == Synthetic::MessageStart,
            SyntheticEvent::ContentBlockStop(index) => event@ == Synthetic::ContentBlockStop(index),
            SyntheticEvent::MessageDelta(reason) => event@ == Synthetic::MessageDelta(reason),
            SyntheticEvent::MessageStop => event@ == Synthetic::MessageStop,
            SyntheticEvent::Error { error_type, message } => event@ == Synthetic::Error(
                error_type@,
                message@,
            ),
        },
{
}

/// What an outcome without a value is modelled as.
pub open spec fn outcome(result: Result<(), String>) -> Result<(), Seq<char>> {
    match result {
        Ok(()) => Ok(()),
        Err(message) => Err(message@),
    }
}

/// A step of the failover switch is modelled as it is.
pub proof fn law_the_model_of_a_toggle_step(step: ToggleStep)
    ensures
        match step {
            ToggleStep::ReadConfig => step@ == Step::ReadConfig,
            ToggleStep::CheckRunning => step@ == Step::CheckRunning,
            ToggleStep::ReadPolicy => step@ == Step::ReadPolicy,
            ToggleStep::ReadProviders { strategy } => step@ == Step::ReadProviders(strategy),
            ToggleStep::ReadQueue { strategy, providers } => step@ == Step::ReadQueue(
                strategy,
                provider_views(providers@),
            ),
            ToggleStep::ReadCurrent { strategy, providers, queue } => step@ == Step::ReadCurrent(
                strategy,
                provider_views(providers@),
                queue.deep_view(),
            ),
            ToggleStep::LookUp { strategy, providers, queue, current } => step@ == Step::LookUp(
                strategy,
                provider_views(providers@),
                queue.deep_view(),
                current@,
            ),
            ToggleStep::Enqueue { strategy, providers, current } => step@ == Step::Enqueue(
                strategy,
                provider_views(providers@),
                current@,
            ),
            ToggleStep::RereadQueue { providers, current } => step@ == Step::RereadQueue(
                provider_views(providers@),
                current@,
            ),
            ToggleStep::Switch { target, auto_added } => step@ == Step::Switch(
                target@,
                characters(auto_added),
            ),
            ToggleStep::Dequeue { provider, error } => step@ == Step::Dequeue(provider@, error@),
            ToggleStep::Write { activated } => step@ == Step::Write(characters(activated)),
            ToggleStep::Emit { target } => step@ == Step::Emit(target@),
            ToggleStep::RefreshTray => step@ == Step::RefreshTray,
            ToggleStep::Done(result) => step@ == Step::Done(outcome(result)),
        },
{
}

/// An answer to the failover switch is modelled as it is; a failure with its message.
pub proof fn law_the_model_of_a_toggle_event(event: ToggleEvent)
    ensures
        match event {
            ToggleEvent::Config(Ok(enabled)) => event@ == Answer::Config(Ok(enabled)),
            ToggleEvent::Config(Err(message)) => event@ == Answer::Config(Err(message@)),
            ToggleEvent::Running(running) => event@ == Answer::Running(running),
            ToggleEvent::Policy(Ok(strategy)) => event@ == Answer::Policy(Ok(strategy)),
            ToggleEvent::Policy(Err(message)) => event@ == Answer::Policy(Err(message@)),
            ToggleEvent::Providers(Ok(providers)) => event@ == Answer::Providers(
                Ok(provider_views(providers@)),
            ),
            ToggleEvent::Providers(Err(message)) => event@ == Answer::Providers(Err(message@)),
            ToggleEvent::Queue(Ok(ids)) => event@ == Answer::Queue(Ok(ids.deep_view())),
            ToggleEvent::Queue(Err(message)) => event@ == Answer::Queue(Err(message@)),
            ToggleEvent::Current(Ok(id)) => event@ == Answer::Current(Ok(characters(id))),
            ToggleEvent::Current(Err(message)) => event@ == Answer::Current(Err(message@)),
            ToggleEvent::Found(Ok(Some(provider))) => event@ == Answer::Found(Ok(Some(provider@))),
            ToggleEvent::Found(Ok(None)) => event@ == Answer::Found(Ok(None)),
            ToggleEvent::Found(Err(message)) => event@ == Answer::Found(Err(message@)),
            ToggleEvent::Enqueued(result) => event@ == Answer::Enqueued(outcome(result)),
            ToggleEvent::Switched(result) => event@ == Answer::Switched(outcome(result)),
            ToggleEvent::Dequeued => event@ == Answer::Dequeued,
            ToggleEvent::Written(result) => event@ == Answer::Written(outcome(result)),
            ToggleEvent::Emitted => event@ == Answer::Emitted,
            ToggleEvent::TrayRefreshed => event@ == Answer::TrayRefreshed,
        },
{
}

/// A step of a provider switch, and what it depends on, are modelled as they are.
pub proof fn law_the_model_of_a_switch_step(step: SwitchStep, expectation: SwitchExpectation)
    ensures
        match step {
            SwitchStep::ReadConfig => step@ == Move::ReadConfig,
            SwitchStep::FindHost => step@ == Move::FindHost,
            SwitchStep::FindState => step@ == Move::FindState,
            SwitchStep::SwitchIfCurrent { expected } => step@ == Move::SwitchIfCurrent(
                characters(expected),
            ),
            SwitchStep::ReadCurrent => step@ == Move::ReadCurrent,
            SwitchStep::SwitchDesktop => step@ == Move::SwitchDesktop,
            SwitchStep::HotSwitch => step@ == Move::HotSwitch,
            SwitchStep::RefreshTray => step@ == Move::RefreshTray,
            SwitchStep::Emit { switched } => step@ == Move::Emit(switched),
            SwitchStep::Done(Ok(switched)) => step@ == Move::Done(Ok(switched)),
            SwitchStep::Done(Err(message)) => step@ == Move::Done(Err(message@)),
        },
        match expectation {
            SwitchExpectation::Unconditional => expectation@ == Expectation::Unconditional,
            SwitchExpectation::IfCurrent(current) => expectation@ == Expectation::IfCurrent(
                characters(current),
            ),
        },
{
}

/// An answer to a provider switch is modelled as it is; a failure with its message.
pub proof fn law_the_model_of_a_switch_event(event: SwitchEvent)
    ensures
        match event {
            SwitchEvent::Config(enabled) => event@ == Reply::Config(enabled),
            SwitchEvent::Host(present) => event@ == Reply::Host(present),
            SwitchEvent::State(present) => event@ == Reply::State(present),
            SwitchEvent::Current(Ok(id)) => event@ == Reply::Current(Ok(characters(id))),
            SwitchEvent::Current(Err(message)) => event@ == Reply::Current(Err(message@)),
            SwitchEvent::Switched(Ok(changed)) => event@ == Reply::Switched(Ok(changed)),
            SwitchEvent::Switched(Err(message)) => event@ == Reply::Switched(Err(message@)),
            SwitchEvent::TrayRefreshed => event@ == Reply::TrayRefreshed,
            SwitchEvent::Emitted => event@ == Reply::Emitted,
        },
{
}

} // verus!
