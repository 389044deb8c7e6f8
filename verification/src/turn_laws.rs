//! What each event does to a turn, and how a turn is ended.

use crate::json::{
    json_member, json_member2, json_parse, json_string, json_text, json_unsigned, Json,
};
use crate::sse::{block_data, block_event};
use crate::terminal::{
    after_discard, lemma_event_types_differ, recovering, recovery_events, rendered, synthetic_event,
    terminal_events, StopReason, Synthetic,
};
use crate::text::{decimal, trimmed};
use crate::turn::{
    can_complete, can_repair, event_of, fresh_turn, turn_run, turn_step, EventView, TurnState,
};
use vstd::prelude::*;
use vstd::string::*;

verus! {

/// Whether an event opens the content block at an index.
pub open spec fn opens(event: EventView, index: u64) -> bool {
    event.event_type == "content_block_start"@ && event.index == Some(index)
}

/// Whether an event closes the content block at an index.
pub open spec fn closes(event: EventView, index: u64) -> bool {
    event.event_type == "content_block_stop"@ && event.index == Some(index)
}

/// What an event shows of a turn at large: that it started, gave a reason for its end, stopped,
/// failed, and brought text. Only the last reason for the end counts.
pub proof fn law_what_an_event_shows_of_the_turn(s: TurnState, event: EventView)
    ensures
        ({
            let t = turn_step(s, event);
            let kind = event.event_type;
            &&& t.saw_message_start <==> s.saw_message_start || kind == "message_start"@
            &&& t.saw_message_stop <==> s.saw_message_stop || kind == "message_stop"@
            &&& t.saw_error <==> s.saw_error || kind == "error"@
            &&& kind == "message_delta"@ ==> (t.saw_final_message_delta <==> event.stop_reason is Some
                && event.stop_reason->0.len() > 0)
            &&& kind != "message_delta"@ ==> t.saw_final_message_delta == s.saw_final_message_delta
            &&& t.saw_text_delta <==> s.saw_text_delta || (kind == "content_block_delta"@
                && event.delta_type == Some("text_delta"@) && event.delta_text is Some
                && event.delta_text->0.len() > 0)
            &&& t.saw_text_block <==> s.saw_text_block || (kind == "content_block_start"@
                && event.index is Some && event.block_type == Some("text"@))
            &&& t.silent_recovery_requested == s.silent_recovery_requested
        }),
{
    lemma_event_types_differ();
    lemma_unknown_is_no_known_type();
}

/// What is known of an error is what the last error event said, with a status of its own for a
/// timeout.
pub proof fn law_what_an_error_event_says(s: TurnState, event: EventView)
    ensures
        ({
            let t = turn_step(s, event);
            if event.event_type == "error"@ {
                &&& t.error_type == Some(
                    if event.error_type is Some {
                        event.error_type->0
                    } else {
                        "stream_error"@
                    },
                )
                &&& t.error_message == Some(
                    if event.error_message is Some {
                        event.error_message->0
                    } else {
                        "Upstream stream returned an error event"@
                    },
                )
                &&& t.error_status == Some(
                    if event.error_type == Some("stream_timeout"@) {
                        504u16
                    } else {
                        502u16
                    },
                )
            } else {
                t.error_type == s.error_type && t.error_message == s.error_message
                    && t.error_status == s.error_status
            }
        }),
{
    lemma_event_types_differ();
    reveal_strlit("stream_error");
    reveal_strlit("stream_timeout");
    assert("stream_error"@.len() == 12);
    assert("stream_timeout"@.len() == 14);
}

proof fn lemma_unknown_is_no_known_type()
    ensures
        "unknown"@ != "text"@,
        "unknown"@ != "tool_use"@,
        "unknown"@ != "thinking"@,
        "unknown"@ != "redacted_thinking"@,
{
    reveal_strlit("unknown");
    reveal_strlit("text");
    reveal_strlit("tool_use");
    reveal_strlit("thinking");
    reveal_strlit("redacted_thinking");
    assert("unknown"@.len() == 7);
    assert("text"@.len() == 4);
    assert("tool_use"@.len() == 8);
    assert("thinking"@.len() == 8);
    assert("redacted_thinking"@.len() == 17);
}

/// A content block is open from the event that opens it until the one that closes it, under the
/// type that it was opened with. It is unsafe meanwhile where its type is not text, a tool call or
/// thinking.
pub proof fn law_when_a_content_block_is_open(s: TurnState, event: EventView, index: u64)
    ensures
        ({
            let t = turn_step(s, event);
            let known = event.block_type == Some("text"@) || event.block_type == Some("tool_use"@)
                || event.block_type == Some("thinking"@) || event.block_type == Some(
                "redacted_thinking"@,
            );
            &&& t.open.contains_key(index) <==> opens(event, index) || (s.open.contains_key(index)
                && !closes(event, index))
            &&& opens(event, index) ==> t.open[index] == (if event.block_type is Some {
                event.block_type->0
            } else {
                "unknown"@
            })
            &&& t.open.contains_key(index) && !opens(event, index) ==> t.open[index]
                == s.open[index]
            &&& t.unsafe_open.contains(index) <==> (opens(event, index) && !known) || (
            s.unsafe_open.contains(index) && !closes(event, index))
        }),
{
    lemma_event_types_differ();
    lemma_unknown_is_no_known_type();
}

/// The input of a tool call is what it was opened with, and then every part that comes for it, one
/// behind the other; it is forgotten when the tool call closes.
pub proof fn law_how_the_input_of_a_tool_call_grows(s: TurnState, event: EventView, index: u64)
    ensures
        ({
            let t = turn_step(s, event);
            let before: Seq<char> = if s.tool_input.contains_key(index) {
                s.tool_input[index]
            } else {
                Seq::empty()
            };
            let starts = opens(event, index) && event.block_type == Some("tool_use"@);
            let ends = closes(event, index) && s.open.contains_key(index) && s.open[index]
                == "tool_use"@;
            let grows = event.event_type == "content_block_delta"@ && event.index == Some(index)
                && event.delta_type == Some("input_json_delta"@) && event.partial_json is Some;
            &&& starts ==> t.tool_input.contains_key(index) && t.tool_input[index]
                == event.tool_input
            &&& grows ==> t.tool_input.contains_key(index) && t.tool_input[index] == before
                + event.partial_json->0
            &&& ends ==> !t.tool_input.contains_key(index)
            &&& !starts && !grows && !ends ==> t.tool_input.contains_key(index)
                == s.tool_input.contains_key(index)
            &&& !starts && !grows && !ends && s.tool_input.contains_key(index)
                ==> t.tool_input[index] == s.tool_input[index]
        }),
{
    lemma_event_types_differ();
    lemma_unknown_is_no_known_type();
}

/// A tool call counts when it closes: as a good one where its input is empty or JSON, and as a
/// broken one otherwise. Nothing else makes either.
pub proof fn law_when_a_tool_call_counts(s: TurnState, event: EventView)
    ensures
        ({
            let t = turn_step(s, event);
            let index = event.index->0;
            let ends = event.index is Some && closes(event, index) && s.open.contains_key(index)
                && s.open[index] == "tool_use"@;
            let input: Seq<char> = if s.tool_input.contains_key(index) {
                s.tool_input[index]
            } else {
                Seq::empty()
            };
            let good = input.len() == 0 || json_parse(input) is Some;
            &&& t.saw_tool_use_block <==> s.saw_tool_use_block || (ends && good)
            &&& t.saw_invalid_non_text_block <==> s.saw_invalid_non_text_block || (ends && !good)
        }),
{
    lemma_event_types_differ();
}

/// A turn starts with nothing seen, and takes its events one after the other.
pub proof fn law_a_turn_takes_its_events_in_order(
    s: TurnState,
    a: Seq<EventView>,
    b: Seq<EventView>,
    event: EventView,
)
    ensures
        ({
            let f = fresh_turn();
            &&& !f.saw_message_start && !f.saw_final_message_delta && !f.saw_message_stop
                && !f.saw_error && !f.saw_text_block && !f.saw_text_delta && !f.saw_tool_use_block
                && !f.saw_invalid_non_text_block && !f.silent_recovery_requested
            &&& f.error_status is None && f.error_type is None && f.error_message is None
            &&& f.open.dom() == Set::<u64>::empty() && f.tool_input.dom() == Set::<u64>::empty()
                && f.unsafe_open == Set::<u64>::empty()
        }),
        turn_run(s, seq![]) == s,
        turn_run(s, seq![event]) == turn_step(s, event),
        turn_run(s, a + b) == turn_run(turn_run(s, a), b),
    decreases b.len(),
{
    assert(seq![event].drop_last() =~= seq![]);
    assert(turn_run(s, seq![event].drop_last()) == s);
    assert(fresh_turn().open.dom() =~= Set::<u64>::empty());
    assert(fresh_turn().tool_input.dom() =~= Set::<u64>::empty());
    if b.len() == 0 {
        assert(a + b =~= a);
    } else {
        law_a_turn_takes_its_events_in_order(s, a, b.drop_last(), event);
        assert((a + b).drop_last() =~= a + b.drop_last());
        assert((a + b).last() == b.last());
    }
}

/// A turn lacks only its `message_stop` exactly where it started, gave a reason for its end, has
/// nothing open and no error.
pub proof fn law_when_a_turn_can_complete(s: TurnState)
    ensures
        can_complete(s) <==> s.saw_message_start && s.saw_final_message_delta && !s.saw_error && (
        forall|index: u64| !#[trigger] s.open.contains_key(index)),
{
    if forall|index: u64| !#[trigger] s.open.contains_key(index) {
        assert(s.open.dom() =~= Set::<u64>::empty());
    }
    if s.open.dom() == Set::<u64>::empty() {
        assert(forall|index: u64|
            #[trigger] s.open.contains_key(index) == s.open.dom().contains(index));
    }
}

/// A turn can be repaired exactly where it started, brought text or a good tool call or is being
/// recovered, and holds no error, no broken tool call, nothing unsafe and nothing open but text.
pub proof fn law_when_a_turn_can_be_repaired(s: TurnState)
    ensures
        can_repair(s) <==> s.saw_message_start && ((s.saw_text_block && s.saw_text_delta)
            || s.saw_tool_use_block || s.silent_recovery_requested) && !s.saw_error
            && !s.saw_invalid_non_text_block && (forall|index: u64|
            !#[trigger] s.unsafe_open.contains(index)) && (forall|index: u64| #[trigger]
            s.open.contains_key(index) ==> s.open[index] == "text"@),
{
    if forall|index: u64| !#[trigger] s.unsafe_open.contains(index) {
        assert(s.unsafe_open =~= Set::<u64>::empty());
    }
}

/// How a turn is ended on which nothing more will come: not at all where it has ended; with a
/// `message_stop` where only that lacks; where a repair is allowed and possible, by closing what
/// is open from the lowest index on, giving a reason and stopping; and otherwise with one error.
pub proof fn law_how_a_turn_is_ended(
    s: TurnState,
    error_type: Seq<char>,
    message: Seq<char>,
    allow_repair: bool,
)
    requires
        s.open.dom().finite(),
    ensures
        ({
            let events = terminal_events(s, error_type, message, allow_repair);
            if s.saw_message_stop || s.saw_error {
                events.len() == 0
            } else if can_complete(s) {
                events == seq![Synthetic::MessageStop]
            } else if allow_repair && can_repair(s) {
                let n = events.len() - 2;
                &&& n >= 0
                &&& events[n] == Synthetic::MessageDelta(
                    if s.saw_tool_use_block {
                        StopReason::ToolUse
                    } else {
                        StopReason::MaxTokens
                    },
                )
                &&& events[n + 1] == Synthetic::MessageStop
                &&& forall|i: int|
                    0 <= i < n ==> (#[trigger] events[i] matches Synthetic::ContentBlockStop(index)
                        && s.open.contains_key(index))
                &&& forall|i: int, j: int|
                    0 <= i < j < n ==> (#[trigger] events[i])->ContentBlockStop_0 < (
                    #[trigger] events[j])->ContentBlockStop_0
                &&& forall|index: u64| #[trigger]
                    s.open.contains_key(index) ==> events.contains(
                        Synthetic::ContentBlockStop(index),
                    )
            } else {
                events == seq![Synthetic::Error(error_type, message)]
            }
        }),
{
    let events = terminal_events(s, error_type, message, allow_repair);
    if !(s.saw_message_stop || s.saw_error) && !can_complete(s) && allow_repair && can_repair(s) {
        let indices = crate::turn::ascending(s.open.dom());
        crate::turn::lemma_ascending(s.open.dom());
        assert forall|i: int| 0 <= i < events.len() - 2 implies (
        #[trigger] events[i] matches Synthetic::ContentBlockStop(index) && s.open.contains_key(
            index,
        )) by {
            assert(events[i] == Synthetic::ContentBlockStop(indices[i]));
            assert(indices.to_set().contains(indices[i]));
        }
        assert forall|i: int, j: int| 0 <= i < j < events.len() - 2 implies (
        #[trigger] events[i])->ContentBlockStop_0 < (#[trigger] events[j])->ContentBlockStop_0 by {
            assert(events[i] == Synthetic::ContentBlockStop(indices[i]));
            assert(events[j] == Synthetic::ContentBlockStop(indices[j]));
            assert(indices[i] < indices[j]);
        }
        assert forall|index: u64| #[trigger] s.open.contains_key(index) implies events.contains(
            Synthetic::ContentBlockStop(index),
        ) by {
            assert(indices.to_set().contains(index));
            let k = choose|k: int| 0 <= k < indices.len() && indices[k] == index;
            assert(events[k] == Synthetic::ContentBlockStop(index));
        }
    }
}

/// A turn that is recovered counts as started and as being recovered; it is opened for the client
/// only where that had not happened. Dropping unfinished content asks for a recovery.
pub proof fn law_how_a_turn_is_recovered(s: TurnState, discarded: bool)
    ensures
        recovering(s).saw_message_start && recovering(s).silent_recovery_requested,
        recovering(s).saw_final_message_delta == s.saw_final_message_delta,
        recovering(s).saw_message_stop == s.saw_message_stop,
        recovering(s).saw_error == s.saw_error,
        recovering(s).open == s.open,
        recovering(s).unsafe_open == s.unsafe_open,
        recovering(s).saw_text_block == s.saw_text_block,
        recovering(s).saw_text_delta == s.saw_text_delta,
        recovering(s).saw_tool_use_block == s.saw_tool_use_block,
        recovering(s).saw_invalid_non_text_block == s.saw_invalid_non_text_block,
        s.saw_message_start ==> recovery_events(s).len() == 0,
        !s.saw_message_start ==> recovery_events(s) == seq![Synthetic::MessageStart],
        !discarded ==> after_discard(s, discarded) == s,
        discarded ==> after_discard(s, discarded) == (TurnState {
            silent_recovery_requested: true,
            ..s
        }),
{
}

/// The blocks that the proxy writes, character for character.
pub proof fn law_the_blocks_that_the_proxy_writes(
    index: u64,
    error_type: Seq<char>,
    message: Seq<char>,
)
    ensures
        rendered(Synthetic::MessageStart)
            == "event: message_start\ndata: {\"type\":\"message_start\",\"message\":{\"id\":\"msg_cc_switch_recovery\",\"type\":\"message\",\"role\":\"assistant\",\"model\":\"\",\"content\":[],\"stop_reason\":null,\"stop_sequence\":null,\"usage\":{\"input_tokens\":0,\"output_tokens\":0}}}"@
            + seq!['\n', '\n'],
        rendered(Synthetic::ContentBlockStop(index))
            == "event: content_block_stop\ndata: {\"type\":\"content_block_stop\",\"index\":"@ + decimal(
            index as nat,
        ) + seq!['}', '\n', '\n'],
        rendered(Synthetic::MessageDelta(StopReason::ToolUse))
            == "event: message_delta\ndata: {\"type\":\"message_delta\",\"delta\":{\"stop_reason\":\"tool_use\",\"stop_sequence\":null},\"usage\":{\"output_tokens\":0}}"@
            + seq!['\n', '\n'],
        rendered(Synthetic::MessageDelta(StopReason::MaxTokens))
            == "event: message_delta\ndata: {\"type\":\"message_delta\",\"delta\":{\"stop_reason\":\"max_tokens\",\"stop_sequence\":null},\"usage\":{\"output_tokens\":0}}"@
            + seq!['\n', '\n'],
        rendered(Synthetic::MessageStop)
            == "event: message_stop\ndata: {\"type\":\"message_stop\"}"@ + seq!['\n', '\n'],
        exists|payload: Json| #[trigger]
            json_text(payload).len() >= 0 && rendered(Synthetic::Error(error_type, message))
                == "event: error\ndata: "@ + json_text(payload) + seq!['\n', '\n'] && json_string(
                json_member(payload, "type"@),
            ) == Some("error"@) && json_string(json_member2(payload, "error"@, "type"@)) == Some(
                error_type,
            ) && json_string(json_member2(payload, "error"@, "message"@)) == Some(message),
{
    reveal_strlit("\n\n");
    reveal_strlit("}\n\n");
    assert("\n\n"@ =~= seq!['\n', '\n']);
    assert("}\n\n"@ =~= seq!['}', '\n', '\n']);
    reveal_strlit("type");
    reveal_strlit("error");
    reveal_strlit("message");
    assert("type"@.len() == 4);
    assert("error"@.len() == 5);
    assert("message"@.len() == 7);
    let payload = crate::terminal::error_json(error_type, message);
    assert(json_text(payload).len() >= 0);
}

/// What the proxy writes says what it is meant to say: each event has its type, and carries its
/// index, its reason or its error.
pub proof fn law_what_the_proxy_writes_says(
    index: u64,
    reason: StopReason,
    error_type: Seq<char>,
    message: Seq<char>,
)
    ensures
        synthetic_event(Synthetic::MessageStart).event_type == "message_start"@,
        synthetic_event(Synthetic::MessageStop).event_type == "message_stop"@,
        synthetic_event(Synthetic::ContentBlockStop(index)).event_type == "content_block_stop"@,
        synthetic_event(Synthetic::ContentBlockStop(index)).index == Some(index),
        synthetic_event(Synthetic::MessageDelta(reason)).event_type == "message_delta"@,
        synthetic_event(Synthetic::MessageDelta(reason)).stop_reason == Some(
            if reason is ToolUse {
                "tool_use"@
            } else {
                "max_tokens"@
            },
        ),
        synthetic_event(Synthetic::Error(error_type, message)).event_type == "error"@,
        synthetic_event(Synthetic::Error(error_type, message)).error_type == Some(error_type),
        synthetic_event(Synthetic::Error(error_type, message)).error_message == Some(message),
{
}

/// What a block says is read from the fields of its payload. The payload's own type goes before the
/// name on the event line, and a payload that is no JSON says nothing more than that name.
pub proof fn law_how_a_block_is_read(block: Seq<char>)
    ensures
        ({
            let event = event_of(block);
            let named: Seq<char> = if block_event(block) is Some {
                trimmed(block_event(block)->0)
            } else {
                Seq::empty()
            };
            match json_parse(block_data(block)) {
                None => event.event_type == named && event.index is None && event.block_type is None
                    && event.tool_input.len() == 0 && event.delta_type is None
                    && event.delta_text is None && event.partial_json is None
                    && event.stop_reason is None && event.error_type is None
                    && event.error_message is None,
                Some(value) => {
                    let input = json_member2(value, "content_block"@, "input"@);
                    &&& event.event_type == (match json_member(value, "type"@) {
                        Some(Json::Text(own)) => own,
                        _ => named,
                    })
                    &&& event.index == json_unsigned(json_member(value, "index"@))
                    &&& event.block_type == json_string(
                        json_member2(value, "content_block"@, "type"@),
                    )
                    &&& event.delta_type == json_string(json_member2(value, "delta"@, "type"@))
                    &&& event.delta_text == json_string(json_member2(value, "delta"@, "text"@))
                    &&& event.partial_json == json_string(
                        json_member2(value, "delta"@, "partial_json"@),
                    )
                    &&& event.stop_reason == json_string(
                        json_member2(value, "delta"@, "stop_reason"@),
                    )
                    &&& event.error_type == json_string(json_member2(value, "error"@, "type"@))
                    &&& event.error_message == json_string(
                        json_member2(value, "error"@, "message"@),
                    )
                    &&& input is None ==> event.tool_input.len() == 0
                    &&& input == Some(Json::Object(Map::empty())) ==> event.tool_input.len() == 0
                    &&& input is Some && !(input->0 is Object) ==> event.tool_input == json_text(
                        input->0,
                    )
                    &&& (input matches Some(Json::Object(members)) && exists|key: Seq<char>|
                        members.contains_key(key)) ==> event.tool_input == json_text(input->0)
                },
            }
        }),
{
    assert(Map::<Seq<char>, Json>::empty().dom() =~= Set::<Seq<char>>::empty());
    if let Some(value) = json_parse(block_data(block)) {
        let input = json_member2(value, "content_block"@, "input"@);
        if let Some(Json::Object(members)) = input {
            if exists|key: Seq<char>| members.contains_key(key) {
                let key = choose|key: Seq<char>| members.contains_key(key);
                assert(members.dom().contains(key));
            }
        }
    }
}

} // verus!
