//! Ending a turn that the upstream left unfinished.

use crate::json::{json_parse, json_text, json_view, object_value, string_value, write_text, Json};
use crate::sse::{block_data, block_event, field_values};
use crate::text::{lemma_find_char_is, lines,concat2, concat3, decimal, decimal_string};
use crate::turn::{
    lemma_ascending, anthropic_can_complete_safely, anthropic_can_repair_truncated_turn, ascending,
    bare_event, event_of, event_of_parsed, can_complete, can_repair, open_indices, turn_run,
    turn_step, AnthropicEvent, AnthropicTerminalState, EventView, TurnState,
};
use serde_json::Value;
use std::collections::BTreeMap;
use vstd::prelude::*;
use vstd::string::*;

verus! {

/// The block that opens a turn of which the upstream sent nothing.
pub const MESSAGE_START_BLOCK: &'static str = "event: message_start\ndata: {\"type\":\"message_start\",\"message\":{\"id\":\"msg_cc_switch_recovery\",\"type\":\"message\",\"role\":\"assistant\",\"model\":\"\",\"content\":[],\"stop_reason\":null,\"stop_sequence\":null,\"usage\":{\"input_tokens\":0,\"output_tokens\":0}}}";

/// The block that ends a turn because its output was cut off.
pub const MAX_TOKENS_BLOCK: &'static str = "event: message_delta\ndata: {\"type\":\"message_delta\",\"delta\":{\"stop_reason\":\"max_tokens\",\"stop_sequence\":null},\"usage\":{\"output_tokens\":0}}";

/// The block that ends a turn because the model called a tool.
pub const TOOL_USE_BLOCK: &'static str = "event: message_delta\ndata: {\"type\":\"message_delta\",\"delta\":{\"stop_reason\":\"tool_use\",\"stop_sequence\":null},\"usage\":{\"output_tokens\":0}}";

/// The block that closes a turn.
pub const MESSAGE_STOP_BLOCK: &'static str = "event: message_stop\ndata: {\"type\":\"message_stop\"}";

/// Why a turn that is ended for the upstream stopped.
#[derive(Clone, Copy, PartialEq, Eq, Structural, Debug)]
pub enum StopReason {
    ToolUse,
    MaxTokens,
}

/// An event that the proxy itself writes.
pub enum Synthetic {
    MessageStart,
    ContentBlockStop(u64),
    MessageDelta(StopReason),
    MessageStop,
    Error(Seq<char>, Seq<char>),
}

/// An event that the proxy itself writes.
pub enum SyntheticEvent {
    MessageStart,
    /// Closes the content block with this index.
    ContentBlockStop(u64),
    MessageDelta(StopReason),
    MessageStop,
    Error { error_type: String, message: String },
}

impl View for SyntheticEvent {
    type V = Synthetic;

    open spec fn view(&self) -> Synthetic {
        match self {
            SyntheticEvent::MessageStart => Synthetic::MessageStart,
            SyntheticEvent::ContentBlockStop(index) => Synthetic::ContentBlockStop(*index),
            SyntheticEvent::MessageDelta(reason) => Synthetic::MessageDelta(*reason),
            SyntheticEvent::MessageStop => Synthetic::MessageStop,
            SyntheticEvent::Error { error_type, message } => Synthetic::Error(
                error_type@,
                message@,
            ),
        }
    }
}

/// What an event that the proxy writes says.
pub open spec fn synthetic_event(event: Synthetic) -> EventView {
    match event {
        Synthetic::MessageStart => bare_event("message_start"@),
        Synthetic::ContentBlockStop(index) => EventView {
            index: Some(index),
            ..bare_event("content_block_stop"@)
        },
        Synthetic::MessageDelta(reason) => EventView {
            stop_reason: Some(
                match reason {
                    StopReason::ToolUse => "tool_use"@,
                    StopReason::MaxTokens => "max_tokens"@,
                },
            ),
            ..bare_event("message_delta"@)
        },
        Synthetic::MessageStop => bare_event("message_stop"@),
        Synthetic::Error(error_type, message) => EventView {
            error_type: Some(error_type),
            error_message: Some(message),
            ..bare_event("error"@)
        },
    }
}

/// The payload of an error event.
pub open spec fn error_json(error_type: Seq<char>, message: Seq<char>) -> Json {
    Json::Object(
        Map::<Seq<char>, Json>::empty().insert("type"@, Json::Text("error"@)).insert(
            "error"@,
            Json::Object(
                Map::<Seq<char>, Json>::empty().insert("type"@, Json::Text(error_type)).insert(
                    "message"@,
                    Json::Text(message),
                ),
            ),
        ),
    )
}

/// The block of an event that the proxy writes, with the delimiter behind it.
pub open spec fn rendered(event: Synthetic) -> Seq<char> {
    match event {
        Synthetic::MessageStart => MESSAGE_START_BLOCK@ + "\n\n"@,
        Synthetic::ContentBlockStop(index) =>
            "event: content_block_stop\ndata: {\"type\":\"content_block_stop\",\"index\":"@
            + decimal(index as nat) + "}\n\n"@,
        Synthetic::MessageDelta(StopReason::ToolUse) => TOOL_USE_BLOCK@ + "\n\n"@,
        Synthetic::MessageDelta(StopReason::MaxTokens) => MAX_TOKENS_BLOCK@ + "\n\n"@,
        Synthetic::MessageStop => MESSAGE_STOP_BLOCK@ + "\n\n"@,
        Synthetic::Error(error_type, message) => "event: error\ndata: "@ + json_text(
            error_json(error_type, message),
        ) + "\n\n"@,
    }
}

/// The blocks of several events.
pub open spec fn rendered_all(events: Seq<Synthetic>) -> Seq<Seq<char>> {
    events.map_values(|event: Synthetic| rendered(event))
}

/// What several events say.
pub open spec fn synthetic_events(events: Seq<Synthetic>) -> Seq<EventView> {
    events.map_values(|event: Synthetic| synthetic_event(event))
}

/// The events that close the given content blocks.
pub open spec fn closing_events(indices: Seq<u64>) -> Seq<Synthetic> {
    indices.map_values(|index: u64| Synthetic::ContentBlockStop(index))
}

/// The reason that the repair of a turn gives for its end.
pub open spec fn repair_reason(s: TurnState) -> StopReason {
    if s.saw_tool_use_block {
        StopReason::ToolUse
    } else {
        StopReason::MaxTokens
    }
}

/// The events that end a turn on which the upstream will send nothing more: none where it has
/// ended, the missing `message_stop` where that is all that lacks, a repair where one is
/// allowed and safe, and otherwise an error.
pub open spec fn terminal_events(
    s: TurnState,
    error_type: Seq<char>,
    message: Seq<char>,
    allow_repair: bool,
) -> Seq<Synthetic> {
    if s.saw_message_stop || s.saw_error {
        Seq::empty()
    } else if can_complete(s) {
        seq![Synthetic::MessageStop]
    } else if allow_repair && can_repair(s) {
        closing_events(ascending(s.open.dom())).push(Synthetic::MessageDelta(repair_reason(s))).push(
            Synthetic::MessageStop,
        )
    } else {
        seq![Synthetic::Error(error_type, message)]
    }
}

/// The views of several events.
pub open spec fn views(events: Seq<SyntheticEvent>) -> Seq<Synthetic> {
    events.map_values(|event: SyntheticEvent| event@)
}

/// The text of an error event's payload.
fn error_payload(error_type: &str, message: &str) -> (payload: String)
    ensures
        payload@ == json_text(error_json(error_type@, message@)),
        !payload@.contains('\n') && !payload@.contains('\r'),
        json_parse(payload@) == Some(error_json(error_type@, message@)),
{
    let mut inner: Vec<(String, Value)> = Vec::new();
    inner.push(("type".to_owned(), string_value(error_type)));
    inner.push(("message".to_owned(), string_value(message)));
    let ghost inner_entries = inner@;
    proof {
        reveal_strlit("type");
        reveal_strlit("message");
        reveal_strlit("error");
        assert("type"@.len() == 4);
        assert("message"@.len() == 7);
        assert("error"@.len() == 5);
    }
    let error = object_value(inner);
    let mut outer: Vec<(String, Value)> = Vec::new();
    outer.push(("type".to_owned(), string_value("error")));
    outer.push(("error".to_owned(), error));
    let ghost outer_entries = outer@;
    let value = object_value(outer);
    proof {
        reveal_with_fuel(crate::json::entries_map, 3);
        assert(json_view(error) == Json::Object(
            Map::<Seq<char>, Json>::empty().insert("type"@, Json::Text(error_type@)).insert(
                "message"@,
                Json::Text(message@),
            ),
        )) by {
            assert(inner_entries.drop_last().drop_last() =~= Seq::empty());
        }
        assert(outer_entries.drop_last().drop_last() =~= Seq::empty());
        assert(json_view(value) == error_json(error_type@, message@));
    }
    write_text(&value)
}

proof fn lemma_error_json_says(named: Option<Seq<char>>, error_type: Seq<char>, message: Seq<char>)
    ensures
        event_of_parsed(named, Some(error_json(error_type, message))) == synthetic_event(
            Synthetic::Error(error_type, message),
        ),
{
    reveal_strlit("type");
    reveal_strlit("error");
    reveal_strlit("index");
    reveal_strlit("content_block");
    reveal_strlit("delta");
    reveal_strlit("message");
    assert("type"@.len() == 4);
    assert("error"@.len() == 5);
    assert("index"@.len() == 5);
    assert("content_block"@.len() == 13);
    assert("delta"@.len() == 5);
    assert("message"@.len() == 7);
    assert("error"@[0] == 'e');
    assert("index"@[0] == 'i');
    assert("delta"@[0] == 'd');
}

proof fn lemma_lines_cons(line: Seq<char>, rest: Seq<char>)
    requires
        !line.contains('\n'),
        line.len() == 0 || line.last() != '\r',
    ensures
        lines(line + seq!['\n'] + rest) == seq![line] + lines(rest),
{
    let s = line + seq!['\n'] + rest;
    assert forall|k: int| 0 <= k < line.len() implies s[k] != '\n' by {
        assert(s[k] == line[k]);
    }
    assert(s[line.len() as int] == '\n');
    lemma_find_char_is(s, '\n', line.len() as int);
    assert(s.take(line.len() as int) =~= line);
    assert(s.skip(line.len() as int + 1) =~= rest);
}

/// The block of an error event is read as that error.
proof fn lemma_error_block_reads_back(error_type: Seq<char>, message: Seq<char>, payload: Seq<char>)
    requires
        !payload.contains('\n'),
        !payload.contains('\r'),
        json_parse(payload) == Some(error_json(error_type, message)),
    ensures
        event_of("event: error\ndata: "@ + payload + "\n\n"@) == synthetic_event(
            Synthetic::Error(error_type, message),
        ),
{
    let block = "event: error\ndata: "@ + payload + "\n\n"@;
    let head = "event: error"@;
    let data = "data: "@ + payload;
    reveal_strlit("event: error\ndata: ");
    reveal_strlit("event: error");
    reveal_strlit("data: ");
    reveal_strlit("\n\n");
    reveal_strlit("data");
    let tail = Seq::<char>::empty() + seq!['\n'] + Seq::<char>::empty();
    assert("event: error\ndata: "@ =~= head + seq!['\n'] + "data: "@);
    assert(block =~= head + seq!['\n'] + (data + seq!['\n'] + tail));
    assert(!data.contains('\n')) by {
        assert forall|k: int| 0 <= k < data.len() implies data[k] != '\n' by {
            if k >= 6 {
                assert(data[k] == payload[k - 6]);
            }
        }
    }
    assert(data.last() != '\r') by {
        if payload.len() > 0 {
            assert(data.last() == payload.last());
        }
    }
    lemma_lines_cons(head, data + seq!['\n'] + tail);
    lemma_lines_cons(data, tail);
    lemma_lines_cons(Seq::empty(), Seq::empty());
    let all = seq![head] + (seq![data] + (seq![Seq::<char>::empty()] + Seq::empty()));
    assert(lines(block) == all);
    assert(all =~= seq![head, data, Seq::<char>::empty()]);
    assert(all.drop_last() =~= seq![head, data]);
    assert(all.drop_last().drop_last() =~= seq![head]);
    assert(all.drop_last().drop_last().drop_last() =~= Seq::<Seq<char>>::empty());
    let name = "data"@.push(':');
    assert(!name.is_prefix_of(head)) by {
        assert(name[0] == 'd');
        assert(head[0] == 'e');
    }
    assert(!name.push(' ').is_prefix_of(head)) by {
        assert(name.push(' ')[0] == 'd');
        assert(head[0] == 'e');
    }
    assert(name.push(' ').is_prefix_of(data)) by {
        assert(name.push(' ') =~= data.take(6));
    }
    assert(data.skip(6) =~= payload);
    reveal_with_fuel(field_values, 4);
    assert(field_values(all, "data"@) =~= seq![payload]);
    assert(block_data(block) == payload);
    lemma_error_json_says(block_event(block), error_type, message);
}

impl SyntheticEvent {
    /// The block of the event, with the delimiter behind it. The block of an error event is
    /// read as that error, whatever its type and message hold.
    pub fn render(&self) -> (block: String)
        ensures
            block@ == rendered(self@),
            self is Error ==> event_of(block@) == synthetic_event(self@),
    {
        match self {
            SyntheticEvent::MessageStart => concat2(MESSAGE_START_BLOCK, "\n\n"),
            SyntheticEvent::ContentBlockStop(index) => {
                let numeral = decimal_string(*index);
                concat3(
                    "event: content_block_stop\ndata: {\"type\":\"content_block_stop\",\"index\":",
                    numeral.as_str(),
                    "}\n\n",
                )
            },
            SyntheticEvent::MessageDelta(reason) => match reason {
                StopReason::ToolUse => concat2(TOOL_USE_BLOCK, "\n\n"),
                StopReason::MaxTokens => concat2(MAX_TOKENS_BLOCK, "\n\n"),
            },
            SyntheticEvent::MessageStop => concat2(MESSAGE_STOP_BLOCK, "\n\n"),
            SyntheticEvent::Error { error_type, message } => {
                let payload = error_payload(error_type.as_str(), message.as_str());
                proof {
                    lemma_error_block_reads_back(error_type@, message@, payload@);
                }
                concat3("event: error\ndata: ", payload.as_str(), "\n\n")
            },
        }
    }

    /// What the event says.
    pub fn event(&self) -> (event: AnthropicEvent)
        ensures
            event@ == synthetic_event(self@),
    {
        match self {
            SyntheticEvent::MessageStart => named_event("message_start"),
            SyntheticEvent::ContentBlockStop(index) => {
                let mut event = named_event("content_block_stop");
                event.index = Some(*index);
                event
            },
            SyntheticEvent::MessageDelta(reason) => {
                let mut event = named_event("message_delta");
                event.stop_reason = Some(
                    match reason {
                        StopReason::ToolUse => "tool_use".to_owned(),
                        StopReason::MaxTokens => "max_tokens".to_owned(),
                    },
                );
                event
            },
            SyntheticEvent::MessageStop => named_event("message_stop"),
            SyntheticEvent::Error { error_type, message } => {
                let mut event = named_event("error");
                event.error_type = Some(error_type.clone());
                event.error_message = Some(message.clone());
                event
            },
        }
    }
}

/// An event of which only the type is known.
fn named_event(event_type: &str) -> (event: AnthropicEvent)
    ensures
        event@ == bare_event(event_type@),
{
    proof {
        reveal_strlit("");
        assert(""@ =~= Seq::<char>::empty());
    }
    AnthropicEvent {
        event_type: event_type.to_owned(),
        index: None,
        block_type: None,
        tool_input: "".to_owned(),
        delta_type: None,
        delta_text: None,
        partial_json: None,
        stop_reason: None,
        error_type: None,
        error_message: None,
    }
}

/// The events that end a turn on which the upstream will send nothing more.
pub fn anthropic_terminal_events(
    state: &AnthropicTerminalState,
    error_type: &str,
    message: &str,
    allow_text_repair: bool,
) -> (events: Vec<SyntheticEvent>)
    ensures
        views(events@) == terminal_events(state@, error_type@, message@, allow_text_repair),
{
    let mut events: Vec<SyntheticEvent> = Vec::new();
    if state.saw_message_stop || state.saw_error {
        assert(views(events@) =~= Seq::<Synthetic>::empty());
        return events;
    }
    if anthropic_can_complete_safely(state) {
        events.push(SyntheticEvent::MessageStop);
        assert(views(events@) =~= seq![Synthetic::MessageStop]);
        return events;
    }
    if allow_text_repair && anthropic_can_repair_truncated_turn(state) {
        let indices = open_indices(&state.open_content_blocks);
        let mut k: usize = 0;
        while k < indices.len()
            invariant
                k <= indices.len(),
                views(events@) == closing_events(indices@.take(k as int)),
            decreases indices.len() - k,
        {
            let ghost before = events@;
            events.push(SyntheticEvent::ContentBlockStop(indices[k]));
            assert(views(events@) =~= views(before).push(
                Synthetic::ContentBlockStop(indices@[k as int]),
            ));
            assert(closing_events(indices@.take(k + 1)) =~= closing_events(
                indices@.take(k as int),
            ).push(Synthetic::ContentBlockStop(indices@[k as int])));
            k += 1;
        }
        assert(indices@.take(indices@.len() as int) =~= indices@);
        let reason = if state.saw_tool_use_block {
            StopReason::ToolUse
        } else {
            StopReason::MaxTokens
        };
        let ghost closed = events@;
        events.push(SyntheticEvent::MessageDelta(reason));
        events.push(SyntheticEvent::MessageStop);
        assert(views(events@) =~= views(closed).push(Synthetic::MessageDelta(reason)).push(
            Synthetic::MessageStop,
        ));
        return events;
    }
    events.push(
        SyntheticEvent::Error { error_type: error_type.to_owned(), message: message.to_owned() },
    );
    assert(views(events@) =~= seq![Synthetic::Error(error_type@, message@)]);
    events
}

/// The blocks of several events.
pub fn render_all(events: &Vec<SyntheticEvent>) -> (blocks: Vec<String>)
    ensures
        blocks.deep_view() == rendered_all(views(events@)),
{
    let mut blocks: Vec<String> = Vec::new();
    let mut k: usize = 0;
    while k < events.len()
        invariant
            k <= events.len(),
            blocks.deep_view() == rendered_all(views(events@.take(k as int))),
        decreases events.len() - k,
    {
        let block = events[k].render();
        let ghost before = blocks.deep_view();
        blocks.push(block);
        assert(blocks.deep_view() =~= before.push(rendered(events@[k as int]@)));
        assert(rendered_all(views(events@.take(k + 1))) =~= rendered_all(
            views(events@.take(k as int)),
        ).push(rendered(events@[k as int]@)));
        k += 1;
    }
    assert(events@.take(events@.len() as int) =~= events@);
    blocks
}

/// The blocks that end a turn on which the upstream will send nothing more.
pub fn anthropic_terminal_chunks(
    state: &AnthropicTerminalState,
    error_type: &str,
    message: &str,
    allow_text_repair: bool,
) -> (blocks: Vec<String>)
    ensures
        blocks.deep_view() == rendered_all(
            terminal_events(state@, error_type@, message@, allow_text_repair),
        ),
{
    let events = anthropic_terminal_events(state, error_type, message, allow_text_repair);
    render_all(&events)
}

/// The state of a turn whose recovery has been asked for.
pub open spec fn recovering(s: TurnState) -> TurnState {
    TurnState { saw_message_start: true, silent_recovery_requested: true, ..s }
}

/// The events that a silent recovery starts with: an opened turn.
pub open spec fn recovery_events(s: TurnState) -> Seq<Synthetic> {
    if s.saw_message_start {
        Seq::empty()
    } else {
        seq![Synthetic::MessageStart]
    }
}

/// Asks for a silent recovery of the turn, and opens it where the upstream did not.
pub fn ensure_anthropic_silent_recovery(state: &mut AnthropicTerminalState) -> (blocks: Vec<String>)
    ensures
        final(state)@ == recovering(old(state)@),
        blocks.deep_view() == rendered_all(recovery_events(old(state)@)),
{
    let mut blocks: Vec<String> = Vec::new();
    if !state.saw_message_start {
        let start = SyntheticEvent::MessageStart;
        let event = start.event();
        state.observe_event(&event);
        blocks.push(start.render());
        assert(blocks.deep_view() =~= rendered_all(recovery_events(old(state)@)));
    } else {
        assert(blocks.deep_view() =~= rendered_all(recovery_events(old(state)@)));
    }
    state.silent_recovery_requested = true;
    blocks
}

/// A content block whose events are kept back until it is complete.
pub struct HeldAnthropicContentBlock {
    pub block_type: String,
    pub events: Vec<String>,
    pub bytes: usize,
}

#[verifier::ext_equal]
pub struct HeldView {
    pub block_type: Seq<char>,
    pub events: Seq<Seq<char>>,
    pub bytes: usize,
}

impl View for HeldAnthropicContentBlock {
    type V = HeldView;

    open spec fn view(&self) -> HeldView {
        HeldView {
            block_type: self.block_type@,
            events: self.events.deep_view(),
            bytes: self.bytes,
        }
    }
}

/// The state of a turn of which content blocks were dropped, or were not.
pub open spec fn after_discard(s: TurnState, discarded: bool) -> TurnState {
    TurnState { silent_recovery_requested: s.silent_recovery_requested || discarded, ..s }
}

/// Drops the content blocks that were kept back. Where there were any, the turn is to be
/// recovered silently.
pub fn discard_incomplete_anthropic_blocks(
    held: &mut BTreeMap<u64, HeldAnthropicContentBlock>,
    state: &mut AnthropicTerminalState,
) -> (discarded: bool)
    ensures
        discarded == (old(held)@.dom() != Set::<u64>::empty()),
        final(held)@ == Map::<u64, HeldAnthropicContentBlock>::empty(),
        final(state)@ == after_discard(old(state)@, discarded),
{
    let none = held.is_empty();
    assert(none == (held@.dom() == Set::<u64>::empty())) by {
        if none {
            assert(held@.dom() =~= Set::<u64>::empty());
        }
    }
    held.clear();
    if !none {
        state.silent_recovery_requested = true;
    }
    !none
}

pub proof fn lemma_event_types_differ()
    ensures
        "message_start"@ != "content_block_start"@,
        "message_start"@ != "content_block_delta"@,
        "content_block_start"@ != "content_block_delta"@,
        "content_block_stop"@ != "content_block_delta"@,
        "text_delta"@ != "input_json_delta"@,
        "message_start"@ != "content_block_stop"@,
        "message_start"@ != "message_delta"@,
        "message_start"@ != "message_stop"@,
        "message_start"@ != "error"@,
        "content_block_start"@ != "content_block_stop"@,
        "content_block_start"@ != "message_delta"@,
        "content_block_start"@ != "message_stop"@,
        "content_block_start"@ != "error"@,
        "content_block_stop"@ != "message_delta"@,
        "content_block_stop"@ != "message_stop"@,
        "content_block_stop"@ != "error"@,
        "content_block_delta"@ != "message_delta"@,
        "content_block_delta"@ != "message_stop"@,
        "content_block_delta"@ != "error"@,
        "message_delta"@ != "message_stop"@,
        "message_delta"@ != "error"@,
        "message_stop"@ != "error"@,
        "text"@ != "tool_use"@,
        "tool_use"@.len() > 0,
        "max_tokens"@.len() > 0,
{
    reveal_strlit("message_start");
    reveal_strlit("content_block_start");
    reveal_strlit("content_block_stop");
    reveal_strlit("content_block_delta");
    reveal_strlit("message_delta");
    reveal_strlit("message_stop");
    reveal_strlit("error");
    reveal_strlit("text");
    reveal_strlit("tool_use");
    reveal_strlit("max_tokens");
    reveal_strlit("text_delta");
    reveal_strlit("input_json_delta");
    assert("text_delta"@.len() == 10);
    assert("input_json_delta"@.len() == 16);
    assert("content_block_start"@[14] == 's');
    assert("content_block_delta"@[14] == 'd');
    assert("message_start"@.len() == 13);
    assert("content_block_start"@.len() == 19);
    assert("content_block_stop"@.len() == 18);
    assert("content_block_delta"@.len() == 19);
    assert("message_delta"@.len() == 13);
    assert("message_stop"@.len() == 12);
    assert("error"@.len() == 5);
    assert("text"@.len() == 4);
    assert("tool_use"@.len() == 8);
    assert("max_tokens"@.len() == 10);
    assert("message_start"@[8] == 's');
    assert("message_delta"@[8] == 'd');
}

proof fn lemma_turn_run_push(s: TurnState, events: Seq<EventView>, event: EventView)
    ensures
        turn_run(s, events.push(event)) == turn_step(turn_run(s, events), event),
{
    assert(events.push(event).drop_last() =~= events);
}

/// Closing text blocks takes them out of the open blocks and changes nothing else.
proof fn lemma_closing_run(s: TurnState, indices: Seq<u64>)
    requires
        can_repair(s),
        indices.to_set().subset_of(s.open.dom()),
        s.unsafe_open == Set::<u64>::empty(),
    ensures
        turn_run(s, synthetic_events(closing_events(indices))) == (TurnState {
            open: s.open.remove_keys(indices.to_set()),
            ..s
        }),
    decreases indices.len(),
{
    let events = synthetic_events(closing_events(indices));
    if indices.len() == 0 {
        assert(s.open.remove_keys(indices.to_set()) =~= s.open);
    } else {
        let before = indices.drop_last();
        let index = indices.last();
        assert(before.to_set().subset_of(s.open.dom())) by {
            assert forall|x: u64| before.to_set().contains(x) implies s.open.dom().contains(x) by {
                assert(before.contains(x));
                let k = choose|k: int| 0 <= k < before.len() && before[k] == x;
                assert(indices[k] == x);
                assert(indices.to_set().contains(x));
            }
        }
        lemma_closing_run(s, before);
        assert(events.drop_last() =~= synthetic_events(closing_events(before)));
        let mid = turn_run(s, events.drop_last());
        lemma_event_types_differ();
        assert(events.last() == synthetic_event(Synthetic::ContentBlockStop(index)));
        assert(mid.open == s.open.remove_keys(before.to_set()));
        assert(mid.unsafe_open.remove(index) =~= s.unsafe_open);
        assert forall|x: u64| #[trigger]
            mid.open.remove(index).dom().contains(x) == s.open.remove_keys(
                indices.to_set(),
            ).dom().contains(x) by {
            if indices.contains(x) && x != index {
                let k = choose|k: int| 0 <= k < indices.len() && indices[k] == x;
                assert(before[k] == x);
                assert(before.contains(x));
            }
            if before.contains(x) {
                let k = choose|k: int| 0 <= k < before.len() && before[k] == x;
                assert(indices[k] == x);
                assert(indices.contains(x));
            }
            assert(indices.contains(index));
        }
        assert(mid.open.remove(index) =~= s.open.remove_keys(indices.to_set()));
    }
}

/// However a turn stands when the upstream falls silent, the events that the proxy then writes
/// bring it to an end: a `message_stop` or an error.
pub proof fn law_terminal_events_end_the_turn(
    s: TurnState,
    error_type: Seq<char>,
    message: Seq<char>,
    allow_repair: bool,
)
    requires
        s.open.dom().finite(),
    ensures
        ({
            let end = turn_run(
                s,
                synthetic_events(terminal_events(s, error_type, message, allow_repair)),
            );
            end.saw_message_stop || end.saw_error
        }),
{
    let events = terminal_events(s, error_type, message, allow_repair);
    let said = synthetic_events(events);
    lemma_event_types_differ();
    if s.saw_message_stop || s.saw_error {
        assert(said.len() == 0);
    } else {
        lemma_turn_run_push(s, said.drop_last(), said.last());
        assert(said =~= said.drop_last().push(said.last()));
    }
}

/// What the repair of a turn leaves of it.
pub proof fn lemma_repair_run(s: TurnState, error_type: Seq<char>, message: Seq<char>)
    requires
        s.open.dom().finite(),
        can_repair(s),
        !s.saw_message_stop,
    ensures
        turn_run(s, synthetic_events(terminal_events(s, error_type, message, true))) == (TurnState {
            open: Map::empty(),
            saw_final_message_delta: true,
            saw_message_stop: true,
            ..s
        }),
{
    let events = terminal_events(s, error_type, message, true);
    let said = synthetic_events(events);
    lemma_event_types_differ();
    if can_complete(s) {
        lemma_turn_run_push(s, Seq::empty(), synthetic_event(Synthetic::MessageStop));
        assert(said =~= Seq::empty().push(synthetic_event(Synthetic::MessageStop)));
        assert(s.open =~= Map::<u64, Seq<char>>::empty());
    } else {
        let indices = ascending(s.open.dom());
        lemma_ascending(s.open.dom());
        lemma_closing_run(s, indices);
        let closing = synthetic_events(closing_events(indices));
        let delta = synthetic_event(Synthetic::MessageDelta(repair_reason(s)));
        let stop = synthetic_event(Synthetic::MessageStop);
        assert(said =~= closing.push(delta).push(stop));
        lemma_turn_run_push(s, closing, delta);
        lemma_turn_run_push(s, closing.push(delta), stop);
        assert(s.open.remove_keys(indices.to_set()) =~= Map::<u64, Seq<char>>::empty());
    }
}

/// A turn that lacks only its `message_stop` gets it.
pub proof fn lemma_completion_run(
    s: TurnState,
    error_type: Seq<char>,
    message: Seq<char>,
    allow_repair: bool,
)
    requires
        can_complete(s),
        !s.saw_message_stop,
    ensures
        terminal_events(s, error_type, message, allow_repair) == seq![Synthetic::MessageStop],
        turn_run(s, synthetic_events(terminal_events(s, error_type, message, allow_repair))) == (
        TurnState { saw_message_stop: true, ..s }),
{
    let said = synthetic_events(terminal_events(s, error_type, message, allow_repair));
    lemma_event_types_differ();
    lemma_turn_run_push(s, Seq::empty(), synthetic_event(Synthetic::MessageStop));
    assert(said =~= Seq::empty().push(synthetic_event(Synthetic::MessageStop)));
}

/// The repair of a turn closes every content block, gives a reason for the end and stops the
/// turn, so that what the client saw is a complete turn.
pub proof fn law_repair_completes_the_turn(s: TurnState, error_type: Seq<char>, message: Seq<char>)
    requires
        s.open.dom().finite(),
        can_repair(s),
        !s.saw_message_stop,
    ensures
        ({
            let end = turn_run(
                s,
                synthetic_events(terminal_events(s, error_type, message, true)),
            );
            end.saw_message_stop && can_complete(end)
        }),
{
    lemma_repair_run(s, error_type, message);
    assert(Map::<u64, Seq<char>>::empty().dom() =~= Set::<u64>::empty());
}

/// The proxy never ends a turn as complete that is not: it writes a `message_stop` only where
/// the turn lacked nothing else, or where a repair was allowed, no error had come, no tool
/// call was broken, and nothing but text was left open.
pub proof fn law_completion_is_never_forged(
    s: TurnState,
    error_type: Seq<char>,
    message: Seq<char>,
    allow_repair: bool,
)
    requires
        terminal_events(s, error_type, message, allow_repair).contains(Synthetic::MessageStop),
    ensures
        s.saw_message_start,
        !s.saw_error,
        can_complete(s) || (allow_repair && !s.saw_invalid_non_text_block && s.unsafe_open
            == Set::<u64>::empty()),
        forall|index: u64| #[trigger] s.open.contains_key(index) ==> s.open[index] == "text"@,
{
    let events = terminal_events(s, error_type, message, allow_repair);
    if !can_complete(s) && !(allow_repair && can_repair(s)) {
        assert(false);
    }
    assert(can_complete(s) ==> forall|index: u64| !(#[trigger] s.open.contains_key(index)));
}

/// A turn that has ended gets no further events.
pub proof fn law_an_ended_turn_stays_ended(
    s: TurnState,
    error_type: Seq<char>,
    message: Seq<char>,
    allow_repair: bool,
)
    requires
        s.saw_message_stop || s.saw_error,
    ensures
        terminal_events(s, error_type, message, allow_repair).len() == 0,
{
}

} // verus!
