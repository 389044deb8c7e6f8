//! The state of one Anthropic Messages turn as its server-sent events show it, and the events
//! that end a turn which the upstream left unfinished.

use crate::json::{
    json_member, json_member2, json_parse, json_string, json_text, json_unsigned, json_view, member,
    member2_string, member_string, member_unsigned, object_len, parse_text, optional_json,
    write_text, Json,
};
use crate::sse::{block_data, block_event, read_block_data, read_block_event};
use crate::text::{concat2, str_eq, trim, trimmed};
use serde_json::Value;
use std::collections::{BTreeMap, BTreeSet};
use vstd::prelude::*;
use vstd::std_specs::iter::IteratorSpec;
use vstd::string::*;

verus! {

/// What one event says, as far as a turn's state depends on it.
#[verifier::ext_equal]
pub struct EventView {
    pub event_type: Seq<char>,
    pub index: Option<u64>,
    pub block_type: Option<Seq<char>>,
    pub tool_input: Seq<char>,
    pub delta_type: Option<Seq<char>>,
    pub delta_text: Option<Seq<char>>,
    pub partial_json: Option<Seq<char>>,
    pub stop_reason: Option<Seq<char>>,
    pub error_type: Option<Seq<char>>,
    pub error_message: Option<Seq<char>>,
}

/// One event of an Anthropic stream.
pub struct AnthropicEvent {
    /// The `type` of the payload, or the block's event name, or nothing.
    pub event_type: String,
    /// The content block that the event belongs to.
    pub index: Option<u64>,
    /// The type of the content block that the event opens.
    pub block_type: Option<String>,
    /// The input that a tool block starts with; nothing for an empty object.
    pub tool_input: String,
    pub delta_type: Option<String>,
    pub delta_text: Option<String>,
    pub partial_json: Option<String>,
    pub stop_reason: Option<String>,
    pub error_type: Option<String>,
    pub error_message: Option<String>,
}

impl View for AnthropicEvent {
    type V = EventView;

    open spec fn view(&self) -> EventView {
        EventView {
            event_type: self.event_type@,
            index: self.index,
            block_type: self.block_type.deep_view(),
            tool_input: self.tool_input@,
            delta_type: self.delta_type.deep_view(),
            delta_text: self.delta_text.deep_view(),
            partial_json: self.partial_json.deep_view(),
            stop_reason: self.stop_reason.deep_view(),
            error_type: self.error_type.deep_view(),
            error_message: self.error_message.deep_view(),
        }
    }
}

/// An event of which only the type is known.
pub open spec fn bare_event(event_type: Seq<char>) -> EventView {
    EventView {
        event_type,
        index: None,
        block_type: None,
        tool_input: Seq::empty(),
        delta_type: None,
        delta_text: None,
        partial_json: None,
        stop_reason: None,
        error_type: None,
        error_message: None,
    }
}

/// The input that a tool block starts with: the text of the given value, or nothing where
/// there is none or it is an empty object.
pub open spec fn initial_tool_input(value: Option<Json>) -> Seq<char> {
    match value {
        None => Seq::empty(),
        Some(Json::Object(members)) if members.dom() == Set::<Seq<char>>::empty() => Seq::empty(),
        Some(value) => json_text(value),
    }
}

/// The event of a block with the name `named` and the payload `parsed`.
pub open spec fn event_of_parsed(named: Option<Seq<char>>, parsed: Option<Json>) -> EventView {
    let fallback = match named {
        Some(name) => trimmed(name),
        None => Seq::empty(),
    };
    match parsed {
        None => bare_event(fallback),
        Some(value) => EventView {
            event_type: match json_string(json_member(value, "type"@)) {
                Some(event_type) => event_type,
                None => fallback,
            },
            index: json_unsigned(json_member(value, "index"@)),
            block_type: json_string(json_member2(value, "content_block"@, "type"@)),
            tool_input: initial_tool_input(json_member2(value, "content_block"@, "input"@)),
            delta_type: json_string(json_member2(value, "delta"@, "type"@)),
            delta_text: json_string(json_member2(value, "delta"@, "text"@)),
            partial_json: json_string(json_member2(value, "delta"@, "partial_json"@)),
            stop_reason: json_string(json_member2(value, "delta"@, "stop_reason"@)),
            error_type: json_string(json_member2(value, "error"@, "type"@)),
            error_message: json_string(json_member2(value, "error"@, "message"@)),
        },
    }
}

/// The event of a block.
pub open spec fn event_of(block: Seq<char>) -> EventView {
    event_of_parsed(block_event(block), json_parse(block_data(block)))
}

/// What the events of a turn have shown so far.
#[verifier::ext_equal]
pub struct TurnState {
    pub saw_message_start: bool,
    pub saw_final_message_delta: bool,
    pub saw_message_stop: bool,
    pub saw_error: bool,
    pub error_status: Option<u16>,
    pub error_type: Option<Seq<char>>,
    pub error_message: Option<Seq<char>>,
    pub open: Map<u64, Seq<char>>,
    pub tool_input: Map<u64, Seq<char>>,
    pub saw_text_block: bool,
    pub saw_text_delta: bool,
    pub saw_tool_use_block: bool,
    pub unsafe_open: Set<u64>,
    pub saw_invalid_non_text_block: bool,
    pub silent_recovery_requested: bool,
}

/// The state before the first event.
pub open spec fn fresh_turn() -> TurnState {
    TurnState {
        saw_message_start: false,
        saw_final_message_delta: false,
        saw_message_stop: false,
        saw_error: false,
        error_status: None,
        error_type: None,
        error_message: None,
        open: Map::empty(),
        tool_input: Map::empty(),
        saw_text_block: false,
        saw_text_delta: false,
        saw_tool_use_block: false,
        unsafe_open: Set::empty(),
        saw_invalid_non_text_block: false,
        silent_recovery_requested: false,
    }
}

/// The type of the block that an event opens; a block without one is of the type `unknown`.
pub open spec fn opened_type(event: EventView) -> Seq<char> {
    match event.block_type {
        Some(block_type) => block_type,
        None => "unknown"@,
    }
}

/// Whether a content block of this type may be open when a turn is ended for the upstream
/// once it is closed: text, tool calls and thinking. Everything else is unsafe while open.
pub open spec fn known_block_type(block_type: Seq<char>) -> bool {
    ||| block_type == "text"@
    ||| block_type == "tool_use"@
    ||| block_type == "thinking"@
    ||| block_type == "redacted_thinking"@
}

/// A content block opens.
pub open spec fn open_block(s: TurnState, event: EventView, index: u64) -> TurnState {
    let block_type = opened_type(event);
    TurnState {
        saw_text_block: s.saw_text_block || block_type == "text"@,
        tool_input: if block_type == "tool_use"@ {
            s.tool_input.insert(index, event.tool_input)
        } else {
            s.tool_input
        },
        unsafe_open: if known_block_type(block_type) {
            s.unsafe_open
        } else {
            s.unsafe_open.insert(index)
        },
        open: s.open.insert(index, block_type),
        ..s
    }
}

/// Whether the block at `index` is an open tool call.
pub open spec fn tool_open(s: TurnState, index: u64) -> bool {
    s.open.contains_key(index) && s.open[index] == "tool_use"@
}

/// A content block closes. `input_valid` says whether a tool call's input is complete.
pub open spec fn close_block(s: TurnState, index: u64, input_valid: bool) -> TurnState {
    let tool = tool_open(s, index);
    TurnState {
        tool_input: if tool {
            s.tool_input.remove(index)
        } else {
            s.tool_input
        },
        saw_tool_use_block: s.saw_tool_use_block || (tool && input_valid),
        saw_invalid_non_text_block: s.saw_invalid_non_text_block || (tool && !input_valid),
        unsafe_open: s.unsafe_open.remove(index),
        open: s.open.remove(index),
        ..s
    }
}

/// The input that has come for the tool call at `index`.
pub open spec fn tool_input_at(s: TurnState, index: u64) -> Seq<char> {
    if s.tool_input.contains_key(index) {
        s.tool_input[index]
    } else {
        Seq::empty()
    }
}

/// A content block grows.
pub open spec fn extend_block(s: TurnState, event: EventView) -> TurnState {
    let tool_input = if event.delta_type == Some("input_json_delta"@) && event.index is Some
        && event.partial_json is Some {
        let index = event.index->0;
        s.tool_input.insert(index, tool_input_at(s, index) + event.partial_json->0)
    } else {
        s.tool_input
    };
    TurnState {
        tool_input,
        saw_text_delta: s.saw_text_delta || (event.delta_type == Some("text_delta"@)
            && event.delta_text is Some && event.delta_text->0.len() > 0),
        ..s
    }
}

/// The upstream reports an error.
pub open spec fn note_error(s: TurnState, event: EventView) -> TurnState {
    let error_type = match event.error_type {
        Some(error_type) => error_type,
        None => "stream_error"@,
    };
    TurnState {
        saw_error: true,
        error_type: Some(error_type),
        error_status: Some(
            if error_type == "stream_timeout"@ {
                504
            } else {
                502
            },
        ),
        error_message: Some(
            match event.error_message {
                Some(message) => message,
                None => "Upstream stream returned an error event"@,
            },
        ),
        ..s
    }
}

/// The state after an event. `input_valid` says whether the input of a tool call that the
/// event closes is complete.
pub open spec fn turn_apply(s: TurnState, event: EventView, input_valid: bool) -> TurnState {
    if event.event_type == "message_start"@ {
        TurnState { saw_message_start: true, ..s }
    } else if event.event_type == "content_block_start"@ {
        match event.index {
            Some(index) => open_block(s, event, index),
            None => s,
        }
    } else if event.event_type == "content_block_stop"@ {
        match event.index {
            Some(index) => close_block(s, index, input_valid),
            None => s,
        }
    } else if event.event_type == "content_block_delta"@ {
        extend_block(s, event)
    } else if event.event_type == "message_delta"@ {
        TurnState {
            saw_final_message_delta: event.stop_reason is Some && event.stop_reason->0.len() > 0,
            ..s
        }
    } else if event.event_type == "message_stop"@ {
        TurnState { saw_message_stop: true, ..s }
    } else if event.event_type == "error"@ {
        note_error(s, event)
    } else {
        s
    }
}

/// Whether the input of the tool call that an event closes is complete: nothing, or JSON.
pub open spec fn input_complete(s: TurnState, event: EventView) -> bool {
    match event.index {
        Some(index) => {
            let input = tool_input_at(s, index);
            input.len() == 0 || json_parse(input) is Some
        },
        None => true,
    }
}

/// The state after an event.
pub open spec fn turn_step(s: TurnState, event: EventView) -> TurnState {
    turn_apply(s, event, input_complete(s, event))
}

/// The state after several events.
pub open spec fn turn_run(s: TurnState, events: Seq<EventView>) -> TurnState
    decreases events.len(),
{
    if events.len() == 0 {
        s
    } else {
        turn_step(turn_run(s, events.drop_last()), events.last())
    }
}

/// Whether the turn lacks nothing but its `message_stop`.
pub open spec fn can_complete(s: TurnState) -> bool {
    s.saw_message_start && s.saw_final_message_delta && s.open.dom() == Set::<u64>::empty()
        && !s.saw_error
}

/// Whether a truncated turn can be ended as if the model had stopped.
pub open spec fn can_repair(s: TurnState) -> bool {
    &&& s.saw_message_start
    &&& ((s.saw_text_block && s.saw_text_delta) || s.saw_tool_use_block
        || s.silent_recovery_requested)
    &&& !s.saw_invalid_non_text_block
    &&& s.unsafe_open == Set::<u64>::empty()
    &&& !s.saw_error
    &&& forall|index: u64| #[trigger] s.open.contains_key(index) ==> s.open[index] == "text"@
}

/// Whether a sequence goes from the lowest to the highest without repetition.
pub open spec fn increasing(s: Seq<u64>) -> bool {
    forall|i: int, j: int| 0 <= i < j < s.len() ==> s[i] < s[j]
}

/// The members of a finite set from the lowest to the highest.
pub open spec fn ascending(set: Set<u64>) -> Seq<u64> {
    choose|s: Seq<u64>| increasing(s) && s.to_set() == set
}

proof fn lemma_increasing_drop_last(s: Seq<u64>)
    requires
        increasing(s),
        s.len() > 0,
    ensures
        increasing(s.drop_last()),
        s.drop_last().to_set() == s.to_set().remove(s.last()),
{
    assert forall|x: u64| s.drop_last().to_set().contains(x) == s.to_set().remove(
        s.last(),
    ).contains(x) by {
        if s.to_set().remove(s.last()).contains(x) {
            let i = choose|i: int| 0 <= i < s.len() && s[i] == x;
            assert(s.drop_last()[i] == x);
        }
        if s.drop_last().contains(x) {
            let i = choose|i: int| 0 <= i < s.drop_last().len() && s.drop_last()[i] == x;
            assert(s[i] == x);
        }
    }
    assert(s.drop_last().to_set() =~= s.to_set().remove(s.last()));
}

/// A set has at most one sequence of its members from the lowest to the highest.
proof fn lemma_increasing_unique(a: Seq<u64>, b: Seq<u64>)
    requires
        increasing(a),
        increasing(b),
        a.to_set() == b.to_set(),
    ensures
        a == b,
    decreases a.len(),
{
    if a.len() == 0 {
        if b.len() > 0 {
            assert(b.to_set().contains(b[0]));
            assert(a.contains(b[0]));
        }
        assert(a =~= b);
    } else {
        assert(a.to_set().contains(a.last()));
        assert(b.contains(a.last()));
        assert(b.to_set().contains(b.last()));
        assert(a.contains(b.last()));
        assert(a.last() == b.last());
        lemma_increasing_drop_last(a);
        lemma_increasing_drop_last(b);
        lemma_increasing_unique(a.drop_last(), b.drop_last());
        assert(a =~= a.drop_last().push(a.last()));
        assert(b =~= b.drop_last().push(b.last()));
    }
}

/// The only sequence that lists a set from the lowest to the highest is `ascending`.
pub proof fn lemma_ascending_is(set: Set<u64>, s: Seq<u64>)
    requires
        increasing(s),
        s.to_set() == set,
    ensures
        ascending(set) == s,
{
    let found = ascending(set);
    assert(increasing(found) && found.to_set() == set);
    lemma_increasing_unique(found, s);
}

/// An increasing sequence with one more member.
spec fn inserted(s: Seq<u64>, x: u64) -> Seq<u64>
    decreases s.len(),
{
    if s.len() == 0 || s.last() < x {
        s.push(x)
    } else {
        inserted(s.drop_last(), x).push(s.last())
    }
}

proof fn lemma_inserted(s: Seq<u64>, x: u64)
    requires
        increasing(s),
        !s.contains(x),
    ensures
        increasing(inserted(s, x)),
        inserted(s, x).to_set() == s.to_set().insert(x),
        forall|i: int| 0 <= i < inserted(s, x).len() ==> inserted(s, x)[i] == x || s.contains(
            #[trigger] inserted(s, x)[i],
        ),
    decreases s.len(),
{
    let t = inserted(s, x);
    if s.len() == 0 || s.last() < x {
        assert forall|y: u64| t.to_set().contains(y) == s.to_set().insert(x).contains(y) by {
            if s.contains(y) {
                let k = choose|k: int| 0 <= k < s.len() && s[k] == y;
                assert(t[k] == y);
            }
            assert(t[s.len() as int] == x);
        }
    } else {
        let front = s.drop_last();
        assert(s[s.len() - 1] != x);
        assert forall|y: u64| front.contains(y) implies s.contains(y) by {
            let k = choose|k: int| 0 <= k < front.len() && front[k] == y;
            assert(s[k] == y);
        }
        lemma_inserted(front, x);
        lemma_increasing_drop_last(s);
        let rest = inserted(front, x);
        assert forall|i: int| 0 <= i < rest.len() implies rest[i] < s.last() by {
            if rest[i] != x {
                assert(front.contains(rest[i]));
            }
        }
        assert forall|y: u64| t.to_set().contains(y) == s.to_set().insert(x).contains(y) by {
            if rest.contains(y) {
                let k = choose|k: int| 0 <= k < rest.len() && rest[k] == y;
                assert(t[k] == y);
            }
            assert(t[rest.len() as int] == s.last());
            assert(s.contains(s.last()));
            if t.contains(y) && y != s.last() {
                let k = choose|k: int| 0 <= k < t.len() && t[k] == y;
                assert(rest[k] == y);
                assert(rest.to_set().contains(y));
            }
            if s.to_set().insert(x).contains(y) && y != s.last() {
                assert(front.to_set().insert(x).contains(y));
                assert(rest.to_set().contains(y));
            }
        }
        assert forall|i: int| 0 <= i < t.len() implies t[i] == x || s.contains(#[trigger] t[i]) by {
            if i < rest.len() {
                assert(t[i] == rest[i]);
            }
        }
    }
    assert(t.to_set() =~= s.to_set().insert(x));
}

/// A finite set is listed by `ascending`.
pub proof fn lemma_ascending(set: Set<u64>)
    requires
        set.finite(),
    ensures
        increasing(ascending(set)),
        ascending(set).to_set() == set,
    decreases set.len(),
{
    if set.is_empty() {
        let none = Seq::<u64>::empty();
        assert(none.to_set() =~= set);
        lemma_ascending_is(set, none);
    } else {
        let x = set.choose();
        let rest = ascending(set.remove(x));
        lemma_ascending(set.remove(x));
        assert(!rest.to_set().contains(x));
        lemma_inserted(rest, x);
        assert(rest.to_set().insert(x) =~= set);
        lemma_ascending_is(set, inserted(rest, x));
    }
}

/// The contents of a map of strings.
pub open spec fn texts(map: Map<u64, String>) -> Map<u64, Seq<char>> {
    map.map_values(|text: String| text@)
}

/// The state of one turn.
pub struct AnthropicTerminalState {
    pub saw_message_start: bool,
    pub saw_final_message_delta: bool,
    pub saw_message_stop: bool,
    pub saw_error: bool,
    pub error_status: Option<u16>,
    pub error_type: Option<String>,
    pub error_message: Option<String>,
    pub open_content_blocks: BTreeMap<u64, String>,
    pub tool_input_json: BTreeMap<u64, String>,
    pub saw_text_block: bool,
    pub saw_text_delta: bool,
    pub saw_tool_use_block: bool,
    pub open_unsafe_content_blocks: BTreeSet<u64>,
    pub saw_invalid_non_text_block: bool,
    pub silent_recovery_requested: bool,
}

impl View for AnthropicTerminalState {
    type V = TurnState;

    open spec fn view(&self) -> TurnState {
        TurnState {
            saw_message_start: self.saw_message_start,
            saw_final_message_delta: self.saw_final_message_delta,
            saw_message_stop: self.saw_message_stop,
            saw_error: self.saw_error,
            error_status: self.error_status,
            error_type: self.error_type.deep_view(),
            error_message: self.error_message.deep_view(),
            open: texts(self.open_content_blocks@),
            tool_input: texts(self.tool_input_json@),
            saw_text_block: self.saw_text_block,
            saw_text_delta: self.saw_text_delta,
            saw_tool_use_block: self.saw_tool_use_block,
            unsafe_open: self.open_unsafe_content_blocks@,
            saw_invalid_non_text_block: self.saw_invalid_non_text_block,
            silent_recovery_requested: self.silent_recovery_requested,
        }
    }
}

proof fn lemma_texts_insert(map: Map<u64, String>, index: u64, text: String)
    ensures
        texts(map.insert(index, text)) == texts(map).insert(index, text@),
{
    assert(texts(map.insert(index, text)) =~= texts(map).insert(index, text@));
}

proof fn lemma_texts_remove(map: Map<u64, String>, index: u64)
    ensures
        texts(map.remove(index)) == texts(map).remove(index),
{
    assert(texts(map.remove(index)) =~= texts(map).remove(index));
}

/// Reads the event of a block from its name and its parsed payload.
pub fn read_event(named: Option<String>, parsed: &Option<Value>) -> (event: AnthropicEvent)
    ensures
        event@ == event_of_parsed(named.deep_view(), optional_json(*parsed)),
{
    let event_type = match member_string(parsed, "type") {
        Some(event_type) => event_type,
        None => match &named {
            Some(name) => trim(name.as_str()).to_owned(),
            None => {
                proof {
                    reveal_strlit("");
                    assert(""@ =~= Seq::<char>::empty());
                }
                "".to_owned()
            },
        },
    };
    AnthropicEvent {
        event_type,
        index: member_unsigned(parsed, "index"),
        block_type: member2_string(parsed, "content_block", "type"),
        tool_input: read_tool_input(parsed),
        delta_type: member2_string(parsed, "delta", "type"),
        delta_text: member2_string(parsed, "delta", "text"),
        partial_json: member2_string(parsed, "delta", "partial_json"),
        stop_reason: member2_string(parsed, "delta", "stop_reason"),
        error_type: member2_string(parsed, "error", "type"),
        error_message: member2_string(parsed, "error", "message"),
    }
}

/// Reads the input that a tool block starts with.
fn read_tool_input(parsed: &Option<Value>) -> (input: String)
    ensures
        input@ == (match optional_json(*parsed) {
            Some(value) => initial_tool_input(json_member2(value, "content_block"@, "input"@)),
            None => Seq::empty(),
        }),
{
    proof {
        reveal_strlit("");
        assert(""@ =~= Seq::<char>::empty());
    }
    match parsed {
        Some(value) => match member(value, "content_block") {
            Some(block) => match member(block, "input") {
                Some(input) => match object_len(input) {
                    Some(n) => {
                        proof {
                            let members = json_view(*input)->Object_0;
                            if n == 0 {
                                members.dom().lemma_len0_is_empty();
                                assert(members.dom() =~= Set::<Seq<char>>::empty());
                            }
                        }
                        if n == 0 {
                            "".to_owned()
                        } else {
                            write_text(input)
                        }
                    },
                    None => write_text(input),
                },
                None => "".to_owned(),
            },
            None => "".to_owned(),
        },
        None => "".to_owned(),
    }
}

/// Reads the event of a block.
pub fn describe_anthropic_sse_block(block: &str) -> (event: AnthropicEvent)
    ensures
        event@ == event_of(block@),
{
    let data = read_block_data(block);
    let parsed = parse_text(data.as_str());
    read_event(read_block_event(block), &parsed)
}

impl AnthropicTerminalState {
    /// The state before the first event.
    pub fn new() -> (s: AnthropicTerminalState)
        ensures
            s@ == fresh_turn(),
    {
        let s = AnthropicTerminalState {
            saw_message_start: false,
            saw_final_message_delta: false,
            saw_message_stop: false,
            saw_error: false,
            error_status: None,
            error_type: None,
            error_message: None,
            open_content_blocks: BTreeMap::new(),
            tool_input_json: BTreeMap::new(),
            saw_text_block: false,
            saw_text_delta: false,
            saw_tool_use_block: false,
            open_unsafe_content_blocks: BTreeSet::new(),
            saw_invalid_non_text_block: false,
            silent_recovery_requested: false,
        };
        assert(s@.open =~= Map::<u64, Seq<char>>::empty());
        assert(s@.tool_input =~= Map::<u64, Seq<char>>::empty());
        s
    }

    /// Whether the block at `index` is an open tool call.
    fn is_tool_open(&self, index: u64) -> (res: bool)
        ensures
            res == tool_open(self@, index),
    {
        match self.open_content_blocks.get(&index) {
            Some(block_type) => str_eq(block_type.as_str(), "tool_use"),
            None => false,
        }
    }

    /// The content block that an event opens becomes part of the turn.
    fn apply_start(&mut self, event: &AnthropicEvent, index: u64)
        ensures
            final(self)@ == open_block(old(self)@, event@, index),
    {
        let block_type = match &event.block_type {
            Some(block_type) => block_type.clone(),
            None => "unknown".to_owned(),
        };
        if str_eq(block_type.as_str(), "text") {
            self.saw_text_block = true;
        }
        if str_eq(block_type.as_str(), "tool_use") {
            let input = event.tool_input.clone();
            proof {
                lemma_texts_insert(self.tool_input_json@, index, input);
            }
            self.tool_input_json.insert(index, input);
        }
        let known = str_eq(block_type.as_str(), "text") || str_eq(block_type.as_str(), "tool_use")
            || str_eq(block_type.as_str(), "thinking") || str_eq(
            block_type.as_str(),
            "redacted_thinking",
        );
        if !known {
            self.open_unsafe_content_blocks.insert(index);
        }
        proof {
            lemma_texts_insert(self.open_content_blocks@, index, block_type);
        }
        self.open_content_blocks.insert(index, block_type);
    }

    /// The content block at `index` closes.
    fn apply_stop(&mut self, index: u64, input_valid: bool)
        ensures
            final(self)@ == close_block(old(self)@, index, input_valid),
    {
        if self.is_tool_open(index) {
            proof {
                lemma_texts_remove(self.tool_input_json@, index);
            }
            self.tool_input_json.remove(&index);
            if input_valid {
                self.saw_tool_use_block = true;
            } else {
                self.saw_invalid_non_text_block = true;
            }
        }
        self.open_unsafe_content_blocks.remove(&index);
        proof {
            lemma_texts_remove(self.open_content_blocks@, index);
        }
        self.open_content_blocks.remove(&index);
    }

    /// The input that has come for the tool call at `index`.
    fn input_at(&self, index: u64) -> (input: String)
        ensures
            input@ == tool_input_at(self@, index),
    {
        match self.tool_input_json.get(&index) {
            Some(input) => input.clone(),
            None => {
                proof {
                    reveal_strlit("");
                    assert(""@ =~= Seq::<char>::empty());
                }
                "".to_owned()
            },
        }
    }

    /// A content block grows.
    fn apply_delta(&mut self, event: &AnthropicEvent)
        ensures
            final(self)@ == extend_block(old(self)@, event@),
    {
        let delta_type = match &event.delta_type {
            Some(delta_type) => delta_type.as_str(),
            None => {
                return ;
            },
        };
        if str_eq(delta_type, "input_json_delta") {
            if let (Some(index), Some(partial)) = (event.index, &event.partial_json) {
                let before = self.input_at(index);
                let input = concat2(before.as_str(), partial.as_str());
                proof {
                    lemma_texts_insert(self.tool_input_json@, index, input);
                }
                self.tool_input_json.insert(index, input);
            }
        }
        if str_eq(delta_type, "text_delta") {
            if let Some(text) = &event.delta_text {
                if !text.as_str().is_empty() {
                    self.saw_text_delta = true;
                }
            }
        }
    }

    /// The upstream reports an error.
    pub fn note_error_event(&mut self, event: &AnthropicEvent)
        ensures
            final(self)@ == note_error(old(self)@, event@),
    {
        let error_type = match &event.error_type {
            Some(error_type) => error_type.clone(),
            None => "stream_error".to_owned(),
        };
        let message = match &event.error_message {
            Some(message) => message.clone(),
            None => "Upstream stream returned an error event".to_owned(),
        };
        self.saw_error = true;
        self.error_status = Some(
            if str_eq(error_type.as_str(), "stream_timeout") {
                504
            } else {
                502
            },
        );
        self.error_type = Some(error_type);
        self.error_message = Some(message);
    }

    /// An event becomes part of the turn. `input_valid` says whether the input of a tool call
    /// that the event closes is complete.
    pub fn apply_event(&mut self, event: &AnthropicEvent, input_valid: bool)
        ensures
            final(self)@ == turn_apply(old(self)@, event@, input_valid),
    {
        let event_type = event.event_type.as_str();
        if str_eq(event_type, "message_start") {
            self.saw_message_start = true;
        } else if str_eq(event_type, "content_block_start") {
            if let Some(index) = event.index {
                self.apply_start(event, index);
            }
        } else if str_eq(event_type, "content_block_stop") {
            if let Some(index) = event.index {
                self.apply_stop(index, input_valid);
            }
        } else if str_eq(event_type, "content_block_delta") {
            self.apply_delta(event);
        } else if str_eq(event_type, "message_delta") {
            self.saw_final_message_delta = match &event.stop_reason {
                Some(reason) => !reason.as_str().is_empty(),
                None => false,
            };
        } else if str_eq(event_type, "message_stop") {
            self.saw_message_stop = true;
        } else if str_eq(event_type, "error") {
            self.note_error_event(event);
        }
    }

    /// An event becomes part of the turn.
    pub fn observe_event(&mut self, event: &AnthropicEvent)
        ensures
            final(self)@ == turn_step(old(self)@, event@),
    {
        let input_valid = match event.index {
            Some(index) => {
                let input = self.input_at(index);
                input.as_str().is_empty() || parse_text(input.as_str()).is_some()
            },
            None => true,
        };
        self.apply_event(event, input_valid);
    }
}

/// The event of a block becomes part of the turn.
pub fn observe_anthropic_sse_block(block: &str, state: &mut AnthropicTerminalState)
    ensures
        final(state)@ == turn_step(old(state)@, event_of(block@)),
{
    let event = describe_anthropic_sse_block(block);
    state.observe_event(&event);
}

/// Whether the turn lacks nothing but its `message_stop`.
pub fn anthropic_can_complete_safely(state: &AnthropicTerminalState) -> (res: bool)
    ensures
        res == can_complete(state@),
{
    let none_open = state.open_content_blocks.is_empty();
    assert(none_open == (state@.open.dom() == Set::<u64>::empty())) by {
        assert(state@.open.dom() =~= state.open_content_blocks@.dom());
        if none_open {
            assert(state@.open.dom() =~= Set::<u64>::empty());
        }
    }
    state.saw_message_start && state.saw_final_message_delta && none_open && !state.saw_error
}

/// Puts a number into its place in an increasing sequence, unless it is there already.
fn insert_sorted(sorted: &mut Vec<u64>, x: u64)
    requires
        increasing(old(sorted)@),
    ensures
        increasing(final(sorted)@),
        final(sorted)@.to_set() == old(sorted)@.to_set().insert(x),
{
    let ghost before = sorted@;
    let mut i: usize = 0;
    while i < sorted.len() && sorted[i] < x
        invariant
            i <= sorted.len(),
            sorted@ == before,
            forall|k: int| 0 <= k < i ==> before[k] < x,
        decreases sorted.len() - i,
    {
        i += 1;
    }
    if i < sorted.len() && sorted[i] == x {
        assert(before.contains(x));
        assert(before.to_set() =~= before.to_set().insert(x));
    } else {
        sorted.insert(i, x);
        let ghost after = sorted@;
        assert forall|y: u64| after.to_set().contains(y) == before.to_set().insert(x).contains(
            y,
        ) by {
            if before.contains(y) {
                let k = choose|k: int| 0 <= k < before.len() && before[k] == y;
                assert(after[if k < i {
                    k
                } else {
                    k + 1
                }] == y);
            }
            assert(after[i as int] == x);
        }
        assert(after.to_set() =~= before.to_set().insert(x));
    }
}

/// The indices of the open content blocks, from the lowest to the highest.
pub fn open_indices(open: &BTreeMap<u64, String>) -> (indices: Vec<u64>)
    ensures
        indices@ == ascending(texts(open@).dom()),
        indices@.to_set() == texts(open@).dom(),
{
    let mut indices: Vec<u64> = Vec::new();
    let keys = open.keys();
    let ghost all = IteratorSpec::remaining(&keys).unref();
    assert(indices@.to_set() =~= all.take(0).to_set());
    for index in it: keys
        invariant
            it.seq().unref() == all,
            increasing(indices@),
            indices@.to_set() == all.take(it.index()).to_set(),
    {
        proof {
            let n = it.index();
            assert(all.take(n + 1) =~= all.take(n).push(*index));
            assert forall|y: u64| all.take(n + 1).to_set().contains(y) == all.take(
                n,
            ).to_set().insert(*index).contains(y) by {
                if all.take(n).contains(y) {
                    let k = choose|k: int| 0 <= k < n && all.take(n)[k] == y;
                    assert(all.take(n + 1)[k] == y);
                }
                assert(all.take(n + 1)[n] == *index);
            }
            assert(all.take(n + 1).to_set() =~= all.take(n).to_set().insert(*index));
        }
        insert_sorted(&mut indices, *index);
    }
    proof {
        assert(all.take(all.len() as int) =~= all);
        assert(texts(open@).dom() =~= open@.dom());
        lemma_ascending_is(texts(open@).dom(), indices@);
    }
    indices
}

/// Whether every open content block is a text block.
fn only_text_open(open: &BTreeMap<u64, String>) -> (res: bool)
    ensures
        res == (forall|index: u64| #[trigger]
            texts(open@).contains_key(index) ==> texts(open@)[index] == "text"@),
{
    let indices = open_indices(open);
    let mut k: usize = 0;
    while k < indices.len()
        invariant
            k <= indices.len(),
            indices@.to_set() == texts(open@).dom(),
            forall|i: int| 0 <= i < k ==> texts(open@)[#[trigger] indices@[i]] == "text"@,
        decreases indices.len() - k,
    {
        assert(indices@.to_set().contains(indices@[k as int]));
        match open.get(&indices[k]) {
            Some(block_type) => {
                if !str_eq(block_type.as_str(), "text") {
                    return false;
                }
            },
            None => {},
        }
        k += 1;
    }
    assert forall|index: u64| #[trigger] texts(open@).contains_key(index) implies texts(
        open@,
    )[index] == "text"@ by {
        assert(indices@.to_set().contains(index));
        assert(indices@.contains(index));
    }
    true
}

/// Whether a truncated turn can be ended as if the model had stopped.
pub fn anthropic_can_repair_truncated_turn(state: &AnthropicTerminalState) -> (res: bool)
    ensures
        res == can_repair(state@),
{
    let no_unsafe = state.open_unsafe_content_blocks.is_empty();
    assert(no_unsafe == (state@.unsafe_open == Set::<u64>::empty())) by {
        if no_unsafe {
            assert(state@.unsafe_open =~= Set::<u64>::empty());
        }
    }
    let only_text = only_text_open(&state.open_content_blocks);
    let shown = (state.saw_text_block && state.saw_text_delta) || state.saw_tool_use_block
        || state.silent_recovery_requested;
    assert(state@.open == texts(state.open_content_blocks@));
    assert(only_text == (forall|index: u64| #[trigger]
        state@.open.contains_key(index) ==> state@.open[index] == "text"@));
    let repairable = state.saw_message_start && shown && !state.saw_invalid_non_text_block
        && no_unsafe && !state.saw_error && only_text;
    assert(can_repair(state@) == repairable);
    repairable
}

/// What was seen of a turn stays seen, whatever events follow; only the last `message_delta`
/// settles whether the turn gave a reason for its end.
pub proof fn law_what_was_seen_stays_seen(s: TurnState, events: Seq<EventView>)
    ensures
        ({
            let t = turn_run(s, events);
            &&& s.saw_message_start ==> t.saw_message_start
            &&& s.saw_message_stop ==> t.saw_message_stop
            &&& s.saw_error ==> t.saw_error
            &&& s.saw_text_block ==> t.saw_text_block
            &&& s.saw_text_delta ==> t.saw_text_delta
            &&& s.saw_tool_use_block ==> t.saw_tool_use_block
            &&& s.saw_invalid_non_text_block ==> t.saw_invalid_non_text_block
            &&& s.silent_recovery_requested == t.silent_recovery_requested
        }),
    decreases events.len(),
{
    if events.len() > 0 {
        law_what_was_seen_stays_seen(s, events.drop_last());
    }
}

/// A content block counts as unsafe only while it is open.
pub proof fn law_unsafe_blocks_are_open(events: Seq<EventView>)
    ensures
        turn_run(fresh_turn(), events).unsafe_open.subset_of(
            turn_run(fresh_turn(), events).open.dom(),
        ),
    decreases events.len(),
{
    if events.len() > 0 {
        law_unsafe_blocks_are_open(events.drop_last());
    }
}

} // verus!
