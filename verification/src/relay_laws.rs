//! What holds of every relayed stream for the desktop client.

use crate::relay::{
    broken_tool, byte_len, cut_off_event, desktop, drop_unfinished, events_of, hold_first,
    hold_next, opens_held, relay_block, relay_plain, saturating_sum, RelayView,
    MAX_HELD_ANTHROPIC_BLOCK_BYTES,
};
use crate::terminal::{
    lemma_completion_run, lemma_event_types_differ, lemma_repair_run, recovering, synthetic_events,
    terminal_events, HeldView,
};
use crate::text::trimmed;
use crate::turn::{
    can_complete, can_repair, event_of, fresh_turn, tool_input_at, tool_open, turn_run, turn_step,
    EventView, TurnState,
};
use vstd::prelude::*;

verus! {

/// Whether the turn, as the client has seen it, can be brought to a good end once it is
/// recovered: no error, no broken tool call, and nothing open but text.
pub open spec fn mendable(turn: TurnState) -> bool {
    &&& turn.open.dom().finite()
    &&& !turn.saw_error
    &&& !turn.saw_invalid_non_text_block
    &&& turn.unsafe_open == Set::<u64>::empty()
    &&& forall|index: u64| #[trigger] turn.open.contains_key(index) ==> turn.open[index] == "text"@
}

/// Whether an event may stand behind the first one of a content block that is kept back.
pub open spec fn held_event(event: EventView, index: u64) -> bool {
    &&& event.index == Some(index)
    &&& event.event_type != "content_block_stop"@
    &&& event.event_type == "content_block_start"@ ==> event.block_type == Some("text"@)
}

/// Whether the events of a content block that is kept back are those of one block.
pub open spec fn one_block(events: Seq<EventView>, index: u64, block_type: Seq<char>) -> bool {
    &&& events.len() > 0
    &&& events[0].event_type == "content_block_start"@
    &&& events[0].index == Some(index)
    &&& events[0].block_type == Some(block_type)
    &&& block_type != "text"@
    &&& forall|k: int| 1 <= k < events.len() ==> held_event(#[trigger] events[k], index)
}

/// Whether no event reports an error.
pub open spec fn no_error(events: Seq<EventView>) -> bool {
    forall|k: int| 0 <= k < events.len() ==> (#[trigger] events[k]).event_type != "error"@
}

/// Whether a stream for the desktop client can be brought to a good end.
pub open spec fn healthy(r: RelayView) -> bool {
    &&& desktop(r.policy)
    &&& mendable(r.turn)
    &&& forall|index: u64| #[trigger]
        r.held.contains_key(index) ==> one_block(
            events_of(r.held[index].events),
            index,
            r.held[index].block_type,
        )
}

/// Whether a turn in the middle of which an error comes can be ended then and there.
pub open spec fn endable(turn: TurnState) -> bool {
    turn.saw_message_stop || !turn.saw_text_delta || can_complete(turn) || can_repair(turn)
}

/// Whether a block ends a content block that was kept back, so that it is passed on.
pub open spec fn releases(r: RelayView, text: Seq<char>, index: u64) -> bool {
    &&& event_of(text).event_type == "content_block_stop"@
    &&& saturating_sum(r.held_bytes, byte_len(text)) <= MAX_HELD_ANTHROPIC_BLOCK_BYTES
    &&& !broken_tool(
        HeldView {
            events: r.held[index].events.push(text),
            bytes: saturating_sum(r.held[index].bytes, byte_len(text)),
            ..r.held[index]
        },
    )
}

/// Whether a block is in order: a content block that opens says its type, one that is passed on
/// after it was kept back holds no error, and an error does not follow text of which no turn
/// can be made.
pub open spec fn in_order(r: RelayView, text: Seq<char>) -> bool {
    let event = event_of(text);
    &&& event.event_type == "content_block_start"@ && event.index is Some
        ==> event.block_type is Some
    &&& match event.index {
        Some(index) => r.ignored.contains(index) || (if r.held.contains_key(index) {
            releases(r, text, index) ==> no_error(events_of(r.held[index].events))
        } else {
            event.event_type == "error"@ ==> endable(drop_unfinished(r, event).turn)
        }),
        None => event.event_type == "error"@ ==> endable(drop_unfinished(r, event).turn),
    }
}

/// A single event outside any content block that is kept back leaves a mendable turn mendable.
proof fn lemma_step_mendable(s: TurnState, event: EventView)
    requires
        mendable(s),
        event.event_type != "error"@,
        event.event_type == "content_block_start"@ && event.index is Some ==> event.block_type
            == Some("text"@),
    ensures
        mendable(turn_step(s, event)),
{
    lemma_event_types_differ();
    let t = turn_step(s, event);
    if event.event_type == "content_block_start"@ && event.index is Some {
        assert(t.open == s.open.insert(event.index->0, "text"@));
    } else if event.event_type == "content_block_stop"@ && event.index is Some {
        let index = event.index->0;
        assert(!tool_open(s, index));
        assert(t.unsafe_open =~= Set::<u64>::empty());
    }
}

/// The events of one content block but the last, told to a turn and to a fresh one, leave the
/// two in agreement on that block, and the turn changed in nothing but that block.
proof fn lemma_one_block_run(
    s: TurnState,
    events: Seq<EventView>,
    index: u64,
    block_type: Seq<char>,
    n: int,
)
    requires
        mendable(s),
        one_block(events, index, block_type),
        no_error(events),
        1 <= n <= events.len(),
    ensures
        ({
            let t = turn_run(s, events.take(n));
            let f = turn_run(fresh_turn(), events.take(n));
            &&& t.open.contains_key(index) && f.open.contains_key(index)
            &&& t.open[index] == f.open[index]
            &&& t.open[index] == block_type || t.open[index] == "text"@
            &&& t.open.remove(index) == s.open.remove(index)
            &&& t.open.dom().finite()
            &&& t.unsafe_open.remove(index) == Set::<u64>::empty()
            &&& !t.saw_error && !t.saw_invalid_non_text_block
            &&& !f.saw_invalid_non_text_block
            &&& block_type == "tool_use"@ ==> tool_input_at(t, index) == tool_input_at(f, index)
        }),
    decreases n,
{
    lemma_event_types_differ();
    let before = events.take(n).drop_last();
    let event = events.take(n).last();
    assert(event == events[n - 1]);
    assert(before =~= events.take(n - 1));
    let t0 = turn_run(s, before);
    let f0 = turn_run(fresh_turn(), before);
    let t = turn_run(s, events.take(n));
    let f = turn_run(fresh_turn(), events.take(n));
    assert(t == turn_step(t0, event));
    assert(f == turn_step(f0, event));
    if n == 1 {
        assert(before.len() == 0);
        assert(t.open == s.open.insert(index, block_type));
        assert(t.open.remove(index) =~= s.open.remove(index));
        assert(t.unsafe_open.remove(index) =~= Set::<u64>::empty());
    } else {
        lemma_one_block_run(s, events, index, block_type, n - 1);
        assert(held_event(events[n - 1], index));
        if event.event_type == "content_block_start"@ {
            assert(t.open == t0.open.insert(index, "text"@));
            assert(t.open.remove(index) =~= t0.open.remove(index));
            assert(t.unsafe_open == t0.unsafe_open);
        }
    }
}

/// A complete content block that was kept back leaves a mendable turn mendable.
proof fn lemma_release_mendable(s: TurnState, events: Seq<EventView>, index: u64, block_type: Seq<char>)
    requires
        mendable(s),
        events.len() >= 2,
        one_block(events.drop_last(), index, block_type),
        no_error(events.drop_last()),
        events.last().event_type == "content_block_stop"@,
        events.last().index == Some(index),
        block_type == "tool_use"@ ==> !turn_run(fresh_turn(), events).saw_invalid_non_text_block,
    ensures
        mendable(turn_run(s, events)),
{
    lemma_event_types_differ();
    let front = events.drop_last();
    lemma_one_block_run(s, front, index, block_type, front.len() as int);
    assert(front.take(front.len() as int) =~= front);
    let t0 = turn_run(s, front);
    let f0 = turn_run(fresh_turn(), front);
    let t = turn_run(s, events);
    let f = turn_run(fresh_turn(), events);
    let stop = events.last();
    assert(t == turn_step(t0, stop));
    assert(f == turn_step(f0, stop));
    assert(tool_open(t0, index) == tool_open(f0, index));
    assert(!t.saw_invalid_non_text_block);
    assert(t.open == t0.open.remove(index));
    assert forall|i: u64| #[trigger] t.open.contains_key(i) implies t.open[i] == "text"@ by {
        assert(s.open.remove(index).contains_key(i));
        assert(s.open.contains_key(i));
    }
}

proof fn lemma_hold_first_healthy(r: RelayView, text: Seq<char>)
    requires
        healthy(r),
        opens_held(r.policy, event_of(text)),
        event_of(text).index is Some,
        event_of(text).block_type is Some,
    ensures
        healthy(hold_first(r, text, event_of(text).index->0, event_of(text).block_type->0)),
{
    assert(events_of(seq![text]) =~= seq![event_of(text)]);
}

proof fn lemma_hold_next_healthy(r: RelayView, text: Seq<char>, index: u64)
    requires
        healthy(r),
        in_order(r, text),
        !opens_held(r.policy, event_of(text)),
        event_of(text).index == Some(index),
        !r.ignored.contains(index),
        r.held.contains_key(index),
    ensures
        healthy(hold_next(r, text, event_of(text), index).0),
{
    lemma_event_types_differ();
    let event = event_of(text);
    let before = r.held[index];
    let events = events_of(before.events.push(text));
    assert(one_block(events_of(before.events), index, before.block_type));
    assert(events.drop_last() =~= events_of(before.events));
    assert(events.last() == event);
    if event.event_type == "content_block_stop"@ {
        if releases(r, text, index) {
            lemma_release_mendable(r.turn, events, index, before.block_type);
        }
    } else {
        assert(held_event(event, index));
        assert forall|k: int| 1 <= k < events.len() implies held_event(
            #[trigger] events[k],
            index,
        ) by {
            if k < events.len() - 1 {
                assert(events[k] == events_of(before.events)[k]);
            }
        }
        assert(one_block(events, index, before.block_type));
    }
}

/// The end that an error puts to a turn leaves it mendable.
proof fn lemma_end_mendable(turn: TurnState, error_type: Seq<char>, message: Seq<char>)
    requires
        mendable(turn),
        turn.saw_message_stop || can_complete(turn) || can_repair(turn),
    ensures
        mendable(
            turn_run(turn, synthetic_events(terminal_events(turn, error_type, message, true))),
        ),
{
    if turn.saw_message_stop {
        assert(synthetic_events(terminal_events(turn, error_type, message, true)) =~= Seq::empty());
    } else if can_complete(turn) {
        lemma_completion_run(turn, error_type, message, true);
    } else {
        lemma_repair_run(turn, error_type, message);
    }
}

proof fn lemma_plain_healthy(r: RelayView, text: Seq<char>, event: EventView)
    requires
        healthy(r),
        event.event_type == "content_block_start"@ && event.index is Some ==> event.block_type
            == Some("text"@),
        event.event_type == "error"@ ==> endable(drop_unfinished(r, event).turn),
    ensures
        healthy(relay_plain(r, text, event).relay),
{
    lemma_event_types_differ();
    let cleared = drop_unfinished(r, event);
    assert(healthy(cleared));
    if event.event_type == "error"@ {
        let turn = if !cleared.turn.saw_text_delta {
            recovering(cleared.turn)
        } else {
            cleared.turn
        };
        assert(mendable(turn));
        lemma_end_mendable(
            turn,
            "stream_error"@,
            "Upstream stream failed after partial output"@,
        );
    } else {
        lemma_step_mendable(cleared.turn, cut_off_event());
        let turn = if cleared.rewrote && event.event_type == "message_stop"@
            && !cleared.turn.saw_final_message_delta {
            turn_step(cleared.turn, cut_off_event())
        } else {
            cleared.turn
        };
        lemma_step_mendable(turn, event);
        lemma_step_mendable(turn, cut_off_event());
    }
}

/// No block that is in order makes a stream for the desktop client one that cannot be brought to
/// a good end: the client sees no error, no broken tool call, and nothing open but text.
pub proof fn law_desktop_stays_healthy(r: RelayView, text: Seq<char>)
    requires
        healthy(r),
        in_order(r, text),
    ensures
        healthy(relay_block(r, text).relay),
{
    reveal(relay_block);
    if trimmed(text).len() > 0 {
        let event = event_of(text);
        if opens_held(r.policy, event) {
            if event.index is Some && event.block_type is Some {
                lemma_hold_first_healthy(r, text);
            } else {
                lemma_event_types_differ();
                lemma_plain_healthy(r, text, event);
            }
        } else if event.index is Some && r.ignored.contains(event.index->0) {
        } else if event.index is Some && r.held.contains_key(event.index->0) {
            lemma_hold_next_healthy(r, text, event.index->0);
        } else {
            lemma_plain_healthy(r, text, event);
        }
    }
}

} // verus!
