//! What reaches the client of the blocks that come from the upstream.

use crate::picking::{lemma_picked_next, lemma_picked_none, picked};
use crate::relay::{
    byte_len, events_of, framed, framed_all, fresh_relay, offered, relay_block, relay_blocks,
    Progress, RelayView, SseTerminalPolicy,
};
use crate::sse::data_values;
use crate::stream_laws::lemma_relay_blocks_concat;
use crate::terminal::{
    lemma_event_types_differ, recovering, recovery_events, rendered_all, synthetic_events,
    terminal_events, HeldView,
};
use crate::text::{trim_newlines, trimmed, white_space};
use crate::text_laws::law_a_blank_text_is_white_space;
use crate::turn::{event_of, fresh_turn, turn_run, turn_step, EventView, TurnState};
use vstd::prelude::*;
use vstd::string::*;
use vstd::utf8::encode_utf8;

verus! {

/// A block as the client gets it: as it came, without the line breaks at its end, and with two
/// newlines behind it.
pub open spec fn delivered(text: Seq<char>) -> Seq<char> {
    trim_newlines(text) + seq!['\n', '\n']
}

/// Whether a block is white space alone.
pub open spec fn blank(text: Seq<char>) -> bool {
    forall|k: int| 0 <= k < text.len() ==> white_space(#[trigger] text[k])
}

/// Whether these are the payload lines of a block that the usage record is offered: all of them
/// but the marks of the end, in order.
pub open spec fn payload_lines(text: Seq<char>, offers: Seq<Seq<char>>) -> bool {
    picked(
        data_values(text).len() as int,
        |i: int| trimmed(data_values(text)[i]) != "[DONE]"@,
        |i: int| data_values(text)[i],
        offers,
    )
}

/// The block that says that a turn was cut off.
pub open spec fn cut_off_block() -> Seq<char> {
    "event: message_delta\ndata: {\"type\":\"message_delta\",\"delta\":{\"stop_reason\":\"max_tokens\",\"stop_sequence\":null},\"usage\":{\"output_tokens\":0}}"@
}

proof fn lemma_delivered(text: Seq<char>)
    ensures
        framed(text) == delivered(text),
{
    reveal_strlit("\n\n");
    assert("\n\n"@ =~= seq!['\n', '\n']);
}

proof fn lemma_blank(text: Seq<char>)
    ensures
        blank(text) <==> trimmed(text).len() == 0,
{
    law_a_blank_text_is_white_space(text);
}

proof fn lemma_offered(values: Seq<Seq<char>>)
    ensures
        picked(
            values.len() as int,
            |i: int| trimmed(values[i]) != "[DONE]"@,
            |i: int| values[i],
            offered(values),
        ),
    decreases values.len(),
{
    let keep = |i: int| trimmed(values[i]) != "[DONE]"@;
    let image = |i: int| values[i];
    if values.len() == 0 {
        lemma_picked_none(keep, image);
    } else {
        let front = values.drop_last();
        lemma_offered(front);
        lemma_picked_next(
            front.len() as int,
            |i: int| trimmed(front[i]) != "[DONE]"@,
            |i: int| front[i],
            offered(front),
            keep,
            image,
        );
    }
}

/// A block reaches the client as it came: what the client gets is its beginning, up to the line
/// breaks at its end, and two newlines.
pub proof fn law_a_delivered_block_is_unchanged(text: Seq<char>)
    ensures
        framed(text) == delivered(text),
        ({
            let n = delivered(text).len() - 2;
            &&& 0 <= n <= text.len()
            &&& delivered(text) == text.take(n) + seq!['\n', '\n']
            &&& forall|k: int| n <= k < text.len() ==> #[trigger] text[k] == '\n' || text[k] == '\r'
            &&& n > 0 ==> text[n - 1] != '\n' && text[n - 1] != '\r'
        }),
{
    lemma_delivered(text);
    crate::text_laws::law_line_breaks_are_taken_off_the_end(text);
}

/// A stream is relayed block by block: nothing depends on how the blocks are handed over.
pub proof fn law_relaying_is_blockwise(
    r: RelayView,
    text: Seq<char>,
    a: Seq<Seq<char>>,
    b: Seq<Seq<char>>,
)
    ensures
        relay_blocks(r, Seq::empty()) == (Progress {
            relay: r,
            out: Seq::empty(),
            offers: Seq::empty(),
        }),
        relay_blocks(r, seq![text]) == relay_block(r, text),
        ({
            let first = relay_blocks(r, a);
            let second = relay_blocks(first.relay, b);
            let both = relay_blocks(r, a + b);
            &&& both.relay == second.relay
            &&& both.out == first.out + second.out
            &&& both.offers == first.offers + second.offers
        }),
{
    lemma_relay_blocks_concat(r, a, b);
    assert(seq![text].drop_last() =~= Seq::empty());
    let one = relay_blocks(r, seq![text]);
    let last = relay_block(r, text);
    assert(one.out =~= last.out);
    assert(one.offers =~= last.offers);
}

/// A stream starts with nothing seen, nothing kept back and nothing rewritten.
pub proof fn law_a_relay_starts_empty(policy: SseTerminalPolicy)
    ensures
        ({
            let r = fresh_relay(policy);
            &&& r.policy == policy
            &&& r.turn == fresh_turn()
            &&& r.held.dom() == Set::<u64>::empty()
            &&& r.held_bytes == 0
            &&& r.ignored == Set::<u64>::empty()
            &&& !r.rewrote
            &&& r.suppressed is None
        }),
{
    assert(fresh_relay(policy).held.dom() =~= Set::<u64>::empty());
}

/// A block of white space does nothing.
pub proof fn law_a_blank_block_does_nothing(r: RelayView, text: Seq<char>)
    requires
        blank(text),
    ensures
        relay_block(r, text).relay == r,
        relay_block(r, text).out.len() == 0,
        relay_block(r, text).offers.len() == 0,
{
    reveal(relay_block);
    lemma_blank(text);
}

/// A stream that is not Anthropic is only read along: its payload lines are offered to the usage
/// record, and nothing is made of its blocks.
pub proof fn law_a_passthrough_stream_is_only_read(r: RelayView, text: Seq<char>)
    requires
        r.policy is Passthrough,
        !blank(text),
    ensures
        relay_block(r, text).relay == r,
        relay_block(r, text).out.len() == 0,
        payload_lines(text, relay_block(r, text).offers),
{
    reveal(relay_block);
    lemma_blank(text);
    lemma_offered(data_values(text));
}

/// Whether a stream for the command line client stands as it must: nothing is kept back, dropped
/// or rewritten.
pub open spec fn plain(r: RelayView) -> bool {
    &&& r.policy is AnthropicMessages
    &&& r.held.dom() == Set::<u64>::empty()
    &&& r.ignored == Set::<u64>::empty()
    &&& !r.rewrote
}

/// A block of a stream for the command line client reaches it unchanged, whatever it says, and is
/// taken note of.
pub proof fn law_a_block_reaches_the_client(r: RelayView, text: Seq<char>)
    requires
        plain(r),
        !blank(text),
    ensures
        ({
            let p = relay_block(r, text);
            &&& p.out == seq![delivered(text)]
            &&& payload_lines(text, p.offers)
            &&& p.relay == (RelayView { turn: turn_step(r.turn, event_of(text)), ..r })
            &&& plain(p.relay)
        }),
{
    reveal(relay_block);
    lemma_blank(text);
    lemma_delivered(text);
    lemma_offered(data_values(text));
    let event = event_of(text);
    if event.index is Some {
        assert(!r.held.dom().contains(event.index->0));
        assert(!r.ignored.contains(event.index->0));
    }
    assert(relay_block(r, text).out =~= seq![delivered(text)]);
}

/// The command line client gets exactly the blocks of the upstream that are not blank, each
/// unchanged, in order, and the turn is what they say.
pub proof fn law_every_block_reaches_the_client_in_order(r: RelayView, texts: Seq<Seq<char>>)
    requires
        plain(r),
    ensures
        ({
            let p = relay_blocks(r, texts);
            &&& picked(
                texts.len() as int,
                |i: int| !blank(texts[i]),
                |i: int| delivered(texts[i]),
                p.out,
            )
            &&& exists|events: Seq<EventView>|
                p.relay.turn == #[trigger] turn_run(r.turn, events) && picked(
                    texts.len() as int,
                    |i: int| !blank(texts[i]),
                    |i: int| event_of(texts[i]),
                    events,
                )
            &&& plain(p.relay)
            &&& p.relay.suppressed == r.suppressed
        }),
    decreases texts.len(),
{
    let keep = |i: int| !blank(texts[i]);
    let image = |i: int| delivered(texts[i]);
    let says = |i: int| event_of(texts[i]);
    if texts.len() == 0 {
        lemma_picked_none(keep, image);
        lemma_picked_none(keep, says);
        let none: Seq<EventView> = Seq::empty();
        assert(picked(0, keep, says, none));
        assert(turn_run(r.turn, none) == r.turn);
    } else {
        let front = texts.drop_last();
        let n = front.len() as int;
        law_every_block_reaches_the_client_in_order(r, front);
        let before = relay_blocks(r, front);
        let text = texts.last();
        let last = relay_block(before.relay, text);
        let front_keep = |i: int| !blank(front[i]);
        let front_says = |i: int| event_of(front[i]);
        let events = choose|events: Seq<EventView>|
            before.relay.turn == #[trigger] turn_run(r.turn, events) && picked(
                n,
                front_keep,
                front_says,
                events,
            );
        lemma_picked_next(
            n,
            front_keep,
            |i: int| delivered(front[i]),
            before.out,
            keep,
            image,
        );
        lemma_picked_next(n, front_keep, front_says, events, keep, says);
        if blank(text) {
            law_a_blank_block_does_nothing(before.relay, text);
            assert(before.out + last.out =~= before.out);
            assert(picked(texts.len() as int, keep, says, events));
        } else {
            law_a_block_reaches_the_client(before.relay, text);
            assert(before.out + last.out =~= before.out.push(delivered(text)));
            let more = events.push(event_of(text));
            assert(more.drop_last() =~= events);
            assert(picked(texts.len() as int, keep, says, more));
            assert(turn_run(r.turn, more) == turn_step(turn_run(r.turn, events), event_of(text)));
        }
    }
}

/// Whether a block opens a content block that is kept back from the desktop client.
pub open spec fn begins_held(event: EventView) -> bool {
    event.event_type == "content_block_start"@ && event.index is Some && event.block_type is Some
        && event.block_type != Some("text"@)
}

/// Whether a block belongs to nothing that is kept back or dropped.
pub open spec fn stands_alone(r: RelayView, event: EventView) -> bool {
    if event.event_type == "content_block_start"@ && event.block_type != Some("text"@) {
        event.index is None || event.block_type is None
    } else {
        event.index is None || (!r.ignored.contains(event.index->0) && !r.held.contains_key(
            event.index->0,
        ))
    }
}

/// A block that belongs to nothing that is kept back, and that ends neither content nor turn,
/// reaches the desktop client unchanged as well.
pub proof fn law_what_need_not_be_kept_back_reaches_the_desktop_client(r: RelayView, text: Seq<char>)
    requires
        r.policy is ClaudeDesktopAnthropic,
        !blank(text),
        stands_alone(r, event_of(text)),
        event_of(text).event_type != "message_delta"@,
        event_of(text).event_type != "message_stop"@,
        event_of(text).event_type != "error"@,
    ensures
        ({
            let p = relay_block(r, text);
            &&& p.out == seq![delivered(text)]
            &&& payload_lines(text, p.offers)
            &&& p.relay == (RelayView { turn: turn_step(r.turn, event_of(text)), ..r })
        }),
{
    reveal(relay_block);
    lemma_blank(text);
    lemma_delivered(text);
    lemma_offered(data_values(text));
    assert(relay_block(r, text).out =~= seq![delivered(text)]);
}

/// How many bytes a text takes.
pub proof fn law_sizes_are_counted_in_bytes(text: Seq<char>)
    requires
        encode_utf8(text).len() <= usize::MAX,
    ensures
        byte_len(text) == encode_utf8(text).len(),
{
}

/// A content block other than text is kept back from its first event on; nothing of it is sent,
/// and the turn does not know of it. One with which too much would be kept back is dropped, and a
/// recovery is asked for.
pub proof fn law_a_content_block_is_kept_back(r: RelayView, text: Seq<char>, index: u64)
    requires
        r.policy is ClaudeDesktopAnthropic,
        !blank(text),
        begins_held(event_of(text)),
        event_of(text).index == Some(index),
    ensures
        ({
            let p = relay_block(r, text);
            let total = r.held_bytes + byte_len(text);
            &&& p.out.len() == 0
            &&& payload_lines(text, p.offers)
            &&& p.relay.suppressed == r.suppressed
            &&& p.relay.policy == r.policy
            &&& total <= 524288 ==> p.relay == (RelayView {
                held: r.held.insert(
                    index,
                    HeldView {
                        block_type: event_of(text).block_type->0,
                        events: seq![text],
                        bytes: byte_len(text),
                    },
                ),
                held_bytes: total as usize,
                ..r
            })
            &&& total > 524288 ==> p.relay.held == r.held.remove(index) && p.relay.ignored
                == r.ignored.insert(index) && p.relay.rewrote && p.relay.turn == (TurnState {
                silent_recovery_requested: true,
                ..r.turn
            })
            &&& 524288 < total <= usize::MAX ==> p.relay.held_bytes == r.held_bytes
        }),
{
    reveal(relay_block);
    lemma_blank(text);
    lemma_offered(data_values(text));
}

/// What follows of a content block that was dropped is dropped too, up to the event that closes
/// it.
pub proof fn law_a_dropped_content_block_stays_dropped(r: RelayView, text: Seq<char>, index: u64)
    requires
        r.policy is ClaudeDesktopAnthropic,
        !blank(text),
        event_of(text).index == Some(index),
        r.ignored.contains(index),
        event_of(text).event_type != "content_block_start"@ || event_of(text).block_type == Some(
            "text"@,
        ),
    ensures
        ({
            let p = relay_block(r, text);
            &&& p.out.len() == 0
            &&& payload_lines(text, p.offers)
            &&& event_of(text).event_type == "content_block_stop"@ ==> p.relay == (RelayView {
                ignored: r.ignored.remove(index),
                ..r
            })
            &&& event_of(text).event_type != "content_block_stop"@ ==> p.relay == r
        }),
{
    reveal(relay_block);
    lemma_blank(text);
    lemma_offered(data_values(text));
}

/// An event of a content block that is kept back is kept back with it. The event that closes it
/// releases all of its events, in order and unchanged, unless they amount to a tool call whose
/// input is broken: that is dropped, and a recovery asked for. So is a content block with which
/// too much would be kept back.
pub proof fn law_a_content_block_is_released_whole(r: RelayView, text: Seq<char>, index: u64)
    requires
        r.policy is ClaudeDesktopAnthropic,
        !blank(text),
        event_of(text).index == Some(index),
        !r.ignored.contains(index),
        r.held.contains_key(index),
        event_of(text).event_type != "content_block_start"@ || event_of(text).block_type == Some(
            "text"@,
        ),
    ensures
        ({
            let p = relay_block(r, text);
            let total = r.held_bytes + byte_len(text);
            let all = r.held[index].events.push(text);
            let closing = event_of(text).event_type == "content_block_stop"@;
            let broken = r.held[index].block_type == "tool_use"@ && turn_run(
                fresh_turn(),
                events_of(all),
            ).saw_invalid_non_text_block;
            let asked = TurnState { silent_recovery_requested: true, ..r.turn };
            &&& payload_lines(text, p.offers)
            &&& p.relay.policy == r.policy && p.relay.suppressed == r.suppressed
            &&& total > 524288 ==> p.out.len() == 0 && p.relay.held == r.held.remove(index)
                && p.relay.rewrote && p.relay.turn == asked && p.relay.ignored == (if closing {
                r.ignored
            } else {
                r.ignored.insert(index)
            })
            &&& total <= 524288 && !closing ==> p.out.len() == 0 && p.relay.turn == r.turn
                && p.relay.rewrote == r.rewrote && p.relay.ignored == r.ignored
                && p.relay.held_bytes == total && p.relay.held.dom() == r.held.dom()
                && p.relay.held[index].events == all && p.relay.held[index].block_type
                == r.held[index].block_type && (forall|other: u64|
                other != index && #[trigger] r.held.contains_key(other) ==> p.relay.held[other]
                    == r.held[other])
            &&& total <= 524288 && closing && !broken ==> p.out == all.map_values(
                |held: Seq<char>| delivered(held),
            ) && p.relay.turn == turn_run(r.turn, events_of(all)) && p.relay.rewrote == r.rewrote
                && p.relay.ignored == r.ignored && p.relay.held == r.held.remove(index)
            &&& total <= 524288 && closing && broken ==> p.out.len() == 0 && p.relay.turn == asked
                && p.relay.rewrote && p.relay.ignored == r.ignored && p.relay.held
                == r.held.remove(index)
            &&& (closing || total > 524288) && r.held[index].bytes + byte_len(text) <= total
                <= usize::MAX ==> p.relay.held_bytes == total - (r.held[index].bytes + byte_len(
                text,
            ))
            &&& total <= 524288 && !closing && r.held[index].bytes + byte_len(text) <= total
                ==> p.relay.held[index].bytes == r.held[index].bytes + byte_len(text)
        }),
{
    reveal(relay_block);
    lemma_blank(text);
    lemma_offered(data_values(text));
    lemma_event_types_differ();
    let all = r.held[index].events.push(text);
    let p = relay_block(r, text);
    assert(framed_all(all) =~= all.map_values(|held: Seq<char>| delivered(held))) by {
        assert forall|k: int| 0 <= k < all.len() implies framed_all(all)[k] == delivered(
            all[k],
        ) by {
            lemma_delivered(all[k]);
        }
    }
    if r.held_bytes + byte_len(text) <= 524288 && event_of(text).event_type
        != "content_block_stop"@ {
        assert(p.relay.held.dom() =~= r.held.dom());
    }
}

/// What the end of the content does for the desktop client: content that is still kept back is
/// dropped. After anything was dropped the reason that the upstream gives for the end is replaced
/// by that of a cut, and a stop without a reason gets one.
pub proof fn law_the_end_of_the_content(r: RelayView, text: Seq<char>)
    requires
        r.policy is ClaudeDesktopAnthropic,
        !blank(text),
        stands_alone(r, event_of(text)),
        event_of(text).event_type == "message_delta"@ || event_of(text).event_type
            == "message_stop"@,
    ensures
        ({
            let p = relay_block(r, text);
            let unfinished = r.held.dom() != Set::<u64>::empty();
            let dropped = r.rewrote || unfinished;
            let stop = event_of(text).event_type == "message_stop"@;
            &&& p.relay.rewrote == dropped
            &&& p.relay.held.dom() == Set::<u64>::empty()
            &&& unfinished ==> p.relay.held_bytes == 0 && p.relay.ignored == Set::<u64>::empty()
                && p.relay.turn.silent_recovery_requested
            &&& !unfinished ==> p.relay.held_bytes == r.held_bytes && p.relay.ignored == r.ignored
                && p.relay.turn.silent_recovery_requested == r.turn.silent_recovery_requested
            &&& p.relay.suppressed == r.suppressed
            &&& !dropped ==> p.out == seq![delivered(text)] && p.relay.turn == turn_step(
                r.turn,
                event_of(text),
            ) && payload_lines(text, p.offers)
            &&& dropped && !stop ==> p.out == seq![cut_off_block() + seq!['\n', '\n']]
                && p.relay.turn.saw_final_message_delta && payload_lines(cut_off_block(), p.offers)
            &&& dropped && stop && r.turn.saw_final_message_delta ==> p.out == seq![delivered(text)]
                && payload_lines(text, p.offers)
            &&& dropped && stop && !r.turn.saw_final_message_delta ==> p.out == seq![
                cut_off_block() + seq!['\n', '\n'],
                delivered(text),
            ] && payload_lines(text, p.offers)
            &&& stop ==> p.relay.turn.saw_message_stop && (dropped
                ==> p.relay.turn.saw_final_message_delta)
            &&& p.relay.turn.saw_error == r.turn.saw_error
            &&& p.relay.turn.open == r.turn.open
        }),
{
    reveal(relay_block);
    lemma_blank(text);
    lemma_delivered(text);
    lemma_offered(data_values(text));
    lemma_offered(data_values(cut_off_block()));
    lemma_event_types_differ();
    lemma_delivered(cut_off_block());
    lemma_cut_off_block();
    reveal_strlit("\n\n");
    assert("\n\n"@ =~= seq!['\n', '\n']);
    let p = relay_block(r, text);
    assert(Map::<u64, HeldView>::empty().dom() =~= Set::<u64>::empty());
    let unfinished = r.held.dom() != Set::<u64>::empty();
    let dropped = r.rewrote || unfinished;
    let stop = event_of(text).event_type == "message_stop"@;
    if dropped && stop && !r.turn.saw_final_message_delta {
        assert(p.out =~= seq![cut_off_block() + seq!['\n', '\n'], delivered(text)]);
    } else if dropped && !stop {
        assert(p.out =~= seq![cut_off_block() + seq!['\n', '\n']]);
    } else {
        assert(p.out =~= seq![delivered(text)]);
    }
}

proof fn lemma_cut_off_block()
    ensures
        trim_newlines(cut_off_block()) == cut_off_block(),
{
    reveal_strlit(
        "event: message_delta\ndata: {\"type\":\"message_delta\",\"delta\":{\"stop_reason\":\"max_tokens\",\"stop_sequence\":null},\"usage\":{\"output_tokens\":0}}",
    );
    assert(cut_off_block().last() == '}');
}

/// An error in the middle of a stream does not reach the desktop client. What is still kept back
/// is dropped, and the turn is ended then and there: recovered first where it brought no text, and
/// then as a turn is ended that may be repaired. The error is kept for the record.
pub proof fn law_an_error_is_kept_from_the_desktop_client(r: RelayView, text: Seq<char>)
    requires
        r.policy is ClaudeDesktopAnthropic,
        !blank(text),
        stands_alone(r, event_of(text)),
        event_of(text).event_type == "error"@,
    ensures
        ({
            let p = relay_block(r, text);
            let event = event_of(text);
            let unfinished = r.held.dom() != Set::<u64>::empty();
            let left = if unfinished {
                TurnState { silent_recovery_requested: true, ..r.turn }
            } else {
                r.turn
            };
            let turn = if r.turn.saw_text_delta {
                left
            } else {
                recovering(left)
            };
            let opening = if r.turn.saw_text_delta {
                Seq::empty()
            } else {
                rendered_all(recovery_events(r.turn))
            };
            let ending = terminal_events(
                turn,
                "stream_error"@,
                "Upstream stream failed after partial output"@,
                true,
            );
            &&& p.out == opening + rendered_all(ending)
            &&& p.relay.turn == turn_run(turn, synthetic_events(ending))
            &&& p.relay.suppressed == Some(
                (
                    if event.error_type is Some {
                        event.error_type->0
                    } else {
                        "stream_error"@
                    },
                    if event.error_message is Some {
                        event.error_message->0
                    } else {
                        "Upstream stream returned an error event"@
                    },
                ),
            )
            &&& p.relay.rewrote
            &&& p.relay.held.dom() == Set::<u64>::empty()
            &&& p.offers.len() == 0
        }),
{
    reveal(relay_block);
    lemma_blank(text);
    lemma_event_types_differ();
    assert(Map::<u64, HeldView>::empty().dom() =~= Set::<u64>::empty());
    let p = relay_block(r, text);
    let left = crate::relay::drop_unfinished(r, event_of(text)).turn;
    assert(recovery_events(left) == recovery_events(r.turn));
}

/// How many bytes several blocks take together.
pub open spec fn bytes_of(texts: Seq<Seq<char>>) -> nat
    decreases texts.len(),
{
    if texts.len() == 0 {
        0
    } else {
        bytes_of(texts.drop_last()) + byte_len(texts.last()) as nat
    }
}

/// Whether blocks are the events of one content block without the one that closes it.
pub open spec fn unclosed_block(texts: Seq<Seq<char>>, index: u64) -> bool {
    &&& texts.len() > 0
    &&& begins_held(event_of(texts[0]))
    &&& forall|i: int|
        0 <= i < texts.len() ==> !blank(#[trigger] texts[i]) && event_of(texts[i]).index == Some(
            index,
        )
    &&& forall|i: int|
        1 <= i < texts.len() ==> event_of(#[trigger] texts[i]).event_type != "content_block_stop"@
            && event_of(texts[i]).event_type != "content_block_start"@
}

/// As long as a content block is kept back nothing of it is sent, and all of it is kept.
pub proof fn law_nothing_of_an_unclosed_content_block_is_sent(
    r: RelayView,
    texts: Seq<Seq<char>>,
    index: u64,
)
    requires
        r.policy is ClaudeDesktopAnthropic,
        unclosed_block(texts, index),
        !r.ignored.contains(index),
        !r.held.contains_key(index),
        r.held_bytes + bytes_of(texts) <= 524288,
    ensures
        ({
            let p = relay_blocks(r, texts);
            &&& p.out.len() == 0
            &&& p.relay.turn == r.turn
            &&& p.relay.policy == r.policy
            &&& p.relay.rewrote == r.rewrote
            &&& p.relay.ignored == r.ignored
            &&& p.relay.suppressed == r.suppressed
            &&& p.relay.held_bytes == r.held_bytes + bytes_of(texts)
            &&& p.relay.held.contains_key(index)
            &&& p.relay.held[index].events == texts
            &&& p.relay.held[index].block_type == event_of(texts[0]).block_type->0
            &&& p.relay.held[index].bytes == bytes_of(texts)
            &&& p.relay.held.remove(index) == r.held
        }),
    decreases texts.len(),
{
    let front = texts.drop_last();
    let text = texts.last();
    assert(text == texts[texts.len() - 1]);
    if texts.len() == 1 {
        assert(texts =~= seq![text]);
        assert(front =~= Seq::empty());
        law_relaying_is_blockwise(r, text, front, front);
        law_a_content_block_is_kept_back(r, text, index);
        assert(bytes_of(front) == 0);
        assert(relay_blocks(r, texts).relay.held.remove(index) =~= r.held);
    } else {
        assert(front[0] == texts[0]);
        assert forall|i: int| 0 <= i < front.len() implies #[trigger] front[i] == texts[i] by {}
        assert(unclosed_block(front, index));
        law_nothing_of_an_unclosed_content_block_is_sent(r, front, index);
        let before = relay_blocks(r, front);
        law_a_content_block_is_released_whole(before.relay, text, index);
        let last = relay_block(before.relay, text);
        assert(before.out + last.out =~= Seq::empty());
        assert(front.push(text) =~= texts);
        assert(last.relay.held.remove(index) =~= r.held) by {
            assert(last.relay.held.remove(index).dom() =~= r.held.dom()) by {
                assert(before.relay.held.remove(index).dom() =~= r.held.dom());
            }
            assert forall|other: u64| #[trigger]
                r.held.contains_key(other) implies last.relay.held.remove(index)[other]
                == r.held[other] by {
                assert(before.relay.held.remove(index).contains_key(other));
                assert(before.relay.held.contains_key(other));
            }
        }
        reveal(relay_block);
    }
}

/// A content block that is kept back, such as a tool call, reaches the desktop client when it is
/// closed: all of its events, in order and unchanged, or none of them where it is a tool call
/// whose input is broken. Nothing is left of it, and the turn has taken note of what was sent.
pub proof fn law_a_tool_call_reaches_the_desktop_client_whole(
    r: RelayView,
    texts: Seq<Seq<char>>,
    stop: Seq<char>,
    index: u64,
)
    requires
        r.policy is ClaudeDesktopAnthropic,
        unclosed_block(texts, index),
        !blank(stop),
        event_of(stop).event_type == "content_block_stop"@,
        event_of(stop).index == Some(index),
        !r.ignored.contains(index),
        !r.held.contains_key(index),
        r.held_bytes + bytes_of(texts) + byte_len(stop) <= 524288,
    ensures
        ({
            let all = texts.push(stop);
            let p = relay_blocks(r, all);
            let broken = event_of(texts[0]).block_type == Some("tool_use"@) && turn_run(
                fresh_turn(),
                events_of(all),
            ).saw_invalid_non_text_block;
            &&& !broken ==> p.out == all.map_values(|held: Seq<char>| delivered(held))
                && p.relay.turn == turn_run(r.turn, events_of(all)) && p.relay.rewrote == r.rewrote
            &&& broken ==> p.out.len() == 0 && p.relay.rewrote
                && p.relay.turn.silent_recovery_requested
            &&& p.relay.held == r.held
            &&& p.relay.held_bytes == r.held_bytes
            &&& p.relay.ignored == r.ignored
        }),
{
    lemma_event_types_differ();
    law_nothing_of_an_unclosed_content_block_is_sent(r, texts, index);
    let all = texts.push(stop);
    let before = relay_blocks(r, texts);
    assert(all.drop_last() =~= texts);
    law_a_content_block_is_released_whole(before.relay, stop, index);
    let last = relay_block(before.relay, stop);
    assert(before.out + last.out =~= last.out);
}

} // verus!
