//! What holds of an Anthropic stream from its first bytes to its end.

use crate::delivery_laws::{blank, delivered, law_every_block_reaches_the_client_in_order, plain};
use crate::ending_laws::{goes_on, sends};
use crate::picking::picked;
use crate::relay::{
    anthropic, desktop, drop_unfinished, events_of, framed, framed_all, fresh_relay, pass_on,
    relay_block, relay_blocks, relay_plain, RelayView, SseTerminalPolicy,
};
use crate::sse::{
    blocks, decoded, law_decoding_in_pieces, law_framing_in_pieces, undecoded, unframed,
};
use crate::stream::{
    break_off, chunk_reaction, closed, closing_blocks, current_timeout, end_reaction, ended,
    error_reaction, error_record, finish_if, framing_limit_message, fresh_stream, idle,
    idle_message, offer_all, overlong, piece_progress, piece_taken, send_all, timeout_reaction,
    truncated_message, verdict, Action, Reaction, StreamView, StreamingTimeoutConfig,
};
use crate::stream_laws::{client_part, lemma_relay_blocks_concat, lemma_relay_policy};
use crate::terminal::{
    lemma_event_types_differ, recovering, recovery_events, rendered, rendered_all, synthetic_event,
    synthetic_events, terminal_events, Synthetic,
};
use crate::turn::{can_complete, event_of, turn_run, turn_step, EventView, TurnState};
use vstd::prelude::*;

verus! {

/// Something that happens to a stream.
pub enum Happening {
    /// A piece of it comes.
    Piece(Seq<u8>),
    /// It was silent for too long.
    Silence,
    /// Reading it failed.
    Failure(Seq<char>),
    /// The upstream closes it.
    End,
}

/// What a stream does on something that happens to it.
pub open spec fn reaction(v: StreamView, happening: Happening) -> Reaction {
    match happening {
        Happening::Piece(bytes) => chunk_reaction(v, bytes),
        Happening::Silence => timeout_reaction(v),
        Happening::Failure(error) => error_reaction(v, error),
        Happening::End => end_reaction(v),
    }
}

/// What a stream does on all that happens to it.
pub open spec fn run(v: StreamView, happenings: Seq<Happening>) -> Reaction
    decreases happenings.len(),
{
    if happenings.len() == 0 {
        idle(v)
    } else {
        let before = run(v, happenings.drop_last());
        let last = reaction(before.stream, happenings.last());
        Reaction { stream: last.stream, actions: before.actions + last.actions }
    }
}

/// Whether an event ends a turn.
pub open spec fn ends_turn(event: EventView) -> bool {
    event.event_type == "message_stop"@ || event.event_type == "error"@
}

/// Whether the client learns from a block that its turn has ended: one of the upstream's blocks
/// that says so, or one that the proxy wrote.
pub open spec fn tells_end(block: Seq<char>) -> bool {
    ||| exists|text: Seq<char>| ends_turn(event_of(text)) && block == #[trigger] framed(text)
    ||| exists|event: Synthetic|
        ends_turn(synthetic_event(event)) && block == #[trigger] rendered(event)
}

/// Whether the client learns from several blocks that its turn has ended.
pub open spec fn told(blocks: Seq<Seq<char>>) -> bool {
    exists|i: int| 0 <= i < blocks.len() && tells_end(#[trigger] blocks[i])
}

/// Whether the client learns from what is done for a stream that its turn has ended.
pub open spec fn client_told(actions: Seq<Action>) -> bool {
    exists|i: int|
        0 <= i < actions.len() && (#[trigger] actions[i] matches Action::SendBlock(block)
            && tells_end(block))
}

proof fn lemma_told_concat(a: Seq<Seq<char>>, b: Seq<Seq<char>>)
    requires
        told(a) || told(b),
    ensures
        told(a + b),
{
    if told(a) {
        let i = choose|i: int| 0 <= i < a.len() && tells_end(#[trigger] a[i]);
        assert((a + b)[i] == a[i]);
    } else {
        let i = choose|i: int| 0 <= i < b.len() && tells_end(#[trigger] b[i]);
        assert((a + b)[a.len() + i] == b[i]);
    }
}

proof fn lemma_client_told_within(a: Seq<Action>, out: Seq<Seq<char>>, b: Seq<Action>)
    requires
        told(out),
    ensures
        client_told(a + send_all(out) + b),
{
    let i = choose|i: int| 0 <= i < out.len() && tells_end(#[trigger] out[i]);
    assert((a + send_all(out) + b)[a.len() + i] == Action::SendBlock(out[i]));
}

proof fn lemma_client_told_concat(a: Seq<Action>, b: Seq<Action>)
    requires
        client_told(a) || client_told(b),
    ensures
        client_told(a + b),
{
    if client_told(a) {
        let i = choose|i: int|
            0 <= i < a.len() && (#[trigger] a[i] matches Action::SendBlock(block) && tells_end(
                block,
            ));
        assert((a + b)[i] == a[i]);
    } else {
        let i = choose|i: int|
            0 <= i < b.len() && (#[trigger] b[i] matches Action::SendBlock(block) && tells_end(
                block,
            ));
        assert((a + b)[a.len() + i] == b[i]);
    }
}

/// A turn ends only with an event that ends it.
proof fn lemma_step_ends(s: TurnState, event: EventView)
    requires
        ended(turn_step(s, event)),
    ensures
        ended(s) || ends_turn(event),
{
}

/// A turn that is ended by blocks that were kept back has one among them that says so.
proof fn lemma_framed_told(s: TurnState, texts: Seq<Seq<char>>)
    requires
        ended(turn_run(s, events_of(texts))),
    ensures
        ended(s) || told(framed_all(texts)),
    decreases texts.len(),
{
    if texts.len() > 0 {
        let front = texts.drop_last();
        assert(events_of(texts).drop_last() =~= events_of(front));
        lemma_step_ends(turn_run(s, events_of(front)), event_of(texts.last()));
        assert(framed_all(texts) =~= framed_all(front) + seq![framed(texts.last())]);
        if ends_turn(event_of(texts.last())) {
            assert(tells_end(seq![framed(texts.last())][0]));
            lemma_told_concat(framed_all(front), seq![framed(texts.last())]);
        } else {
            lemma_framed_told(s, front);
            if !ended(s) {
                lemma_told_concat(framed_all(front), seq![framed(texts.last())]);
            }
        }
    }
}

/// A turn that is ended by events that the proxy writes has one among them that says so.
proof fn lemma_rendered_told(s: TurnState, events: Seq<Synthetic>)
    requires
        ended(turn_run(s, synthetic_events(events))),
    ensures
        ended(s) || told(rendered_all(events)),
    decreases events.len(),
{
    if events.len() > 0 {
        let front = events.drop_last();
        let last = events.last();
        assert(synthetic_events(events).drop_last() =~= synthetic_events(front));
        lemma_step_ends(turn_run(s, synthetic_events(front)), synthetic_event(last));
        assert(rendered_all(events) =~= rendered_all(front) + seq![rendered(last)]);
        if ends_turn(synthetic_event(last)) {
            assert(tells_end(seq![rendered(last)][0]));
            lemma_told_concat(rendered_all(front), seq![rendered(last)]);
        } else {
            lemma_rendered_told(s, front);
            if !ended(s) {
                lemma_told_concat(rendered_all(front), seq![rendered(last)]);
            }
        }
    }
}

proof fn lemma_plain_told(r: RelayView, text: Seq<char>)
    requires
        ended(relay_plain(r, text, event_of(text)).relay.turn),
    ensures
        ended(r.turn) || told(relay_plain(r, text, event_of(text)).out),
{
    lemma_event_types_differ();
    let event = event_of(text);
    let cleared = drop_unfinished(r, event);
    if event.event_type == "error"@ && desktop(r.policy) {
        let recover = !cleared.turn.saw_text_delta;
        let turn = if recover {
            recovering(cleared.turn)
        } else {
            cleared.turn
        };
        let opening = if recover {
            recovery_events(cleared.turn)
        } else {
            Seq::empty()
        };
        let ending = terminal_events(
            turn,
            "stream_error"@,
            "Upstream stream failed after partial output"@,
            true,
        );
        lemma_rendered_told(turn, ending);
        if !ended(r.turn) {
            lemma_told_concat(rendered_all(opening), rendered_all(ending));
        }
    } else {
        let out = pass_on(cleared, text, event).1;
        if ends_turn(event) {
            assert(out.last() == framed(text));
            assert(tells_end(out[out.len() - 1]));
        }
    }
}

proof fn lemma_block_told(r: RelayView, text: Seq<char>)
    requires
        ended(relay_block(r, text).relay.turn),
    ensures
        ended(r.turn) || told(relay_block(r, text).out),
{
    reveal(relay_block);
    let event = event_of(text);
    if relay_block(r, text) == relay_plain(r, text, event) {
        lemma_plain_told(r, text);
    } else if event.index is Some && r.held.contains_key(event.index->0) {
        let all = r.held[event.index->0].events.push(text);
        if ended(turn_run(r.turn, events_of(all))) {
            lemma_framed_told(r.turn, all);
        }
    }
}

proof fn lemma_blocks_told(r: RelayView, texts: Seq<Seq<char>>)
    requires
        ended(relay_blocks(r, texts).relay.turn),
    ensures
        ended(r.turn) || told(relay_blocks(r, texts).out),
    decreases texts.len(),
{
    if texts.len() > 0 {
        let before = relay_blocks(r, texts.drop_last());
        let last = relay_block(before.relay, texts.last());
        lemma_block_told(before.relay, texts.last());
        if ended(before.relay.turn) {
            lemma_blocks_told(r, texts.drop_last());
        }
        if !ended(r.turn) {
            lemma_told_concat(before.out, last.out);
        }
    }
}

/// The blocks with which a turn is ended for the upstream say so.
proof fn lemma_closing_told(
    r: RelayView,
    error_type: Seq<char>,
    message: Seq<char>,
    recover: bool,
    allow_repair: bool,
)
    requires
        !ended(r.turn),
    ensures
        told(closing_blocks(r, error_type, message, recover, allow_repair)),
{
    reveal(closed);
    reveal(closing_blocks);
    let events = terminal_events(closed(r, recover).turn, error_type, message, allow_repair);
    let opening = if recover {
        rendered_all(recovery_events(r.turn))
    } else {
        Seq::empty()
    };
    let out = rendered_all(events);
    let last = events.last();
    assert(events.len() > 0 && ends_turn(synthetic_event(last)));
    assert(out[out.len() - 1] == rendered(last));
    assert(tells_end(out[out.len() - 1]));
    lemma_told_concat(opening, out);
}

/// Whether a stream is an Anthropic one whose turn goes on as long as the stream does.
pub open spec fn going_on(v: StreamView) -> bool {
    anthropic(v.relay.policy) && v.inspect && (!v.finished ==> !ended(v.relay.turn))
}

proof fn lemma_piece(v: StreamView, bytes: Seq<u8>)
    requires
        going_on(v),
        !v.finished,
    ensures
        going_on(chunk_reaction(v, bytes).stream),
        chunk_reaction(v, bytes).stream.finished ==> client_told(chunk_reaction(v, bytes).actions),
{
    let texts = blocks(v.buffer + decoded(v.remainder + bytes));
    lemma_relay_policy(v.relay, texts);
    let p = piece_progress(v, bytes);
    let taken = piece_taken(v, bytes);
    let r = taken.relay;
    let actions = chunk_reaction(v, bytes).actions;
    if ended(r.turn) {
        lemma_blocks_told(v.relay, texts);
    }
    if overlong(taken) {
        reveal(closed);
        let d = desktop(r.policy);
        let closing = closing_blocks(r, "stream_truncated"@, framing_limit_message(), d, d);
        if ended(r.turn) {
            lemma_told_concat(p.out, closing);
        } else {
            lemma_closing_told(r, "stream_truncated"@, framing_limit_message(), d, d);
            lemma_told_concat(p.out, closing);
        }
        let a = offer_all(p.offers) + seq![Action::Fail(502, framing_limit_message())] + (if d {
            seq![Action::GuardFailure(framing_limit_message())]
        } else {
            Seq::empty()
        });
        assert(actions =~= a + send_all(p.out + closing) + seq![Action::Finish]);
        lemma_client_told_within(a, p.out + closing, seq![Action::Finish]);
    } else if ended(r.turn) {
        let a = offer_all(p.offers) + verdict(r);
        let b = error_record(r.turn) + finish_if(true);
        assert(actions =~= a + send_all(p.out) + b);
        lemma_client_told_within(a, p.out, b);
    }
}

proof fn lemma_break_off(
    v: StreamView,
    status: u16,
    record: Seq<char>,
    error_type: Seq<char>,
    message: Seq<char>,
    broken: Seq<char>,
)
    requires
        going_on(v),
        !v.finished,
    ensures
        going_on(break_off(v, status, record, error_type, message, broken).stream),
        client_told(break_off(v, status, record, error_type, message, broken).actions),
{
    reveal(closed);
    let d = desktop(v.relay.policy);
    let closing = closing_blocks(v.relay, error_type, message, d, d);
    lemma_closing_told(v.relay, error_type, message, d, d);
    let actions = break_off(v, status, record, error_type, message, broken).actions;
    let a = actions.take(actions.len() - 1 - closing.len());
    assert(actions =~= a + send_all(closing) + seq![Action::Finish]);
    lemma_client_told_within(a, closing, seq![Action::Finish]);
}

proof fn lemma_end(v: StreamView)
    requires
        going_on(v),
        !v.finished,
    ensures
        going_on(end_reaction(v).stream),
        client_told(end_reaction(v).actions),
{
    reveal(closed);
    let recover = desktop(v.relay.policy) && !can_complete(v.relay.turn);
    let closing = closing_blocks(
        v.relay,
        "stream_truncated"@,
        truncated_message(),
        recover,
        true,
    );
    lemma_closing_told(v.relay, "stream_truncated"@, truncated_message(), recover, true);
    let actions = end_reaction(v).actions;
    let a = actions.take(actions.len() - 1 - closing.len());
    assert(actions =~= a + send_all(closing) + seq![Action::Finish]);
    lemma_client_told_within(a, closing, seq![Action::Finish]);
}

proof fn lemma_reaction(v: StreamView, happening: Happening)
    requires
        going_on(v),
        !v.finished,
    ensures
        going_on(reaction(v, happening).stream),
        reaction(v, happening).stream.finished ==> client_told(reaction(v, happening).actions),
{
    match happening {
        Happening::Piece(bytes) => {
            lemma_piece(v, bytes);
        },
        Happening::Silence => {
            let seconds = current_timeout(v);
            let message = idle_message(seconds);
            lemma_break_off(
                v,
                504,
                message,
                "stream_timeout"@,
                message,
                if v.first {
                    "流式响应首字节超时"@
                } else {
                    "流式响应静默期超时"@
                },
            );
        },
        Happening::Failure(error) => {
            lemma_break_off(
                v,
                502,
                "Upstream stream I/O error: "@ + error,
                "stream_error"@,
                "Upstream stream ended with an I/O error"@,
                error,
            );
        },
        Happening::End => {
            lemma_end(v);
        },
    }
}

proof fn lemma_run(v: StreamView, happenings: Seq<Happening>)
    requires
        going_on(v),
        !v.finished,
    ensures
        going_on(run(v, happenings).stream),
        run(v, happenings).stream.finished ==> client_told(run(v, happenings).actions),
    decreases happenings.len(),
{
    if happenings.len() > 0 {
        let before = run(v, happenings.drop_last());
        let last = reaction(before.stream, happenings.last());
        lemma_run(v, happenings.drop_last());
        if !before.stream.finished {
            lemma_reaction(before.stream, happenings.last());
        }
        if last.stream.finished {
            lemma_client_told_concat(before.actions, last.actions);
        }
    }
}

/// Whatever the upstream of an Anthropic stream sends and however it stops, the blocks that the
/// client has got by the end of the stream hold a `message_stop` or an error. The stream has
/// ended at the latest when reading it failed or the upstream closed it.
pub proof fn law_the_client_learns_of_the_end(
    collecting: bool,
    debugging: bool,
    timeouts: StreamingTimeoutConfig,
    policy: SseTerminalPolicy,
    happenings: Seq<Happening>,
)
    requires
        anthropic(policy),
    ensures
        ({
            let all = run(fresh_stream(collecting, debugging, timeouts, policy), happenings);
            &&& all.stream.finished ==> client_told(all.actions)
            &&& happenings.len() > 0 && (happenings.last() is Failure || happenings.last() is End)
                ==> all.stream.finished
        }),
{
    lemma_run(fresh_stream(collecting, debugging, timeouts, policy), happenings);
}

/// All the bytes of several pieces.
pub open spec fn all_bytes(pieces: Seq<Seq<u8>>) -> Seq<u8>
    decreases pieces.len(),
{
    if pieces.len() == 0 {
        Seq::empty()
    } else {
        all_bytes(pieces.drop_last()) + pieces.last()
    }
}

/// Each of several pieces comes.
pub open spec fn come(pieces: Seq<Seq<u8>>) -> Seq<Happening> {
    pieces.map_values(|bytes: Seq<u8>| Happening::Piece(bytes))
}

/// However the upstream of the command line client cuts its stream into pieces, as long as the
/// stream has not ended the client has got exactly the blocks of the text that all the bytes
/// encode, but the blank ones, each unchanged and in order; and the turn is what they say.
pub proof fn law_the_command_line_client_gets_the_whole_stream(
    collecting: bool,
    debugging: bool,
    timeouts: StreamingTimeoutConfig,
    pieces: Seq<Seq<u8>>,
)
    requires
        !run(
            fresh_stream(collecting, debugging, timeouts, SseTerminalPolicy::AnthropicMessages),
            come(pieces),
        ).stream.finished,
    ensures
        ({
            let policy = SseTerminalPolicy::AnthropicMessages;
            let all = run(fresh_stream(collecting, debugging, timeouts, policy), come(pieces));
            let texts = blocks(decoded(all_bytes(pieces)));
            &&& exists|out: Seq<Seq<char>>|
                client_part(all.actions) == #[trigger] sends(out) && picked(
                    texts.len() as int,
                    |i: int| !blank(texts[i]),
                    |i: int| delivered(texts[i]),
                    out,
                )
            &&& all.stream.relay == relay_blocks(fresh_relay(policy), texts).relay
            &&& plain(all.stream.relay)
            &&& goes_on(all.stream.relay.turn)
            &&& all.stream.buffer == unframed(decoded(all_bytes(pieces)))
            &&& all.stream.remainder == undecoded(all_bytes(pieces))
        }),
{
    let policy = SseTerminalPolicy::AnthropicMessages;
    let start = fresh_relay(policy);
    let texts = blocks(decoded(all_bytes(pieces)));
    lemma_pieces(collecting, debugging, timeouts, pieces);
    assert(start.held.dom() =~= Set::<u64>::empty());
    law_every_block_reaches_the_client_in_order(start, texts);
    let all = run(fresh_stream(collecting, debugging, timeouts, policy), come(pieces));
    assert(client_part(all.actions) == sends(relay_blocks(start, texts).out));
}

proof fn lemma_pieces(
    collecting: bool,
    debugging: bool,
    timeouts: StreamingTimeoutConfig,
    pieces: Seq<Seq<u8>>,
)
    requires
        !run(
            fresh_stream(collecting, debugging, timeouts, SseTerminalPolicy::AnthropicMessages),
            come(pieces),
        ).stream.finished,
    ensures
        ({
            let policy = SseTerminalPolicy::AnthropicMessages;
            let v = fresh_stream(collecting, debugging, timeouts, policy);
            let all = run(v, come(pieces));
            let texts = blocks(decoded(all_bytes(pieces)));
            let p = relay_blocks(v.relay, texts);
            &&& client_part(all.actions) == sends(p.out)
            &&& all.stream.relay == p.relay
            &&& goes_on(p.relay.turn)
            &&& all.stream.inspect
            &&& all.stream.buffer == unframed(decoded(all_bytes(pieces)))
            &&& all.stream.remainder == undecoded(all_bytes(pieces))
        }),
    decreases pieces.len(),
{
    let policy = SseTerminalPolicy::AnthropicMessages;
    let v = fresh_stream(collecting, debugging, timeouts, policy);
    if pieces.len() == 0 {
        assert(come(pieces) =~= Seq::empty());
        let none: Seq<char> = Seq::empty();
        assert(decoded(all_bytes(pieces)) =~= none);
        assert(blocks(none) =~= Seq::empty());
        assert(unframed(none) =~= none);
        assert(client_part(Seq::empty()) =~= sends(relay_blocks(v.relay, Seq::empty()).out));
    } else {
        let front = pieces.drop_last();
        let bytes = pieces.last();
        assert(come(pieces).drop_last() =~= come(front));
        assert(come(pieces).last() == Happening::Piece(bytes));
        let before = run(v, come(front));
        let last = reaction(before.stream, Happening::Piece(bytes));
        assert(!before.stream.finished) by {
            if before.stream.finished {
                assert(last.stream == before.stream);
            }
        }
        lemma_pieces(collecting, debugging, timeouts, front);
        let done = all_bytes(front);
        let w = before.stream;
        law_decoding_in_pieces(done, bytes);
        law_framing_in_pieces(decoded(done), decoded(undecoded(done) + bytes));
        let old = blocks(decoded(done));
        let new = blocks(unframed(decoded(done)) + decoded(undecoded(done) + bytes));
        lemma_relay_blocks_concat(v.relay, old, new);
        lemma_relay_policy(v.relay, old);
        lemma_relay_policy(w.relay, new);
        assert(!overlong(piece_taken(w, bytes)));
        crate::stream_laws::lemma_chunk_client(w, bytes);
        crate::stream_laws::lemma_client_part_concat(before.actions, last.actions);
        let a = relay_blocks(v.relay, old).out;
        let b = relay_blocks(w.relay, new).out;
        assert(send_all(b) =~= sends(b));
        assert(sends(a) + sends(b) =~= sends(a + b));
        assert(run(v, come(pieces)).actions == before.actions + last.actions);
    }
}

} // verus!
