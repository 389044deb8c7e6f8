//! What holds of every stream on its way to the client.

use crate::relay::{
    anthropic, desktop, framed_all, relay_block, relay_blocks, relay_plain, RelayView,
    SseTerminalPolicy,
};
use crate::relay_laws::{healthy, in_order, law_desktop_stays_healthy, mendable};
use crate::sse::{blocks, decoded, law_decoding_in_pieces, law_framing_in_pieces, unframed};
use crate::stream::{
    break_off, chunk_reaction, closed, closing_blocks, current_timeout, end_reaction, ended,
    error_reaction, error_record, finish_if, fresh_stream, idle, offer_all, overlong,
    piece_progress, piece_taken, send_all, sent, timeout_reaction, verdict, Action, StreamView,
    StreamingTimeoutConfig,
};
use crate::terminal::{
    lemma_completion_run, lemma_repair_run, recovery_events, rendered_all, synthetic_events,
    terminal_events, Synthetic,
};
use crate::turn::{can_complete, can_repair, event_of, turn_run};
use vstd::prelude::*;
use vstd::string::*;

verus! {

/// Whether an action sends something to the client.
pub open spec fn for_client(action: Action) -> bool {
    action is SendBlock || action is SendBytes || action is SendError
}

/// What the client gets of several actions.
pub open spec fn client_part(actions: Seq<Action>) -> Seq<Action>
    decreases actions.len(),
{
    if actions.len() == 0 {
        Seq::empty()
    } else if for_client(actions.last()) {
        client_part(actions.drop_last()).push(actions.last())
    } else {
        client_part(actions.drop_last())
    }
}

/// Once a stream has ended nothing more happens on it.
pub proof fn law_nothing_follows_the_end(v: StreamView, bytes: Seq<u8>, error: Seq<char>)
    requires
        v.finished,
    ensures
        chunk_reaction(v, bytes) == idle(v),
        timeout_reaction(v) == idle(v),
        error_reaction(v, error) == idle(v),
        end_reaction(v) == idle(v),
{
}

/// However the upstream stops, the stream ends, and its last action closes the record.
pub proof fn law_every_stop_ends_the_stream(v: StreamView, error: Seq<char>)
    requires
        !v.finished,
    ensures
        error_reaction(v, error).stream.finished,
        error_reaction(v, error).actions.last() is Finish,
        end_reaction(v).stream.finished,
        end_reaction(v).actions.last() is Finish,
        current_timeout(v) > 0 ==> timeout_reaction(v).stream.finished,
        current_timeout(v) > 0 ==> timeout_reaction(v).actions.last() is Finish,
{
}

/// A piece ends the stream exactly where its last action closes the record.
pub proof fn law_a_piece_ends_the_stream_with_its_record(v: StreamView, bytes: Seq<u8>)
    requires
        !v.finished,
    ensures
        chunk_reaction(v, bytes).stream.finished ==> chunk_reaction(v, bytes).actions.last() is Finish,
        !chunk_reaction(v, bytes).stream.finished ==> !chunk_reaction(v, bytes).actions.contains(
            Action::Finish,
        ),
{
    reveal(verdict);
    let p = piece_progress(v, bytes);
    let r = piece_taken(v, bytes).relay;
    let actions = chunk_reaction(v, bytes).actions;
    if !chunk_reaction(v, bytes).stream.finished {
        assert forall|i: int| 0 <= i < actions.len() implies actions[i] != Action::Finish by {
            let a = offer_all(p.offers);
            let b = verdict(r);
            let c = sent(r.policy, p.out, bytes);
            let d = error_record(r.turn);
            assert(actions =~= a + b + c + d);
            if i < a.len() {
                assert(actions[i] == a[i]);
            } else if i < a.len() + b.len() {
                assert(actions[i] == b[i - a.len()]);
            } else if i < a.len() + b.len() + c.len() {
                assert(actions[i] == c[i - a.len() - b.len()]);
            } else {
                assert(actions[i] == d[i - a.len() - b.len() - c.len()]);
            }
        }
    }
}

pub proof fn lemma_client_part_concat(a: Seq<Action>, b: Seq<Action>)
    ensures
        client_part(a + b) == client_part(a) + client_part(b),
    decreases b.len(),
{
    if b.len() == 0 {
        assert(a + b =~= a);
        assert(client_part(a) + client_part(b) =~= client_part(a));
    } else {
        assert((a + b).drop_last() =~= a + b.drop_last());
        assert((a + b).last() == b.last());
        lemma_client_part_concat(a, b.drop_last());
        assert(client_part(a + b) =~= client_part(a) + client_part(b));
    }
}

proof fn lemma_client_part_all(a: Seq<Action>)
    requires
        forall|i: int| 0 <= i < a.len() ==> for_client(#[trigger] a[i]),
    ensures
        client_part(a) == a,
    decreases a.len(),
{
    if a.len() > 0 {
        lemma_client_part_all(a.drop_last());
        assert(a =~= a.drop_last().push(a.last()));
    } else {
        assert(a =~= Seq::empty());
    }
}

proof fn lemma_client_part_none(a: Seq<Action>)
    requires
        forall|i: int| 0 <= i < a.len() ==> !for_client(#[trigger] a[i]),
    ensures
        client_part(a) == Seq::<Action>::empty(),
    decreases a.len(),
{
    if a.len() > 0 {
        lemma_client_part_none(a.drop_last());
    }
}

/// What the client gets of a piece that does not end the stream by its length.
pub proof fn lemma_chunk_client(v: StreamView, bytes: Seq<u8>)
    requires
        !v.finished,
        !overlong(piece_taken(v, bytes)),
    ensures
        client_part(chunk_reaction(v, bytes).actions) == sent(
            v.relay.policy,
            piece_progress(v, bytes).out,
            bytes,
        ),
{
    reveal(verdict);
    let p = piece_progress(v, bytes);
    let r = piece_taken(v, bytes).relay;
    lemma_blocks_policy(v, bytes);
    let a = offer_all(p.offers);
    let b = verdict(r);
    let c = sent(r.policy, p.out, bytes);
    let d = error_record(r.turn);
    let e = finish_if(anthropic(r.policy) && ended(r.turn));
    lemma_client_part_concat(a + b + c + d, e);
    lemma_client_part_concat(a + b + c, d);
    lemma_client_part_concat(a + b, c);
    lemma_client_part_concat(a, b);
    lemma_client_part_none(a);
    lemma_client_part_none(b);
    lemma_client_part_all(c);
    lemma_client_part_none(d);
    lemma_client_part_none(e);
    assert(client_part(a + b + c + d + e) =~= c);
}

/// The policy of a stream does not change.
pub proof fn lemma_relay_policy(r: RelayView, texts: Seq<Seq<char>>)
    ensures
        relay_blocks(r, texts).relay.policy == r.policy,
    decreases texts.len(),
{
    reveal(relay_block);
    if texts.len() > 0 {
        lemma_relay_policy(r, texts.drop_last());
    }
}

proof fn lemma_blocks_policy(v: StreamView, bytes: Seq<u8>)
    ensures
        piece_taken(v, bytes).relay.policy == v.relay.policy,
{
    lemma_relay_policy(v.relay, blocks(v.buffer + decoded(v.remainder + bytes)));
}

/// A stream that is not Anthropic reaches the client byte for byte, and no piece ends it.
pub proof fn law_passthrough_sends_every_byte(v: StreamView, bytes: Seq<u8>)
    requires
        !v.finished,
        !anthropic(v.relay.policy),
    ensures
        client_part(chunk_reaction(v, bytes).actions) == seq![Action::SendBytes(bytes)],
        !chunk_reaction(v, bytes).stream.finished,
        chunk_reaction(v, bytes).stream.relay.policy == v.relay.policy,
{
    lemma_blocks_policy(v, bytes);
    lemma_chunk_client(v, bytes);
}

pub proof fn lemma_relay_blocks_concat(r: RelayView, a: Seq<Seq<char>>, b: Seq<Seq<char>>)
    ensures
        ({
            let first = relay_blocks(r, a);
            let second = relay_blocks(first.relay, b);
            let both = relay_blocks(r, a + b);
            &&& both.relay == second.relay
            &&& both.out == first.out + second.out
            &&& both.offers == first.offers + second.offers
        }),
    decreases b.len(),
{
    let first = relay_blocks(r, a);
    if b.len() == 0 {
        assert(a + b =~= a);
        assert(first.out + Seq::<Seq<char>>::empty() =~= first.out);
        assert(first.offers + Seq::<Seq<char>>::empty() =~= first.offers);
    } else {
        assert((a + b).drop_last() =~= a + b.drop_last());
        assert((a + b).last() == b.last());
        lemma_relay_blocks_concat(r, a, b.drop_last());
        let second = relay_blocks(first.relay, b);
        let both = relay_blocks(r, a + b);
        assert(both.out =~= first.out + second.out);
        assert(both.offers =~= first.offers + second.offers);
    }
}

/// It does not matter where the upstream cuts an Anthropic stream into pieces: two pieces, of
/// which the first does not end the stream, leave it as the two in one piece, and the client
/// gets the same.
pub proof fn law_cuts_do_not_matter(v: StreamView, a: Seq<u8>, b: Seq<u8>)
    requires
        !v.finished,
        v.inspect,
        anthropic(v.relay.policy),
        !chunk_reaction(v, a).stream.finished,
    ensures
        ({
            let first = chunk_reaction(v, a);
            let second = chunk_reaction(first.stream, b);
            let both = chunk_reaction(v, a + b);
            &&& second.stream == both.stream
            &&& client_part(first.actions) + client_part(second.actions) == client_part(
                both.actions,
            )
        }),
{
    let first = chunk_reaction(v, a);
    let w = first.stream;
    let second = chunk_reaction(w, b);
    let both = chunk_reaction(v, a + b);
    lemma_blocks_policy(v, a);
    lemma_blocks_policy(v, a + b);
    assert(!overlong(piece_taken(v, a)));
    assert(w == piece_taken(v, a));
    lemma_blocks_policy(w, b);
    let text_a = v.buffer + decoded(v.remainder + a);
    let text_b = decoded(w.remainder + b);
    let text = v.buffer + decoded(v.remainder + (a + b));
    assert(v.remainder + (a + b) =~= (v.remainder + a) + b);
    law_decoding_in_pieces(v.remainder + a, b);
    assert(text =~= text_a + text_b);
    law_framing_in_pieces(text_a, text_b);
    assert(w.buffer == unframed(text_a));
    lemma_relay_blocks_concat(v.relay, blocks(text_a), blocks(w.buffer + text_b));
    let pa = piece_progress(v, a);
    let pb = piece_progress(w, b);
    let pab = piece_progress(v, a + b);
    assert(pab.relay == pb.relay);
    assert(pab.out == pa.out + pb.out);
    assert(piece_taken(w, b) == piece_taken(v, a + b));
    lemma_chunk_client(v, a);
    assert(send_all(pab.out) =~= send_all(pa.out) + send_all(pb.out));
    if overlong(piece_taken(w, b)) {
        lemma_overlong_client(w, b);
        lemma_overlong_client(v, a + b);
        assert(client_part(first.actions) + client_part(second.actions) =~= client_part(
            both.actions,
        ));
    } else {
        lemma_chunk_client(w, b);
        lemma_chunk_client(v, a + b);
    }
}

/// What the client gets of a piece that ends the stream by its length.
proof fn lemma_overlong_client(v: StreamView, bytes: Seq<u8>)
    requires
        !v.finished,
        overlong(piece_taken(v, bytes)),
    ensures
        ({
            let r = piece_taken(v, bytes).relay;
            client_part(chunk_reaction(v, bytes).actions) == send_all(
                piece_progress(v, bytes).out,
            ) + send_all(
                closing_blocks(
                    r,
                    "stream_truncated"@,
                    crate::stream::framing_limit_message(),
                    desktop(r.policy),
                    desktop(r.policy),
                ),
            )
        }),
{
    let p = piece_progress(v, bytes);
    let r = piece_taken(v, bytes).relay;
    let message = crate::stream::framing_limit_message();
    let a = offer_all(p.offers);
    let b = seq![Action::Fail(502, message)];
    let c = if desktop(r.policy) {
        seq![Action::GuardFailure(message)]
    } else {
        Seq::empty()
    };
    let d = send_all(p.out);
    let e = send_all(
        closing_blocks(r, "stream_truncated"@, message, desktop(r.policy), desktop(r.policy)),
    );
    let f = seq![Action::Finish];
    lemma_client_part_concat(a + b + c + d + e, f);
    lemma_client_part_concat(a + b + c + d, e);
    lemma_client_part_concat(a + b + c, d);
    lemma_client_part_concat(a + b, c);
    lemma_client_part_concat(a, b);
    lemma_client_part_none(a);
    lemma_client_part_none(b);
    lemma_client_part_none(c);
    lemma_client_part_all(d);
    lemma_client_part_all(e);
    lemma_client_part_none(f);
    assert(client_part(a + b + c + d + e + f) =~= d + e);
}

/// Whether a block ends with the delimiter.
pub open spec fn delimited(block: Seq<char>) -> bool {
    block.len() >= 2 && block[block.len() - 2] == '\n' && block[block.len() - 1] == '\n'
}

pub open spec fn all_delimited(blocks: Seq<Seq<char>>) -> bool {
    forall|i: int| 0 <= i < blocks.len() ==> delimited(#[trigger] blocks[i])
}

/// Whether all that the client gets is whole blocks.
pub open spec fn whole_blocks(actions: Seq<Action>) -> bool {
    forall|i: int|
        0 <= i < client_part(actions).len() ==> (#[trigger] client_part(
            actions,
        )[i] matches Action::SendBlock(block) && delimited(block))
}

proof fn lemma_ends_delimited(text: Seq<char>)
    ensures
        delimited(text + "\n\n"@),
{
    reveal_strlit("\n\n");
    assert((text + "\n\n"@)[text.len() as int] == '\n');
}

proof fn lemma_rendered_delimited(events: Seq<Synthetic>)
    ensures
        all_delimited(rendered_all(events)),
{
    assert forall|i: int| 0 <= i < events.len() implies delimited(
        #[trigger] rendered_all(events)[i],
    ) by {
        match events[i] {
            Synthetic::ContentBlockStop(index) => {
                reveal_strlit("}\n\n");
                let text =
                    "event: content_block_stop\ndata: {\"type\":\"content_block_stop\",\"index\":"@
                    + crate::text::decimal(index as nat);
                assert((text + "}\n\n"@)[text.len() as int + 1] == '\n');
                assert((text + "}\n\n"@)[text.len() as int + 2] == '\n');
            },
            Synthetic::MessageStart => {
                lemma_ends_delimited(crate::terminal::MESSAGE_START_BLOCK@);
            },
            Synthetic::MessageDelta(crate::terminal::StopReason::ToolUse) => {
                lemma_ends_delimited(crate::terminal::TOOL_USE_BLOCK@);
            },
            Synthetic::MessageDelta(crate::terminal::StopReason::MaxTokens) => {
                lemma_ends_delimited(crate::terminal::MAX_TOKENS_BLOCK@);
            },
            Synthetic::MessageStop => {
                lemma_ends_delimited(crate::terminal::MESSAGE_STOP_BLOCK@);
            },
            Synthetic::Error(error_type, message) => {
                lemma_ends_delimited(
                    "event: error\ndata: "@ + crate::json::json_text(
                        crate::terminal::error_json(error_type, message),
                    ),
                );
            },
        }
    }
}

proof fn lemma_framed_delimited(texts: Seq<Seq<char>>)
    ensures
        all_delimited(framed_all(texts)),
{
    assert forall|i: int| 0 <= i < texts.len() implies delimited(#[trigger] framed_all(texts)[i]) by {
        lemma_ends_delimited(crate::text::trim_newlines(texts[i]));
    }
}

proof fn lemma_delimited_concat(a: Seq<Seq<char>>, b: Seq<Seq<char>>)
    requires
        all_delimited(a),
        all_delimited(b),
    ensures
        all_delimited(a + b),
{
    assert forall|i: int| 0 <= i < (a + b).len() implies delimited(#[trigger] (a + b)[i]) by {
        if i < a.len() {
            assert((a + b)[i] == a[i]);
        } else {
            assert((a + b)[i] == b[i - a.len()]);
        }
    }
}

proof fn lemma_plain_delimited(r: RelayView, text: Seq<char>, event: crate::turn::EventView)
    ensures
        all_delimited(relay_plain(r, text, event).out),
{
    let cleared = crate::relay::drop_unfinished(r, event);
    if event.event_type == "error"@ && desktop(r.policy) {
        let recover = !cleared.turn.saw_text_delta;
        let turn = if recover {
            crate::terminal::recovering(cleared.turn)
        } else {
            cleared.turn
        };
        let opening = if recover {
            recovery_events(cleared.turn)
        } else {
            Seq::empty()
        };
        let ending = terminal_events(
            turn,
            "stream_error"@,
            "Upstream stream failed after partial output"@,
            true,
        );
        lemma_rendered_delimited(opening);
        lemma_rendered_delimited(ending);
        lemma_delimited_concat(rendered_all(opening), rendered_all(ending));
    } else {
        lemma_ends_delimited(crate::terminal::MAX_TOKENS_BLOCK@);
        lemma_ends_delimited(crate::text::trim_newlines(text));
        lemma_ends_delimited(crate::text::trim_newlines(crate::terminal::MAX_TOKENS_BLOCK@));
    }
}

proof fn lemma_relay_delimited(r: RelayView, texts: Seq<Seq<char>>)
    ensures
        all_delimited(relay_blocks(r, texts).out),
    decreases texts.len(),
{
    if texts.len() > 0 {
        let before = relay_blocks(r, texts.drop_last());
        let text = texts.last();
        let last = relay_block(before.relay, text);
        lemma_relay_delimited(r, texts.drop_last());
        reveal(relay_block);
        let event = event_of(text);
        lemma_plain_delimited(before.relay, text, event);
        if event.index is Some && before.relay.held.contains_key(event.index->0) {
            lemma_framed_delimited(before.relay.held[event.index->0].events.push(text));
        }
        lemma_delimited_concat(before.out, last.out);
    }
}

proof fn lemma_closing_delimited(
    r: RelayView,
    error_type: Seq<char>,
    message: Seq<char>,
    recover: bool,
    allow_repair: bool,
)
    ensures
        all_delimited(closing_blocks(r, error_type, message, recover, allow_repair)),
{
    reveal(closing_blocks);
    let events = terminal_events(closed(r, recover).turn, error_type, message, allow_repair);
    lemma_rendered_delimited(recovery_events(r.turn));
    lemma_rendered_delimited(events);
    let opening = if recover {
        rendered_all(recovery_events(r.turn))
    } else {
        Seq::empty()
    };
    lemma_delimited_concat(opening, rendered_all(events));
}

/// The client of an Anthropic stream gets whole blocks and nothing else, whatever the upstream
/// sends: never a part of an event, and never a broken connection.
pub proof fn law_anthropic_client_gets_whole_blocks(v: StreamView, bytes: Seq<u8>, error: Seq<char>)
    requires
        !v.finished,
        anthropic(v.relay.policy),
    ensures
        whole_blocks(chunk_reaction(v, bytes).actions),
        whole_blocks(timeout_reaction(v).actions),
        whole_blocks(error_reaction(v, error).actions),
        whole_blocks(end_reaction(v).actions),
{
    lemma_blocks_policy(v, bytes);
    let out = piece_progress(v, bytes).out;
    lemma_relay_delimited(v.relay, blocks(v.buffer + decoded(v.remainder + bytes)));
    assert(all_delimited(out));
    let taken = piece_taken(v, bytes);
    if overlong(taken) {
        lemma_overlong_client(v, bytes);
        let d = desktop(taken.relay.policy);
        let message = crate::stream::framing_limit_message();
        let closing = closing_blocks(taken.relay, "stream_truncated"@, message, d, d);
        lemma_closing_delimited(taken.relay, "stream_truncated"@, message, d, d);
        lemma_delimited_concat(out, closing);
        assert(send_all(out) + send_all(closing) =~= send_all(out + closing));
    } else {
        lemma_chunk_client(v, bytes);
    }
    let seconds = current_timeout(v);
    let idle_text = crate::stream::idle_message(seconds);
    let broken = if v.first {
        "流式响应首字节超时"@
    } else {
        "流式响应静默期超时"@
    };
    if seconds > 0 {
        lemma_break_off_whole(v, 504, idle_text, "stream_timeout"@, idle_text, broken);
    }
    lemma_break_off_whole(
        v,
        502,
        "Upstream stream I/O error: "@ + error,
        "stream_error"@,
        "Upstream stream ended with an I/O error"@,
        error,
    );
    let recover = desktop(v.relay.policy) && !can_complete(v.relay.turn);
    let closing = closing_blocks(
        v.relay,
        "stream_truncated"@,
        crate::stream::truncated_message(),
        recover,
        true,
    );
    lemma_closing_delimited(
        v.relay,
        "stream_truncated"@,
        crate::stream::truncated_message(),
        recover,
        true,
    );
    let actions = end_reaction(v).actions;
    let n = (actions.len() - 1 - closing.len()) as int;
    let a = actions.take(n);
    let c = seq![Action::Finish];
    assert(actions =~= a + send_all(closing) + c);
    lemma_client_part_concat(a + send_all(closing), c);
    lemma_client_part_concat(a, send_all(closing));
    lemma_client_part_none(a);
    lemma_client_part_all(send_all(closing));
    lemma_client_part_none(c);
    assert(client_part(actions) =~= send_all(closing));
}

proof fn lemma_break_off_whole(
    v: StreamView,
    status: u16,
    record: Seq<char>,
    error_type: Seq<char>,
    message: Seq<char>,
    broken: Seq<char>,
)
    requires
        anthropic(v.relay.policy),
    ensures
        whole_blocks(break_off(v, status, record, error_type, message, broken).actions),
{
    let d = desktop(v.relay.policy);
    let closing = closing_blocks(v.relay, error_type, message, d, d);
    lemma_closing_delimited(v.relay, error_type, message, d, d);
    let actions = break_off(v, status, record, error_type, message, broken).actions;
    let n = (actions.len() - 1 - closing.len()) as int;
    let a = actions.take(n);
    let c = seq![Action::Finish];
    assert(actions =~= a + send_all(closing) + c);
    lemma_client_part_concat(a + send_all(closing), c);
    lemma_client_part_concat(a, send_all(closing));
    lemma_client_part_none(a);
    lemma_client_part_all(send_all(closing));
    lemma_client_part_none(c);
    assert(client_part(actions) =~= send_all(closing));
}

/// A stream for the desktop client starts healthy.
pub proof fn law_desktop_starts_healthy(
    collecting: bool,
    debugging: bool,
    timeouts: StreamingTimeoutConfig,
)
    ensures
        healthy(
            fresh_stream(
                collecting,
                debugging,
                timeouts,
                SseTerminalPolicy::ClaudeDesktopAnthropic,
            ).relay,
        ),
{
}

/// Whether several blocks are in order as they come.
pub open spec fn all_in_order(r: RelayView, texts: Seq<Seq<char>>) -> bool
    decreases texts.len(),
{
    texts.len() == 0 || (all_in_order(r, texts.drop_last()) && in_order(
        relay_blocks(r, texts.drop_last()).relay,
        texts.last(),
    ))
}

proof fn lemma_blocks_healthy(r: RelayView, texts: Seq<Seq<char>>)
    requires
        healthy(r),
        all_in_order(r, texts),
    ensures
        healthy(relay_blocks(r, texts).relay),
    decreases texts.len(),
{
    if texts.len() > 0 {
        lemma_blocks_healthy(r, texts.drop_last());
        law_desktop_stays_healthy(relay_blocks(r, texts.drop_last()).relay, texts.last());
    }
}

/// A piece whose blocks are in order leaves a stream for the desktop client healthy.
pub proof fn law_desktop_piece_keeps_the_stream_healthy(v: StreamView, bytes: Seq<u8>)
    requires
        healthy(v.relay),
        v.inspect,
        all_in_order(v.relay, blocks(v.buffer + decoded(v.remainder + bytes))),
    ensures
        healthy(piece_taken(v, bytes).relay),
        !chunk_reaction(v, bytes).stream.finished ==> healthy(
            chunk_reaction(v, bytes).stream.relay,
        ),
{
    lemma_blocks_healthy(v.relay, blocks(v.buffer + decoded(v.remainder + bytes)));
}

/// However the upstream of a healthy stream for the desktop client stops, the client gets no
/// error but a complete turn. On a timeout, a read error or an overlong event the turn is
/// recovered; on a plain end it is where it lacks more than its `message_stop`.
pub proof fn law_desktop_turn_ends_complete(
    r: RelayView,
    recover: bool,
    error_type: Seq<char>,
    message: Seq<char>,
)
    requires
        healthy(r),
        recover || can_complete(r.turn),
    ensures
        ({
            let turn = closed(r, recover).turn;
            let events = terminal_events(turn, error_type, message, true);
            let end = turn_run(turn, synthetic_events(events));
            &&& forall|i: int| 0 <= i < events.len() ==> !(#[trigger] events[i] is Error)
            &&& end.saw_message_stop
            &&& !end.saw_error
            &&& !r.turn.saw_message_stop ==> can_complete(end)
        }),
{
    reveal(closed);
    let turn = closed(r, recover).turn;
    if !turn.saw_message_stop {
        if recover {
            assert(mendable(turn));
            assert(can_repair(turn));
            lemma_repair_run(turn, error_type, message);
            assert(Map::<u64, Seq<char>>::empty().dom() =~= Set::<u64>::empty());
        } else {
            lemma_completion_run(turn, error_type, message, true);
        }
    }
}

} // verus!
