//! What is done for a stream with each piece of it, and when it breaks off or ends.

use crate::delivery_laws::plain;
use crate::relay::{desktop, relay_blocks, RelayView, SseTerminalPolicy};
use crate::sse::{blocks, decoded, undecoded, unframed};
use crate::stream::{
    chunk_reaction, closed, closing_blocks, current_timeout, end_reaction, error_reaction,
    fresh_stream, overlong, piece_taken, timeout_reaction, verdict, Action, StreamView,
    StreamingTimeoutConfig,
};
use crate::stream_laws::lemma_relay_policy;
use crate::terminal::{
    recovering, recovery_events, rendered, rendered_all, terminal_events, Synthetic,
};
use crate::text::decimal;
use crate::turn::{can_complete, can_repair, TurnState};
use vstd::prelude::*;
use vstd::string::*;
use vstd::utf8::encode_utf8;

verus! {

/// Each of several blocks is sent.
pub open spec fn sends(texts: Seq<Seq<char>>) -> Seq<Action> {
    texts.map_values(|text: Seq<char>| Action::SendBlock(text))
}

/// Each of several payload lines is offered to the usage record.
pub open spec fn offers(lines: Seq<Seq<char>>) -> Seq<Action> {
    lines.map_values(|line: Seq<char>| Action::Offer(line))
}

/// Whether a turn goes on.
pub open spec fn goes_on(turn: TurnState) -> bool {
    !turn.saw_message_stop && !turn.saw_error
}

/// What is said of a stream that was silent for so many seconds.
pub open spec fn silence(seconds: u64) -> Seq<char> {
    "Upstream stream was idle for "@ + decimal(seconds as nat) + " seconds"@
}

/// The blocks with which a turn of the desktop client is recovered and ended.
pub open spec fn recovery(turn: TurnState, error_type: Seq<char>, message: Seq<char>) -> Seq<
    Seq<char>,
> {
    rendered_all(recovery_events(turn)) + rendered_all(
        terminal_events(recovering(turn), error_type, message, true),
    )
}

proof fn lemma_sends(texts: Seq<Seq<char>>)
    ensures
        crate::stream::send_all(texts) == sends(texts),
        crate::stream::offer_all(texts) == offers(texts),
{
    assert(crate::stream::send_all(texts) =~= sends(texts));
    assert(crate::stream::offer_all(texts) =~= offers(texts));
}

/// The blocks that end a turn which is neither recovered nor repaired.
proof fn lemma_plain_closing(
    r: RelayView,
    error_type: Seq<char>,
    message: Seq<char>,
    allow_repair: bool,
)
    requires
        plain(r),
        goes_on(r.turn),
    ensures
        closed(r, false).turn == r.turn,
        closing_blocks(r, error_type, message, false, allow_repair) == rendered_all(
            terminal_events(r.turn, error_type, message, allow_repair),
        ),
{
    reveal(closed);
    reveal(closing_blocks);
    assert(closing_blocks(r, error_type, message, false, allow_repair) =~= rendered_all(
        terminal_events(r.turn, error_type, message, allow_repair),
    ));
}

proof fn lemma_recovery_closing(r: RelayView, error_type: Seq<char>, message: Seq<char>)
    ensures
        closing_blocks(r, error_type, message, true, true) == recovery(r.turn, error_type, message),
        closed(r, true).turn == recovering(r.turn),
{
    reveal(closed);
    reveal(closing_blocks);
}

/// The command line client learns of a read error or a long silence by one error event, and of
/// nothing but a `message_stop` where only that lacked; its turn is never ended as if it were
/// complete. The record is told of the failure unless the turn was complete but for its stop.
pub proof fn law_a_broken_stream_ends_with_an_error(v: StreamView, error: Seq<char>)
    requires
        !v.finished,
        plain(v.relay),
        goes_on(v.relay.turn),
    ensures
        ({
            let seconds = if v.first {
                v.timeouts.first_byte_timeout
            } else {
                v.timeouts.idle_timeout
            };
            if can_complete(v.relay.turn) {
                &&& error_reaction(v, error).actions == seq![
                    Action::SendBlock(rendered(Synthetic::MessageStop)),
                    Action::Finish,
                ]
                &&& seconds > 0 ==> timeout_reaction(v).actions == seq![
                    Action::SendBlock(rendered(Synthetic::MessageStop)),
                    Action::Finish,
                ]
            } else {
                &&& error_reaction(v, error).actions == seq![
                    Action::Fail(502, "Upstream stream I/O error: "@ + error),
                    Action::SendBlock(
                        rendered(
                            Synthetic::Error(
                                "stream_error"@,
                                "Upstream stream ended with an I/O error"@,
                            ),
                        ),
                    ),
                    Action::Finish,
                ]
                &&& seconds > 0 ==> timeout_reaction(v).actions == seq![
                    Action::Fail(504, silence(seconds)),
                    Action::SendBlock(
                        rendered(Synthetic::Error("stream_timeout"@, silence(seconds))),
                    ),
                    Action::Finish,
                ]
            }
        }),
{
    let seconds = current_timeout(v);
    let message = "Upstream stream ended with an I/O error"@;
    lemma_plain_closing(v.relay, "stream_error"@, message, false);
    lemma_plain_closing(v.relay, "stream_timeout"@, silence(seconds), false);
    let a = rendered_all(terminal_events(v.relay.turn, "stream_error"@, message, false));
    let b = rendered_all(
        terminal_events(v.relay.turn, "stream_timeout"@, silence(seconds), false),
    );
    lemma_sends(a);
    lemma_sends(b);
    if can_complete(v.relay.turn) {
        assert(a =~= seq![rendered(Synthetic::MessageStop)]);
        assert(b =~= seq![rendered(Synthetic::MessageStop)]);
        assert(error_reaction(v, error).actions =~= seq![
            Action::SendBlock(rendered(Synthetic::MessageStop)),
            Action::Finish,
        ]);
        if seconds > 0 {
            assert(timeout_reaction(v).actions =~= seq![
                Action::SendBlock(rendered(Synthetic::MessageStop)),
                Action::Finish,
            ]);
        }
    } else {
        assert(a =~= seq![rendered(Synthetic::Error("stream_error"@, message))]);
        assert(b =~= seq![rendered(Synthetic::Error("stream_timeout"@, silence(seconds)))]);
        assert(error_reaction(v, error).actions =~= seq![
            Action::Fail(502, "Upstream stream I/O error: "@ + error),
            Action::SendBlock(rendered(Synthetic::Error("stream_error"@, message))),
            Action::Finish,
        ]);
        if seconds > 0 {
            assert(timeout_reaction(v).actions =~= seq![
                Action::Fail(504, silence(seconds)),
                Action::SendBlock(rendered(Synthetic::Error("stream_timeout"@, silence(seconds)))),
                Action::Finish,
            ]);
        }
    }
}

/// When the upstream closes a stream of the command line client, the missing `message_stop` is
/// sent, or the turn repaired where that is possible, and otherwise one error; but for the first,
/// the record is told.
pub proof fn law_a_closed_stream_is_repaired_or_fails(v: StreamView)
    requires
        !v.finished,
        plain(v.relay),
        goes_on(v.relay.turn),
    ensures
        ({
            let turn = v.relay.turn;
            let message = "Upstream stream ended before message_stop"@;
            let actions = end_reaction(v).actions;
            if can_complete(turn) {
                actions == seq![
                    Action::SendBlock(rendered(Synthetic::MessageStop)),
                    Action::Finish,
                ]
            } else if can_repair(turn) {
                actions == seq![Action::Fail(502, message)] + sends(
                    rendered_all(terminal_events(turn, "stream_truncated"@, message, true)),
                ) + seq![Action::Finish]
            } else {
                actions == seq![
                    Action::Fail(502, message),
                    Action::SendBlock(rendered(Synthetic::Error("stream_truncated"@, message))),
                    Action::Finish,
                ]
            }
        }),
{
    let turn = v.relay.turn;
    let message = "Upstream stream ended before message_stop"@;
    lemma_plain_closing(v.relay, "stream_truncated"@, message, true);
    let a = rendered_all(terminal_events(turn, "stream_truncated"@, message, true));
    lemma_sends(a);
    let actions = end_reaction(v).actions;
    if can_complete(turn) {
        assert(a =~= seq![rendered(Synthetic::MessageStop)]);
        assert(actions =~= seq![
            Action::SendBlock(rendered(Synthetic::MessageStop)),
            Action::Finish,
        ]);
    } else if can_repair(turn) {
        assert(actions =~= seq![Action::Fail(502, message)] + sends(a) + seq![Action::Finish]);
    } else {
        assert(a =~= seq![rendered(Synthetic::Error("stream_truncated"@, message))]);
        assert(actions =~= seq![
            Action::Fail(502, message),
            Action::SendBlock(rendered(Synthetic::Error("stream_truncated"@, message))),
            Action::Finish,
        ]);
    }
}

/// What is kept of a failure for the record: nothing where the turn was complete but for its stop.
pub open spec fn failure(turn: TurnState, status: u16, record: Seq<char>) -> Seq<Action> {
    if can_complete(turn) {
        Seq::empty()
    } else {
        seq![Action::Fail(status, record)]
    }
}

/// When a stream of the desktop client breaks off, the guard of the connection is told that it
/// failed, the record too unless only a stop lacked, and the turn is recovered and ended.
pub proof fn law_a_broken_desktop_stream_is_recovered(v: StreamView, error: Seq<char>)
    requires
        !v.finished,
        v.relay.policy is ClaudeDesktopAnthropic,
    ensures
        ({
            let turn = v.relay.turn;
            let message = "Upstream stream ended with an I/O error"@;
            let seconds = if v.first {
                v.timeouts.first_byte_timeout
            } else {
                v.timeouts.idle_timeout
            };
            &&& error_reaction(v, error).actions == failure(
                turn,
                502,
                "Upstream stream I/O error: "@ + error,
            ) + seq![Action::GuardFailure(message)] + sends(
                recovery(turn, "stream_error"@, message),
            ) + seq![Action::Finish]
            &&& seconds > 0 ==> timeout_reaction(v).actions == failure(turn, 504, silence(seconds))
                + seq![Action::GuardFailure(silence(seconds))] + sends(
                recovery(turn, "stream_timeout"@, silence(seconds)),
            ) + seq![Action::Finish]
        }),
{
    let turn = v.relay.turn;
    let message = "Upstream stream ended with an I/O error"@;
    let seconds = current_timeout(v);
    lemma_recovery_closing(v.relay, "stream_error"@, message);
    lemma_recovery_closing(v.relay, "stream_timeout"@, silence(seconds));
    lemma_sends(recovery(turn, "stream_error"@, message));
    lemma_sends(recovery(turn, "stream_timeout"@, silence(seconds)));
    assert(error_reaction(v, error).actions =~= failure(
        turn,
        502,
        "Upstream stream I/O error: "@ + error,
    ) + seq![Action::GuardFailure(message)] + sends(recovery(turn, "stream_error"@, message))
        + seq![Action::Finish]);
    if seconds > 0 {
        assert(timeout_reaction(v).actions =~= failure(turn, 504, silence(seconds)) + seq![
            Action::GuardFailure(silence(seconds)),
        ] + sends(recovery(turn, "stream_timeout"@, silence(seconds))) + seq![Action::Finish]);
    }
}

/// When the upstream closes a stream of the desktop client: a turn that lacks only its stop gets
/// it, and counts as a success where nothing of it was dropped. Every other turn is recovered and
/// counts as a failure.
pub proof fn law_a_closed_desktop_stream_is_completed(v: StreamView)
    requires
        !v.finished,
        v.relay.policy is ClaudeDesktopAnthropic,
        goes_on(v.relay.turn),
    ensures
        ({
            let turn = v.relay.turn;
            let message = "Upstream stream ended before message_stop"@;
            let whole = !v.relay.rewrote && v.relay.held.dom() == Set::<u64>::empty();
            let actions = end_reaction(v).actions;
            if can_complete(turn) && whole {
                actions == seq![
                    Action::GuardSuccess,
                    Action::SendBlock(rendered(Synthetic::MessageStop)),
                    Action::Finish,
                ]
            } else if can_complete(turn) {
                actions == seq![
                    Action::GuardFailure(message),
                    Action::Fail(502, message),
                    Action::SendBlock(rendered(Synthetic::MessageStop)),
                    Action::Finish,
                ]
            } else {
                whole ==> actions == (if can_complete(recovering(turn)) {
                    seq![Action::GuardSuccess]
                } else {
                    seq![Action::GuardFailure(message), Action::Fail(502, message)]
                }) + sends(recovery(turn, "stream_truncated"@, message)) + seq![Action::Finish]
            }
        }),
        ({
            let turn = v.relay.turn;
            let message = "Upstream stream ended before message_stop"@;
            let whole = !v.relay.rewrote && v.relay.held.dom() == Set::<u64>::empty();
            !can_complete(turn) && !whole ==> end_reaction(v).actions == seq![
                Action::GuardFailure(message),
                Action::Fail(502, message),
            ] + sends(recovery(turn, "stream_truncated"@, message)) + seq![Action::Finish]
        }),
{
    let turn = v.relay.turn;
    let message = "Upstream stream ended before message_stop"@;
    let whole = !v.relay.rewrote && v.relay.held.dom() == Set::<u64>::empty();
    let actions = end_reaction(v).actions;
    if can_complete(turn) {
        reveal(closed);
        reveal(closing_blocks);
        let left = closed(v.relay, false).turn;
        assert(can_complete(left));
        let a = closing_blocks(v.relay, "stream_truncated"@, message, false, true);
        assert(a =~= seq![rendered(Synthetic::MessageStop)]);
        lemma_sends(a);
        if whole {
            assert(actions =~= seq![
                Action::GuardSuccess,
                Action::SendBlock(rendered(Synthetic::MessageStop)),
                Action::Finish,
            ]);
        } else {
            assert(actions =~= seq![
                Action::GuardFailure(message),
                Action::Fail(502, message),
                Action::SendBlock(rendered(Synthetic::MessageStop)),
                Action::Finish,
            ]);
        }
    } else {
        lemma_recovery_closing(v.relay, "stream_truncated"@, message);
        let a = recovery(turn, "stream_truncated"@, message);
        lemma_sends(a);
        if whole {
            assert(actions =~= (if can_complete(recovering(turn)) {
                seq![Action::GuardSuccess]
            } else {
                seq![Action::GuardFailure(message), Action::Fail(502, message)]
            }) + sends(a) + seq![Action::Finish]);
        } else {
            assert(actions =~= seq![Action::GuardFailure(message), Action::Fail(502, message)]
                + sends(a) + seq![Action::Finish]);
        }
    }
}

/// A stream that is not Anthropic breaks off for the client when it breaks off, and simply ends
/// when it ends.
pub proof fn law_a_passthrough_stream_breaks_off_as_it_is(v: StreamView, error: Seq<char>)
    requires
        !v.finished,
        v.relay.policy is Passthrough,
    ensures
        ({
            let seconds = if v.first {
                v.timeouts.first_byte_timeout
            } else {
                v.timeouts.idle_timeout
            };
            &&& error_reaction(v, error).actions == seq![
                Action::Fail(502, "Upstream stream I/O error: "@ + error),
                Action::SendError(error),
                Action::Finish,
            ]
            &&& seconds > 0 ==> timeout_reaction(v).actions == seq![
                Action::Fail(504, silence(seconds)),
                Action::SendError(
                    if v.first {
                        "流式响应首字节超时"@
                    } else {
                        "流式响应静默期超时"@
                    },
                ),
                Action::Finish,
            ]
            &&& end_reaction(v).actions == seq![Action::Finish]
        }),
{
    let seconds = current_timeout(v);
    assert(error_reaction(v, error).actions =~= seq![
        Action::Fail(502, "Upstream stream I/O error: "@ + error),
        Action::SendError(error),
        Action::Finish,
    ]);
    if seconds > 0 {
        assert(timeout_reaction(v).actions =~= seq![
            Action::Fail(504, silence(seconds)),
            Action::SendError(
                if v.first {
                    "流式响应首字节超时"@
                } else {
                    "流式响应静默期超时"@
                },
            ),
            Action::Finish,
        ]);
    }
}

/// Until its first bytes a stream has one limit for its silence, and another one then; a limit of
/// zero is none, and without one nothing happens.
pub proof fn law_which_limit_holds(v: StreamView)
    ensures
        v.first ==> current_timeout(v) == v.timeouts.first_byte_timeout,
        !v.first ==> current_timeout(v) == v.timeouts.idle_timeout,
        current_timeout(v) == 0 ==> timeout_reaction(v).actions.len() == 0
            && timeout_reaction(v).stream == v,
{
}

/// A stream starts unread. Its events are looked at where someone wants to know of them, and in
/// every Anthropic stream.
pub proof fn law_how_a_stream_starts(
    collecting: bool,
    debugging: bool,
    timeouts: StreamingTimeoutConfig,
    policy: SseTerminalPolicy,
)
    ensures
        ({
            let v = fresh_stream(collecting, debugging, timeouts, policy);
            &&& v.inspect == (collecting || debugging || policy is AnthropicMessages
                || policy is ClaudeDesktopAnthropic)
            &&& v.first
            &&& !v.finished
            &&& v.buffer.len() == 0
            &&& v.remainder.len() == 0
            &&& v.timeouts == timeouts
            &&& v.relay == crate::relay::fresh_relay(policy)
        }),
{
}

/// Whether what a stream has not framed is too long: more than half a mebibyte.
pub proof fn law_when_an_event_is_too_long(v: StreamView)
    requires
        encode_utf8(v.buffer).len() + v.remainder.len() <= usize::MAX,
    ensures
        overlong(v) <==> v.inspect && !(v.relay.policy is Passthrough) && encode_utf8(
            v.buffer,
        ).len() + v.remainder.len() > 524288,
{
}

/// What a stream keeps of a piece: its text goes behind what was not framed before, every block
/// that it completes is relayed, and the rest waits.
pub proof fn law_what_a_piece_leaves(v: StreamView, bytes: Seq<u8>)
    requires
        !v.finished,
        v.inspect,
        !chunk_reaction(v, bytes).stream.finished,
    ensures
        ({
            let after = chunk_reaction(v, bytes).stream;
            let text = v.buffer + decoded(v.remainder + bytes);
            &&& after.buffer == unframed(text)
            &&& after.remainder == undecoded(v.remainder + bytes)
            &&& !after.first
            &&& after.inspect && after.timeouts == v.timeouts
            &&& after.relay == relay_blocks(v.relay, blocks(text)).relay
        }),
{
    lemma_relay_policy(v.relay, blocks(v.buffer + decoded(v.remainder + bytes)));
}

/// A piece is decoded behind what was left over and framed behind what was not framed yet, unless
/// nobody looks at the stream; its limits stay, and it is no longer before its first bytes.
pub proof fn law_how_a_piece_is_taken(v: StreamView, bytes: Seq<u8>)
    ensures
        ({
            let taken = piece_taken(v, bytes);
            let text = v.buffer + decoded(v.remainder + bytes);
            &&& v.inspect ==> {
                &&& taken.buffer == unframed(text)
                &&& taken.remainder == undecoded(v.remainder + bytes)
                &&& taken.relay == relay_blocks(v.relay, blocks(text)).relay
            }
            &&& !v.inspect ==> {
                &&& taken.buffer == v.buffer
                &&& taken.remainder == v.remainder
                &&& taken.relay == v.relay
            }
            &&& !taken.first
            &&& taken.inspect == v.inspect
            &&& taken.finished == v.finished
            &&& taken.timeouts == v.timeouts
        }),
{
}

/// The client of a stream that is not Anthropic gets each piece as it came; its payload lines are
/// offered where they are looked at.
pub proof fn law_a_passthrough_piece(v: StreamView, bytes: Seq<u8>)
    requires
        !v.finished,
        v.relay.policy is Passthrough,
        !v.relay.turn.saw_error,
    ensures
        ({
            let text = v.buffer + decoded(v.remainder + bytes);
            let lines = if v.inspect {
                relay_blocks(v.relay, blocks(text)).offers
            } else {
                Seq::empty()
            };
            &&& chunk_reaction(v, bytes).actions == offers(lines) + seq![Action::SendBytes(bytes)]
            &&& !chunk_reaction(v, bytes).stream.finished
            &&& !chunk_reaction(v, bytes).stream.first
            &&& !chunk_reaction(v, bytes).stream.relay.turn.saw_error
        }),
{
    reveal(verdict);
    let text = v.buffer + decoded(v.remainder + bytes);
    lemma_relay_policy(v.relay, blocks(text));
    lemma_passthrough_turn(v.relay, blocks(text));
    let lines = if v.inspect {
        relay_blocks(v.relay, blocks(text)).offers
    } else {
        Seq::empty()
    };
    lemma_sends(lines);
    assert(chunk_reaction(v, bytes).actions =~= offers(lines) + seq![Action::SendBytes(bytes)]);
}

proof fn lemma_passthrough_turn(r: RelayView, texts: Seq<Seq<char>>)
    requires
        r.policy is Passthrough,
    ensures
        relay_blocks(r, texts).relay == r,
    decreases texts.len(),
{
    reveal(crate::relay::relay_block);
    if texts.len() > 0 {
        lemma_passthrough_turn(r, texts.drop_last());
    }
}

/// The command line client gets the blocks that a piece completes. The stream ends when its turn
/// does; of an error event the record is told with its status and message.
pub proof fn law_a_piece_for_the_command_line_client(v: StreamView, bytes: Seq<u8>)
    requires
        !v.finished,
        v.inspect,
        v.relay.policy is AnthropicMessages,
        !overlong(piece_taken(v, bytes)),
    ensures
        ({
            let p = relay_blocks(v.relay, blocks(v.buffer + decoded(v.remainder + bytes)));
            let turn = p.relay.turn;
            let record = if turn.saw_error {
                seq![
                    Action::Fail(
                        if turn.error_status is Some {
                            turn.error_status->0
                        } else {
                            502
                        },
                        if turn.error_message is Some {
                            turn.error_message->0
                        } else {
                            "Upstream stream returned an error event"@
                        },
                    ),
                ]
            } else {
                Seq::empty()
            };
            let end = if goes_on(turn) {
                Seq::empty()
            } else {
                seq![Action::Finish]
            };
            &&& chunk_reaction(v, bytes).actions == offers(p.offers) + sends(p.out) + record + end
            &&& chunk_reaction(v, bytes).stream.finished == !goes_on(turn)
            &&& chunk_reaction(v, bytes).stream.relay == p.relay
        }),
{
    reveal(verdict);
    let p = relay_blocks(v.relay, blocks(v.buffer + decoded(v.remainder + bytes)));
    lemma_relay_policy(v.relay, blocks(v.buffer + decoded(v.remainder + bytes)));
    lemma_sends(p.out);
    lemma_sends(p.offers);
    let turn = p.relay.turn;
    let record = crate::stream::error_record(turn);
    let end = if goes_on(turn) {
        Seq::empty()
    } else {
        seq![Action::Finish]
    };
    assert(chunk_reaction(v, bytes).actions =~= offers(p.offers) + sends(p.out) + record + end);
}

/// The type of the error that was kept from the client.
pub open spec fn kept_type(r: RelayView) -> Seq<char> {
    match r.suppressed {
        Some((error_type, _)) => error_type,
        None => Seq::empty(),
    }
}

/// The message of the error that was kept from the client.
pub open spec fn kept_message(r: RelayView) -> Seq<char> {
    match r.suppressed {
        Some((_, message)) => message,
        None => Seq::empty(),
    }
}

/// The desktop client gets the blocks that a piece completes. When its turn ends, the stream does;
/// the guard is told of an error that was kept from the client, of a success where the turn is
/// complete and nothing was dropped, and of a failure otherwise, and the record is told of all but
/// the success.
pub proof fn law_a_piece_for_the_desktop_client(v: StreamView, bytes: Seq<u8>)
    requires
        !v.finished,
        v.inspect,
        v.relay.policy is ClaudeDesktopAnthropic,
        !overlong(piece_taken(v, bytes)),
        !relay_blocks(
            v.relay,
            blocks(v.buffer + decoded(v.remainder + bytes)),
        ).relay.turn.saw_error,
    ensures
        ({
            let p = relay_blocks(v.relay, blocks(v.buffer + decoded(v.remainder + bytes)));
            let turn = p.relay.turn;
            let early = "Upstream emitted message_stop before a complete Anthropic turn"@;
            let said = if p.relay.suppressed is Some {
                seq![
                    Action::GuardError(kept_type(p.relay), kept_message(p.relay)),
                    Action::Fail(502, kept_message(p.relay)),
                ]
            } else if can_complete(turn) && !p.relay.rewrote {
                seq![Action::GuardSuccess]
            } else {
                seq![Action::GuardFailure(early), Action::Fail(502, early)]
            };
            let actions = chunk_reaction(v, bytes).actions;
            &&& !turn.saw_message_stop ==> actions == offers(p.offers) + sends(p.out)
            &&& turn.saw_message_stop ==> actions == offers(p.offers) + said + sends(p.out) + seq![
                Action::Finish,
            ]
            &&& chunk_reaction(v, bytes).stream.finished == turn.saw_message_stop
        }),
{
    reveal(verdict);
    let p = relay_blocks(v.relay, blocks(v.buffer + decoded(v.remainder + bytes)));
    lemma_relay_policy(v.relay, blocks(v.buffer + decoded(v.remainder + bytes)));
    lemma_sends(p.out);
    lemma_sends(p.offers);
    let turn = p.relay.turn;
    let actions = chunk_reaction(v, bytes).actions;
    if turn.saw_message_stop {
        assert(actions =~= offers(p.offers) + verdict(p.relay) + sends(p.out) + seq![
            Action::Finish,
        ]);
    } else {
        assert(actions =~= offers(p.offers) + sends(p.out));
    }
}

/// An error event that did reach the desktop client, from among the events of a content block that
/// was kept back, is told to the guard and to the record, and ends the stream.
pub proof fn law_an_error_that_reached_the_desktop_client_is_told(v: StreamView, bytes: Seq<u8>)
    requires
        !v.finished,
        v.inspect,
        v.relay.policy is ClaudeDesktopAnthropic,
        !overlong(piece_taken(v, bytes)),
        relay_blocks(
            v.relay,
            blocks(v.buffer + decoded(v.remainder + bytes)),
        ).relay.turn.saw_error,
    ensures
        ({
            let p = relay_blocks(v.relay, blocks(v.buffer + decoded(v.remainder + bytes)));
            let turn = p.relay.turn;
            let message = if turn.error_message is Some {
                turn.error_message->0
            } else {
                "Upstream stream returned an error event"@
            };
            let said = if p.relay.suppressed is Some {
                seq![
                    Action::GuardError(kept_type(p.relay), kept_message(p.relay)),
                    Action::Fail(502, kept_message(p.relay)),
                ]
            } else {
                seq![
                    Action::GuardError(
                        if turn.error_type is Some {
                            turn.error_type->0
                        } else {
                            "stream_error"@
                        },
                        message,
                    ),
                ]
            };
            let status = if turn.error_status is Some {
                turn.error_status->0
            } else {
                502
            };
            &&& chunk_reaction(v, bytes).actions == offers(p.offers) + said + sends(p.out) + seq![
                Action::Fail(status, message),
                Action::Finish,
            ]
            &&& chunk_reaction(v, bytes).stream.finished
        }),
{
    reveal(verdict);
    let p = relay_blocks(v.relay, blocks(v.buffer + decoded(v.remainder + bytes)));
    lemma_relay_policy(v.relay, blocks(v.buffer + decoded(v.remainder + bytes)));
    lemma_sends(p.out);
    lemma_sends(p.offers);
    let turn = p.relay.turn;
    assert(chunk_reaction(v, bytes).actions =~= offers(p.offers) + verdict(p.relay) + sends(p.out)
        + crate::stream::error_record(turn) + seq![Action::Finish]);
}

/// An event that gets too long ends an Anthropic stream: the blocks that were complete are still
/// sent, then the turn is ended, with one error for the command line client where it was not
/// complete, and with a recovery for the desktop client.
pub proof fn law_an_event_that_is_too_long_ends_the_stream(v: StreamView, bytes: Seq<u8>)
    requires
        !v.finished,
        v.inspect,
        overlong(piece_taken(v, bytes)),
        goes_on(
            relay_blocks(v.relay, blocks(v.buffer + decoded(v.remainder + bytes))).relay.turn,
        ),
    ensures
        ({
            let p = relay_blocks(v.relay, blocks(v.buffer + decoded(v.remainder + bytes)));
            let turn = p.relay.turn;
            let message = "Upstream SSE event exceeded the framing limit"@;
            let actions = chunk_reaction(v, bytes).actions;
            &&& chunk_reaction(v, bytes).stream.finished
            &&& v.relay.policy is ClaudeDesktopAnthropic ==> actions == offers(p.offers) + seq![
                Action::Fail(502, message),
                Action::GuardFailure(message),
            ] + sends(p.out) + sends(recovery(turn, "stream_truncated"@, message)) + seq![
                Action::Finish,
            ]
            &&& plain(p.relay) ==> actions == offers(p.offers) + seq![Action::Fail(502, message)]
                + sends(p.out) + seq![
                Action::SendBlock(
                    rendered(
                        if can_complete(turn) {
                            Synthetic::MessageStop
                        } else {
                            Synthetic::Error("stream_truncated"@, message)
                        },
                    ),
                ),
                Action::Finish,
            ]
        }),
{
    let p = relay_blocks(v.relay, blocks(v.buffer + decoded(v.remainder + bytes)));
    lemma_relay_policy(v.relay, blocks(v.buffer + decoded(v.remainder + bytes)));
    let message = "Upstream SSE event exceeded the framing limit"@;
    let turn = p.relay.turn;
    let actions = chunk_reaction(v, bytes).actions;
    lemma_sends(p.out);
    lemma_sends(p.offers);
    if v.relay.policy is ClaudeDesktopAnthropic {
        lemma_recovery_closing(p.relay, "stream_truncated"@, message);
        lemma_sends(recovery(turn, "stream_truncated"@, message));
        assert(actions =~= offers(p.offers) + seq![
            Action::Fail(502, message),
            Action::GuardFailure(message),
        ] + sends(p.out) + sends(recovery(turn, "stream_truncated"@, message)) + seq![
            Action::Finish,
        ]);
    }
    if plain(p.relay) {
        lemma_plain_closing(p.relay, "stream_truncated"@, message, false);
        let a = rendered_all(terminal_events(turn, "stream_truncated"@, message, false));
        lemma_sends(a);
        let last = rendered(
            if can_complete(turn) {
                Synthetic::MessageStop
            } else {
                Synthetic::Error("stream_truncated"@, message)
            },
        );
        assert(a =~= seq![last]);
        assert(actions =~= offers(p.offers) + seq![Action::Fail(502, message)] + sends(p.out)
            + seq![Action::SendBlock(last), Action::Finish]);
    }
}

} // verus!
