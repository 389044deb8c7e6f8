//! The passage of one streamed response: what comes from the upstream, what goes to the
//! client, and what is said of it to the usage record and to the connection's guard.

use crate::relay::{
    anthropic, byte_len, desktop, fresh_relay, relay_blocks, saturating_sum, BlockRelay, Progress,
    RelayView, SseTerminalPolicy,
};
use crate::sse::{append_utf8_safe, blocks, decoded, take_sse_block, undecoded, unframed};
use crate::terminal::{
    after_discard, anthropic_terminal_chunks, discard_incomplete_anthropic_blocks,
    ensure_anthropic_silent_recovery, recovering, recovery_events, rendered_all, terminal_events,
};
use crate::text::{concat2, concat3, decimal, decimal_string};
use crate::turn::{anthropic_can_complete_safely, can_complete, TurnState};
use vstd::prelude::*;
use vstd::string::*;

verus! {

/// How many bytes of an unfinished event are kept at most.
pub const MAX_UNFRAMED_ANTHROPIC_SSE_BYTES: usize = 524288;

/// How long a stream may be silent, in seconds; 0 sets no limit.
#[derive(Debug, Clone, Copy, PartialEq, Eq, Structural)]
pub struct StreamingTimeoutConfig {
    /// Until its first bytes.
    pub first_byte_timeout: u64,
    /// Between two pieces.
    pub idle_timeout: u64,
}

/// What is to be done for a stream.
pub enum Action {
    Offer(Seq<char>),
    Fail(u16, Seq<char>),
    GuardSuccess,
    GuardFailure(Seq<char>),
    GuardError(Seq<char>, Seq<char>),
    SendBlock(Seq<char>),
    SendBytes(Seq<u8>),
    SendError(Seq<char>),
    Finish,
}

/// What is to be done for a stream.
pub enum StreamAction {
    /// Offer a payload line to the usage collector.
    Offer(String),
    /// Tell the usage collector that the stream failed.
    Fail { status: u16, message: String },
    /// Tell the connection's guard that the stream succeeded.
    GuardSuccess,
    /// Tell the connection's guard that the stream failed.
    GuardFailure(String),
    /// Tell the connection's guard that the upstream reported an error.
    GuardError { error_type: String, message: String },
    /// Send a block to the client.
    SendBlock(String),
    /// Send bytes to the client.
    SendBytes(Vec<u8>),
    /// Break the client's stream off with an error.
    SendError(String),
    /// Close the usage collector; the stream has ended.
    Finish,
}

impl View for StreamAction {
    type V = Action;

    open spec fn view(&self) -> Action {
        match self {
            StreamAction::Offer(data) => Action::Offer(data@),
            StreamAction::Fail { status, message } => Action::Fail(*status, message@),
            StreamAction::GuardSuccess => Action::GuardSuccess,
            StreamAction::GuardFailure(message) => Action::GuardFailure(message@),
            StreamAction::GuardError { error_type, message } => Action::GuardError(
                error_type@,
                message@,
            ),
            StreamAction::SendBlock(block) => Action::SendBlock(block@),
            StreamAction::SendBytes(bytes) => Action::SendBytes(bytes@),
            StreamAction::SendError(message) => Action::SendError(message@),
            StreamAction::Finish => Action::Finish,
        }
    }
}

/// The views of several actions.
pub open spec fn action_views(actions: Seq<StreamAction>) -> Seq<Action> {
    actions.map_values(|action: StreamAction| action@)
}

/// What is known of a stream between two pieces of it.
#[verifier::ext_equal]
pub struct StreamView {
    pub relay: RelayView,
    pub buffer: Seq<char>,
    pub remainder: Seq<u8>,
    pub inspect: bool,
    pub first: bool,
    pub finished: bool,
    pub timeouts: StreamingTimeoutConfig,
}

/// What a stream does on something that happens to it.
#[verifier::ext_equal]
pub struct Reaction {
    pub stream: StreamView,
    pub actions: Seq<Action>,
}

/// Nothing happens.
pub open spec fn idle(v: StreamView) -> Reaction {
    Reaction { stream: v, actions: Seq::empty() }
}

pub open spec fn offer_all(offers: Seq<Seq<char>>) -> Seq<Action> {
    offers.map_values(|data: Seq<char>| Action::Offer(data))
}

pub open spec fn send_all(blocks: Seq<Seq<char>>) -> Seq<Action> {
    blocks.map_values(|block: Seq<char>| Action::SendBlock(block))
}

/// Whether the turn has ended.
pub open spec fn ended(turn: TurnState) -> bool {
    turn.saw_message_stop || turn.saw_error
}

pub open spec fn or_text(value: Option<Seq<char>>, default: Seq<char>) -> Seq<char> {
    match value {
        Some(text) => text,
        None => default,
    }
}

pub open spec fn early_stop_message() -> Seq<char> {
    "Upstream emitted message_stop before a complete Anthropic turn"@
}

/// What is said of a turn for the desktop client that has ended.
#[verifier::opaque]
pub open spec fn verdict(r: RelayView) -> Seq<Action> {
    if !desktop(r.policy) || !ended(r.turn) {
        Seq::empty()
    } else {
        match r.suppressed {
            Some((error_type, message)) => seq![
                Action::GuardError(error_type, message),
                Action::Fail(502, message),
            ],
            None => if r.turn.saw_error {
                seq![
                    Action::GuardError(
                        or_text(r.turn.error_type, "stream_error"@),
                        or_text(r.turn.error_message, "Upstream stream returned an error event"@),
                    ),
                ]
            } else if can_complete(r.turn) && !r.rewrote {
                seq![Action::GuardSuccess]
            } else {
                seq![
                    Action::GuardFailure(early_stop_message()),
                    Action::Fail(502, early_stop_message()),
                ]
            },
        }
    }
}

/// What the usage record is told of an error event that was passed on.
pub open spec fn error_record(turn: TurnState) -> Seq<Action> {
    if turn.saw_error {
        seq![
            Action::Fail(
                match turn.error_status {
                    Some(status) => status,
                    None => 502,
                },
                or_text(turn.error_message, "Upstream stream returned an error event"@),
            ),
        ]
    } else {
        Seq::empty()
    }
}

/// The relay after the content blocks that were kept back have been given up.
pub open spec fn abandoned(r: RelayView) -> RelayView {
    RelayView {
        held: Map::empty(),
        turn: after_discard(r.turn, r.held.dom() != Set::<u64>::empty()),
        ..r
    }
}

/// The relay whose turn is ended for the upstream.
#[verifier::opaque]
pub open spec fn closed(r: RelayView, recover: bool) -> RelayView {
    let left = abandoned(r);
    RelayView {
        turn: if recover {
            recovering(left.turn)
        } else {
            left.turn
        },
        ..left
    }
}

/// The blocks with which a turn is ended for the upstream.
#[verifier::opaque]
pub open spec fn closing_blocks(
    r: RelayView,
    error_type: Seq<char>,
    message: Seq<char>,
    recover: bool,
    allow_repair: bool,
) -> Seq<Seq<char>> {
    let opening = if recover {
        rendered_all(recovery_events(r.turn))
    } else {
        Seq::empty()
    };
    opening + rendered_all(
        terminal_events(closed(r, recover).turn, error_type, message, allow_repair),
    )
}

/// The stream once it has ended. What an Anthropic stream had not finished is dropped.
pub open spec fn after_end(v: StreamView, relay: RelayView) -> StreamView {
    StreamView {
        relay,
        buffer: if anthropic(v.relay.policy) {
            Seq::empty()
        } else {
            v.buffer
        },
        remainder: if anthropic(v.relay.policy) {
            Seq::empty()
        } else {
            v.remainder
        },
        finished: true,
        ..v
    }
}

pub open spec fn framing_limit_message() -> Seq<char> {
    "Upstream SSE event exceeded the framing limit"@
}

/// Whether an unfinished event is too long.
pub open spec fn overlong(v: StreamView) -> bool {
    v.inspect && anthropic(v.relay.policy) && saturating_sum(
        byte_len(v.buffer),
        v.remainder.len() as usize,
    ) > MAX_UNFRAMED_ANTHROPIC_SSE_BYTES
}

/// What the client gets of a piece: whole blocks of an Anthropic stream, the bytes of any other.
pub open spec fn sent(policy: SseTerminalPolicy, out: Seq<Seq<char>>, bytes: Seq<u8>) -> Seq<Action> {
    if anthropic(policy) {
        send_all(out)
    } else {
        seq![Action::SendBytes(bytes)]
    }
}

pub open spec fn finish_if(condition: bool) -> Seq<Action> {
    if condition {
        seq![Action::Finish]
    } else {
        Seq::empty()
    }
}

/// The blocks in a piece of the stream, relayed.
pub open spec fn piece_progress(v: StreamView, bytes: Seq<u8>) -> Progress {
    if v.inspect {
        relay_blocks(v.relay, blocks(v.buffer + decoded(v.remainder + bytes)))
    } else {
        Progress { relay: v.relay, out: Seq::empty(), offers: Seq::empty() }
    }
}

/// The stream with the blocks in a piece of it relayed.
pub open spec fn piece_taken(v: StreamView, bytes: Seq<u8>) -> StreamView {
    StreamView {
        relay: piece_progress(v, bytes).relay,
        buffer: if v.inspect {
            unframed(v.buffer + decoded(v.remainder + bytes))
        } else {
            v.buffer
        },
        remainder: if v.inspect {
            undecoded(v.remainder + bytes)
        } else {
            v.remainder
        },
        first: false,
        ..v
    }
}

/// A piece of the stream comes.
pub open spec fn chunk_reaction(v: StreamView, bytes: Seq<u8>) -> Reaction {
    if v.finished {
        idle(v)
    } else {
        let progress = piece_progress(v, bytes);
        let taken = piece_taken(v, bytes);
        let r = taken.relay;
        if overlong(taken) {
            Reaction {
                stream: after_end(taken, closed(r, desktop(r.policy))),
                actions: offer_all(progress.offers) + seq![
                    Action::Fail(502, framing_limit_message()),
                ] + (if desktop(r.policy) {
                    seq![Action::GuardFailure(framing_limit_message())]
                } else {
                    Seq::empty()
                }) + send_all(progress.out) + send_all(
                    closing_blocks(
                        r,
                        "stream_truncated"@,
                        framing_limit_message(),
                        desktop(r.policy),
                        desktop(r.policy),
                    ),
                ) + seq![Action::Finish],
            }
        } else {
            let over = anthropic(r.policy) && ended(r.turn);
            Reaction {
                stream: StreamView {
                    relay: RelayView {
                        suppressed: if desktop(r.policy) && ended(r.turn) {
                            None
                        } else {
                            r.suppressed
                        },
                        ..r
                    },
                    finished: over,
                    ..taken
                },
                actions: offer_all(progress.offers) + verdict(r) + sent(
                    r.policy,
                    progress.out,
                    bytes,
                ) + error_record(r.turn) + finish_if(over),
            }
        }
    }
}

/// The upstream breaks off: the record is told unless only a `message_stop` lacked, and the
/// turn is ended, or the client's stream broken off.
pub open spec fn break_off(
    v: StreamView,
    status: u16,
    record: Seq<char>,
    error_type: Seq<char>,
    message: Seq<char>,
    broken: Seq<char>,
) -> Reaction {
    let r = v.relay;
    let fail = if !anthropic(r.policy) || !can_complete(r.turn) {
        seq![Action::Fail(status, record)]
    } else {
        Seq::empty()
    };
    if anthropic(r.policy) {
        Reaction {
            stream: after_end(v, closed(r, desktop(r.policy))),
            actions: fail + (if desktop(r.policy) {
                seq![Action::GuardFailure(message)]
            } else {
                Seq::empty()
            }) + send_all(
                closing_blocks(r, error_type, message, desktop(r.policy), desktop(r.policy)),
            ) + seq![Action::Finish],
        }
    } else {
        Reaction {
            stream: after_end(v, r),
            actions: fail + seq![Action::SendError(broken), Action::Finish],
        }
    }
}

pub open spec fn idle_message(seconds: u64) -> Seq<char> {
    "Upstream stream was idle for "@ + decimal(seconds as nat) + " seconds"@
}

/// How long the stream may be silent now; 0 sets no limit.
pub open spec fn current_timeout(v: StreamView) -> u64 {
    if v.first {
        v.timeouts.first_byte_timeout
    } else {
        v.timeouts.idle_timeout
    }
}

/// The stream was silent for too long.
pub open spec fn timeout_reaction(v: StreamView) -> Reaction {
    let seconds = current_timeout(v);
    if v.finished || seconds == 0 {
        idle(v)
    } else {
        break_off(
            v,
            504,
            idle_message(seconds),
            "stream_timeout"@,
            idle_message(seconds),
            if v.first {
                "流式响应首字节超时"@
            } else {
                "流式响应静默期超时"@
            },
        )
    }
}

/// Reading the stream failed.
pub open spec fn error_reaction(v: StreamView, error: Seq<char>) -> Reaction {
    if v.finished {
        idle(v)
    } else {
        break_off(
            v,
            502,
            "Upstream stream I/O error: "@ + error,
            "stream_error"@,
            "Upstream stream ended with an I/O error"@,
            error,
        )
    }
}

pub open spec fn truncated_message() -> Seq<char> {
    "Upstream stream ended before message_stop"@
}

/// The upstream closes the stream.
pub open spec fn end_reaction(v: StreamView) -> Reaction {
    if v.finished {
        idle(v)
    } else if anthropic(v.relay.policy) {
        let r = v.relay;
        let recover = desktop(r.policy) && !can_complete(r.turn);
        let rewrote = r.rewrote || r.held.dom() != Set::<u64>::empty();
        let last = RelayView { rewrote, ..closed(r, recover) };
        let whole = can_complete(last.turn) && !rewrote;
        Reaction {
            stream: after_end(v, last),
            actions: (if !desktop(r.policy) {
                Seq::empty()
            } else if whole {
                seq![Action::GuardSuccess]
            } else {
                seq![Action::GuardFailure(truncated_message())]
            }) + (if whole {
                Seq::empty()
            } else {
                seq![Action::Fail(502, truncated_message())]
            }) + send_all(
                closing_blocks(r, "stream_truncated"@, truncated_message(), recover, true),
            ) + seq![Action::Finish],
        }
    } else {
        Reaction { stream: after_end(v, v.relay), actions: seq![Action::Finish] }
    }
}

/// One streamed response on its way to the client.
pub struct PassthroughStream {
    pub relay: BlockRelay,
    pub buffer: String,
    pub utf8_remainder: Vec<u8>,
    pub inspect: bool,
    pub first: bool,
    pub finished: bool,
    pub timeouts: StreamingTimeoutConfig,
}

impl View for PassthroughStream {
    type V = StreamView;

    open spec fn view(&self) -> StreamView {
        StreamView {
            relay: self.relay@,
            buffer: self.buffer@,
            remainder: self.utf8_remainder@,
            inspect: self.inspect,
            first: self.first,
            finished: self.finished,
            timeouts: self.timeouts,
        }
    }
}

/// The stream before its first bytes.
pub open spec fn fresh_stream(
    collecting: bool,
    debugging: bool,
    timeouts: StreamingTimeoutConfig,
    policy: SseTerminalPolicy,
) -> StreamView {
    StreamView {
        relay: fresh_relay(policy),
        buffer: Seq::empty(),
        remainder: Seq::empty(),
        inspect: collecting || debugging || anthropic(policy),
        first: true,
        finished: false,
        timeouts,
    }
}

/// Starts the passage of a stream. Its events are looked at where a usage collector or the
/// debug log wants them, and in every Anthropic stream.
pub fn create_logged_passthrough_stream(
    collecting: bool,
    debugging: bool,
    timeouts: StreamingTimeoutConfig,
    policy: SseTerminalPolicy,
) -> (stream: PassthroughStream)
    ensures
        stream@ == fresh_stream(collecting, debugging, timeouts, policy),
{
    proof {
        reveal_strlit("");
        assert(""@ =~= Seq::<char>::empty());
    }
    PassthroughStream {
        relay: BlockRelay::new(policy),
        buffer: "".to_owned(),
        utf8_remainder: Vec::new(),
        inspect: collecting || debugging || policy.is_anthropic(),
        first: true,
        finished: false,
        timeouts,
    }
}

/// Adds an offer for each payload line.
fn push_offers(actions: &mut Vec<StreamAction>, offers: Vec<String>)
    ensures
        action_views(final(actions)@) == action_views(old(actions)@) + offer_all(
            offers.deep_view(),
        ),
{
    let ghost start = action_views(actions@);
    let ghost all = offers.deep_view();
    let mut k: usize = 0;
    assert(start + offer_all(all.take(0)) =~= start);
    while k < offers.len()
        invariant
            k <= offers.len(),
            all == offers.deep_view(),
            action_views(actions@) == start + offer_all(all.take(k as int)),
        decreases offers.len() - k,
    {
        let ghost before = action_views(actions@);
        actions.push(StreamAction::Offer(offers[k].clone()));
        assert(action_views(actions@) =~= before.push(Action::Offer(all[k as int])));
        assert(offer_all(all.take(k + 1)) =~= offer_all(all.take(k as int)).push(
            Action::Offer(all[k as int]),
        ));
        assert(action_views(actions@) =~= start + offer_all(all.take(k + 1)));
        k += 1;
    }
    assert(all.take(all.len() as int) =~= all);
}

/// Adds a sending for each block.
fn push_blocks(actions: &mut Vec<StreamAction>, blocks: Vec<String>)
    ensures
        action_views(final(actions)@) == action_views(old(actions)@) + send_all(blocks.deep_view()),
{
    let ghost start = action_views(actions@);
    let ghost all = blocks.deep_view();
    let mut k: usize = 0;
    assert(start + send_all(all.take(0)) =~= start);
    while k < blocks.len()
        invariant
            k <= blocks.len(),
            all == blocks.deep_view(),
            action_views(actions@) == start + send_all(all.take(k as int)),
        decreases blocks.len() - k,
    {
        let ghost before = action_views(actions@);
        actions.push(StreamAction::SendBlock(blocks[k].clone()));
        assert(action_views(actions@) =~= before.push(Action::SendBlock(all[k as int])));
        assert(send_all(all.take(k + 1)) =~= send_all(all.take(k as int)).push(
            Action::SendBlock(all[k as int]),
        ));
        assert(action_views(actions@) =~= start + send_all(all.take(k + 1)));
        k += 1;
    }
    assert(all.take(all.len() as int) =~= all);
}

/// Adds an action.
fn push(actions: &mut Vec<StreamAction>, action: StreamAction)
    ensures
        action_views(final(actions)@) == action_views(old(actions)@).push(action@),
{
    actions.push(action);
    assert(action_views(actions@) =~= action_views(old(actions)@).push(action@));
}

fn text_or(value: &Option<String>, default: &str) -> (text: String)
    ensures
        text@ == or_text(value.deep_view(), default@),
{
    match value {
        Some(text) => text.clone(),
        None => default.to_owned(),
    }
}

/// Relays the blocks that are complete and takes them out of the buffer: the blocks for the
/// client, and the payload lines for the usage record.
fn drain(relay: &mut BlockRelay, buffer: &mut String) -> (res: (Vec<String>, Vec<String>))
    ensures
        (Progress {
            relay: final(relay)@,
            out: res.0.deep_view(),
            offers: res.1.deep_view(),
        }) == relay_blocks(old(relay)@, blocks(old(buffer)@)),
        final(buffer)@ == unframed(old(buffer)@),
{
    let ghost r = relay@;
    let ghost all = buffer@;
    let ghost mut seen: Seq<Seq<char>> = Seq::empty();
    let mut out: Vec<String> = Vec::new();
    let mut offers: Vec<String> = Vec::new();
    let mut more = true;
    assert(out.deep_view() =~= Seq::<Seq<char>>::empty());
    assert(offers.deep_view() =~= Seq::<Seq<char>>::empty());
    assert(Seq::<Seq<char>>::empty() + blocks(all) =~= blocks(all));
    while more
        invariant
            relay_blocks(r, seen) == (Progress {
                relay: relay@,
                out: out.deep_view(),
                offers: offers.deep_view(),
            }),
            blocks(all) == seen + blocks(buffer@),
            unframed(all) == unframed(buffer@),
            !more ==> blocks(buffer@).len() == 0 && unframed(buffer@) == buffer@,
        decreases
                buffer@.len(),
                (if more {
                    1int
                } else {
                    0int
                }),
    {
        match take_sse_block(buffer) {
            Some(text) => {
                let (mut block_out, mut block_offers) = relay.relay(text.as_str());
                let ghost out0 = out.deep_view();
                let ghost offers0 = offers.deep_view();
                let ghost added_out = block_out.deep_view();
                let ghost added_offers = block_offers.deep_view();
                out.append(&mut block_out);
                offers.append(&mut block_offers);
                proof {
                    assert(out.deep_view() =~= out0 + added_out);
                    assert(offers.deep_view() =~= offers0 + added_offers);
                    let next = seen.push(text@);
                    assert(next.drop_last() =~= seen);
                    assert(seen + (seq![text@] + blocks(buffer@)) =~= next + blocks(buffer@));
                    seen = next;
                }
            },
            None => {
                more = false;
            },
        }
    }
    assert(seen =~= blocks(all));
    (out, offers)
}

impl PassthroughStream {
    /// How long the stream may be silent now, in seconds.
    pub fn next_timeout(&self) -> (res: Option<u64>)
        ensures
            res == (if current_timeout(self@) > 0 {
                Some(current_timeout(self@))
            } else {
                None
            }),
    {
        let seconds = if self.first {
            self.timeouts.first_byte_timeout
        } else {
            self.timeouts.idle_timeout
        };
        if seconds > 0 {
            Some(seconds)
        } else {
            None
        }
    }

    /// Takes a piece of the stream: the blocks for the client, and the payload lines for the
    /// usage record.
    fn take_piece(&mut self, bytes: &[u8]) -> (res: (Vec<String>, Vec<String>))
        ensures
            final(self)@ == piece_taken(old(self)@, bytes@),
            res.0.deep_view() == piece_progress(old(self)@, bytes@).out,
            res.1.deep_view() == piece_progress(old(self)@, bytes@).offers,
    {
        self.first = false;
        if self.inspect {
            append_utf8_safe(&mut self.buffer, &mut self.utf8_remainder, bytes);
            drain(&mut self.relay, &mut self.buffer)
        } else {
            let out: Vec<String> = Vec::new();
            let offers: Vec<String> = Vec::new();
            assert(out.deep_view() =~= Seq::<Seq<char>>::empty());
            assert(offers.deep_view() =~= Seq::<Seq<char>>::empty());
            (out, offers)
        }
    }

    /// Gives up the content blocks that are kept back. Whether there were any.
    fn abandon(&mut self) -> (discarded: bool)
        ensures
            final(self)@ == (StreamView { relay: abandoned(old(self)@.relay), ..old(self)@ }),
            discarded == (old(self)@.relay.held.dom() != Set::<u64>::empty()),
    {
        assert(self@.relay.held.dom() =~= self.relay.held@.dom());
        let discarded = discard_incomplete_anthropic_blocks(
            &mut self.relay.held,
            &mut self.relay.turn,
        );
        assert(self@.relay.held =~= Map::empty());
        discarded
    }

    /// Ends an Anthropic stream: drops what is not finished and ends the turn. The blocks with
    /// which it ends.
    fn close(&mut self, error_type: &str, message: &str, recover: bool, allow_repair: bool) -> (out:
        Vec<String>)
        requires
            anthropic(old(self)@.relay.policy),
        ensures
            final(self)@ == after_end(old(self)@, closed(old(self)@.relay, recover)),
            out.deep_view() == closing_blocks(
                old(self)@.relay,
                error_type@,
                message@,
                recover,
                allow_repair,
            ),
    {
        proof {
            reveal(closed);
            reveal(closing_blocks);
            reveal_strlit("");
            assert(""@ =~= Seq::<char>::empty());
        }
        self.buffer = "".to_owned();
        self.utf8_remainder = Vec::new();
        self.finished = true;
        let _ = self.abandon();
        let mut out: Vec<String> = Vec::new();
        assert(out.deep_view() =~= Seq::<Seq<char>>::empty());
        if recover {
            out = ensure_anthropic_silent_recovery(&mut self.relay.turn);
        }
        let mut ending = anthropic_terminal_chunks(
            &self.relay.turn,
            error_type,
            message,
            allow_repair,
        );
        let ghost opening_view = out.deep_view();
        let ghost ending_view = ending.deep_view();
        out.append(&mut ending);
        assert(out.deep_view() =~= opening_view + ending_view);
        out
    }

    /// Says what became of a turn for the desktop client that has ended.
    fn push_verdict(&mut self, actions: &mut Vec<StreamAction>)
        ensures
            action_views(final(actions)@) == action_views(old(actions)@) + verdict(
                old(self)@.relay,
            ),
            final(self)@ == (StreamView {
                relay: RelayView {
                    suppressed: if desktop(old(self)@.relay.policy) && ended(
                        old(self)@.relay.turn,
                    ) {
                        None
                    } else {
                        old(self)@.relay.suppressed
                    },
                    ..old(self)@.relay
                },
                ..old(self)@
            }),
    {
        proof {
            reveal(verdict);
        }
        let ghost start = action_views(actions@);
        let ghost r = self@.relay;
        if !self.relay.policy.is_claude_desktop() || !(self.relay.turn.saw_message_stop
            || self.relay.turn.saw_error) {
            assert(start + verdict(r) =~= start);
            return ;
        }
        match self.relay.suppressed.take() {
            Some((error_type, message)) => {
                push(actions, StreamAction::GuardError { error_type, message: message.clone() });
                push(actions, StreamAction::Fail { status: 502, message });
            },
            None => {
                if self.relay.turn.saw_error {
                    push(
                        actions,
                        StreamAction::GuardError {
                            error_type: text_or(&self.relay.turn.error_type, "stream_error"),
                            message: text_or(
                                &self.relay.turn.error_message,
                                "Upstream stream returned an error event",
                            ),
                        },
                    );
                } else if anthropic_can_complete_safely(&self.relay.turn) && !self.relay.rewrote {
                    push(actions, StreamAction::GuardSuccess);
                } else {
                    push(
                        actions,
                        StreamAction::GuardFailure(
                            "Upstream emitted message_stop before a complete Anthropic turn".to_owned(),
                        ),
                    );
                    push(
                        actions,
                        StreamAction::Fail {
                            status: 502,
                            message: "Upstream emitted message_stop before a complete Anthropic turn".to_owned(),
                        },
                    );
                }
            },
        }
        assert(action_views(actions@) =~= start + verdict(r));
    }

    /// A piece of the stream came.
    pub fn on_chunk(&mut self, bytes: &[u8]) -> (actions: Vec<StreamAction>)
        ensures
            final(self)@ == chunk_reaction(old(self)@, bytes@).stream,
            action_views(actions@) == chunk_reaction(old(self)@, bytes@).actions,
    {
        let mut actions: Vec<StreamAction> = Vec::new();
        assert(action_views(actions@) =~= Seq::<Action>::empty());
        if self.finished {
            return actions;
        }
        let ghost v = self@;
        let (out, offers) = self.take_piece(bytes);
        let ghost progress = piece_progress(v, bytes@);
        let ghost taken = self@;
        push_offers(&mut actions, offers);
        let is_desktop = self.relay.policy.is_claude_desktop();
        let unfinished = self.buffer.as_str().len().saturating_add(self.utf8_remainder.len());
        if self.inspect && self.relay.policy.is_anthropic() && unfinished
            > MAX_UNFRAMED_ANTHROPIC_SSE_BYTES {
            let message = "Upstream SSE event exceeded the framing limit";
            push(&mut actions, StreamAction::Fail { status: 502, message: message.to_owned() });
            if is_desktop {
                push(&mut actions, StreamAction::GuardFailure(message.to_owned()));
            }
            let closing = self.close("stream_truncated", message, is_desktop, is_desktop);
            push_blocks(&mut actions, out);
            push_blocks(&mut actions, closing);
            push(&mut actions, StreamAction::Finish);
            assert(action_views(actions@) =~= chunk_reaction(v, bytes@).actions);
            return actions;
        }
        self.push_verdict(&mut actions);
        let is_anthropic = self.relay.policy.is_anthropic();
        if is_anthropic {
            push_blocks(&mut actions, out);
        } else {
            let mut copy: Vec<u8> = Vec::new();
            copy.extend_from_slice(bytes);
            assert(copy@ =~= bytes@);
            push(&mut actions, StreamAction::SendBytes(copy));
        }
        if self.relay.turn.saw_error {
            let status = match self.relay.turn.error_status {
                Some(status) => status,
                None => 502,
            };
            let message = text_or(
                &self.relay.turn.error_message,
                "Upstream stream returned an error event",
            );
            push(&mut actions, StreamAction::Fail { status, message });
        }
        if is_anthropic && (self.relay.turn.saw_message_stop || self.relay.turn.saw_error) {
            self.finished = true;
            push(&mut actions, StreamAction::Finish);
        }
        assert(action_views(actions@) =~= chunk_reaction(v, bytes@).actions);
        actions
    }

    /// The upstream broke off.
    fn break_stream(
        &mut self,
        status: u16,
        record: &str,
        error_type: &str,
        message: &str,
        broken: &str,
    ) -> (actions: Vec<StreamAction>)
        ensures
            final(self)@ == break_off(
                old(self)@,
                status,
                record@,
                error_type@,
                message@,
                broken@,
            ).stream,
            action_views(actions@) == break_off(
                old(self)@,
                status,
                record@,
                error_type@,
                message@,
                broken@,
            ).actions,
    {
        let ghost v = self@;
        let mut actions: Vec<StreamAction> = Vec::new();
        assert(action_views(actions@) =~= Seq::<Action>::empty());
        let is_anthropic = self.relay.policy.is_anthropic();
        let is_desktop = self.relay.policy.is_claude_desktop();
        if !is_anthropic || !anthropic_can_complete_safely(&self.relay.turn) {
            push(&mut actions, StreamAction::Fail { status, message: record.to_owned() });
        }
        if is_anthropic {
            let closing = self.close(error_type, message, is_desktop, is_desktop);
            if is_desktop {
                push(&mut actions, StreamAction::GuardFailure(message.to_owned()));
            }
            push_blocks(&mut actions, closing);
        } else {
            self.finished = true;
            push(&mut actions, StreamAction::SendError(broken.to_owned()));
        }
        push(&mut actions, StreamAction::Finish);
        assert(action_views(actions@) =~= break_off(
            v,
            status,
            record@,
            error_type@,
            message@,
            broken@,
        ).actions);
        actions
    }

    /// The stream was silent for too long.
    pub fn on_timeout(&mut self) -> (actions: Vec<StreamAction>)
        ensures
            final(self)@ == timeout_reaction(old(self)@).stream,
            action_views(actions@) == timeout_reaction(old(self)@).actions,
    {
        let none: Vec<StreamAction> = Vec::new();
        assert(action_views(none@) =~= Seq::<Action>::empty());
        if self.finished {
            return none;
        }
        match self.next_timeout() {
            Some(seconds) => {
                let numeral = decimal_string(seconds);
                let message = concat3("Upstream stream was idle for ", numeral.as_str(), " seconds");
                let broken = if self.first {
                    "流式响应首字节超时"
                } else {
                    "流式响应静默期超时"
                };
                self.break_stream(504, message.as_str(), "stream_timeout", message.as_str(), broken)
            },
            None => none,
        }
    }

    /// Reading the stream failed.
    pub fn on_error(&mut self, error: &str) -> (actions: Vec<StreamAction>)
        ensures
            final(self)@ == error_reaction(old(self)@, error@).stream,
            action_views(actions@) == error_reaction(old(self)@, error@).actions,
    {
        if self.finished {
            let none: Vec<StreamAction> = Vec::new();
            assert(action_views(none@) =~= Seq::<Action>::empty());
            return none;
        }
        let record = concat2("Upstream stream I/O error: ", error);
        self.break_stream(
            502,
            record.as_str(),
            "stream_error",
            "Upstream stream ended with an I/O error",
            error,
        )
    }

    /// The upstream closed the stream.
    pub fn on_end(&mut self) -> (actions: Vec<StreamAction>)
        ensures
            final(self)@ == end_reaction(old(self)@).stream,
            action_views(actions@) == end_reaction(old(self)@).actions,
    {
        let ghost v = self@;
        let mut actions: Vec<StreamAction> = Vec::new();
        assert(action_views(actions@) =~= Seq::<Action>::empty());
        if self.finished {
            return actions;
        }
        if self.relay.policy.is_anthropic() {
            let message = "Upstream stream ended before message_stop";
            let is_desktop = self.relay.policy.is_claude_desktop();
            let recover = is_desktop && !anthropic_can_complete_safely(&self.relay.turn);
            let none_held = self.relay.held.is_empty();
            assert(none_held == (v.relay.held.dom() == Set::<u64>::empty())) by {
                assert(v.relay.held.dom() =~= self.relay.held@.dom());
                if none_held {
                    assert(v.relay.held.dom() =~= Set::<u64>::empty());
                }
            }
            let rewrote = self.relay.rewrote || !none_held;
            let closing = self.close("stream_truncated", message, recover, true);
            self.relay.rewrote = rewrote;
            let whole = anthropic_can_complete_safely(&self.relay.turn) && !rewrote;
            if is_desktop {
                if whole {
                    push(&mut actions, StreamAction::GuardSuccess);
                } else {
                    push(&mut actions, StreamAction::GuardFailure(message.to_owned()));
                }
            }
            if !whole {
                push(&mut actions, StreamAction::Fail { status: 502, message: message.to_owned() });
            }
            push_blocks(&mut actions, closing);
        } else {
            self.finished = true;
        }
        push(&mut actions, StreamAction::Finish);
        assert(action_views(actions@) =~= end_reaction(v).actions);
        actions
    }
}

} // verus!
