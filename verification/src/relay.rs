//! Relaying the events of an Anthropic stream one block at a time.
//!
//! A block that the client may see is passed on as it came. For the desktop client a content block
//! other than text is kept back until it is complete, so that a stream which breaks off never
//! shows half a tool call; and an error in the middle of the stream ends the turn instead of
//! reaching the client.

use crate::sse::{data_values, read_data_values};
use crate::terminal::{
    anthropic_terminal_events, discard_incomplete_anthropic_blocks,
    ensure_anthropic_silent_recovery, recovering, recovery_events, render_all, rendered_all,
    synthetic_event, synthetic_events, terminal_events, views, HeldAnthropicContentBlock, HeldView,
    SyntheticEvent, MAX_TOKENS_BLOCK,
};
use crate::text::{concat2, str_eq, trim, trim_newlines, trim_trailing_newlines, trimmed};
use crate::turn::{
    bare_event, describe_anthropic_sse_block, event_of, fresh_turn, note_error,
    observe_anthropic_sse_block, turn_run, turn_step, AnthropicEvent, AnthropicTerminalState,
    EventView, TurnState,
};
use std::collections::{BTreeMap, BTreeSet};
use vstd::prelude::*;
use vstd::string::*;
use vstd::utf8::encode_utf8;

verus! {

/// How a stream is relayed and ended.
#[derive(Debug, Clone, Copy, PartialEq, Eq, Structural)]
pub enum SseTerminalPolicy {
    /// Bytes pass through as they come.
    Passthrough,
    /// Whole Anthropic events pass, and a broken stream ends with an error event.
    AnthropicMessages,
    /// As for Anthropic, but the client is spared every error that can be repaired.
    ClaudeDesktopAnthropic,
}

impl SseTerminalPolicy {
    pub fn is_anthropic(self) -> (res: bool)
        ensures
            res == anthropic(self),
    {
        matches!(
            self,
            SseTerminalPolicy::AnthropicMessages | SseTerminalPolicy::ClaudeDesktopAnthropic
        )
    }

    pub fn is_claude_desktop(self) -> (res: bool)
        ensures
            res == desktop(self),
    {
        self == SseTerminalPolicy::ClaudeDesktopAnthropic
    }
}

pub open spec fn anthropic(policy: SseTerminalPolicy) -> bool {
    policy is AnthropicMessages || policy is ClaudeDesktopAnthropic
}

pub open spec fn desktop(policy: SseTerminalPolicy) -> bool {
    policy is ClaudeDesktopAnthropic
}

/// How many bytes of content blocks are kept back at most.
pub const MAX_HELD_ANTHROPIC_BLOCK_BYTES: usize = 524288;

/// What is known of a stream between two blocks.
#[verifier::ext_equal]
pub struct RelayView {
    pub policy: SseTerminalPolicy,
    pub turn: TurnState,
    pub held: Map<u64, HeldView>,
    pub held_bytes: usize,
    pub ignored: Set<u64>,
    pub rewrote: bool,
    pub suppressed: Option<(Seq<char>, Seq<char>)>,
}

/// What becomes of a stream, and what leaves it for the client and for the usage record.
#[verifier::ext_equal]
pub struct Progress {
    pub relay: RelayView,
    /// The blocks for the client, each with its delimiter.
    pub out: Seq<Seq<char>>,
    /// The payload lines that are offered to the usage record.
    pub offers: Seq<Seq<char>>,
}

pub open spec fn saturating_sum(a: usize, b: usize) -> usize {
    if a + b > usize::MAX {
        usize::MAX
    } else {
        (a + b) as usize
    }
}

pub open spec fn saturating_difference(a: usize, b: usize) -> usize {
    if a < b {
        0
    } else {
        (a - b) as usize
    }
}

/// How many bytes a text takes.
pub open spec fn byte_len(text: Seq<char>) -> usize {
    encode_utf8(text).len() as usize
}

/// The turn with a silent recovery asked for.
pub open spec fn asking_recovery(turn: TurnState) -> TurnState {
    TurnState { silent_recovery_requested: true, ..turn }
}

/// A block as the client gets it: without the line breaks at its end, and with the delimiter.
pub open spec fn framed(text: Seq<char>) -> Seq<char> {
    trim_newlines(text) + "\n\n"@
}

/// Blocks as the client gets them.
pub open spec fn framed_all(texts: Seq<Seq<char>>) -> Seq<Seq<char>> {
    texts.map_values(|text: Seq<char>| framed(text))
}

/// The events of several blocks.
pub open spec fn events_of(texts: Seq<Seq<char>>) -> Seq<EventView> {
    texts.map_values(|text: Seq<char>| event_of(text))
}

/// Whether the block with this event opens a content block that is kept back.
pub open spec fn opens_held(policy: SseTerminalPolicy, event: EventView) -> bool {
    desktop(policy) && event.event_type == "content_block_start"@ && event.block_type != Some(
        "text"@,
    )
}

/// Starts to keep a content block back. One that is too large by itself is dropped, and so is
/// all that follows of it.
pub open spec fn hold_first(r: RelayView, text: Seq<char>, index: u64, block_type: Seq<char>) -> RelayView {
    let size = byte_len(text);
    let total = saturating_sum(r.held_bytes, size);
    if total > MAX_HELD_ANTHROPIC_BLOCK_BYTES {
        RelayView {
            held: r.held.remove(index),
            held_bytes: saturating_difference(total, size),
            ignored: r.ignored.insert(index),
            rewrote: true,
            turn: asking_recovery(r.turn),
            ..r
        }
    } else {
        RelayView {
            held: r.held.insert(
                index,
                HeldView { block_type, events: seq![text], bytes: size },
            ),
            held_bytes: total,
            ..r
        }
    }
}

/// Whether the events of a complete content block that was kept back amount to a tool call
/// whose input is broken.
pub open spec fn broken_tool(block: HeldView) -> bool {
    block.block_type == "tool_use"@ && turn_run(
        fresh_turn(),
        events_of(block.events),
    ).saw_invalid_non_text_block
}

/// A content block that was kept back is complete. It is passed on, unless it is a broken tool
/// call.
pub open spec fn release(r: RelayView, block: HeldView) -> (RelayView, Seq<Seq<char>>) {
    if broken_tool(block) {
        (RelayView { rewrote: true, turn: asking_recovery(r.turn), ..r }, Seq::empty())
    } else {
        (
            RelayView { turn: turn_run(r.turn, events_of(block.events)), ..r },
            framed_all(block.events),
        )
    }
}

/// Another event of a content block that is kept back.
pub open spec fn hold_next(r: RelayView, text: Seq<char>, event: EventView, index: u64) -> (
    RelayView,
    Seq<Seq<char>>,
) {
    let size = byte_len(text);
    let before = r.held[index];
    let block = HeldView {
        events: before.events.push(text),
        bytes: saturating_sum(before.bytes, size),
        ..before
    };
    let total = saturating_sum(r.held_bytes, size);
    let stops = event.event_type == "content_block_stop"@;
    if total > MAX_HELD_ANTHROPIC_BLOCK_BYTES {
        (
            RelayView {
                held: r.held.remove(index),
                held_bytes: saturating_difference(total, block.bytes),
                ignored: if stops {
                    r.ignored
                } else {
                    r.ignored.insert(index)
                },
                rewrote: true,
                turn: asking_recovery(r.turn),
                ..r
            },
            Seq::empty(),
        )
    } else if stops {
        release(
            RelayView {
                held: r.held.remove(index),
                held_bytes: saturating_difference(total, block.bytes),
                ..r
            },
            block,
        )
    } else {
        (RelayView { held: r.held.insert(index, block), held_bytes: total, ..r }, Seq::empty())
    }
}

/// Whether an event ends a turn or its content, so that content blocks which are still kept
/// back will not be completed any more.
pub open spec fn ends_content(event: EventView) -> bool {
    ||| event.event_type == "message_delta"@
    ||| event.event_type == "message_stop"@
    ||| event.event_type == "error"@
}

/// Drops the content blocks that are kept back where an event ends the content.
pub open spec fn drop_unfinished(r: RelayView, event: EventView) -> RelayView {
    if ends_content(event) && r.held.dom() != Set::<u64>::empty() {
        RelayView {
            held: Map::empty(),
            held_bytes: 0,
            ignored: Set::empty(),
            rewrote: true,
            turn: asking_recovery(r.turn),
            ..r
        }
    } else {
        r
    }
}

/// An error in the middle of a stream for the desktop client: it is kept for the record, and the
/// turn ends.
pub open spec fn suppress_error(r: RelayView, event: EventView) -> (RelayView, Seq<Seq<char>>) {
    let noted = note_error(fresh_turn(), event);
    let recover = !r.turn.saw_text_delta;
    let turn = if recover {
        recovering(r.turn)
    } else {
        r.turn
    };
    let opening = if recover {
        recovery_events(r.turn)
    } else {
        Seq::empty()
    };
    let ending = terminal_events(
        turn,
        "stream_error"@,
        "Upstream stream failed after partial output"@,
        true,
    );
    (
        RelayView {
            suppressed: Some((noted.error_type->0, noted.error_message->0)),
            rewrote: true,
            turn: turn_run(turn, synthetic_events(ending)),
            ..r
        },
        rendered_all(opening) + rendered_all(ending),
    )
}

/// What the `message_delta` that the proxy writes after dropping content says.
pub open spec fn cut_off_event() -> EventView {
    EventView { stop_reason: Some("max_tokens"@), ..bare_event("message_delta"@) }
}

/// Passes a block on. After content was dropped, the reason that the upstream gave for the end
/// no longer holds: the turn was cut off.
pub open spec fn pass_on(r: RelayView, text: Seq<char>, event: EventView) -> (
    RelayView,
    Seq<Seq<char>>,
    Seq<char>,
) {
    let missing = r.rewrote && event.event_type == "message_stop"@
        && !r.turn.saw_final_message_delta;
    let turn = if missing {
        turn_step(r.turn, cut_off_event())
    } else {
        r.turn
    };
    let before = if missing {
        seq![MAX_TOKENS_BLOCK@ + "\n\n"@]
    } else {
        Seq::empty()
    };
    let replaced = r.rewrote && event.event_type == "message_delta"@;
    let sent = if replaced {
        MAX_TOKENS_BLOCK@
    } else {
        text
    };
    let said = if replaced {
        cut_off_event()
    } else {
        event
    };
    (RelayView { turn: turn_step(turn, said), ..r }, before.push(framed(sent)), sent)
}

/// The payload lines of a block that are offered to the usage record.
pub open spec fn offered(values: Seq<Seq<char>>) -> Seq<Seq<char>>
    decreases values.len(),
{
    if values.len() == 0 {
        Seq::empty()
    } else if trimmed(values.last()) == "[DONE]"@ {
        offered(values.drop_last())
    } else {
        offered(values.drop_last()).push(values.last())
    }
}

/// A block that is not kept back.
pub open spec fn relay_plain(r: RelayView, text: Seq<char>, event: EventView) -> Progress {
    let cleared = drop_unfinished(r, event);
    if event.event_type == "error"@ && desktop(r.policy) {
        let (relay, out) = suppress_error(cleared, event);
        Progress { relay, out, offers: Seq::empty() }
    } else {
        let (relay, out, sent) = pass_on(cleared, text, event);
        Progress { relay, out, offers: offered(data_values(sent)) }
    }
}

/// A block of an Anthropic stream with the given event.
pub open spec fn relay_event(r: RelayView, text: Seq<char>, event: EventView) -> Progress {
    let offers = offered(data_values(text));
    if opens_held(r.policy, event) {
        match (event.index, event.block_type) {
            (Some(index), Some(block_type)) => Progress {
                relay: hold_first(r, text, index, block_type),
                out: Seq::empty(),
                offers,
            },
            _ => relay_plain(r, text, event),
        }
    } else {
        match event.index {
            Some(index) => if r.ignored.contains(index) {
                Progress {
                    relay: if event.event_type == "content_block_stop"@ {
                        RelayView { ignored: r.ignored.remove(index), ..r }
                    } else {
                        r
                    },
                    out: Seq::empty(),
                    offers,
                }
            } else if r.held.contains_key(index) {
                let (relay, out) = hold_next(r, text, event, index);
                Progress { relay, out, offers }
            } else {
                relay_plain(r, text, event)
            },
            None => relay_plain(r, text, event),
        }
    }
}

/// A block of a stream. One of white space alone is no event.
#[verifier::opaque]
pub open spec fn relay_block(r: RelayView, text: Seq<char>) -> Progress {
    if trimmed(text).len() == 0 {
        Progress { relay: r, out: Seq::empty(), offers: Seq::empty() }
    } else if anthropic(r.policy) {
        relay_event(r, text, event_of(text))
    } else {
        Progress { relay: r, out: Seq::empty(), offers: offered(data_values(text)) }
    }
}

/// Several blocks of a stream.
pub open spec fn relay_blocks(r: RelayView, texts: Seq<Seq<char>>) -> Progress
    decreases texts.len(),
{
    if texts.len() == 0 {
        Progress { relay: r, out: Seq::empty(), offers: Seq::empty() }
    } else {
        let before = relay_blocks(r, texts.drop_last());
        let last = relay_block(before.relay, texts.last());
        Progress {
            relay: last.relay,
            out: before.out + last.out,
            offers: before.offers + last.offers,
        }
    }
}

/// The state before the first block.
pub open spec fn fresh_relay(policy: SseTerminalPolicy) -> RelayView {
    RelayView {
        policy,
        turn: fresh_turn(),
        held: Map::empty(),
        held_bytes: 0,
        ignored: Set::empty(),
        rewrote: false,
        suppressed: None,
    }
}

/// The contents of the content blocks that are kept back.
pub open spec fn held_views(held: Map<u64, HeldAnthropicContentBlock>) -> Map<u64, HeldView> {
    held.map_values(|block: HeldAnthropicContentBlock| block@)
}

/// Relays the blocks of one stream.
pub struct BlockRelay {
    pub policy: SseTerminalPolicy,
    pub turn: AnthropicTerminalState,
    pub held: BTreeMap<u64, HeldAnthropicContentBlock>,
    pub held_bytes: usize,
    pub ignored: BTreeSet<u64>,
    pub rewrote: bool,
    pub suppressed: Option<(String, String)>,
}

impl View for BlockRelay {
    type V = RelayView;

    open spec fn view(&self) -> RelayView {
        RelayView {
            policy: self.policy,
            turn: self.turn@,
            held: held_views(self.held@),
            held_bytes: self.held_bytes,
            ignored: self.ignored@,
            rewrote: self.rewrote,
            suppressed: match self.suppressed {
                Some((error_type, message)) => Some((error_type@, message@)),
                None => None,
            },
        }
    }
}

proof fn lemma_held_insert(
    held: Map<u64, HeldAnthropicContentBlock>,
    index: u64,
    block: HeldAnthropicContentBlock,
)
    ensures
        held_views(held.insert(index, block)) == held_views(held).insert(index, block@),
{
    assert(held_views(held.insert(index, block)) =~= held_views(held).insert(index, block@));
}

proof fn lemma_held_remove(held: Map<u64, HeldAnthropicContentBlock>, index: u64)
    ensures
        held_views(held.remove(index)) == held_views(held).remove(index),
{
    assert(held_views(held.remove(index)) =~= held_views(held).remove(index));
}

/// A block as the client gets it.
fn frame(text: &str) -> (block: String)
    ensures
        block@ == framed(text@),
{
    concat2(trim_trailing_newlines(text), "\n\n")
}

/// Blocks as the client gets them.
fn frame_all(texts: &Vec<String>) -> (out: Vec<String>)
    ensures
        out.deep_view() == framed_all(texts.deep_view()),
{
    let ghost all = texts.deep_view();
    let mut out: Vec<String> = Vec::new();
    let mut k: usize = 0;
    while k < texts.len()
        invariant
            k <= texts.len(),
            all == texts.deep_view(),
            out.deep_view() == framed_all(all.take(k as int)),
        decreases texts.len() - k,
    {
        let ghost before = out.deep_view();
        out.push(frame(texts[k].as_str()));
        assert(out.deep_view() =~= before.push(framed(all[k as int])));
        assert(framed_all(all.take(k + 1)) =~= framed_all(all.take(k as int)).push(
            framed(all[k as int]),
        ));
        k += 1;
    }
    assert(all.take(all.len() as int) =~= all);
    out
}

/// The payload lines of a block that are offered to the usage record.
pub fn read_offers(text: &str) -> (offers: Vec<String>)
    ensures
        offers.deep_view() == offered(data_values(text@)),
{
    let values = read_data_values(text);
    let ghost all = values.deep_view();
    let mut offers: Vec<String> = Vec::new();
    let mut k: usize = 0;
    while k < values.len()
        invariant
            k <= values.len(),
            all == values.deep_view(),
            offers.deep_view() == offered(all.take(k as int)),
        decreases values.len() - k,
    {
        proof {
            assert(all.take(k + 1).drop_last() =~= all.take(k as int));
            assert(all.take(k + 1).last() == values@[k as int]@);
        }
        if !str_eq(trim(values[k].as_str()), "[DONE]") {
            let ghost before = offers.deep_view();
            offers.push(values[k].clone());
            assert(offers.deep_view() =~= before.push(values@[k as int]@));
        }
        k += 1;
    }
    assert(all.take(all.len() as int) =~= all);
    offers
}

/// Moves strings from one list to the end of another.
fn extend(list: &mut Vec<String>, mut more: Vec<String>)
    ensures
        final(list).deep_view() == old(list).deep_view() + more.deep_view(),
{
    let ghost added = more.deep_view();
    list.append(&mut more);
    assert(list.deep_view() =~= old(list).deep_view() + added);
}

impl BlockRelay {
    /// The state before the first block.
    pub fn new(policy: SseTerminalPolicy) -> (relay: BlockRelay)
        ensures
            relay@ == fresh_relay(policy),
    {
        let relay = BlockRelay {
            policy,
            turn: AnthropicTerminalState::new(),
            held: BTreeMap::new(),
            held_bytes: 0,
            ignored: BTreeSet::new(),
            rewrote: false,
            suppressed: None,
        };
        assert(relay@.held =~= Map::<u64, HeldView>::empty());
        relay
    }

    /// Starts to keep a content block back.
    fn hold_start(&mut self, text: &str, index: u64, block_type: &str)
        ensures
            final(self)@ == hold_first(old(self)@, text@, index, block_type@),
    {
        let size = text.len();
        let total = self.held_bytes.saturating_add(size);
        if total > MAX_HELD_ANTHROPIC_BLOCK_BYTES {
            proof {
                lemma_held_remove(self.held@, index);
            }
            self.held.remove(&index);
            self.held_bytes = total.saturating_sub(size);
            self.ignored.insert(index);
            self.rewrote = true;
            self.turn.silent_recovery_requested = true;
        } else {
            let mut events: Vec<String> = Vec::new();
            events.push(text.to_owned());
            assert(events.deep_view() =~= seq![text@]);
            let block = HeldAnthropicContentBlock {
                block_type: block_type.to_owned(),
                events,
                bytes: size,
            };
            proof {
                lemma_held_insert(self.held@, index, block);
            }
            self.held.insert(index, block);
            self.held_bytes = total;
        }
    }

    /// Passes on a content block that was kept back and is complete.
    fn release_block(&mut self, block: HeldAnthropicContentBlock) -> (out: Vec<String>)
        ensures
            final(self)@ == release(old(self)@, block@).0,
            out.deep_view() == release(old(self)@, block@).1,
    {
        if str_eq(block.block_type.as_str(), "tool_use") {
            let mut validation = AnthropicTerminalState::new();
            observe_all(&block.events, &mut validation);
            if validation.saw_invalid_non_text_block {
                self.rewrote = true;
                self.turn.silent_recovery_requested = true;
                let none: Vec<String> = Vec::new();
                assert(none.deep_view() =~= Seq::<Seq<char>>::empty());
                return none;
            }
        }
        observe_all(&block.events, &mut self.turn);
        frame_all(&block.events)
    }

    /// Takes another event of a content block that is kept back.
    fn hold_more(&mut self, text: &str, event: &AnthropicEvent, index: u64) -> (out: Vec<String>)
        requires
            old(self)@.held.contains_key(index),
        ensures
            final(self)@ == hold_next(old(self)@, text@, event@, index).0,
            out.deep_view() == hold_next(old(self)@, text@, event@, index).1,
    {
        let ghost r = self@;
        let size = text.len();
        let stops = str_eq(event.event_type.as_str(), "content_block_stop");
        let total = self.held_bytes.saturating_add(size);
        let out: Vec<String> = Vec::new();
        assert(out.deep_view() =~= Seq::<Seq<char>>::empty());
        proof {
            lemma_held_remove(self.held@, index);
        }
        match self.held.remove(&index) {
            Some(mut block) => {
                assert(block@ == r.held[index]);
                let ghost before = block.events.deep_view();
                block.events.push(text.to_owned());
                assert(block.events.deep_view() =~= before.push(text@));
                block.bytes = block.bytes.saturating_add(size);
                if total > MAX_HELD_ANTHROPIC_BLOCK_BYTES {
                    self.held_bytes = total.saturating_sub(block.bytes);
                    if !stops {
                        self.ignored.insert(index);
                    }
                    self.rewrote = true;
                    self.turn.silent_recovery_requested = true;
                    out
                } else if stops {
                    self.held_bytes = total.saturating_sub(block.bytes);
                    self.release_block(block)
                } else {
                    proof {
                        lemma_held_insert(self.held@, index, block);
                        assert(r.held.remove(index).insert(index, block@) =~= r.held.insert(
                            index,
                            block@,
                        ));
                    }
                    self.held.insert(index, block);
                    self.held_bytes = total;
                    out
                }
            },
            None => out,
        }
    }

    /// Drops the content blocks that are kept back where an event ends the content.
    fn drop_held(&mut self, event: &AnthropicEvent)
        ensures
            final(self)@ == drop_unfinished(old(self)@, event@),
    {
        let event_type = event.event_type.as_str();
        let ends = str_eq(event_type, "message_delta") || str_eq(event_type, "message_stop")
            || str_eq(event_type, "error");
        let none = self.held.is_empty();
        assert(none == (self@.held.dom() == Set::<u64>::empty())) by {
            assert(self@.held.dom() =~= self.held@.dom());
            if none {
                assert(self@.held.dom() =~= Set::<u64>::empty());
            }
        }
        if ends && !none {
            assert(self@.held.dom() =~= self.held@.dom());
            let discarded = discard_incomplete_anthropic_blocks(&mut self.held, &mut self.turn);
            self.rewrote = self.rewrote || discarded;
            self.held_bytes = 0;
            self.ignored.clear();
            assert(self@.held =~= Map::<u64, HeldView>::empty());
        }
    }

    /// Ends the turn where the upstream reports an error.
    fn suppress(&mut self, event: &AnthropicEvent) -> (out: Vec<String>)
        requires
            event@.event_type == "error"@,
        ensures
            final(self)@ == suppress_error(old(self)@, event@).0,
            out.deep_view() == suppress_error(old(self)@, event@).1,
    {
        let mut noted = AnthropicTerminalState::new();
        noted.note_error_event(event);
        let error_type = match noted.error_type {
            Some(error_type) => error_type,
            None => "stream_error".to_owned(),
        };
        let message = match noted.error_message {
            Some(message) => message,
            None => "Upstream stream returned an error event".to_owned(),
        };
        self.suppressed = Some((error_type, message));
        self.rewrote = true;
        let mut out: Vec<String> = Vec::new();
        assert(out.deep_view() =~= Seq::<Seq<char>>::empty());
        if !self.turn.saw_text_delta {
            out = ensure_anthropic_silent_recovery(&mut self.turn);
        } else {
            assert(rendered_all(Seq::empty()) =~= Seq::<Seq<char>>::empty());
        }
        let ending = anthropic_terminal_events(
            &self.turn,
            "stream_error",
            "Upstream stream failed after partial output",
            true,
        );
        observe_synthetic(&ending, &mut self.turn);
        extend(&mut out, render_all(&ending));
        out
    }

    /// Passes a block on. What was sent is the block itself or the one in its place.
    fn pass(&mut self, text: &str, event: &AnthropicEvent) -> (res: (Vec<String>, String))
        ensures
            final(self)@ == pass_on(old(self)@, text@, event@).0,
            res.0.deep_view() == pass_on(old(self)@, text@, event@).1,
            res.1@ == pass_on(old(self)@, text@, event@).2,
    {
        let ghost r = self@;
        let mut out: Vec<String> = Vec::new();
        assert(out.deep_view() =~= Seq::<Seq<char>>::empty());
        let cut_off = SyntheticEvent::MessageDelta(crate::terminal::StopReason::MaxTokens);
        let cut_off_said = cut_off.event();
        if self.rewrote && str_eq(event.event_type.as_str(), "message_stop")
            && !self.turn.saw_final_message_delta {
            self.turn.observe_event(&cut_off_said);
            out.push(cut_off.render());
            assert(out.deep_view() =~= seq![MAX_TOKENS_BLOCK@ + "\n\n"@]);
        }
        let ghost before = out.deep_view();
        let sent = if self.rewrote && str_eq(event.event_type.as_str(), "message_delta") {
            self.turn.observe_event(&cut_off_said);
            MAX_TOKENS_BLOCK.to_owned()
        } else {
            self.turn.observe_event(event);
            text.to_owned()
        };
        out.push(frame(sent.as_str()));
        assert(out.deep_view() =~= before.push(framed(sent@)));
        (out, sent)
    }

    /// Relays a block that is not kept back.
    fn relay_unheld(&mut self, text: &str, event: &AnthropicEvent) -> (res: (
        Vec<String>,
        Vec<String>,
    ))
        ensures
            (Progress {
                relay: final(self)@,
                out: res.0.deep_view(),
                offers: res.1.deep_view(),
            }) == relay_plain(old(self)@, text@, event@),
    {
        self.drop_held(event);
        if str_eq(event.event_type.as_str(), "error") && self.policy.is_claude_desktop() {
            let out = self.suppress(event);
            let offers: Vec<String> = Vec::new();
            assert(offers.deep_view() =~= Seq::<Seq<char>>::empty());
            (out, offers)
        } else {
            let (out, sent) = self.pass(text, event);
            (out, read_offers(sent.as_str()))
        }
    }

    /// Relays a block of an Anthropic stream with the given event: the blocks for the client,
    /// and the payload lines for the usage record.
    pub fn relay_with_event(&mut self, text: &str, event: &AnthropicEvent) -> (res: (
        Vec<String>,
        Vec<String>,
    ))
        ensures
            (Progress {
                relay: final(self)@,
                out: res.0.deep_view(),
                offers: res.1.deep_view(),
            }) == relay_event(old(self)@, text@, event@),
    {
        let none: Vec<String> = Vec::new();
        assert(none.deep_view() =~= Seq::<Seq<char>>::empty());
        let is_text = match &event.block_type {
            Some(block_type) => str_eq(block_type.as_str(), "text"),
            None => false,
        };
        if self.policy.is_claude_desktop() && str_eq(
            event.event_type.as_str(),
            "content_block_start",
        ) && !is_text {
            match (event.index, &event.block_type) {
                (Some(index), Some(block_type)) => {
                    self.hold_start(text, index, block_type.as_str());
                    (none, read_offers(text))
                },
                _ => self.relay_unheld(text, event),
            }
        } else {
            match event.index {
                Some(index) => if self.ignored.contains(&index) {
                    if str_eq(event.event_type.as_str(), "content_block_stop") {
                        self.ignored.remove(&index);
                    }
                    (none, read_offers(text))
                } else if self.held.contains_key(&index) {
                    let out = self.hold_more(text, event, index);
                    (out, read_offers(text))
                } else {
                    self.relay_unheld(text, event)
                },
                None => self.relay_unheld(text, event),
            }
        }
    }

    /// Relays a block: the blocks for the client, and the payload lines for the usage record.
    pub fn relay(&mut self, text: &str) -> (res: (Vec<String>, Vec<String>))
        ensures
            (Progress {
                relay: final(self)@,
                out: res.0.deep_view(),
                offers: res.1.deep_view(),
            }) == relay_block(old(self)@, text@),
    {
        proof {
            reveal(relay_block);
        }
        let none: Vec<String> = Vec::new();
        assert(none.deep_view() =~= Seq::<Seq<char>>::empty());
        if trim(text).is_empty() {
            let no_offers: Vec<String> = Vec::new();
            assert(no_offers.deep_view() =~= Seq::<Seq<char>>::empty());
            (none, no_offers)
        } else if self.policy.is_anthropic() {
            let event = describe_anthropic_sse_block(text);
            self.relay_with_event(text, &event)
        } else {
            (none, read_offers(text))
        }
    }
}

/// The events of several blocks become part of a turn.
fn observe_all(texts: &Vec<String>, turn: &mut AnthropicTerminalState)
    ensures
        final(turn)@ == turn_run(old(turn)@, events_of(texts.deep_view())),
{
    let ghost all = texts.deep_view();
    let ghost start = turn@;
    let mut k: usize = 0;
    while k < texts.len()
        invariant
            k <= texts.len(),
            all == texts.deep_view(),
            turn@ == turn_run(start, events_of(all.take(k as int))),
        decreases texts.len() - k,
    {
        observe_anthropic_sse_block(texts[k].as_str(), turn);
        assert(events_of(all.take(k + 1)).drop_last() =~= events_of(all.take(k as int)));
        assert(events_of(all.take(k + 1)).last() == event_of(all[k as int]));
        k += 1;
    }
    assert(all.take(all.len() as int) =~= all);
}

/// Events that the proxy writes become part of a turn.
fn observe_synthetic(events: &Vec<SyntheticEvent>, turn: &mut AnthropicTerminalState)
    ensures
        final(turn)@ == turn_run(old(turn)@, synthetic_events(views(events@))),
{
    let ghost start = turn@;
    let ghost all = synthetic_events(views(events@));
    let mut k: usize = 0;
    while k < events.len()
        invariant
            k <= events.len(),
            all == synthetic_events(views(events@)),
            turn@ == turn_run(start, all.take(k as int)),
        decreases events.len() - k,
    {
        let event = events[k].event();
        turn.observe_event(&event);
        assert(all.take(k + 1).drop_last() =~= all.take(k as int));
        assert(all.take(k + 1).last() == synthetic_event(events@[k as int]@));
        k += 1;
    }
    assert(all.take(all.len() as int) =~= all);
}

} // verus!
