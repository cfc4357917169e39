//! The streaming response decoder.
//!
//! A response is a run of frames. A frame is a 5-byte header, namely a flag
//! byte and the body's length as a big-endian `u32`, and then the body. Flag
//! 0 ends an event, flag 1 carries a part of one and more follow; the parts
//! of an event, put together, are its body. The decoder keeps the bytes that
//! have arrived and the parts of the event under way, and nothing else.

use vstd::prelude::*;
use crate::event::{decode_event, event_bytes, encodable, parse_event, EventView,
    TokenTransferEvent};
use crate::event::{lemma_event_bytes_len, lemma_event_round_trip};
use crate::filter::admits;
use crate::wire::{be_u32, u32_be, read_u32, push_range, lemma_u32_round_trip};

verus! {

/// Length of a frame's header.
pub const FRAME_HEADER_LEN: usize = 5;

/// Longest event body the decoder will put together.
pub const MAX_EVENT_BODY: usize = 0x10_0000;

/// Flag byte of the frame that ends an event.
pub const FRAME_FINAL: u8 = 0;

/// Flag byte of a frame that more frames of the same event follow.
pub const FRAME_PART: u8 = 1;

/// What the first frame of `pending` amounts to.
pub enum FrameStep {
    /// The frame has not arrived in full.
    NeedMore,
    /// The header, or the event body that the frame ends, is malformed.
    Malformed,
    /// A part of an event: the parts so far, and the bytes behind the frame.
    Part { partial: Seq<u8>, rest: Seq<u8> },
    /// The frame ends an event: the event, and the bytes behind the frame.
    Event { event: EventView, rest: Seq<u8> },
}

/// Reads the first frame of `pending`, where `partial` holds the parts of
/// the event under way.
pub open spec fn frame_step(pending: Seq<u8>, partial: Seq<u8>) -> FrameStep {
    if pending.len() < FRAME_HEADER_LEN {
        FrameStep::NeedMore
    } else if pending[0] != FRAME_FINAL && pending[0] != FRAME_PART {
        FrameStep::Malformed
    } else if partial.len() + be_u32(pending, 1) > MAX_EVENT_BODY {
        FrameStep::Malformed
    } else if pending.len() < FRAME_HEADER_LEN + be_u32(pending, 1) {
        FrameStep::NeedMore
    } else {
        let end = FRAME_HEADER_LEN + be_u32(pending, 1);
        let body = partial + pending.subrange(FRAME_HEADER_LEN as int, end);
        let rest = pending.subrange(end, pending.len() as int);
        if pending[0] == FRAME_PART {
            FrameStep::Part { partial: body, rest }
        } else {
            match parse_event(body) {
                Some(event) => FrameStep::Event { event, rest },
                None => FrameStep::Malformed,
            }
        }
    }
}

/// What one poll of a decoder gives.
pub enum ItemView {
    Event(EventView),
    NeedMore,
    Malformed,
}

/// The result of one poll, with the decoder's contents after it.
pub struct Outcome {
    pub item: ItemView,
    pub pending: Seq<u8>,
    pub partial: Seq<u8>,
}

/// Polls once: reads frames until one ends an event that the filter `ids`
/// admits, a frame is incomplete, or one is malformed. Events that the
/// filter turns away are decoded and dropped.
pub open spec fn next_item(ids: Seq<Seq<u8>>, pending: Seq<u8>, partial: Seq<u8>) -> Outcome
    decreases pending.len(),
{
    match frame_step(pending, partial) {
        FrameStep::NeedMore => Outcome { item: ItemView::NeedMore, pending, partial },
        FrameStep::Malformed => Outcome { item: ItemView::Malformed, pending, partial },
        FrameStep::Part { partial: parts, rest } => next_item(ids, rest, parts),
        FrameStep::Event { event, rest } => if admits(ids, event) {
            Outcome { item: ItemView::Event(event), pending: rest, partial: Seq::empty() }
        } else {
            next_item(ids, rest, Seq::empty())
        },
    }
}

/// Polls once without a filter.
pub open spec fn decode_next(pending: Seq<u8>, partial: Seq<u8>) -> Outcome {
    next_item(Seq::empty(), pending, partial)
}

/// Every event that polling gives from `pending`, in the order it comes,
/// until a frame is incomplete or malformed.
pub open spec fn yielded(ids: Seq<Seq<u8>>, pending: Seq<u8>, partial: Seq<u8>) -> Seq<EventView>
    decreases pending.len(),
{
    match frame_step(pending, partial) {
        FrameStep::NeedMore => Seq::empty(),
        FrameStep::Malformed => Seq::empty(),
        FrameStep::Part { partial: parts, rest } => yielded(ids, rest, parts),
        FrameStep::Event { event, rest } => if admits(ids, event) {
            seq![event] + yielded(ids, rest, Seq::empty())
        } else {
            yielded(ids, rest, Seq::empty())
        },
    }
}

/// A frame with the flag byte `flag` around `body`.
pub open spec fn frame_bytes(flag: u8, body: Seq<u8>) -> Seq<u8> {
    seq![flag] + u32_be(body.len() as int) + body
}

/// The response that carries `events`, each in one frame, in their order.
pub open spec fn stream_bytes(events: Seq<EventView>) -> Seq<u8>
    decreases events.len(),
{
    if events.len() == 0 {
        Seq::empty()
    } else {
        frame_bytes(FRAME_FINAL, event_bytes(events[0])) + stream_bytes(events.drop_first())
    }
}

/// What a poll of a decoder hands back.
#[derive(Debug, PartialEq, Eq)]
pub enum Decoded {
    /// The next event.
    Event(TokenTransferEvent),
    /// The next frame has not arrived in full.
    NeedMore,
    /// The next frame is malformed.
    Malformed,
}

impl View for Decoded {
    type V = ItemView;

    open spec fn view(&self) -> ItemView {
        match self {
            Decoded::Event(e) => ItemView::Event(e@),
            Decoded::NeedMore => ItemView::NeedMore,
            Decoded::Malformed => ItemView::Malformed,
        }
    }
}

/// Decodes a response as it arrives.
#[derive(Debug)]
pub struct StreamDecoder {
    buf: Vec<u8>,
    pos: usize,
    partial: Vec<u8>,
}

impl StreamDecoder {
    /// The bytes that have arrived and belong to no frame read so far.
    pub closed spec fn pending(&self) -> Seq<u8> {
        self.buf@.subrange(self.pos as int, self.buf@.len() as int)
    }

    /// The parts read so far of the event under way.
    pub closed spec fn partial(&self) -> Seq<u8> {
        self.partial@
    }

    /// The decoder's invariant. The parts of an event never pass
    /// `MAX_EVENT_BODY`.
    pub closed spec fn well_formed(&self) -> bool {
        &&& self.pos <= self.buf@.len()
        &&& self.partial@.len() <= MAX_EVENT_BODY
    }

    /// A decoder that has seen no byte.
    pub fn new() -> (d: StreamDecoder)
        ensures
            d.well_formed(),
            d.pending() == Seq::<u8>::empty(),
            d.partial() == Seq::<u8>::empty(),
    {
        let d = StreamDecoder { buf: Vec::new(), pos: 0, partial: Vec::new() };
        assert(d.pending() =~= Seq::<u8>::empty());
        d
    }

    /// Takes in the bytes that arrived. The bytes of frames already read are
    /// let go of here.
    pub fn push(&mut self, chunk: &[u8])
        requires
            old(self).well_formed(),
        ensures
            final(self).well_formed(),
            final(self).pending() == old(self).pending() + chunk@,
            final(self).partial() == old(self).partial(),
    {
        let mut kept: Vec<u8> = Vec::new();
        push_range(&mut kept, self.buf.as_slice(), self.pos, self.buf.len());
        push_range(&mut kept, chunk, 0, chunk.len());
        assert(chunk@.subrange(0, chunk@.len() as int) =~= chunk@);
        assert(kept@.subrange(0, kept@.len() as int) =~= kept@);
        self.buf = kept;
        self.pos = 0;
    }

    /// How many bytes wait to be read.
    pub fn buffered(&self) -> (n: usize)
        requires
            self.well_formed(),
        ensures
            n == self.pending().len(),
    {
        self.buf.len() - self.pos
    }

    /// How many bytes of the event under way have been put together.
    pub fn partial_len(&self) -> (n: usize)
        ensures
            n == self.partial().len(),
    {
        self.partial.len()
    }

    /// Polls once: the next event, or why there is none yet.
    ///
    /// The frames read are consumed. Where the next frame is incomplete or
    /// malformed the decoder stops in front of it, so that a later poll finds
    /// it again.
    pub fn next(&mut self) -> (r: Decoded)
        requires
            old(self).well_formed(),
        ensures
            final(self).well_formed(),
            r@ == decode_next(old(self).pending(), old(self).partial()).item,
            final(self).pending() == decode_next(old(self).pending(), old(self).partial()).pending,
            final(self).partial() == decode_next(old(self).pending(), old(self).partial()).partial,
    {
        loop
            invariant
                self.well_formed(),
                decode_next(self.pending(), self.partial()) == decode_next(
                    old(self).pending(),
                    old(self).partial(),
                ),
            decreases self.pending().len(),
        {
            let ghost pending = self.pending();
            let ghost parts = self.partial();
            let avail: usize = self.buf.len() - self.pos;
            if avail < FRAME_HEADER_LEN {
                return Decoded::NeedMore;
            }
            let flag: u8 = self.buf[self.pos];
            assert(pending[0] == flag);
            if flag != FRAME_FINAL && flag != FRAME_PART {
                return Decoded::Malformed;
            }
            let len: usize = read_u32(self.buf.as_slice(), self.pos + 1) as usize;
            assert(len == be_u32(pending, 1)) by {
                assert(pending[1] == self.buf@[self.pos + 1]);
                assert(pending[2] == self.buf@[self.pos + 2]);
                assert(pending[3] == self.buf@[self.pos + 3]);
                assert(pending[4] == self.buf@[self.pos + 4]);
            }
            if len > MAX_EVENT_BODY - self.partial.len() {
                return Decoded::Malformed;
            }
            if avail - FRAME_HEADER_LEN < len {
                return Decoded::NeedMore;
            }
            let start: usize = self.pos + FRAME_HEADER_LEN;
            let end: usize = start + len;
            let ghost body = parts + pending.subrange(FRAME_HEADER_LEN as int, 5 + len);
            let ghost rest = pending.subrange(5 + len, pending.len() as int);
            assert(self.buf@.subrange(start as int, end as int) =~= pending.subrange(
                FRAME_HEADER_LEN as int,
                5 + len,
            ));
            assert(self.buf@.subrange(end as int, self.buf@.len() as int) =~= rest);
            if flag == FRAME_PART {
                push_range(&mut self.partial, self.buf.as_slice(), start, end);
                self.pos = end;
                assert(frame_step(pending, parts) == (FrameStep::Part { partial: body, rest }));
            } else {
                let mut whole: Vec<u8> = Vec::new();
                push_range(&mut whole, self.partial.as_slice(), 0, self.partial.len());
                push_range(&mut whole, self.buf.as_slice(), start, end);
                assert(parts.subrange(0, parts.len() as int) =~= parts);
                assert(whole@ =~= body);
                match decode_event(whole.as_slice()) {
                    Ok(event) => {
                        self.partial = Vec::new();
                        self.pos = end;
                        assert(frame_step(pending, parts) == (FrameStep::Event {
                            event: event@,
                            rest,
                        }));
                        assert(self.partial() =~= Seq::<u8>::empty());
                        return Decoded::Event(event);
                    },
                    Err(_) => {
                        assert(frame_step(pending, parts) == FrameStep::Malformed);
                        return Decoded::Malformed;
                    },
                }
            }
        }
    }
}

/// A poll never gives bytes back: what is left is no longer than what was
/// there, and shorter after an event.
pub proof fn lemma_poll_consumes(ids: Seq<Seq<u8>>, pending: Seq<u8>, partial: Seq<u8>)
    ensures
        next_item(ids, pending, partial).pending.len() <= pending.len(),
        next_item(ids, pending, partial).item is Event ==> next_item(
            ids,
            pending,
            partial,
        ).pending.len() < pending.len(),
    decreases pending.len(),
{
    match frame_step(pending, partial) {
        FrameStep::Part { partial: parts, rest } => {
            lemma_poll_consumes(ids, rest, parts);
        },
        FrameStep::Event { event, rest } => {
            if !admits(ids, event) {
                lemma_poll_consumes(ids, rest, Seq::empty());
            }
        },
        _ => {},
    }
}

/// A filtered poll is an unfiltered poll, repeated for as long as it gives
/// an event that the filter turns away.
pub proof fn lemma_filter_after_decode(ids: Seq<Seq<u8>>, pending: Seq<u8>, partial: Seq<u8>)
    ensures
        next_item(ids, pending, partial) == (match decode_next(pending, partial).item {
            ItemView::Event(e) => if admits(ids, e) {
                decode_next(pending, partial)
            } else {
                next_item(
                    ids,
                    decode_next(pending, partial).pending,
                    decode_next(pending, partial).partial,
                )
            },
            _ => decode_next(pending, partial),
        }),
    decreases pending.len(),
{
    match frame_step(pending, partial) {
        FrameStep::Part { partial: parts, rest } => {
            lemma_filter_after_decode(ids, rest, parts);
        },
        _ => {},
    }
}

/// The events that polling gives are the first event and then those that
/// polling gives from what the first poll left.
pub proof fn lemma_yielded_by_polls(ids: Seq<Seq<u8>>, pending: Seq<u8>, partial: Seq<u8>)
    ensures
        yielded(ids, pending, partial) == (match next_item(ids, pending, partial).item {
            ItemView::Event(e) => seq![e] + yielded(
                ids,
                next_item(ids, pending, partial).pending,
                next_item(ids, pending, partial).partial,
            ),
            _ => Seq::empty(),
        }),
    decreases pending.len(),
{
    match frame_step(pending, partial) {
        FrameStep::Part { partial: parts, rest } => {
            lemma_yielded_by_polls(ids, rest, parts);
        },
        FrameStep::Event { event, rest } => {
            if !admits(ids, event) {
                lemma_yielded_by_polls(ids, rest, Seq::empty());
            }
        },
        _ => {},
    }
}

/// No event comes out that the filter does not admit: with a filter that is
/// not empty, every event given has its source or its destination in it.
pub proof fn lemma_yielded_admitted(ids: Seq<Seq<u8>>, pending: Seq<u8>, partial: Seq<u8>)
    ensures
        forall|i: int|
            0 <= i < yielded(ids, pending, partial).len() ==> admits(
                ids,
                #[trigger] yielded(ids, pending, partial)[i],
            ),
    decreases pending.len(),
{
    let all = yielded(ids, pending, partial);
    match frame_step(pending, partial) {
        FrameStep::Part { partial: parts, rest } => {
            lemma_yielded_admitted(ids, rest, parts);
            assert(all == yielded(ids, rest, parts));
        },
        FrameStep::Event { event, rest } => {
            lemma_yielded_admitted(ids, rest, Seq::empty());
            let tail = yielded(ids, rest, Seq::empty());
            if admits(ids, event) {
                assert(all == seq![event] + tail);
                assert forall|i: int| 0 <= i < all.len() implies admits(ids, #[trigger] all[i]) by {
                    if i > 0 {
                        assert(all[i] == tail[i - 1]);
                    } else {
                        assert(all[i] == event);
                    }
                }
            } else {
                assert(all == tail);
            }
        },
        _ => {
            assert(all.len() == 0);
        },
    }
}

/// The filter only leaves events out: what comes out with a filter is what
/// comes out without one, less the events the filter turns away, in the
/// same order.
pub proof fn lemma_yielded_filtered(ids: Seq<Seq<u8>>, pending: Seq<u8>, partial: Seq<u8>)
    ensures
        yielded(ids, pending, partial) == yielded(Seq::empty(), pending, partial).filter(
            |e: EventView| admits(ids, e),
        ),
    decreases pending.len(),
{
    let keep = |e: EventView| admits(ids, e);
    let none = Seq::<Seq<u8>>::empty();
    match frame_step(pending, partial) {
        FrameStep::Part { partial: parts, rest } => {
            lemma_yielded_filtered(ids, rest, parts);
        },
        FrameStep::Event { event, rest } => {
            lemma_yielded_filtered(ids, rest, Seq::empty());
            let tail = yielded(none, rest, Seq::empty());
            let one = seq![event];
            assert(one.drop_last() =~= Seq::<EventView>::empty());
            reveal_with_fuel(Seq::filter, 2);
            assert(one.filter(keep) =~= if keep(event) {
                one
            } else {
                Seq::<EventView>::empty()
            });
            Seq::filter_distributes_over_add(one, tail, keep);
            assert(yielded(none, pending, partial) == one + tail);
            assert(yielded(ids, pending, partial) =~= (one + tail).filter(keep));
        },
        _ => {
            assert(Seq::<EventView>::empty().filter(keep) =~= Seq::<EventView>::empty()) by {
                reveal_with_fuel(Seq::filter, 1);
            }
        },
    }
}

/// What a frame's header says, read back from the frame.
proof fn lemma_header_round_trip(flag: u8, n: int, rest: Seq<u8>)
    requires
        0 <= n < 0x1_0000_0000,
    ensures
        (seq![flag] + u32_be(n) + rest).len() == 5 + rest.len(),
        (seq![flag] + u32_be(n) + rest)[0] == flag,
        be_u32(seq![flag] + u32_be(n) + rest, 1) == n,
        (seq![flag] + u32_be(n) + rest).subrange(5, 5 + rest.len() as int) == rest,
{
    let b = seq![flag] + u32_be(n) + rest;
    assert(u32_be(n).len() == 4);
    assert(b.subrange(1, 5) =~= u32_be(n));
    lemma_u32_round_trip(b, 1, n);
    assert(b.subrange(5, 5 + rest.len() as int) =~= rest);
}

/// The frame written for an event reads back as that event, and leaves
/// what follows it.
pub proof fn lemma_frame_round_trip(e: EventView, tail: Seq<u8>)
    requires
        encodable(e),
    ensures
        frame_step(frame_bytes(FRAME_FINAL, event_bytes(e)) + tail, Seq::empty()) == (
        FrameStep::Event { event: e, rest: tail }),
{
    let body = event_bytes(e);
    let n = body.len() as int;
    let b = frame_bytes(FRAME_FINAL, body) + tail;
    lemma_event_bytes_len(e);
    lemma_event_round_trip(e);
    lemma_header_round_trip(FRAME_FINAL, n, body + tail);
    assert(b =~= seq![FRAME_FINAL] + u32_be(n) + (body + tail));
    assert(b.len() == 5 + n + tail.len());
    let payload = b.subrange(5, 5 + n + tail.len());
    assert(payload == body + tail);
    assert(b.subrange(5, 5 + n) =~= payload.subrange(0, n));
    assert(payload.subrange(0, n) =~= body);
    assert(Seq::<u8>::empty() + b.subrange(5, 5 + n) =~= body);
    assert(b.subrange(5 + n, b.len() as int) =~= payload.subrange(n, n + tail.len()));
    assert(payload.subrange(n, n + tail.len()) =~= tail);
}

/// Where the first frame ends an event that the filter admits, that event
/// comes first and the rest follows from the bytes behind the frame.
proof fn lemma_yielded_step(
    ids: Seq<Seq<u8>>,
    pending: Seq<u8>,
    partial: Seq<u8>,
    event: EventView,
    rest: Seq<u8>,
)
    requires
        frame_step(pending, partial) == (FrameStep::Event { event, rest }),
        admits(ids, event),
    ensures
        yielded(ids, pending, partial) == seq![event] + yielded(ids, rest, Seq::empty()),
{
}

/// Events come out in the order their frames were sent: a response made of
/// one frame for each event decodes to exactly those events, in that order.
pub proof fn lemma_stream_round_trip(events: Seq<EventView>)
    requires
        forall|i: int| 0 <= i < events.len() ==> encodable(#[trigger] events[i]),
    ensures
        yielded(Seq::empty(), stream_bytes(events), Seq::empty()) == events,
    decreases events.len(),
{
    let none = Seq::<Seq<u8>>::empty();
    if events.len() > 0 {
        let first = events[0];
        let tail = events.drop_first();
        assert forall|i: int| 0 <= i < tail.len() implies encodable(#[trigger] tail[i]) by {
            assert(tail[i] == events[i + 1]);
        }
        lemma_stream_round_trip(tail);
        assert(stream_bytes(events) == frame_bytes(FRAME_FINAL, event_bytes(first)) + stream_bytes(
            tail,
        ));
        lemma_frame_round_trip(first, stream_bytes(tail));
        lemma_yielded_step(none, stream_bytes(events), Seq::empty(), first, stream_bytes(tail));
        assert(seq![first] + tail =~= events);
    } else {
        assert(stream_bytes(events) =~= Seq::<u8>::empty());
        assert(frame_step(Seq::<u8>::empty(), Seq::<u8>::empty()) == FrameStep::NeedMore);
        assert(yielded(none, Seq::<u8>::empty(), Seq::<u8>::empty()) =~= Seq::<EventView>::empty());
    }
}

/// A poll with a filter gives no event that the filter does not admit.
pub proof fn lemma_next_item_admitted(ids: Seq<Seq<u8>>, pending: Seq<u8>, partial: Seq<u8>)
    ensures
        match next_item(ids, pending, partial).item {
            ItemView::Event(e) => admits(ids, e),
            _ => true,
        },
    decreases pending.len(),
{
    match frame_step(pending, partial) {
        FrameStep::Part { partial: parts, rest } => {
            lemma_next_item_admitted(ids, rest, parts);
        },
        FrameStep::Event { event, rest } => {
            if !admits(ids, event) {
                lemma_next_item_admitted(ids, rest, Seq::empty());
            }
        },
        _ => {},
    }
}

/// A poll that gave no event changes nothing when it is repeated: the
/// decoder stays in front of the frame that is incomplete or malformed.
pub proof fn lemma_poll_settles(ids: Seq<Seq<u8>>, pending: Seq<u8>, partial: Seq<u8>)
    ensures
        !(next_item(ids, pending, partial).item is Event) ==> next_item(
            ids,
            next_item(ids, pending, partial).pending,
            next_item(ids, pending, partial).partial,
        ) == next_item(ids, pending, partial),
    decreases pending.len(),
{
    match frame_step(pending, partial) {
        FrameStep::Part { partial: parts, rest } => {
            lemma_poll_settles(ids, rest, parts);
        },
        FrameStep::Event { event, rest } => {
            if !admits(ids, event) {
                lemma_poll_settles(ids, rest, Seq::empty());
            }
        },
        _ => {},
    }
}

/// Buffering is bounded: the parts of an event never pass `MAX_EVENT_BODY`,
/// and a poll that asks for more leaves less than one header and one
/// largest body waiting.
pub proof fn lemma_buffer_bounded(ids: Seq<Seq<u8>>, pending: Seq<u8>, partial: Seq<u8>)
    requires
        partial.len() <= MAX_EVENT_BODY,
    ensures
        next_item(ids, pending, partial).partial.len() <= MAX_EVENT_BODY,
        next_item(ids, pending, partial).item is NeedMore ==> next_item(
            ids,
            pending,
            partial,
        ).pending.len() < FRAME_HEADER_LEN + MAX_EVENT_BODY,
    decreases pending.len(),
{
    match frame_step(pending, partial) {
        FrameStep::Part { partial: parts, rest } => {
            lemma_buffer_bounded(ids, rest, parts);
        },
        FrameStep::Event { event, rest } => {
            if !admits(ids, event) {
                lemma_buffer_bounded(ids, rest, Seq::empty());
            }
        },
        _ => {},
    }
}

/// Bytes that arrive later do not change what a frame that has arrived in
/// full amounts to; they only follow it.
pub proof fn lemma_frame_step_stable(pending: Seq<u8>, partial: Seq<u8>, more: Seq<u8>)
    ensures
        match frame_step(pending, partial) {
            FrameStep::NeedMore => true,
            FrameStep::Malformed => frame_step(pending + more, partial) == FrameStep::Malformed,
            FrameStep::Part { partial: parts, rest } => frame_step(pending + more, partial) == (
            FrameStep::Part { partial: parts, rest: rest + more }),
            FrameStep::Event { event, rest } => frame_step(pending + more, partial) == (
            FrameStep::Event { event, rest: rest + more }),
        },
{
    let longer = pending + more;
    if pending.len() >= FRAME_HEADER_LEN {
        assert(longer[0] == pending[0]);
        assert(longer[1] == pending[1] && longer[2] == pending[2] && longer[3] == pending[3]
            && longer[4] == pending[4]);
        assert(be_u32(longer, 1) == be_u32(pending, 1));
        let len = be_u32(pending, 1);
        if pending.len() >= FRAME_HEADER_LEN + len && 0 <= len {
            assert(longer.subrange(5, 5 + len) =~= pending.subrange(5, 5 + len));
            assert(longer.subrange(5 + len, longer.len() as int) =~= pending.subrange(
                5 + len,
                pending.len() as int,
            ) + more);
        }
    }
}

/// Events already given stay given: with more bytes, polling gives the
/// same events first, in the same order.
pub proof fn lemma_yielded_prefix(
    ids: Seq<Seq<u8>>,
    pending: Seq<u8>,
    partial: Seq<u8>,
    more: Seq<u8>,
)
    ensures
        yielded(ids, pending, partial).is_prefix_of(yielded(ids, pending + more, partial)),
    decreases pending.len(),
{
    let before = yielded(ids, pending, partial);
    let after = yielded(ids, pending + more, partial);
    lemma_frame_step_stable(pending, partial, more);
    match frame_step(pending, partial) {
        FrameStep::Part { partial: parts, rest } => {
            lemma_yielded_prefix(ids, rest, parts, more);
        },
        FrameStep::Event { event, rest } => {
            lemma_yielded_prefix(ids, rest, Seq::empty(), more);
            let tail = yielded(ids, rest, Seq::empty());
            let longer = yielded(ids, rest + more, Seq::empty());
            if admits(ids, event) {
                assert(before == seq![event] + tail);
                assert(after == seq![event] + longer);
                assert(before =~= after.subrange(0, before.len() as int)) by {
                    assert(tail =~= longer.subrange(0, tail.len() as int));
                }
            }
        },
        _ => {
            assert(before =~= after.subrange(0, 0));
        },
    }
}

} // verus!
