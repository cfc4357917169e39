//! One response stream, as a state machine.
//!
//! A transport tells the stream what happened: bytes arrived, the service
//! closed the response, the session failed, the service reported an error,
//! or the caller gave up. The stream answers a poll with the next thing to
//! hand to the caller. It performs no I/O itself.

use vstd::prelude::*;
use crate::decoder::{decode_next, next_item, Decoded, ItemView, Outcome, StreamDecoder,
    FRAME_HEADER_LEN};
use crate::decoder::{lemma_filter_after_decode, lemma_next_item_admitted, lemma_poll_consumes,
    lemma_poll_settles};
use crate::error::{ClientError, ConnectionFault, ServerStatus};
use crate::event::{EventView, TokenTransferEvent};
use crate::filter::admits;
use crate::request::{EventRequest, RequestView};
use crate::timer::{idle_expired, IdleTimer};

verus! {

/// Where a stream stands.
#[derive(Clone, Copy, Debug, PartialEq, Eq, Structural)]
pub enum Phase {
    /// The next frame's header has not arrived in full.
    AwaitingHeader,
    /// A header has arrived and its body has not, in full.
    AwaitingBody,
    /// The last poll gave an event.
    Yielding,
    /// The response ended as it should, and everything was handed over.
    Closed,
    /// The stream failed.
    Errored,
}

/// How a response came to its end.
#[derive(Debug, PartialEq, Eq)]
pub enum StreamEnd {
    /// The service closed the response.
    Clean,
    /// The caller gave the stream up.
    Cancelled,
    /// The transport failed.
    Fault(ConnectionFault),
    /// The service reported a failure.
    Server(ServerStatus),
}

/// What a poll hands to the caller.
#[derive(Debug, PartialEq, Eq)]
pub enum StreamItem {
    /// The next event.
    Event(TokenTransferEvent),
    /// Nothing yet: the transport has to bring more.
    NeedInput,
    /// The stream is over and nothing is left.
    Done,
    /// The stream is over, for this reason.
    Failed(ClientError),
}

/// What a poll hands to the caller, as plain mathematical values.
pub enum StreamItemView {
    Event(EventView),
    NeedInput,
    Done,
    Failed(ClientError),
}

impl View for StreamItem {
    type V = StreamItemView;

    open spec fn view(&self) -> StreamItemView {
        match self {
            StreamItem::Event(e) => StreamItemView::Event(e@),
            StreamItem::NeedInput => StreamItemView::NeedInput,
            StreamItem::Done => StreamItemView::Done,
            StreamItem::Failed(e) => StreamItemView::Failed(*e),
        }
    }
}

/// What a stream is, as plain mathematical values.
pub struct StreamView {
    pub request: RequestView,
    pub pending: Seq<u8>,
    pub partial: Seq<u8>,
    pub end: Option<StreamEnd>,
    pub phase: Phase,
}

/// What the end of the response amounts to once the bytes that arrived are
/// used up: a response that was closed in the middle of a frame or of an
/// event is malformed.
pub open spec fn end_item(end: StreamEnd, pending: Seq<u8>, partial: Seq<u8>) -> StreamItemView {
    match end {
        StreamEnd::Clean => if pending.len() == 0 && partial.len() == 0 {
            StreamItemView::Done
        } else {
            StreamItemView::Failed(ClientError::DecodeError)
        },
        StreamEnd::Cancelled => StreamItemView::Done,
        StreamEnd::Fault(fault) => StreamItemView::Failed(ClientError::ConnectionError(fault)),
        StreamEnd::Server(status) => StreamItemView::Failed(ClientError::ServerError(status)),
    }
}

/// What a poll hands over, given what decoding gave and how the response
/// ended, if it has. Events that arrived before the end come first.
pub open spec fn poll_item(o: Outcome, end: Option<StreamEnd>) -> StreamItemView {
    match o.item {
        ItemView::Event(e) => StreamItemView::Event(e),
        ItemView::Malformed => StreamItemView::Failed(ClientError::DecodeError),
        ItemView::NeedMore => match end {
            None => StreamItemView::NeedInput,
            Some(end) => end_item(end, o.pending, o.partial),
        },
    }
}

/// Where the stream stands after a poll that handed over `item`.
pub open spec fn phase_after(item: StreamItemView, pending: Seq<u8>) -> Phase {
    match item {
        StreamItemView::Event(_) => Phase::Yielding,
        StreamItemView::NeedInput => if pending.len() >= FRAME_HEADER_LEN {
            Phase::AwaitingBody
        } else {
            Phase::AwaitingHeader
        },
        StreamItemView::Done => Phase::Closed,
        StreamItemView::Failed(_) => Phase::Errored,
    }
}

/// The stream after a poll.
pub open spec fn poll(s: StreamView) -> (StreamView, StreamItemView) {
    if s.end == Some(StreamEnd::Cancelled) {
        (StreamView { phase: Phase::Closed, ..s }, StreamItemView::Done)
    } else {
        let o = next_item(s.request.account_ids, s.pending, s.partial);
        let item = poll_item(o, s.end);
        (
            StreamView {
                pending: o.pending,
                partial: o.partial,
                phase: phase_after(item, o.pending),
                ..s
            },
            item,
        )
    }
}

/// The stream after a signal: the first end that is signalled stays, and
/// whatever is signalled after it changes nothing.
pub open spec fn signal(s: StreamView, end: StreamEnd) -> StreamView {
    if s.end is None {
        StreamView { end: Some(end), ..s }
    } else {
        s
    }
}

/// The stream after `chunk` arrived: bytes that come after the end of the
/// response are not taken in.
pub open spec fn arrive(s: StreamView, chunk: Seq<u8>) -> StreamView {
    if s.end is None {
        StreamView { pending: s.pending + chunk, ..s }
    } else {
        s
    }
}

/// A stream hands over no event that its request's filter does not admit:
/// where accounts were asked for, the source or the destination of every
/// event handed over is one of them.
pub proof fn lemma_poll_admitted(s: StreamView)
    ensures
        match poll(s).1 {
            StreamItemView::Event(e) => admits(s.request.account_ids, e),
            _ => true,
        },
{
    lemma_next_item_admitted(s.request.account_ids, s.pending, s.partial);
}

/// The end is final: once a poll has said `Done` or `Failed`, every later
/// poll says the same and the stream no longer changes.
pub proof fn lemma_end_is_final(s: StreamView)
    ensures
        (poll(s).1 is Done || poll(s).1 is Failed) ==> poll(poll(s).0) == poll(s),
{
    lemma_poll_settles(s.request.account_ids, s.pending, s.partial);
}

/// After the end of the response was signalled, no signal and no bytes
/// change the stream, unless the caller gives it up.
pub proof fn lemma_first_end_stays(s: StreamView, end: StreamEnd, chunk: Seq<u8>)
    requires
        s.end is Some,
    ensures
        signal(s, end) == s,
        arrive(s, chunk) == s,
{
}

/// How the bytes are cut into chunks makes no difference to the stream.
pub proof fn lemma_chunks_join(s: StreamView, first: Seq<u8>, second: Seq<u8>)
    ensures
        arrive(arrive(s, first), second) == arrive(s, first + second),
{
    assert((s.pending + first) + second =~= s.pending + (first + second));
}

/// One response stream: the request it answers, the decoder, and how the
/// response ended, once it has.
#[derive(Debug)]
pub struct EventStream {
    request: EventRequest,
    decoder: StreamDecoder,
    end: Option<StreamEnd>,
    phase: Phase,
}

impl View for EventStream {
    type V = StreamView;

    closed spec fn view(&self) -> StreamView {
        StreamView {
            request: self.request@,
            pending: self.decoder.pending(),
            partial: self.decoder.partial(),
            end: self.end,
            phase: self.phase,
        }
    }
}

impl EventStream {
    /// The stream's invariant.
    pub closed spec fn well_formed(&self) -> bool {
        self.decoder.well_formed() && self.request.well_formed()
    }

    /// The stream of a request that has not been answered yet.
    pub fn new(request: EventRequest) -> (s: EventStream)
        requires
            request.well_formed(),
        ensures
            s.well_formed(),
            s@ == (StreamView {
                request: request@,
                pending: Seq::empty(),
                partial: Seq::empty(),
                end: None,
                phase: Phase::AwaitingHeader,
            }),
    {
        EventStream {
            request,
            decoder: StreamDecoder::new(),
            end: None,
            phase: Phase::AwaitingHeader,
        }
    }

    /// The request that the stream answers.
    pub fn request(&self) -> (r: &EventRequest)
        ensures
            r@ == self@.request,
    {
        &self.request
    }

    /// Where the stream stood after the last poll.
    pub fn phase(&self) -> (p: Phase)
        ensures
            p == self@.phase,
    {
        self.phase
    }

    /// Whether the end of the response has been signalled.
    pub fn is_ended(&self) -> (r: bool)
        ensures
            r == self@.end.is_some(),
    {
        self.end.is_some()
    }

    /// Bytes arrived.
    pub fn on_bytes(&mut self, chunk: &[u8])
        requires
            old(self).well_formed(),
        ensures
            final(self).well_formed(),
            final(self)@ == arrive(old(self)@, chunk@),
    {
        if self.end.is_none() {
            self.decoder.push(chunk);
        }
    }

    /// The service closed the response.
    pub fn on_close(&mut self)
        requires
            old(self).well_formed(),
        ensures
            final(self).well_formed(),
            final(self)@ == signal(old(self)@, StreamEnd::Clean),
    {
        if self.end.is_none() {
            self.end = Some(StreamEnd::Clean);
        }
    }

    /// The transport failed: it was refused, it timed out, or it broke off.
    pub fn on_fault(&mut self, fault: ConnectionFault)
        requires
            old(self).well_formed(),
        ensures
            final(self).well_formed(),
            final(self)@ == signal(old(self)@, StreamEnd::Fault(fault)),
    {
        if self.end.is_none() {
            self.end = Some(StreamEnd::Fault(fault));
        }
    }

    /// The clock reads `now`: where the response has been silent for as
    /// long as `timer` allows, the stream has timed out.
    pub fn on_tick(&mut self, timer: &IdleTimer, now: u64)
        requires
            old(self).well_formed(),
        ensures
            final(self).well_formed(),
            final(self)@ == if idle_expired(timer.last, timer.limit, now) {
                signal(old(self)@, StreamEnd::Fault(ConnectionFault::Timeout))
            } else {
                old(self)@
            },
    {
        if timer.expired(now) {
            self.on_fault(ConnectionFault::Timeout);
        }
    }

    /// The service reported a failure.
    pub fn on_server_error(&mut self, status: ServerStatus)
        requires
            old(self).well_formed(),
        ensures
            final(self).well_formed(),
            final(self)@ == signal(old(self)@, StreamEnd::Server(status)),
    {
        if self.end.is_none() {
            self.end = Some(StreamEnd::Server(status));
        }
    }

    /// The caller gives the stream up: every later poll says `Done`, and
    /// what has arrived and was not handed over is not decoded.
    pub fn cancel(&mut self)
        requires
            old(self).well_formed(),
        ensures
            final(self).well_formed(),
            final(self)@ == (StreamView { end: Some(StreamEnd::Cancelled), ..old(self)@ }),
    {
        self.end = Some(StreamEnd::Cancelled);
    }

    /// What the end of the response amounts to, now that decoding needs
    /// more than has arrived.
    fn end_of_response(&self) -> (r: StreamItem)
        requires
            self.well_formed(),
        ensures
            r@ == (match self@.end {
                None => StreamItemView::NeedInput,
                Some(end) => end_item(end, self@.pending, self@.partial),
            }),
    {
        match &self.end {
            None => StreamItem::NeedInput,
            Some(StreamEnd::Clean) => {
                if self.decoder.buffered() == 0 && self.decoder.partial_len() == 0 {
                    StreamItem::Done
                } else {
                    StreamItem::Failed(ClientError::DecodeError)
                }
            },
            Some(StreamEnd::Cancelled) => StreamItem::Done,
            Some(StreamEnd::Fault(fault)) => StreamItem::Failed(
                ClientError::ConnectionError(*fault),
            ),
            Some(StreamEnd::Server(status)) => StreamItem::Failed(
                ClientError::ServerError(
                    ServerStatus { code: status.code, message: status.message.clone() },
                ),
            ),
        }
    }

    /// Polls the stream: the next event that the request's filter admits,
    /// or why there is none.
    ///
    /// Events are handed over in the order their frames arrived. Events that
    /// arrived before the end of the response come before the end is
    /// reported. After `Done` or `Failed` every poll gives the same again.
    pub fn next_event(&mut self) -> (r: StreamItem)
        requires
            old(self).well_formed(),
        ensures
            final(self).well_formed(),
            final(self)@ == poll(old(self)@).0,
            r@ == poll(old(self)@).1,
            match r {
                StreamItem::Event(e) => admits(old(self)@.request.account_ids, e@),
                _ => true,
            },
    {
        proof {
            lemma_poll_admitted(self@);
        }
        if let Some(StreamEnd::Cancelled) = &self.end {
            self.phase = Phase::Closed;
            return StreamItem::Done;
        }
        let ghost ids = self@.request.account_ids;
        loop
            invariant
                self.well_formed(),
                self@.request == old(self)@.request,
                self@.end == old(self)@.end,
                self@.end != Some(StreamEnd::Cancelled),
                ids == self@.request.account_ids,
                next_item(ids, self@.pending, self@.partial) == next_item(
                    ids,
                    old(self)@.pending,
                    old(self)@.partial,
                ),
            decreases self@.pending.len(),
        {
            proof {
                lemma_filter_after_decode(ids, self@.pending, self@.partial);
                lemma_poll_consumes(Seq::empty(), self@.pending, self@.partial);
            }
            match self.decoder.next() {
                Decoded::Event(event) => {
                    if self.request.filter().admits(&event) {
                        self.phase = Phase::Yielding;
                        return StreamItem::Event(event);
                    }
                },
                Decoded::NeedMore => {
                    let item = self.end_of_response();
                    self.phase = match &item {
                        StreamItem::NeedInput => if self.decoder.buffered() >= FRAME_HEADER_LEN {
                            Phase::AwaitingBody
                        } else {
                            Phase::AwaitingHeader
                        },
                        StreamItem::Done => Phase::Closed,
                        _ => Phase::Errored,
                    };
                    return item;
                },
                Decoded::Malformed => {
                    self.phase = Phase::Errored;
                    return StreamItem::Failed(ClientError::DecodeError);
                },
            }
        }
    }
}

} // verus!
