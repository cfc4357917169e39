//! Token-transfer events and the layout of an event body.
//!
//! A body is, in this order: the ledger sequence number (4 bytes), the
//! transaction hash (32 bytes), the amount (8 bytes), then the source account,
//! the destination account and the asset descriptor, each as a 2-byte length
//! followed by that many bytes. All integers are big-endian. Nothing may
//! follow the asset descriptor.

use vstd::prelude::*;
use crate::error::ClientError;
use crate::wire::{be_u16, be_u32, be_u64, u16_be, u32_be, u64_be};
use crate::wire::{read_u16, read_u32, read_u64, push_u16, push_u32, push_u64, push_range};
use crate::wire::{lemma_u16_round_trip, lemma_u32_round_trip, lemma_u64_round_trip};

verus! {

/// Length of a transaction hash.
pub const TX_HASH_LEN: usize = 32;

/// Length of the fixed part of an event body: ledger, hash and amount.
pub const EVENT_FIXED_LEN: usize = 44;

/// Longest byte string that a length-prefixed field can carry.
pub const FIELD_MAX_LEN: usize = 0xFFFF;

/// One token transfer observed in a ledger.
#[derive(Clone, Debug, PartialEq, Eq)]
pub struct TokenTransferEvent {
    pub ledger: u32,
    pub tx_hash: Vec<u8>,
    pub source: Vec<u8>,
    pub destination: Vec<u8>,
    pub asset: Vec<u8>,
    pub amount: u64,
}

/// What an event is, as plain mathematical values.
pub struct EventView {
    pub ledger: u32,
    pub tx_hash: Seq<u8>,
    pub source: Seq<u8>,
    pub destination: Seq<u8>,
    pub asset: Seq<u8>,
    pub amount: u64,
}

impl View for TokenTransferEvent {
    type V = EventView;

    open spec fn view(&self) -> EventView {
        EventView {
            ledger: self.ledger,
            tx_hash: self.tx_hash@,
            source: self.source@,
            destination: self.destination@,
            asset: self.asset@,
            amount: self.amount,
        }
    }
}

/// Whether an event fits the body layout.
pub open spec fn encodable(e: EventView) -> bool {
    &&& e.tx_hash.len() == TX_HASH_LEN
    &&& e.source.len() <= FIELD_MAX_LEN
    &&& e.destination.len() <= FIELD_MAX_LEN
    &&& e.asset.len() <= FIELD_MAX_LEN
}

/// A byte string behind its 2-byte length.
pub open spec fn field_bytes(f: Seq<u8>) -> Seq<u8> {
    u16_be(f.len() as int) + f
}

/// The body that carries `e`.
#[verifier::opaque]
pub open spec fn event_bytes(e: EventView) -> Seq<u8> {
    u32_be(e.ledger as int) + e.tx_hash + u64_be(e.amount as int) + field_bytes(e.source)
        + field_bytes(e.destination) + field_bytes(e.asset)
}

/// The length-prefixed field that starts at `at`, with the position behind
/// it; `None` where the body ends before the field does.
pub open spec fn field_at(b: Seq<u8>, at: int) -> Option<(Seq<u8>, int)> {
    if 0 <= at && at + 2 <= b.len() && at + 2 + be_u16(b, at) <= b.len() {
        Some((b.subrange(at + 2, at + 2 + be_u16(b, at)), at + 2 + be_u16(b, at)))
    } else {
        None
    }
}

/// The event that a body carries; `None` where the body is malformed.
#[verifier::opaque]
pub open spec fn parse_event(b: Seq<u8>) -> Option<EventView> {
    if b.len() < EVENT_FIXED_LEN {
        None
    } else {
        match field_at(b, EVENT_FIXED_LEN as int) {
            None => None,
            Some((source, after_source)) => match field_at(b, after_source) {
                None => None,
                Some((destination, after_destination)) => match field_at(b, after_destination) {
                    None => None,
                    Some((asset, after_asset)) => if after_asset == b.len() {
                        Some(
                            EventView {
                                ledger: be_u32(b, 0) as u32,
                                tx_hash: b.subrange(4, 36),
                                source,
                                destination,
                                asset,
                                amount: be_u64(b, 36) as u64,
                            },
                        )
                    } else {
                        None
                    },
                },
            },
        }
    }
}

/// Reads the length-prefixed field at `at`.
fn read_field(body: &[u8], at: usize) -> (r: Option<(Vec<u8>, usize)>)
    requires
        at <= body.len(),
    ensures
        match r {
            Some((f, next)) => field_at(body@, at as int) == Some((f@, next as int)),
            None => field_at(body@, at as int).is_none(),
        },
{
    let n: usize = body.len();
    if n - at < 2 {
        return None;
    }
    let len: usize = read_u16(body, at) as usize;
    if n - at - 2 < len {
        return None;
    }
    let mut f: Vec<u8> = Vec::new();
    push_range(&mut f, body, at + 2, at + 2 + len);
    assert(f@ =~= body@.subrange(at + 2, at + 2 + len));
    Some((f, at + 2 + len))
}

/// Decodes one event body.
///
/// Succeeds exactly on the bodies that `parse_event` accepts, with the event
/// it gives; every other body is a `DecodeError`.
pub fn decode_event(body: &[u8]) -> (r: Result<TokenTransferEvent, ClientError>)
    ensures
        match r {
            Ok(e) => parse_event(body@) == Some(e@),
            Err(err) => parse_event(body@).is_none() && err is DecodeError,
        },
{
    reveal(parse_event);
    if body.len() < EVENT_FIXED_LEN {
        return Err(ClientError::DecodeError);
    }
    let ledger: u32 = read_u32(body, 0);
    let mut tx_hash: Vec<u8> = Vec::new();
    push_range(&mut tx_hash, body, 4, 36);
    assert(tx_hash@ =~= body@.subrange(4, 36));
    let amount: u64 = read_u64(body, 36);
    let (source, after_source) = match read_field(body, EVENT_FIXED_LEN) {
        Some(x) => x,
        None => { return Err(ClientError::DecodeError); },
    };
    let (destination, after_destination) = match read_field(body, after_source) {
        Some(x) => x,
        None => { return Err(ClientError::DecodeError); },
    };
    let (asset, after_asset) = match read_field(body, after_destination) {
        Some(x) => x,
        None => { return Err(ClientError::DecodeError); },
    };
    if after_asset != body.len() {
        return Err(ClientError::DecodeError);
    }
    Ok(TokenTransferEvent { ledger, tx_hash, source, destination, asset, amount })
}

/// Appends a byte string behind its 2-byte length.
fn push_field(out: &mut Vec<u8>, f: &Vec<u8>)
    requires
        f@.len() <= FIELD_MAX_LEN,
    ensures
        final(out)@ == old(out)@ + field_bytes(f@),
{
    push_u16(out, f.len() as u16);
    push_range(out, f.as_slice(), 0, f.len());
    assert(f@.subrange(0, f@.len() as int) =~= f@);
    assert(final(out)@ =~= old(out)@ + field_bytes(f@));
}

impl TokenTransferEvent {
    /// Writes the event as a body.
    ///
    /// Fails with `EncodingError` exactly where the event does not fit the
    /// layout: a hash that is not 32 bytes long, or a field over 65535 bytes.
    pub fn encode(&self) -> (r: Result<Vec<u8>, ClientError>)
        ensures
            match r {
                Ok(b) => encodable(self@) && b@ == event_bytes(self@),
                Err(err) => !encodable(self@) && err is EncodingError,
            },
    {
        reveal(event_bytes);
        if self.tx_hash.len() != TX_HASH_LEN || self.source.len() > FIELD_MAX_LEN
            || self.destination.len() > FIELD_MAX_LEN || self.asset.len() > FIELD_MAX_LEN {
            return Err(ClientError::EncodingError);
        }
        let mut out: Vec<u8> = Vec::new();
        push_u32(&mut out, self.ledger);
        push_range(&mut out, self.tx_hash.as_slice(), 0, TX_HASH_LEN);
        assert(self.tx_hash@.subrange(0, 32) =~= self.tx_hash@);
        push_u64(&mut out, self.amount);
        push_field(&mut out, &self.source);
        push_field(&mut out, &self.destination);
        push_field(&mut out, &self.asset);
        assert(out@ =~= event_bytes(self@));
        Ok(out)
    }
}

/// A field written at `at` is the field read at `at`.
proof fn lemma_field_round_trip(b: Seq<u8>, at: int, f: Seq<u8>)
    requires
        0 <= at,
        f.len() <= FIELD_MAX_LEN,
        at + 2 + f.len() <= b.len(),
        b.subrange(at, at + 2 + f.len()) == field_bytes(f),
    ensures
        field_at(b, at) == Some((f, at + 2 + f.len())),
{
    let n = f.len() as int;
    let w = b.subrange(at, at + 2 + n);
    assert(b.subrange(at, at + 2) =~= w.subrange(0, 2));
    assert(w.subrange(0, 2) =~= u16_be(f.len() as int));
    lemma_u16_round_trip(b, at, n);
    assert(b.subrange(at + 2, at + 2 + n) =~= w.subrange(2, 2 + n));
    assert(w.subrange(2, 2 + n) =~= f);
}

/// How long the body of an event is.
pub proof fn lemma_event_bytes_len(e: EventView)
    ensures
        event_bytes(e).len() == 50 + e.tx_hash.len() - 32 + e.source.len() + e.destination.len()
            + e.asset.len(),
{
    reveal(event_bytes);
    assert(u32_be(e.ledger as int).len() == 4);
    assert(u64_be(e.amount as int).len() == 8);
    assert(field_bytes(e.source).len() == 2 + e.source.len());
    assert(field_bytes(e.destination).len() == 2 + e.destination.len());
    assert(field_bytes(e.asset).len() == 2 + e.asset.len());
}

/// Decoding undoes encoding: the body written for an event that fits the
/// layout parses to that event.
pub proof fn lemma_event_round_trip(e: EventView)
    requires
        encodable(e),
    ensures
        parse_event(event_bytes(e)) == Some(e),
{
    reveal(event_bytes);
    reveal(parse_event);
    let b = event_bytes(e);
    let s = e.source.len() as int;
    let d = e.destination.len() as int;
    let a = e.asset.len() as int;
    assert(u32_be(e.ledger as int).len() == 4);
    assert(u64_be(e.amount as int).len() == 8);
    assert(b.len() == 44 + (2 + s) + (2 + d) + (2 + a));
    assert(b.subrange(0, 4) =~= u32_be(e.ledger as int));
    lemma_u32_round_trip(b, 0, e.ledger as int);
    assert(b.subrange(4, 36) =~= e.tx_hash);
    assert(b.subrange(36, 44) =~= u64_be(e.amount as int));
    lemma_u64_round_trip(b, 36, e.amount as int);
    assert(b.subrange(44, 44 + 2 + s) =~= field_bytes(e.source));
    lemma_field_round_trip(b, 44, e.source);
    let after_source = 46 + s;
    assert(b.subrange(after_source, after_source + 2 + d) =~= field_bytes(e.destination));
    lemma_field_round_trip(b, after_source, e.destination);
    let after_destination = after_source + 2 + d;
    assert(b.subrange(after_destination, after_destination + 2 + a) =~= field_bytes(e.asset));
    lemma_field_round_trip(b, after_destination, e.asset);
}

} // verus!
