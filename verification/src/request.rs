//! The request builder: validates a ledger range and an account list, and
//! writes the request message.
//!
//! A request body is the first ledger, the last ledger and the number of
//! account identifiers, each a big-endian `u32`, and then the identifiers,
//! each as a 2-byte length followed by that many bytes. The message is one
//! final frame around that body.

use vstd::prelude::*;
use crate::decoder::{frame_bytes, FRAME_FINAL};
use crate::error::ClientError;
use crate::event::{field_bytes, FIELD_MAX_LEN};
use crate::filter::{dedup, id_seq, lemma_dedup_no_duplicates, AccountFilter};
use crate::wire::{push_range, push_u16, push_u32, u32_be};

verus! {

/// Longest request body that is written.
pub const MAX_REQUEST_BODY: usize = 0x10_0000;

/// Length of the fixed part of a request body.
pub const REQUEST_FIXED_LEN: usize = 12;

/// What a request is, as plain mathematical values.
pub struct RequestView {
    pub start_ledger: u32,
    pub end_ledger: u32,
    pub account_ids: Seq<Seq<u8>>,
}

/// A validated request for the events of a ledger range.
#[derive(Clone, Debug)]
pub struct EventRequest {
    start_ledger: u32,
    end_ledger: u32,
    filter: AccountFilter,
}

impl View for EventRequest {
    type V = RequestView;

    closed spec fn view(&self) -> RequestView {
        RequestView {
            start_ledger: self.start_ledger,
            end_ledger: self.end_ledger,
            account_ids: self.filter@,
        }
    }
}

/// The identifiers `ids`, each behind its length, one after the other.
pub open spec fn ids_bytes(ids: Seq<Seq<u8>>) -> Seq<u8>
    decreases ids.len(),
{
    if ids.len() == 0 {
        Seq::empty()
    } else {
        ids_bytes(ids.drop_last()) + field_bytes(ids.last())
    }
}

/// The body that carries a request.
pub open spec fn request_bytes(q: RequestView) -> Seq<u8> {
    u32_be(q.start_ledger as int) + u32_be(q.end_ledger as int) + u32_be(
        q.account_ids.len() as int,
    ) + ids_bytes(q.account_ids)
}

/// Whether a request fits the wire format: no identifier is longer than a
/// field can be, and the body is no longer than `MAX_REQUEST_BODY`.
pub open spec fn request_encodable(q: RequestView) -> bool {
    &&& forall|i: int| 0 <= i < q.account_ids.len() ==> (#[trigger] q.account_ids[i]).len()
        <= FIELD_MAX_LEN
    &&& REQUEST_FIXED_LEN + ids_bytes(q.account_ids).len() <= MAX_REQUEST_BODY
}

/// A longer list of identifiers takes at least as many bytes, and at least
/// two for each identifier.
pub proof fn lemma_ids_bytes_grows(ids: Seq<Seq<u8>>, n: int)
    requires
        0 <= n <= ids.len(),
    ensures
        ids_bytes(ids.subrange(0, n)).len() <= ids_bytes(ids).len(),
        2 * ids.len() <= ids_bytes(ids).len(),
    decreases ids.len(),
{
    if ids.len() > 0 {
        let init = ids.drop_last();
        if n < ids.len() {
            lemma_ids_bytes_grows(init, n);
            assert(init.subrange(0, n) =~= ids.subrange(0, n));
        } else {
            lemma_ids_bytes_grows(init, n - 1);
            assert(ids.subrange(0, n) =~= ids);
        }
    } else {
        assert(ids.subrange(0, n) =~= ids);
    }
}

impl EventRequest {
    /// What holds of every request: the range is not empty the wrong way
    /// round, and no account identifier stands twice.
    pub open spec fn well_formed(&self) -> bool {
        &&& self@.start_ledger <= self@.end_ledger
        &&& self@.account_ids.no_duplicates()
    }

    /// Validates a request.
    ///
    /// Fails with `InvalidRange` exactly where `start_ledger` lies after
    /// `end_ledger`. Otherwise the request holds the range as given and the
    /// identifiers without repetitions, first occurrences in their order.
    pub fn new(start_ledger: u32, end_ledger: u32, account_ids: &Vec<Vec<u8>>) -> (r: Result<
        EventRequest,
        ClientError,
    >)
        ensures
            match r {
                Ok(q) => {
                    &&& start_ledger <= end_ledger
                    &&& q.well_formed()
                    &&& q@ == (RequestView {
                        start_ledger,
                        end_ledger,
                        account_ids: dedup(id_seq(account_ids@)),
                    })
                },
                Err(e) => start_ledger > end_ledger && e is InvalidRange,
            },
    {
        if start_ledger > end_ledger {
            return Err(ClientError::InvalidRange);
        }
        proof {
            lemma_dedup_no_duplicates(id_seq(account_ids@));
        }
        Ok(EventRequest { start_ledger, end_ledger, filter: AccountFilter::new(account_ids) })
    }

    /// The first ledger asked for.
    pub fn start_ledger(&self) -> (r: u32)
        ensures
            r == self@.start_ledger,
    {
        self.start_ledger
    }

    /// The last ledger asked for.
    pub fn end_ledger(&self) -> (r: u32)
        ensures
            r == self@.end_ledger,
    {
        self.end_ledger
    }

    /// The accounts asked for.
    pub fn filter(&self) -> (r: &AccountFilter)
        ensures
            r@ == self@.account_ids,
    {
        &self.filter
    }

    /// Writes the request message.
    ///
    /// Fails with `EncodingError` exactly where the request does not fit the
    /// wire format; otherwise gives one final frame around the request body.
    pub fn encode(&self) -> (r: Result<Vec<u8>, ClientError>)
        ensures
            match r {
                Ok(b) => request_encodable(self@) && b@ == frame_bytes(
                    FRAME_FINAL,
                    request_bytes(self@),
                ),
                Err(e) => !request_encodable(self@) && e is EncodingError,
            },
    {
        let ids = self.filter.ids();
        let ghost all = id_seq(ids@);
        let mut body: Vec<u8> = Vec::new();
        let mut i: usize = 0;
        assert(all.subrange(0, 0) =~= Seq::<Seq<u8>>::empty());
        while i < ids.len()
            invariant
                all == id_seq(ids@),
                all == self@.account_ids,
                i <= ids@.len(),
                body@ == ids_bytes(all.subrange(0, i as int)),
                REQUEST_FIXED_LEN + body@.len() <= MAX_REQUEST_BODY,
                forall|j: int| 0 <= j < i ==> (#[trigger] all[j]).len() <= FIELD_MAX_LEN,
            decreases ids@.len() - i,
        {
            let id = &ids[i];
            let ghost upto = all.subrange(0, i + 1);
            assert(upto.drop_last() =~= all.subrange(0, i as int));
            assert(upto.last() == id@);
            if id.len() > FIELD_MAX_LEN {
                assert(all[i as int].len() > FIELD_MAX_LEN);
                return Err(ClientError::EncodingError);
            }
            if id.len() + 2 > MAX_REQUEST_BODY - REQUEST_FIXED_LEN - body.len() {
                proof {
                    lemma_ids_bytes_grows(all, i + 1);
                }
                return Err(ClientError::EncodingError);
            }
            push_u16(&mut body, id.len() as u16);
            push_range(&mut body, id.as_slice(), 0, id.len());
            assert(id@.subrange(0, id@.len() as int) =~= id@);
            assert(body@ =~= ids_bytes(upto));
            i = i + 1;
        }
        assert(all.subrange(0, i as int) =~= all);
        proof {
            lemma_ids_bytes_grows(all, 0);
        }
        let mut out: Vec<u8> = Vec::new();
        out.push(FRAME_FINAL);
        push_u32(&mut out, (REQUEST_FIXED_LEN + body.len()) as u32);
        push_u32(&mut out, self.start_ledger);
        push_u32(&mut out, self.end_ledger);
        push_u32(&mut out, ids.len() as u32);
        push_range(&mut out, body.as_slice(), 0, body.len());
        assert(body@.subrange(0, body@.len() as int) =~= body@);
        assert(u32_be(self.start_ledger as int).len() == 4);
        assert(u32_be(self.end_ledger as int).len() == 4);
        assert(u32_be(ids@.len() as int).len() == 4);
        assert(request_bytes(self@).len() == REQUEST_FIXED_LEN + body@.len());
        assert(out@ =~= frame_bytes(FRAME_FINAL, request_bytes(self@)));
        Ok(out)
    }
}

} // verus!
