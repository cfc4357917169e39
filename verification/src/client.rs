//! The client: a checked server address, and the calls made on it.

use vstd::prelude::*;
use vstd::utf8::encode_utf8;
use crate::error::ClientError;
use crate::filter::{admits, dedup, id_seq, lemma_dedup_admits};
use crate::request::{EventRequest, RequestView};
use crate::stream::{lemma_poll_admitted, poll, EventStream, Phase, StreamItemView, StreamView};

verus! {

/// Whether the bytes of an address are well formed: there is at least one,
/// and none is a space or a control character (a byte up to 0x20, or 0x7F).
pub open spec fn address_ok(a: Seq<u8>) -> bool {
    &&& a.len() > 0
    &&& forall|i: int| 0 <= i < a.len() ==> (#[trigger] a[i]) > 0x20 && a[i] != 0x7F
}

/// The text that `get_info` gives for an address.
pub open spec fn info_text(address: Seq<char>) -> Seq<char> {
    "EventClient connected to: "@ + address
}

/// The texts of `ids`, in their order.
pub open spec fn text_seq(ids: Seq<String>) -> Seq<Seq<char>> {
    Seq::new(ids.len(), |i: int| ids[i]@)
}

/// The UTF-8 bytes of each text of `ids`, in their order.
pub open spec fn utf8_seq(ids: Seq<String>) -> Seq<Seq<u8>> {
    Seq::new(ids.len(), |i: int| encode_utf8(ids[i]@))
}

/// The texts of `ids` with `", "` between them.
pub open spec fn joined(ids: Seq<Seq<char>>) -> Seq<char>
    decreases ids.len(),
{
    if ids.len() == 0 {
        Seq::empty()
    } else if ids.len() == 1 {
        ids[0]
    } else {
        joined(ids.drop_last()) + ", "@ + ids.last()
    }
}

/// How a list of account identifiers reads in a message.
pub open spec fn filter_text(ids: Seq<Seq<char>>) -> Seq<char> {
    if ids.len() == 0 {
        "all accounts"@
    } else {
        "accounts: "@ + joined(ids)
    }
}

/// Describes the accounts a call asks for: `all accounts` for an empty
/// list, otherwise `accounts: ` and the identifiers as given, with `, `
/// between them.
pub fn filter_description(account_ids: &Vec<String>) -> (r: String)
    ensures
        r@ == filter_text(text_seq(account_ids@)),
{
    if account_ids.len() == 0 {
        return String::from_str("all accounts");
    }
    let ghost texts = text_seq(account_ids@);
    let mut list = account_ids[0].clone();
    let mut i: usize = 1;
    assert(joined(texts.subrange(0, 1)) == texts[0]);
    while i < account_ids.len()
        invariant
            1 <= i <= account_ids@.len(),
            texts == text_seq(account_ids@),
            list@ == joined(texts.subrange(0, i as int)),
        decreases account_ids@.len() - i,
    {
        let ghost upto = texts.subrange(0, i + 1);
        assert(upto.drop_last() =~= texts.subrange(0, i as int));
        assert(upto.last() == account_ids@[i as int]@);
        list.append(", ");
        list.append(account_ids[i].as_str());
        i = i + 1;
    }
    assert(texts.subrange(0, i as int) =~= texts);
    let mut out = String::from_str("accounts: ");
    out.append(list.as_str());
    out
}

/// The UTF-8 bytes of each identifier.
pub fn account_bytes(account_ids: &Vec<String>) -> (out: Vec<Vec<u8>>)
    ensures
        id_seq(out@) == utf8_seq(account_ids@),
{
    let mut out: Vec<Vec<u8>> = Vec::new();
    let mut i: usize = 0;
    while i < account_ids.len()
        invariant
            i <= account_ids@.len(),
            out@.len() == i,
            forall|j: int| 0 <= j < i ==> (#[trigger] out@[j])@ == encode_utf8(account_ids@[j]@),
        decreases account_ids@.len() - i,
    {
        out.push(account_ids[i].as_str().as_bytes_vec());
        i = i + 1;
    }
    assert(id_seq(out@) =~= utf8_seq(account_ids@));
    out
}

/// Whether the bytes of an address are well formed.
pub fn check_address(address: &[u8]) -> (r: bool)
    ensures
        r == address_ok(address@),
{
    if address.len() == 0 {
        return false;
    }
    let mut i: usize = 0;
    while i < address.len()
        invariant
            i <= address@.len(),
            forall|j: int| 0 <= j < i ==> (#[trigger] address@[j]) > 0x20 && address@[j] != 0x7F,
        decreases address@.len() - i,
    {
        if address[i] <= 0x20 || address[i] == 0x7F {
            return false;
        }
        i = i + 1;
    }
    true
}

/// A stream opened for `account_ids` hands over no event of other accounts:
/// where the list is not empty, the source or the destination of every
/// event handed over is, byte for byte, one of the identifiers given.
pub proof fn lemma_only_requested_accounts(account_ids: Seq<String>, s: StreamView)
    requires
        s.request.account_ids == dedup(utf8_seq(account_ids)),
    ensures
        match poll(s).1 {
            StreamItemView::Event(e) => admits(utf8_seq(account_ids), e),
            _ => true,
        },
{
    lemma_poll_admitted(s);
    match poll(s).1 {
        StreamItemView::Event(e) => {
            lemma_dedup_admits(utf8_seq(account_ids), e);
        },
        _ => {},
    }
}

/// A client of one event service.
#[derive(Clone, Debug)]
pub struct EventClient {
    server_address: String,
}

impl EventClient {
    /// The address of the service.
    pub closed spec fn address(&self) -> Seq<char> {
        self.server_address@
    }

    /// A client for the service at `server_address`.
    ///
    /// Fails with `InvalidAddress` exactly where the address is empty or
    /// holds a space or a control character.
    pub fn new(server_address: String) -> (r: Result<EventClient, ClientError>)
        ensures
            match r {
                Ok(c) => address_ok(encode_utf8(server_address@)) && c.address()
                    == server_address@,
                Err(e) => !address_ok(encode_utf8(server_address@)) && e is InvalidAddress,
            },
    {
        if check_address(server_address.as_str().as_bytes()) {
            Ok(EventClient { server_address })
        } else {
            Err(ClientError::InvalidAddress)
        }
    }

    /// The address of the service.
    pub fn server_address(&self) -> (r: &str)
        ensures
            r@ == self.address(),
    {
        self.server_address.as_str()
    }

    /// Describes the client. The text depends on the address alone, and the
    /// client is left as it was.
    pub fn get_info(&self) -> (r: String)
        ensures
            r@ == info_text(self.address()),
    {
        let mut out = String::from_str("EventClient connected to: ");
        out.append(self.server_address.as_str());
        out
    }

    /// Opens the stream of the token-transfer events of the ledgers from
    /// `start_ledger` to `end_ledger`, both included.
    ///
    /// Fails with `InvalidRange` exactly where `start_ledger` lies after
    /// `end_ledger`; nothing has been sent or received then, since nothing
    /// here sends or receives. Otherwise the stream is new: it answers the
    /// request for that range and those accounts, compared by their UTF-8
    /// bytes and without repetitions, and no byte has arrived.
    pub fn get_ttp_events(&self, start_ledger: u32, end_ledger: u32, account_ids: Vec<String>) -> (r:
        Result<EventStream, ClientError>)
        ensures
            match r {
                Ok(s) => {
                    &&& start_ledger <= end_ledger
                    &&& s.well_formed()
                    &&& s@ == (StreamView {
                        request: RequestView {
                            start_ledger,
                            end_ledger,
                            account_ids: dedup(utf8_seq(account_ids@)),
                        },
                        pending: Seq::empty(),
                        partial: Seq::empty(),
                        end: None,
                        phase: Phase::AwaitingHeader,
                    })
                },
                Err(e) => start_ledger > end_ledger && e is InvalidRange,
            },
    {
        if start_ledger > end_ledger {
            return Err(ClientError::InvalidRange);
        }
        let ids = account_bytes(&account_ids);
        match EventRequest::new(start_ledger, end_ledger, &ids) {
            Ok(request) => Ok(EventStream::new(request)),
            Err(e) => Err(e),
        }
    }
}

} // verus!
