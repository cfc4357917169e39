//! The account filter: which events a request asks for.
//!
//! Account identifiers are compared as byte strings, exactly and with case.
//! An empty filter stands for all accounts.

use vstd::prelude::*;
use crate::event::{EventView, TokenTransferEvent};
use crate::wire::same_bytes;

verus! {

/// The byte strings that a vector of identifiers holds, in its order.
pub open spec fn id_seq(v: Seq<Vec<u8>>) -> Seq<Seq<u8>> {
    Seq::new(v.len(), |i: int| v[i]@)
}

/// Whether a filter over `ids` lets `e` through: it is empty, or it holds
/// the event's source or its destination.
pub open spec fn admits(ids: Seq<Seq<u8>>, e: EventView) -> bool {
    ids.len() == 0 || ids.contains(e.source) || ids.contains(e.destination)
}

/// `s` without its repetitions: of equal identifiers the first stays, and
/// what stays keeps its order.
pub open spec fn dedup(s: Seq<Seq<u8>>) -> Seq<Seq<u8>>
    decreases s.len(),
{
    if s.len() == 0 {
        Seq::empty()
    } else if dedup(s.drop_last()).contains(s.last()) {
        dedup(s.drop_last())
    } else {
        dedup(s.drop_last()).push(s.last())
    }
}

/// Removing repetitions neither adds an identifier nor loses one.
pub proof fn lemma_dedup_contains(s: Seq<Seq<u8>>, x: Seq<u8>)
    ensures
        dedup(s).contains(x) <==> s.contains(x),
    decreases s.len(),
{
    if s.len() > 0 {
        let init = s.drop_last();
        lemma_dedup_contains(init, x);
        lemma_dedup_contains(init, s.last());
        let d = dedup(init);
        if s.contains(x) {
            let i = choose|i: int| 0 <= i < s.len() && s[i] == x;
            if i < s.len() - 1 {
                assert(init[i] == x);
                assert(d.contains(x));
                if !d.contains(s.last()) {
                    let j = choose|j: int| 0 <= j < d.len() && d[j] == x;
                    assert(d.push(s.last())[j] == x);
                }
            } else {
                assert(x == s.last());
                if !d.contains(s.last()) {
                    assert(d.push(s.last())[d.len() as int] == x);
                }
            }
        }
        if dedup(s).contains(x) {
            let j = choose|j: int| 0 <= j < dedup(s).len() && dedup(s)[j] == x;
            if d.contains(s.last()) || j < d.len() {
                assert(d[j] == x);
                assert(init.contains(x));
                let i = choose|i: int| 0 <= i < init.len() && init[i] == x;
                assert(s[i] == x);
            } else {
                assert(s[s.len() - 1] == x);
            }
        }
    }
}

/// After removing repetitions no identifier stands twice.
pub proof fn lemma_dedup_no_duplicates(s: Seq<Seq<u8>>)
    ensures
        dedup(s).no_duplicates(),
    decreases s.len(),
{
    if s.len() > 0 {
        lemma_dedup_no_duplicates(s.drop_last());
    }
}

/// A sequence without repetitions is left as it is.
pub proof fn lemma_dedup_identity(s: Seq<Seq<u8>>)
    requires
        s.no_duplicates(),
    ensures
        dedup(s) == s,
    decreases s.len(),
{
    if s.len() > 0 {
        let init = s.drop_last();
        assert(init.no_duplicates());
        lemma_dedup_identity(init);
        if init.contains(s.last()) {
            let i = choose|i: int| 0 <= i < init.len() && init[i] == s.last();
            assert(s[i] == s[s.len() - 1]);
        }
        assert(init.push(s.last()) =~= s);
    }
}

/// Removing repetitions from a filter changes nothing in what it admits.
pub proof fn lemma_dedup_admits(s: Seq<Seq<u8>>, e: EventView)
    ensures
        admits(dedup(s), e) == admits(s, e),
{
    lemma_dedup_contains(s, e.source);
    lemma_dedup_contains(s, e.destination);
    if s.len() > 0 {
        assert(s.contains(s[0]));
        lemma_dedup_contains(s, s[0]);
    }
}

/// Whether `ids` holds `id`.
pub fn contains_id(ids: &Vec<Vec<u8>>, id: &[u8]) -> (r: bool)
    ensures
        r == id_seq(ids@).contains(id@),
{
    let mut i: usize = 0;
    while i < ids.len()
        invariant
            i <= ids@.len(),
            forall|j: int| 0 <= j < i ==> id_seq(ids@)[j] != id@,
        decreases ids@.len() - i,
    {
        if same_bytes(ids[i].as_slice(), id) {
            assert(id_seq(ids@)[i as int] == id@);
            return true;
        }
        i = i + 1;
    }
    false
}

/// The identifiers of `ids` without repetitions, first occurrences in order.
pub fn dedup_ids(ids: &Vec<Vec<u8>>) -> (out: Vec<Vec<u8>>)
    ensures
        id_seq(out@) == dedup(id_seq(ids@)),
{
    let mut out: Vec<Vec<u8>> = Vec::new();
    let mut i: usize = 0;
    assert(id_seq(ids@).subrange(0, 0) =~= Seq::empty());
    assert(id_seq(out@) =~= Seq::empty());
    while i < ids.len()
        invariant
            i <= ids@.len(),
            id_seq(out@) == dedup(id_seq(ids@).subrange(0, i as int)),
        decreases ids@.len() - i,
    {
        let ghost before = id_seq(out@);
        let ghost upto = id_seq(ids@).subrange(0, i + 1);
        assert(upto.drop_last() =~= id_seq(ids@).subrange(0, i as int));
        assert(upto.last() == ids@[i as int]@);
        if !contains_id(&out, ids[i].as_slice()) {
            out.push(ids[i].clone());
            assert(id_seq(out@) =~= before.push(ids@[i as int]@));
        }
        i = i + 1;
    }
    assert(id_seq(ids@).subrange(0, i as int) =~= id_seq(ids@));
    out
}

/// The accounts a request asks for.
#[derive(Clone, Debug)]
pub struct AccountFilter {
    ids: Vec<Vec<u8>>,
}

impl View for AccountFilter {
    type V = Seq<Seq<u8>>;

    closed spec fn view(&self) -> Seq<Seq<u8>> {
        id_seq(self.ids@)
    }
}

impl AccountFilter {
    /// A filter over `ids`, repetitions removed.
    pub fn new(ids: &Vec<Vec<u8>>) -> (f: AccountFilter)
        ensures
            f@ == dedup(id_seq(ids@)),
    {
        AccountFilter { ids: dedup_ids(ids) }
    }

    /// Whether the filter stands for all accounts.
    pub fn is_empty(&self) -> (r: bool)
        ensures
            r == (self@.len() == 0),
    {
        self.ids.len() == 0
    }

    /// How many identifiers the filter holds.
    pub fn len(&self) -> (n: usize)
        ensures
            n == self@.len(),
    {
        self.ids.len()
    }

    /// The identifiers, in the order of their first occurrence.
    pub fn ids(&self) -> (r: &Vec<Vec<u8>>)
        ensures
            id_seq(r@) == self@,
    {
        &self.ids
    }

    /// Whether the filter lets `e` through.
    pub fn admits(&self, e: &TokenTransferEvent) -> (r: bool)
        ensures
            r == admits(self@, e@),
    {
        self.ids.len() == 0 || contains_id(&self.ids, e.source.as_slice()) || contains_id(
            &self.ids,
            e.destination.as_slice(),
        )
    }
}

} // verus!
