//! One request in flight: the order in which the requests made on one
//! connection are served.
//!
//! A request is served alone. Those made while another is in flight wait,
//! and are served in the order they were made.

use vstd::prelude::*;

verus! {

/// What a queue is, as plain mathematical values.
pub struct QueueView {
    /// The request in flight, if there is one.
    pub active: Option<u64>,
    /// The requests that wait, the one made first in front.
    pub waiting: Seq<u64>,
    /// The ticket that the next request gets.
    pub next: u64,
}

/// What to do with a request that was just made.
#[derive(Clone, Copy, Debug, PartialEq, Eq, Structural)]
pub enum Admission {
    /// Nothing is in flight: send the request with this ticket now.
    Start(u64),
    /// Another request is in flight: the request with this ticket waits.
    Wait(u64),
    /// No ticket is left.
    Refused,
}

/// The queue after a request was made, and what to do with the request.
pub open spec fn submitted(q: QueueView) -> (QueueView, Admission) {
    if q.next == u64::MAX {
        (q, Admission::Refused)
    } else if q.active is None {
        (
            QueueView { active: Some(q.next), next: (q.next + 1) as u64, ..q },
            Admission::Start(q.next),
        )
    } else {
        (
            QueueView { waiting: q.waiting.push(q.next), next: (q.next + 1) as u64, ..q },
            Admission::Wait(q.next),
        )
    }
}

/// The queue after the request in flight completed or failed: the request
/// that has waited longest is in flight now.
pub open spec fn finished(q: QueueView) -> QueueView {
    if q.waiting.len() == 0 {
        QueueView { active: None, ..q }
    } else {
        QueueView { active: Some(q.waiting[0]), waiting: q.waiting.drop_first(), ..q }
    }
}

/// The requests made on one connection.
#[derive(Debug)]
pub struct RequestQueue {
    active: Option<u64>,
    waiting: Vec<u64>,
    next: u64,
}

impl View for RequestQueue {
    type V = QueueView;

    closed spec fn view(&self) -> QueueView {
        QueueView { active: self.active, waiting: self.waiting@, next: self.next }
    }
}

impl RequestQueue {
    /// The queue's invariant.
    pub open spec fn well_formed(&self) -> bool {
        in_order(self@)
    }

    /// A queue on which no request was made.
    pub fn new() -> (q: RequestQueue)
        ensures
            q.well_formed(),
            q@ == (QueueView { active: None, waiting: Seq::empty(), next: 0 }),
    {
        RequestQueue { active: None, waiting: Vec::new(), next: 0 }
    }

    /// A request is made.
    pub fn submit(&mut self) -> (r: Admission)
        requires
            old(self).well_formed(),
        ensures
            final(self).well_formed(),
            final(self)@ == submitted(old(self)@).0,
            r == submitted(old(self)@).1,
    {
        if self.next == u64::MAX {
            return Admission::Refused;
        }
        proof {
            lemma_order_kept(self@);
        }
        let ticket: u64 = self.next;
        self.next = ticket + 1;
        if self.active.is_none() {
            self.active = Some(ticket);
            Admission::Start(ticket)
        } else {
            self.waiting.push(ticket);
            Admission::Wait(ticket)
        }
    }

    /// The request in flight completed or failed. Gives the ticket of the
    /// request to send now, if one has waited.
    pub fn finish(&mut self) -> (r: Option<u64>)
        requires
            old(self).well_formed(),
        ensures
            final(self).well_formed(),
            final(self)@ == finished(old(self)@),
            r == final(self)@.active,
    {
        proof {
            lemma_order_kept(self@);
        }
        if self.waiting.len() == 0 {
            self.active = None;
        } else {
            let ticket: u64 = self.waiting.remove(0);
            assert(self.waiting@ =~= old(self).waiting@.drop_first());
            self.active = Some(ticket);
        }
        self.active
    }

    /// The ticket of the request in flight.
    pub fn active(&self) -> (r: Option<u64>)
        ensures
            r == self@.active,
    {
        self.active
    }

    /// How many requests wait.
    pub fn waiting(&self) -> (n: usize)
        ensures
            n == self@.waiting.len(),
    {
        self.waiting.len()
    }
}

/// Requests are served in the order they were made: the tickets of the
/// request in flight and of those that wait, read in that order, rise, and
/// all of them have been given out. Nothing waits while nothing is in
/// flight.
pub open spec fn in_order(q: QueueView) -> bool {
    &&& q.active is None ==> q.waiting.len() == 0
    &&& q.active is Some ==> q.active->0 < q.next
    &&& forall|i: int| 0 <= i < q.waiting.len() ==> (#[trigger] q.waiting[i]) < q.next
    &&& forall|i: int|
        0 <= i < q.waiting.len() && q.active is Some ==> q.active->0 < #[trigger] q.waiting[i]
    &&& forall|i: int, j: int| 0 <= i < j < q.waiting.len() ==> q.waiting[i] < q.waiting[j]
}

/// Making a request and finishing one both keep the order of service.
pub proof fn lemma_order_kept(q: QueueView)
    requires
        in_order(q),
    ensures
        in_order(submitted(q).0),
        in_order(finished(q)),
{
    let f = finished(q);
    if q.waiting.len() > 0 {
        assert forall|i: int| 0 <= i < f.waiting.len() implies (#[trigger] f.waiting[i]) < f.next
            && f.active->0 < f.waiting[i] by {
            assert(f.waiting[i] == q.waiting[i + 1]);
        }
        assert forall|i: int, j: int| 0 <= i < j < f.waiting.len() implies f.waiting[i]
            < f.waiting[j] by {
            assert(f.waiting[i] == q.waiting[i + 1]);
            assert(f.waiting[j] == q.waiting[j + 1]);
        }
    }
}

} // verus!
