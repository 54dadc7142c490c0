//! The bookkeeping of lending a connection to other tasks: borrow requests
//! are served one at a time, in the order they were submitted, and never
//! while the owner is at work.
use vstd::prelude::*;

verus! {

/// The queue in the abstract.
pub struct LendView {
    /// Requests served to completion, oldest first.
    pub served: Seq<u64>,
    /// The request being served, if any.
    pub active: Option<u64>,
    /// Requests waiting, oldest first.
    pub pending: Seq<u64>,
    /// The ticket the next request gets.
    pub next: u64,
}

/// The request being served as a sequence of zero or one ticket.
pub open spec fn active_seq(a: Option<u64>) -> Seq<u64> {
    match a {
        Some(t) => seq![t],
        None => seq![],
    }
}

impl LendView {
    /// Every request ever submitted, in the order they are served.
    pub open spec fn submitted(&self) -> Seq<u64> {
        self.served + active_seq(self.active) + self.pending
    }

    /// Tickets are handed out from zero, one per request, and served in
    /// that order.
    pub open spec fn wf(&self) -> bool {
        &&& self.submitted().len() == self.next
        &&& forall|i: int| 0 <= i < self.submitted().len() ==> #[trigger] self.submitted()[i] == i
    }
}

/// A first-in first-out gate for borrow requests on one owned object.
pub struct LendQueue {
    served: Ghost<Seq<u64>>,
    active: Option<u64>,
    pending: Vec<u64>,
    next: u64,
}

impl View for LendQueue {
    type V = LendView;

    closed spec fn view(&self) -> LendView {
        LendView { served: self.served@, active: self.active, pending: self.pending@, next: self.next }
    }
}

impl LendQueue {
    pub open spec fn wf(&self) -> bool {
        self@.wf()
    }

    /// An empty queue.
    pub fn new() -> (r: LendQueue)
        ensures
            r.wf(),
            r@.served == Seq::<u64>::empty(),
            r@.active is None,
            r@.pending == Seq::<u64>::empty(),
            r@.next == 0,
    {
        let r = LendQueue { served: Ghost(Seq::empty()), active: None, pending: Vec::new(), next: 0 };
        assert(r@.submitted() =~= Seq::<u64>::empty());
        r
    }

    /// Submits a borrow request; it waits behind all earlier ones.
    pub fn submit(&mut self) -> (t: u64)
        requires
            old(self).wf(),
            old(self)@.next < u64::MAX,
        ensures
            final(self).wf(),
            t == old(self)@.next,
            final(self)@ == (LendView {
                pending: old(self)@.pending.push(t),
                next: (t + 1) as u64,
                ..old(self)@
            }),
    {
        let t = self.next;
        self.pending.push(t);
        self.next = t + 1;
        assert(self@.submitted() =~= old(self)@.submitted().push(t));
        t
    }

    /// Whether a request waits and none is being served: the owner may lend.
    pub fn has_pending(&self) -> (r: bool)
        ensures
            r == (self@.active is None && self@.pending.len() > 0),
    {
        self.active.is_none() && self.pending.len() > 0
    }

    /// Whether the owner may go on with its own work: no request is being
    /// served.
    pub fn owner_may_proceed(&self) -> (r: bool)
        ensures
            r == self@.active is None,
    {
        self.active.is_none()
    }

    /// Starts serving the oldest waiting request, unless one is already
    /// being served or none waits.
    pub fn lend(&mut self) -> (r: Option<u64>)
        requires
            old(self).wf(),
        ensures
            final(self).wf(),
            (old(self)@.active is None && old(self)@.pending.len() > 0) ==> r == Some(
                old(self)@.pending[0],
            ) && final(self)@ == (LendView {
                active: Some(old(self)@.pending[0]),
                pending: old(self)@.pending.drop_first(),
                ..old(self)@
            }),
            !(old(self)@.active is None && old(self)@.pending.len() > 0) ==> r is None
                && final(self)@ == old(self)@,
    {
        if self.active.is_some() || self.pending.len() == 0 {
            return None;
        }
        let t = self.pending.remove(0);
        self.active = Some(t);
        assert(self@.submitted() =~= old(self)@.submitted());
        Some(t)
    }

    /// Marks the request being served as completed, giving its ticket.
    pub fn finish(&mut self) -> (r: Option<u64>)
        requires
            old(self).wf(),
        ensures
            final(self).wf(),
            match old(self)@.active {
                Some(t) => r == Some(t) && final(self)@ == (LendView {
                    served: old(self)@.served.push(t),
                    active: None,
                    ..old(self)@
                }),
                None => r is None && final(self)@ == old(self)@,
            },
    {
        match self.active {
            None => None,
            Some(t) => {
                self.served = Ghost(self.served@.push(t));
                self.active = None;
                assert(self@.submitted() =~= old(self)@.submitted());
                Some(t)
            },
        }
    }
}

/// Requests are completed in the order they were submitted: the served
/// tickets are exactly the first ones handed out, in order, and at most one
/// request is served at a time, ahead of all that still wait.
pub proof fn lemma_served_in_submission_order(v: LendView)
    requires
        v.wf(),
    ensures
        forall|i: int| 0 <= i < v.served.len() ==> #[trigger] v.served[i] == i,
        v.active matches Some(t) ==> t == v.served.len(),
        forall|i: int|
            0 <= i < v.pending.len() ==> #[trigger] v.pending[i] == v.served.len() + active_seq(
                v.active,
            ).len() + i,
{
    assert forall|i: int| 0 <= i < v.served.len() implies #[trigger] v.served[i] == i by {
        assert(v.submitted()[i] == v.served[i]);
    }
    if let Some(t) = v.active {
        assert(v.submitted()[v.served.len() as int] == t);
    }
    assert forall|i: int| 0 <= i < v.pending.len() implies #[trigger] v.pending[i] == v.served.len()
        + active_seq(v.active).len() + i by {
        let k = v.served.len() + active_seq(v.active).len() + i;
        assert(v.submitted()[k] == v.pending[i]);
    }
}

} // verus!
