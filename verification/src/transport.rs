//! Request/response bookkeeping of the engine transport.
//!
//! The transport sends requests under monotonically assigned ids and matches
//! each inbound response to its pending request by id, in whatever order
//! responses arrive. The table here owns that correlation state; the I/O
//! around it hands every parsed inbound message to `route`.

use vstd::prelude::*;
use vstd::set_lib::lemma_len_subset;
use std::collections::HashSet;

use vstd::std_specs::hash::spec_hash_set_len;

use crate::protocol::{Message, Notification, Response};

verus! {

broadcast use vstd::std_specs::hash::group_hash_axioms;

/// How many increments a wrapping counter at `cur` needs to reach `target`.
pub open spec fn wrap_distance(cur: u64, target: u64) -> int {
    if cur <= target {
        target - cur
    } else {
        0x1_0000_0000_0000_0000 - cur + target
    }
}

/// A finite id set that a machine-sized table can hold never exhausts the id
/// space: some id is free.
proof fn lemma_free_id_exists(s: Set<u64>)
    requires
        s.finite(),
        s.len() <= usize::MAX,
    ensures
        exists|k: u64| !s.contains(k),
{
    if !(exists|k: u64| !s.contains(k)) {
        let full = Set::<u64>::full();
        <u64 as vstd::set_lib::FiniteFull>::full_properties();
        <u64 as vstd::set_lib::FiniteRange>::range_properties(0u64, u64::MAX);
        assert(full =~~= Set::<u64>::range(0u64, u64::MAX).insert(u64::MAX));
        assert(Set::<u64>::range(0u64, u64::MAX).len() == u64::MAX as nat);
        assert(!Set::<u64>::range(0u64, u64::MAX).contains(u64::MAX));
        assert(full.len() == u64::MAX as nat + 1);
        assert(full.subset_of(s));
        lemma_len_subset(full, s);
        assert(usize::MAX <= u64::MAX);
        assert(false);
    }
}

/// Where an inbound message must go: a notification is forwarded to the event
/// stream; a response completes the pending request it names; a response
/// naming no pending request is a protocol violation that the caller must
/// treat as fatal; a request from the engine is not part of this protocol and
/// is dropped after being reported.
#[derive(Debug)]
pub enum RouteOutcome {
    Notify(Notification),
    Completed { id: u64, res: Response },
    UnexpectedRequest { id: u64 },
    ProtocolViolation { id: u64 },
}

/// What a successful `register` call did: handed out the previous `next_id`,
/// which was not pending, and added it to the pending set.
pub open spec fn register_post(pre: PendingRequests, post: PendingRequests, id: u64) -> bool {
    &&& id == pre.next_id
    &&& !pre.pending_ids().contains(id)
    &&& post.pending_ids() == pre.pending_ids().insert(id)
    &&& post.wf()
}

/// The table of in-flight requests: the set of ids awaiting a response, and
/// the id the next request will take.
#[derive(Debug)]
pub struct PendingRequests {
    pub next_id: u64,
    pub pending: HashSet<u64>,
}

impl PendingRequests {
    /// The ids of requests sent and not yet answered.
    pub open spec fn pending_ids(&self) -> Set<u64> {
        self.pending@
    }

    /// The id handed to the next request is never one already in flight, and
    /// the set of in-flight ids is finite.
    pub open spec fn wf(&self) -> bool {
        &&& !self.pending_ids().contains(self.next_id)
        &&& self.pending_ids().finite()
    }

    /// Creates an empty table; the first request takes id 0.
    pub fn new() -> (t: Self)
        ensures
            t.wf(),
            t.next_id == 0,
            t.pending_ids() == Set::<u64>::empty(),
    {
        PendingRequests { next_id: 0, pending: HashSet::new() }
    }

    /// Assigns the next request id and marks it pending. The id counter then
    /// advances past any id still in flight, wrapping around if need be, so
    /// that ids are reused only after their requests complete.
    pub fn register(&mut self) -> (id: u64)
        requires
            old(self).wf(),
        ensures
            final(self).wf(),
            register_post(*old(self), *final(self), id),
            id == old(self).next_id,
            !old(self).pending_ids().contains(id),
            final(self).pending_ids() == old(self).pending_ids().insert(id),
    {
        let id = self.next_id;
        self.pending.insert(id);
        proof {
            assert(spec_hash_set_len(&self.pending) == self.pending@.len());
            lemma_free_id_exists(self.pending@);
        }
        let ghost free = choose|k: u64| !self.pending@.contains(k);
        while self.pending.contains(&self.next_id)
            invariant
                self.pending@ == old(self).pending@.insert(id),
                !self.pending@.contains(free),
            decreases wrap_distance(self.next_id, free),
        {
            proof {
                assert(self.next_id != free);
            }
            self.next_id = self.next_id.wrapping_add(1);
        }
        id
    }

    /// Removes an id from the pending set, reporting whether it was there.
    pub fn complete(&mut self, id: u64) -> (found: bool)
        requires
            old(self).wf(),
        ensures
            final(self).wf(),
            final(self).next_id == old(self).next_id,
            found == old(self).pending_ids().contains(id),
            final(self).pending_ids() == old(self).pending_ids().remove(id),
    {
        self.pending.remove(&id)
    }

    /// Routes one parsed inbound message: notifications are forwarded,
    /// responses complete their pending request, a response for an id with no
    /// pending request is reported as a protocol violation rather than
    /// silently dropped, and a request from the engine is reported and not
    /// acted on.
    pub fn route(&mut self, msg: Message) -> (r: RouteOutcome)
        requires
            old(self).wf(),
        ensures
            final(self).wf(),
            final(self).next_id == old(self).next_id,
            match msg {
                Message::Notification(n) => {
                    &&& r == RouteOutcome::Notify(n)
                    &&& final(self).pending_ids() == old(self).pending_ids()
                },
                Message::Request { id, req: _ } => {
                    &&& r == (RouteOutcome::UnexpectedRequest { id })
                    &&& final(self).pending_ids() == old(self).pending_ids()
                },
                Message::Response { id, res } => if old(self).pending_ids().contains(id) {
                    &&& r == (RouteOutcome::Completed { id, res })
                    &&& final(self).pending_ids() == old(self).pending_ids().remove(id)
                } else {
                    &&& r == (RouteOutcome::ProtocolViolation { id })
                    &&& final(self).pending_ids() == old(self).pending_ids()
                },
            },
    {
        match msg {
            Message::Notification(n) => RouteOutcome::Notify(n),
            Message::Request { id, req: _ } => RouteOutcome::UnexpectedRequest { id },
            Message::Response { id, res } => {
                if self.complete(id) {
                    RouteOutcome::Completed { id, res }
                } else {
                    proof {
                        assert(old(self).pending_ids().remove(id) =~~= old(self).pending_ids());
                    }
                    RouteOutcome::ProtocolViolation { id }
                }
            }
        }
    }
}

/// Requests in flight at the same time never share an id: a second request
/// registered while the first is still pending receives a different id.
pub proof fn lemma_distinct_request_ids(
    t0: PendingRequests,
    t1: PendingRequests,
    id1: u64,
    t2: PendingRequests,
    id2: u64,
)
    requires
        register_post(t0, t1, id1),
        register_post(t1, t2, id2),
    ensures
        id1 != id2,
{
    assert(t1.pending_ids().contains(id1));
}

} // verus!
