//! Tracking of incoming HTTP requests that wait for a reply from a service.
use vstd::prelude::*;
use std::collections::HashMap;

verus! {

broadcast use vstd::std_specs::hash::group_hash_axioms;

pub type RequestID = u64;

/// Tracks incoming HTTP requests for which we are waiting a reply from a
/// service. Each request holds the reply channel `S` through which the reply
/// gets sent back to the HTTP connection.
pub struct RequestTracker<S> {
    requests: HashMap<RequestID, S>,
    next_id: RequestID,
    request_timeout_ms: u64,
}

impl<S> RequestTracker<S> {
    /// Requests waiting for a reply, by id.
    pub closed spec fn pending(&self) -> Map<RequestID, S> {
        self.requests@
    }

    /// Id that the next pushed request gets.
    pub closed spec fn spec_next_id(&self) -> RequestID {
        self.next_id
    }

    /// How long a request waits for its reply.
    pub closed spec fn spec_request_timeout_ms(&self) -> u64 {
        self.request_timeout_ms
    }

    /// Creates a tracker with no request.
    pub fn new(request_timeout_ms: u64) -> (res: Self)
        ensures
            res.pending() == Map::<RequestID, S>::empty(),
            res.spec_next_id() == 0,
            res.spec_request_timeout_ms() == request_timeout_ms,
    {
        RequestTracker { requests: HashMap::new(), next_id: 0, request_timeout_ms }
    }

    /// How long a request waits for its reply before it gets dropped.
    pub fn request_timeout_ms(&self) -> (res: u64)
        ensures
            res == self.spec_request_timeout_ms(),
    {
        self.request_timeout_ms
    }

    /// Pushes a new request for which we'll expect a reply from a service and
    /// returns its id. Ids are allocated in sequence, wrapping around.
    pub fn push(&mut self, reply_channel: S) -> (id: RequestID)
        ensures
            id == old(self).spec_next_id(),
            final(self).spec_next_id() == old(self).spec_next_id().wrapping_add(1),
            final(self).pending() == old(self).pending().insert(id, reply_channel),
            final(self).spec_request_timeout_ms() == old(self).spec_request_timeout_ms(),
    {
        let id = self.next_id;
        self.next_id = self.next_id.wrapping_add(1);
        self.requests.insert(id, reply_channel);
        id
    }

    /// Takes the reply channel of a request that got its reply from a service.
    /// Returns `None` if the request isn't there anymore (timed out).
    pub fn reply(&mut self, request_id: RequestID) -> (res: Option<S>)
        ensures
            final(self).pending() == old(self).pending().remove(request_id),
            final(self).spec_next_id() == old(self).spec_next_id(),
            final(self).spec_request_timeout_ms() == old(self).spec_request_timeout_ms(),
            match res {
                Some(channel) => old(self).pending().contains_key(request_id)
                    && channel == old(self).pending()[request_id],
                None => !old(self).pending().contains_key(request_id),
            },
    {
        self.requests.remove(&request_id)
    }

    /// Forgets a request (once its HTTP connection stopped waiting for it).
    pub fn remove(&mut self, request_id: RequestID)
        ensures
            final(self).pending() == old(self).pending().remove(request_id),
            final(self).spec_next_id() == old(self).spec_next_id(),
            final(self).spec_request_timeout_ms() == old(self).spec_request_timeout_ms(),
    {
        self.requests.remove(&request_id);
    }
}

/// The reply channel taken for a request is the one pushed with it, as long
/// as no other push reused its id.
pub proof fn lemma_reply_after_push<S>(pending: Map<RequestID, S>, id: RequestID, channel: S, other: RequestID, other_channel: S)
    requires
        other != id,
    ensures
        pending.insert(id, channel).contains_key(id),
        pending.insert(id, channel)[id] == channel,
        pending.insert(id, channel).insert(other, other_channel)[id] == channel,
        !pending.insert(id, channel).remove(id).contains_key(id),
{
}

/// A request that is waiting for its reply.
pub struct TrackedRequest {
    id: RequestID,
    receive_timeout_ms: u64,
}

impl TrackedRequest {
    pub closed spec fn spec_id(&self) -> RequestID {
        self.id
    }

    pub closed spec fn spec_receive_timeout_ms(&self) -> u64 {
        self.receive_timeout_ms
    }

    pub fn new(id: RequestID, receive_timeout_ms: u64) -> (res: Self)
        ensures
            res.spec_id() == id,
            res.spec_receive_timeout_ms() == receive_timeout_ms,
    {
        TrackedRequest { id, receive_timeout_ms }
    }

    pub fn id(&self) -> (res: RequestID)
        ensures
            res == self.spec_id(),
    {
        self.id
    }

    pub fn receive_timeout_ms(&self) -> (res: u64)
        ensures
            res == self.spec_receive_timeout_ms(),
    {
        self.receive_timeout_ms
    }
}

} // verus!
