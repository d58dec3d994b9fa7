use std::collections::HashMap;
use vstd::prelude::*;
use crate::message::{MsgId, NodeId, ProtocolError};

verus! {

broadcast use vstd::std_specs::hash::group_hash_axioms;

/// A request this node sent and has not had an answer to.
#[derive(Debug)]
pub struct OutboundRequest<R> {
    pub request: R,
    pub dest: NodeId,
}

/// Hands out message ids and remembers each request until its response comes.
pub struct Correlator<R> {
    next_msg_id: MsgId,
    outstanding: HashMap<MsgId, OutboundRequest<R>>,
}

impl<R: Clone> Correlator<R> {
    /// The id the next request gets.
    pub closed spec fn next(&self) -> MsgId {
        self.next_msg_id
    }

    /// The requests awaiting a response, by id.
    pub closed spec fn pending(&self) -> Map<MsgId, OutboundRequest<R>> {
        self.outstanding@
    }

    /// Ids already handed out are below the next one.
    pub closed spec fn inv(&self) -> bool {
        forall|id: MsgId| #[trigger] self.outstanding@.contains_key(id) ==> id < self.next_msg_id
    }

    pub fn new() -> (r: Self)
        ensures
            r.inv(),
            r.next() == 0,
            r.pending() == Map::<MsgId, OutboundRequest<R>>::empty(),
    {
        Correlator { next_msg_id: 0, outstanding: HashMap::new() }
    }

    /// Gives the next id to a request for `dest` and remembers the request under it.
    pub fn allocate(&mut self, dest: &NodeId, request: &R) -> (r: Result<MsgId, ProtocolError>)
        requires
            old(self).inv(),
        ensures
            final(self).inv(),
            old(self).next() == u64::MAX ==> r == Err::<MsgId, ProtocolError>(ProtocolError::MsgIdsExhausted)
                && *final(self) == *old(self),
            old(self).next() < u64::MAX ==> {
                &&& r == Ok::<MsgId, ProtocolError>(old(self).next())
                &&& final(self).next() == old(self).next() + 1
                &&& !old(self).pending().contains_key(old(self).next())
                &&& final(self).pending().dom() == old(self).pending().dom().insert(old(self).next())
                &&& final(self).pending().remove(old(self).next()) == old(self).pending()
                &&& final(self).pending()[old(self).next()].dest == *dest
                &&& cloned(*request, final(self).pending()[old(self).next()].request)
            },
    {
        if self.next_msg_id == u64::MAX {
            return Err(ProtocolError::MsgIdsExhausted);
        }
        let id = self.next_msg_id;
        self.outstanding.insert(id, OutboundRequest { request: request.clone(), dest: dest.clone() });
        self.next_msg_id = id + 1;
        assert(self.outstanding@.remove(id) =~= old(self).outstanding@);
        Ok(id)
    }

    /// Whether a response to `msg_id` is awaited.
    pub fn awaits(&self, msg_id: MsgId) -> (r: bool)
        ensures
            r == self.pending().contains_key(msg_id),
    {
        self.outstanding.contains_key(&msg_id)
    }

    /// Takes the request that `in_reply_to` answers, if it is still awaited.
    pub fn resolve(&mut self, in_reply_to: MsgId) -> (r: Option<OutboundRequest<R>>)
        requires
            old(self).inv(),
        ensures
            final(self).inv(),
            final(self).next() == old(self).next(),
            final(self).pending() == old(self).pending().remove(in_reply_to),
            r == if old(self).pending().contains_key(in_reply_to) {
                Some(old(self).pending()[in_reply_to])
            } else {
                None::<OutboundRequest<R>>
            },
    {
        let r = self.outstanding.remove(&in_reply_to);
        assert(self.outstanding@ =~= old(self).outstanding@.remove(in_reply_to));
        r
    }
}

} // verus!
