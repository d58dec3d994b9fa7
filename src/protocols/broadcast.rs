use vstd::prelude::*;
use crate::message::{MsgId, NodeId, ProtocolError};
use crate::peers::insert_value_u64;
use crate::protocols::protocol::NodeProtocol;

verus! {

/// Acknowledges broadcast values and keeps each once.
pub struct BroadcastProtocol {
    seen_values: Vec<u64>,
}

/// A value to broadcast.
#[derive(Debug, Clone, Copy, PartialEq, Eq, Structural)]
pub struct BroadcastRequest {
    pub value: u64,
}

/// The acknowledgement of a broadcast value.
#[derive(Debug, Clone, Copy, PartialEq, Eq, Structural)]
pub struct BroadcastOk;

impl BroadcastProtocol {
    /// The values received so far.
    pub closed spec fn seen(&self) -> Set<u64> {
        self.seen_values@.to_set()
    }
}

impl NodeProtocol for BroadcastProtocol {
    type Request = BroadcastRequest;
    type Response = BroadcastOk;

    open spec fn answers(&self, request: BroadcastRequest, src: Seq<char>, after: Self, r: Result<BroadcastOk, ProtocolError>) -> bool {
        &&& r == Ok::<BroadcastOk, ProtocolError>(BroadcastOk)
        &&& after.seen() == self.seen().insert(request.value)
    }

    open spec fn accepts(&self, response: BroadcastOk, src: Seq<char>, after: Self, r: Result<(), ProtocolError>) -> bool {
        &&& r is Ok
        &&& after.seen() == self.seen()
    }

    fn new() -> Self {
        BroadcastProtocol { seen_values: Vec::new() }
    }

    fn handle_request(&mut self, request: &BroadcastRequest, msg_id: MsgId, src: &NodeId) -> Result<BroadcastOk, ProtocolError> {
        insert_value_u64(&mut self.seen_values, request.value);
        proof {
            old(self).seen_values@.lemma_push_to_set_commute(request.value);
            if old(self).seen_values@.contains(request.value) {
                assert(old(self).seen().insert(request.value) =~= old(self).seen());
            }
        }
        Ok(BroadcastOk)
    }

    fn handle_response(&mut self, response: &BroadcastOk, src: &NodeId, in_reply_to: MsgId) -> Result<(), ProtocolError> {
        Ok(())
    }
}

} // verus!
