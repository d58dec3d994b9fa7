use vstd::prelude::*;
use crate::message::{MsgId, NodeId, ProtocolError};
use crate::protocols::protocol::NodeProtocol;

verus! {

/// The handshake, which a running node never answers again.
pub struct InitProtocol;

/// The handshake request: this node's id and every node of the cluster.
#[derive(Debug, Clone)]
pub struct Init {
    pub node_id: NodeId,
    pub node_ids: Vec<NodeId>,
}

/// The answer to the handshake.
#[derive(Debug, Clone, Copy, PartialEq, Eq, Structural)]
pub enum Response {
    InitOk,
}

impl NodeProtocol for InitProtocol {
    type Request = Init;
    type Response = Response;

    open spec fn answers(&self, request: Init, src: Seq<char>, after: Self, r: Result<Response, ProtocolError>) -> bool {
        r == Err::<Response, ProtocolError>(ProtocolError::AlreadyInitialized)
    }

    open spec fn accepts(&self, response: Response, src: Seq<char>, after: Self, r: Result<(), ProtocolError>) -> bool {
        r == Err::<(), ProtocolError>(ProtocolError::UnexpectedResponse)
    }

    fn new() -> Self {
        InitProtocol
    }

    fn handle_request(&mut self, request: &Init, msg_id: MsgId, src: &NodeId) -> Result<Response, ProtocolError> {
        Err(ProtocolError::AlreadyInitialized)
    }

    fn handle_response(&mut self, response: &Response, src: &NodeId, in_reply_to: MsgId) -> Result<(), ProtocolError> {
        Err(ProtocolError::UnexpectedResponse)
    }
}

} // verus!
