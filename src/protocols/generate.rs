use vstd::prelude::*;
use crate::message::{MsgId, NodeId, ProtocolError};
use crate::protocols::protocol::NodeProtocol;

verus! {

/// Hands out random identifiers.
pub struct GenerateProtocol;

/// Asks for a fresh unique identifier.
#[derive(Debug, Clone, Copy, PartialEq, Eq, Structural)]
pub enum Request {
    Generate,
}

/// A fresh unique identifier.
#[derive(Debug)]
pub enum Response {
    GenerateOk { id: uuid::Uuid },
}

impl NodeProtocol for GenerateProtocol {
    type Request = Request;
    type Response = Response;

    open spec fn answers(&self, request: Request, src: Seq<char>, after: Self, r: Result<Response, ProtocolError>) -> bool {
        r is Ok
    }

    open spec fn accepts(&self, response: Response, src: Seq<char>, after: Self, r: Result<(), ProtocolError>) -> bool {
        r == Err::<(), ProtocolError>(ProtocolError::UnexpectedResponse)
    }

    fn new() -> Self {
        GenerateProtocol
    }

    fn handle_request(&mut self, request: &Request, msg_id: MsgId, src: &NodeId) -> Result<Response, ProtocolError> {
        Ok(Response::GenerateOk { id: uuid::Uuid::new_v4() })
    }

    fn handle_response(&mut self, response: &Response, src: &NodeId, in_reply_to: MsgId) -> Result<(), ProtocolError> {
        Err(ProtocolError::UnexpectedResponse)
    }
}

} // verus!
