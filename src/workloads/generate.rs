use vstd::prelude::*;
use crate::message::{MsgId, NodeId, ProtocolError};
use crate::workloads::workload::{is_reply, Body, Workload};

verus! {

/// uuid's `Uuid`, carried through unread.
#[verifier::external_type_specification]
#[verifier::external_body]
pub struct ExUuid(uuid::Uuid);

/// Relies on uuid's `Uuid::new_v4`: a random identifier, of which nothing more is promised.
pub assume_specification[ uuid::Uuid::new_v4 ]() -> uuid::Uuid;

/// Asks for a fresh unique identifier.
#[derive(Debug, Clone, Copy, PartialEq, Eq, Structural)]
pub enum Request {
    Generate,
}

/// A fresh unique identifier.
#[derive(Debug)]
pub enum Response {
    GenerateOk { id: uuid::Uuid },
}

/// Hands out random identifiers.
pub struct GenerateWorkload;

impl Workload for GenerateWorkload {
    type Request = Request;
    type Response = Response;

    open spec fn inv(&self) -> bool {
        true
    }

    open spec fn initial(&self, id: Seq<char>, all_nodes: Seq<Seq<char>>) -> bool {
        true
    }

    open spec fn on_request(
        &self,
        request: Request,
        src: Seq<char>,
        msg_id: MsgId,
        after: Self,
        out: Result<Seq<Body<Request, Response>>, ProtocolError>,
    ) -> bool {
        &&& out is Ok
        &&& is_reply(out->Ok_0, src, msg_id)
    }

    open spec fn on_response(
        &self,
        response: Response,
        in_reply_to: MsgId,
        after: Self,
        out: Result<(), ProtocolError>,
    ) -> bool {
        out == Err::<(), ProtocolError>(ProtocolError::UnexpectedResponse)
    }

    open spec fn on_tick(&self, after: Self, out: Seq<Body<Request, Response>>) -> bool {
        out.len() == 0
    }

    fn new(id: NodeId, all_nodes: Vec<NodeId>) -> Self {
        GenerateWorkload
    }

    fn handle_request(&mut self, request: &Request, src: &NodeId, msg_id: MsgId) -> Result<Vec<Body<Request, Response>>, ProtocolError> {
        let id = uuid::Uuid::new_v4();
        Ok(vec![Body::Response { dest: src.clone(), in_reply_to: msg_id, response: Response::GenerateOk { id } }])
    }

    fn handle_response(&mut self, response: &Response, in_reply_to: MsgId, src: &NodeId) -> Result<(), ProtocolError> {
        Err(ProtocolError::UnexpectedResponse)
    }

    fn tick(&mut self) -> Vec<Body<Request, Response>> {
        Vec::new()
    }
}

} // verus!
