use vstd::prelude::*;
use crate::message::{MsgId, NodeId, ProtocolError};
use crate::workloads::workload::{is_reply, Body, Workload};

verus! {

/// The handshake request: this node's id and every node of the cluster.
#[derive(Debug, Clone)]
pub struct Init {
    pub node_id: NodeId,
    pub node_ids: Vec<NodeId>,
}

/// The answer to the handshake.
#[derive(Debug, Clone, Copy, PartialEq, Eq, Structural)]
pub enum Response {
    InitOk,
}

/// Acknowledges handshakes.
pub struct InitWorkload;

impl Workload for InitWorkload {
    type Request = Init;
    type Response = Response;

    open spec fn inv(&self) -> bool {
        true
    }

    open spec fn initial(&self, id: Seq<char>, all_nodes: Seq<Seq<char>>) -> bool {
        true
    }

    open spec fn on_request(
        &self,
        request: Init,
        src: Seq<char>,
        msg_id: MsgId,
        after: Self,
        out: Result<Seq<Body<Init, Response>>, ProtocolError>,
    ) -> bool {
        &&& out is Ok
        &&& is_reply(out->Ok_0, src, msg_id)
        &&& out->Ok_0[0]->Response_response == Response::InitOk
    }

    open spec fn on_response(
        &self,
        response: Response,
        in_reply_to: MsgId,
        after: Self,
        out: Result<(), ProtocolError>,
    ) -> bool {
        out == Err::<(), ProtocolError>(ProtocolError::UnexpectedResponse)
    }

    open spec fn on_tick(&self, after: Self, out: Seq<Body<Init, Response>>) -> bool {
        out.len() == 0
    }

    fn new(id: NodeId, all_nodes: Vec<NodeId>) -> Self {
        InitWorkload
    }

    fn handle_request(&mut self, request: &Init, src: &NodeId, msg_id: MsgId) -> Result<Vec<Body<Init, Response>>, ProtocolError> {
        Ok(vec![Body::Response { dest: src.clone(), in_reply_to: msg_id, response: Response::InitOk }])
    }

    fn handle_response(&mut self, response: &Response, in_reply_to: MsgId, src: &NodeId) -> Result<(), ProtocolError> {
        Err(ProtocolError::UnexpectedResponse)
    }

    fn tick(&mut self) -> Vec<Body<Init, Response>> {
        Vec::new()
    }
}

} // verus!
