use vstd::prelude::*;
use crate::message::{MsgId, NodeId, ProtocolError};
use crate::workloads::workload::{is_reply, Body, Workload};

verus! {

/// Answers each request with its own text.
pub struct EchoWorkload;

#[derive(Debug, Clone)]
pub struct Echo {
    pub echo: String,
}

#[derive(Debug, Clone)]
pub struct EchoOk {
    pub echo: String,
}

impl Workload for EchoWorkload {
    type Request = Echo;
    type Response = EchoOk;

    open spec fn inv(&self) -> bool {
        true
    }

    open spec fn initial(&self, id: Seq<char>, all_nodes: Seq<Seq<char>>) -> bool {
        true
    }

    open spec fn on_request(
        &self,
        request: Echo,
        src: Seq<char>,
        msg_id: MsgId,
        after: Self,
        out: Result<Seq<Body<Echo, EchoOk>>, ProtocolError>,
    ) -> bool {
        &&& out is Ok
        &&& is_reply(out->Ok_0, src, msg_id)
        &&& out->Ok_0[0]->Response_response.echo@ == request.echo@
    }

    open spec fn on_response(
        &self,
        response: EchoOk,
        in_reply_to: MsgId,
        after: Self,
        out: Result<(), ProtocolError>,
    ) -> bool {
        out is Ok
    }

    open spec fn on_tick(&self, after: Self, out: Seq<Body<Echo, EchoOk>>) -> bool {
        out.len() == 0
    }

    fn new(id: NodeId, all_nodes: Vec<NodeId>) -> Self {
        EchoWorkload
    }

    fn handle_request(&mut self, request: &Echo, src: &NodeId, msg_id: MsgId) -> Result<Vec<Body<Echo, EchoOk>>, ProtocolError> {
        let reply = Body::Response { dest: src.clone(), in_reply_to: msg_id, response: EchoOk { echo: request.echo.clone() } };
        Ok(vec![reply])
    }

    fn handle_response(&mut self, response: &EchoOk, in_reply_to: MsgId, src: &NodeId) -> Result<(), ProtocolError> {
        Ok(())
    }

    fn tick(&mut self) -> Vec<Body<Echo, EchoOk>> {
        Vec::new()
    }
}

} // verus!
