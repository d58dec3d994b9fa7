use vstd::prelude::*;
use crate::message::{MsgId, NodeId, ProtocolError};

verus! {

/// What a workload hands to the node for sending.
#[derive(Debug, Clone)]
pub enum Body<Request, Response> {
    Request { dest: NodeId, request: Request },
    Response { dest: NodeId, in_reply_to: MsgId, response: Response },
}

/// The items of a handler's result.
pub open spec fn out_view<Q, P>(r: Result<Vec<Body<Q, P>>, ProtocolError>) -> Result<Seq<Body<Q, P>>, ProtocolError> {
    match r {
        Ok(v) => Ok(v@),
        Err(e) => Err(e),
    }
}

/// `out` is exactly one response, to `src`, answering `msg_id`.
pub open spec fn is_reply<Q, P>(out: Seq<Body<Q, P>>, src: Seq<char>, msg_id: MsgId) -> bool {
    &&& out.len() == 1
    &&& out[0] is Response
    &&& out[0]->Response_dest@ == src
    &&& out[0]->Response_in_reply_to == msg_id
}

/// A distributed algorithm run by a node, as a state machine over typed payloads.
pub trait Workload: Sized {
    type Request: Clone;
    type Response;

    /// The state's internal invariant.
    spec fn inv(&self) -> bool;

    /// `self` is the fresh state of node `id` in a cluster of `all_nodes`.
    spec fn initial(&self, id: Seq<char>, all_nodes: Seq<Seq<char>>) -> bool;

    /// Handling `request` from `src`, sent as `msg_id`, may move `self` to `after` and yield `out`.
    spec fn on_request(
        &self,
        request: Self::Request,
        src: Seq<char>,
        msg_id: MsgId,
        after: Self,
        out: Result<Seq<Body<Self::Request, Self::Response>>, ProtocolError>,
    ) -> bool;

    /// Handling `response`, an answer to `in_reply_to`, may move `self` to `after` with result `out`.
    spec fn on_response(
        &self,
        response: Self::Response,
        in_reply_to: MsgId,
        after: Self,
        out: Result<(), ProtocolError>,
    ) -> bool;

    /// A period of the background timer may move `self` to `after` and yield `out`.
    spec fn on_tick(&self, after: Self, out: Seq<Body<Self::Request, Self::Response>>) -> bool;

    fn new(id: NodeId, all_nodes: Vec<NodeId>) -> (r: Self)
        ensures
            r.inv(),
            r.initial(id@, all_nodes@.map_values(|n: NodeId| n@)),
    ;

    fn handle_request(&mut self, request: &Self::Request, src: &NodeId, msg_id: MsgId) -> (r: Result<
        Vec<Body<Self::Request, Self::Response>>,
        ProtocolError,
    >)
        requires
            old(self).inv(),
        ensures
            final(self).inv(),
            old(self).on_request(*request, src@, msg_id, *final(self), out_view(r)),
    ;

    fn handle_response(&mut self, response: &Self::Response, in_reply_to: MsgId, src: &NodeId) -> (r: Result<(), ProtocolError>)
        requires
            old(self).inv(),
        ensures
            final(self).inv(),
            old(self).on_response(*response, in_reply_to, *final(self), r),
    ;

    fn tick(&mut self) -> (r: Vec<Body<Self::Request, Self::Response>>)
        requires
            old(self).inv(),
        ensures
            final(self).inv(),
            old(self).on_tick(*final(self), r@),
    ;
}

} // verus!
