use vstd::prelude::*;
use crate::message::{MsgId, NodeId, ProtocolError};

verus! {

/// A protocol that answers every request at once with exactly one response.
pub trait NodeProtocol: Sized {
    type Request;
    type Response;

    /// Answering `request` from `src` may move `self` to `after` with result `r`.
    spec fn answers(&self, request: Self::Request, src: Seq<char>, after: Self, r: Result<Self::Response, ProtocolError>) -> bool;

    /// Taking in `response` from `src` may move `self` to `after` with result `r`.
    spec fn accepts(&self, response: Self::Response, src: Seq<char>, after: Self, r: Result<(), ProtocolError>) -> bool;

    fn new() -> Self;

    fn handle_request(&mut self, request: &Self::Request, msg_id: MsgId, src: &NodeId) -> (r: Result<Self::Response, ProtocolError>)
        ensures
            old(self).answers(*request, src@, *final(self), r),
    ;

    fn handle_response(&mut self, response: &Self::Response, src: &NodeId, in_reply_to: MsgId) -> (r: Result<(), ProtocolError>)
        ensures
            old(self).accepts(*response, src@, *final(self), r),
    ;
}

} // verus!
