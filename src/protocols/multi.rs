use vstd::prelude::*;
use crate::message::{MsgId, NodeId, ProtocolError};
use crate::protocols::protocol::NodeProtocol;

verus! {

/// A payload of one of two protocols.
#[derive(Debug, Clone)]
pub enum Either<A, B> {
    A(A),
    B(B),
}

/// A result of one side of a pair of protocols, as a result of the pair.
pub open spec fn lift_result<T, U>(r: Result<T, ProtocolError>, f: spec_fn(T) -> U) -> Result<U, ProtocolError> {
    match r {
        Ok(v) => Ok(f(v)),
        Err(e) => Err(e),
    }
}

/// Two protocols served by one node, each request routed by its side.
pub struct MultiProtocol<P1, P2> {
    pub protocol_1: P1,
    pub protocol_2: P2,
}

impl<P1: NodeProtocol, P2: NodeProtocol> NodeProtocol for MultiProtocol<P1, P2> {
    type Request = Either<P1::Request, P2::Request>;
    type Response = Either<P1::Response, P2::Response>;

    open spec fn answers(&self, request: Self::Request, src: Seq<char>, after: Self, r: Result<Self::Response, ProtocolError>) -> bool {
        match request {
            Either::A(q) => exists|sub: Result<P1::Response, ProtocolError>|
                {
                    &&& self.protocol_1.answers(q, src, after.protocol_1, sub)
                    &&& r == lift_result(sub, |p: P1::Response| Either::<P1::Response, P2::Response>::A(p))
                    &&& after.protocol_2 == self.protocol_2
                },
            Either::B(q) => exists|sub: Result<P2::Response, ProtocolError>|
                {
                    &&& self.protocol_2.answers(q, src, after.protocol_2, sub)
                    &&& r == lift_result(sub, |p: P2::Response| Either::<P1::Response, P2::Response>::B(p))
                    &&& after.protocol_1 == self.protocol_1
                },
        }
    }

    open spec fn accepts(&self, response: Self::Response, src: Seq<char>, after: Self, r: Result<(), ProtocolError>) -> bool {
        match response {
            Either::A(p) => self.protocol_1.accepts(p, src, after.protocol_1, r) && after.protocol_2 == self.protocol_2,
            Either::B(p) => self.protocol_2.accepts(p, src, after.protocol_2, r) && after.protocol_1 == self.protocol_1,
        }
    }

    fn new() -> Self {
        MultiProtocol { protocol_1: P1::new(), protocol_2: P2::new() }
    }

    fn handle_request(&mut self, request: &Self::Request, msg_id: MsgId, src: &NodeId) -> (r: Result<Self::Response, ProtocolError>) {
        match request {
            Either::A(q) => {
                let sub = self.protocol_1.handle_request(q, msg_id, src);
                let ghost sub_view = sub;
                let r = match sub {
                    Ok(p) => Ok(Either::A(p)),
                    Err(e) => Err(e),
                };
                assert(r == lift_result(sub_view, |p: P1::Response| Either::<P1::Response, P2::Response>::A(p)));
                assert(self.protocol_2 == old(self).protocol_2);
                assert(old(self).protocol_1.answers(*q, src@, self.protocol_1, sub_view));
                r
            },
            Either::B(q) => {
                let sub = self.protocol_2.handle_request(q, msg_id, src);
                let ghost sub_view = sub;
                let r = match sub {
                    Ok(p) => Ok(Either::B(p)),
                    Err(e) => Err(e),
                };
                assert(r == lift_result(sub_view, |p: P2::Response| Either::<P1::Response, P2::Response>::B(p)));
                assert(self.protocol_1 == old(self).protocol_1);
                assert(old(self).protocol_2.answers(*q, src@, self.protocol_2, sub_view));
                r
            },
        }
    }

    fn handle_response(&mut self, response: &Self::Response, src: &NodeId, in_reply_to: MsgId) -> (r: Result<(), ProtocolError>) {
        match response {
            Either::A(p) => self.protocol_1.handle_response(p, src, in_reply_to),
            Either::B(p) => self.protocol_2.handle_response(p, src, in_reply_to),
        }
    }
}

} // verus!
