use vstd::prelude::*;
use crate::message::{MsgId, NodeId, ProtocolError};
use crate::peers::copy_nodes;
use crate::workloads::workload::{out_view, Body, Workload};

verus! {

/// A payload of one of two workloads.
#[derive(Debug, Clone)]
pub enum Either<A, B> {
    A(A),
    B(B),
}

/// An outbound item of the first workload, as one of the pair.
pub open spec fn lift_a<Q1, P1, Q2, P2>(b: Body<Q1, P1>) -> Body<Either<Q1, Q2>, Either<P1, P2>> {
    match b {
        Body::Request { dest, request } => Body::Request { dest, request: Either::A(request) },
        Body::Response { dest, in_reply_to, response } => Body::Response {
            dest,
            in_reply_to,
            response: Either::A(response),
        },
    }
}

/// An outbound item of the second workload, as one of the pair.
pub open spec fn lift_b<Q1, P1, Q2, P2>(b: Body<Q2, P2>) -> Body<Either<Q1, Q2>, Either<P1, P2>> {
    match b {
        Body::Request { dest, request } => Body::Request { dest, request: Either::B(request) },
        Body::Response { dest, in_reply_to, response } => Body::Response {
            dest,
            in_reply_to,
            response: Either::B(response),
        },
    }
}

/// How a result of the first workload reads as a result of the pair.
pub open spec fn lift_out_a<Q1, P1, Q2, P2>(out: Result<Seq<Body<Q1, P1>>, ProtocolError>) -> Result<
    Seq<Body<Either<Q1, Q2>, Either<P1, P2>>>,
    ProtocolError,
> {
    match out {
        Ok(s) => Ok(s.map_values(|b: Body<Q1, P1>| lift_a::<Q1, P1, Q2, P2>(b))),
        Err(e) => Err(e),
    }
}

/// How a result of the second workload reads as a result of the pair.
pub open spec fn lift_out_b<Q1, P1, Q2, P2>(out: Result<Seq<Body<Q2, P2>>, ProtocolError>) -> Result<
    Seq<Body<Either<Q1, Q2>, Either<P1, P2>>>,
    ProtocolError,
> {
    match out {
        Ok(s) => Ok(s.map_values(|b: Body<Q2, P2>| lift_b::<Q1, P1, Q2, P2>(b))),
        Err(e) => Err(e),
    }
}

/// The outbound items of the first workload, each wrapped.
fn lift_all_a<Q1, P1, Q2, P2>(v: Vec<Body<Q1, P1>>) -> (r: Vec<Body<Either<Q1, Q2>, Either<P1, P2>>>)
    ensures
        r@ == v@.map_values(|b: Body<Q1, P1>| lift_a::<Q1, P1, Q2, P2>(b)),
{
    let ghost items = v@;
    let mut r: Vec<Body<Either<Q1, Q2>, Either<P1, P2>>> = Vec::new();
    for b in it: v
        invariant
            it.seq() == items,
            r@ == it.seq().subrange(0, it.index() as int).map_values(|b: Body<Q1, P1>| lift_a::<Q1, P1, Q2, P2>(b)),
    {
        let lifted = match b {
            Body::Request { dest, request } => Body::Request { dest, request: Either::A(request) },
            Body::Response { dest, in_reply_to, response } => Body::Response {
                dest,
                in_reply_to,
                response: Either::A(response),
            },
        };
        r.push(lifted);
        assert(r@ =~= it.seq().subrange(0, it.index() + 1).map_values(|b: Body<Q1, P1>| lift_a::<Q1, P1, Q2, P2>(b)));
    }
    assert(items.subrange(0, items.len() as int) =~= items);
    r
}

/// The outbound items of the second workload, each wrapped.
fn lift_all_b<Q1, P1, Q2, P2>(v: Vec<Body<Q2, P2>>) -> (r: Vec<Body<Either<Q1, Q2>, Either<P1, P2>>>)
    ensures
        r@ == v@.map_values(|b: Body<Q2, P2>| lift_b::<Q1, P1, Q2, P2>(b)),
{
    let ghost items = v@;
    let mut r: Vec<Body<Either<Q1, Q2>, Either<P1, P2>>> = Vec::new();
    for b in it: v
        invariant
            it.seq() == items,
            r@ == it.seq().subrange(0, it.index() as int).map_values(|b: Body<Q2, P2>| lift_b::<Q1, P1, Q2, P2>(b)),
    {
        let lifted = match b {
            Body::Request { dest, request } => Body::Request { dest, request: Either::B(request) },
            Body::Response { dest, in_reply_to, response } => Body::Response {
                dest,
                in_reply_to,
                response: Either::B(response),
            },
        };
        r.push(lifted);
        assert(r@ =~= it.seq().subrange(0, it.index() + 1).map_values(|b: Body<Q2, P2>| lift_b::<Q1, P1, Q2, P2>(b)));
    }
    assert(items.subrange(0, items.len() as int) =~= items);
    r
}

/// Two workloads served by one node, each request routed by its side.
pub struct MultiWorkload<P1, P2> {
    pub workload_1: P1,
    pub workload_2: P2,
}

impl<P1: Workload, P2: Workload> Workload for MultiWorkload<P1, P2> {
    type Request = Either<P1::Request, P2::Request>;
    type Response = Either<P1::Response, P2::Response>;

    open spec fn inv(&self) -> bool {
        self.workload_1.inv() && self.workload_2.inv()
    }

    open spec fn initial(&self, id: Seq<char>, all_nodes: Seq<Seq<char>>) -> bool {
        self.workload_1.initial(id, all_nodes) && self.workload_2.initial(id, all_nodes)
    }

    open spec fn on_request(
        &self,
        request: Self::Request,
        src: Seq<char>,
        msg_id: MsgId,
        after: Self,
        out: Result<Seq<Body<Self::Request, Self::Response>>, ProtocolError>,
    ) -> bool {
        match request {
            Either::A(r) => exists|sub: Result<Seq<Body<P1::Request, P1::Response>>, ProtocolError>|
                {
                    &&& self.workload_1.on_request(r, src, msg_id, after.workload_1, sub)
                    &&& out == lift_out_a::<P1::Request, P1::Response, P2::Request, P2::Response>(sub)
                    &&& after.workload_2 == self.workload_2
                },
            Either::B(r) => exists|sub: Result<Seq<Body<P2::Request, P2::Response>>, ProtocolError>|
                {
                    &&& self.workload_2.on_request(r, src, msg_id, after.workload_2, sub)
                    &&& out == lift_out_b::<P1::Request, P1::Response, P2::Request, P2::Response>(sub)
                    &&& after.workload_1 == self.workload_1
                },
        }
    }

    open spec fn on_response(
        &self,
        response: Self::Response,
        in_reply_to: MsgId,
        after: Self,
        out: Result<(), ProtocolError>,
    ) -> bool {
        match response {
            Either::A(r) => {
                &&& self.workload_1.on_response(r, in_reply_to, after.workload_1, out)
                &&& after.workload_2 == self.workload_2
            },
            Either::B(r) => {
                &&& self.workload_2.on_response(r, in_reply_to, after.workload_2, out)
                &&& after.workload_1 == self.workload_1
            },
        }
    }

    open spec fn on_tick(&self, after: Self, out: Seq<Body<Self::Request, Self::Response>>) -> bool {
        exists|t1: Seq<Body<P1::Request, P1::Response>>, t2: Seq<Body<P2::Request, P2::Response>>|
            {
                &&& self.workload_1.on_tick(after.workload_1, t1)
                &&& self.workload_2.on_tick(after.workload_2, t2)
                &&& out == t1.map_values(|b: Body<P1::Request, P1::Response>| lift_a::<P1::Request, P1::Response, P2::Request, P2::Response>(b))
                    + t2.map_values(|b: Body<P2::Request, P2::Response>| lift_b::<P1::Request, P1::Response, P2::Request, P2::Response>(b))
            }
    }

    fn new(id: NodeId, all_nodes: Vec<NodeId>) -> (r: Self) {
        let nodes = copy_nodes(&all_nodes);
        let workload_1 = P1::new(id.clone(), nodes);
        let workload_2 = P2::new(id, all_nodes);
        MultiWorkload { workload_1, workload_2 }
    }

    fn handle_request(&mut self, request: &Self::Request, src: &NodeId, msg_id: MsgId) -> (r: Result<
        Vec<Body<Self::Request, Self::Response>>,
        ProtocolError,
    >) {
        match request {
            Either::A(req) => {
                let sub = self.workload_1.handle_request(req, src, msg_id);
                let ghost sub_view = out_view(sub);
                let r = match sub {
                    Ok(v) => Ok(lift_all_a(v)),
                    Err(e) => Err(e),
                };
                assert(out_view(r) == lift_out_a::<P1::Request, P1::Response, P2::Request, P2::Response>(sub_view));
                r
            },
            Either::B(req) => {
                let sub = self.workload_2.handle_request(req, src, msg_id);
                let ghost sub_view = out_view(sub);
                let r = match sub {
                    Ok(v) => Ok(lift_all_b(v)),
                    Err(e) => Err(e),
                };
                assert(out_view(r) == lift_out_b::<P1::Request, P1::Response, P2::Request, P2::Response>(sub_view));
                r
            },
        }
    }

    fn handle_response(&mut self, response: &Self::Response, in_reply_to: MsgId, src: &NodeId) -> (r: Result<(), ProtocolError>) {
        match response {
            Either::A(res) => self.workload_1.handle_response(res, in_reply_to, src),
            Either::B(res) => self.workload_2.handle_response(res, in_reply_to, src),
        }
    }

    fn tick(&mut self) -> (r: Vec<Body<Self::Request, Self::Response>>) {
        let t1 = self.workload_1.tick();
        let t2 = self.workload_2.tick();
        let ghost (v1, v2) = (t1@, t2@);
        let mut r = lift_all_a(t1);
        let mut r2 = lift_all_b(t2);
        r.append(&mut r2);
        r
    }
}

} // verus!
