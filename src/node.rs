use vstd::prelude::*;
use crate::correlation::Correlator;
use crate::message::{Message, MessageBody, MsgId, NodeId, ProtocolError};
use crate::peers::{copy_nodes, names};
use crate::workloads::init::{Init, Response as InitResponse};
use crate::workloads::workload::{Body, Workload};

verus! {

/// The outbound item a message carries.
pub open spec fn body_of<Q, P>(m: Message<Q, P>) -> Body<Q, P> {
    match m.body {
        MessageBody::Request { msg_id, request } => Body::Request { dest: m.dest, request },
        MessageBody::Response { in_reply_to, response } => Body::Response { dest: m.dest, in_reply_to, response },
    }
}

/// The outbound items a sequence of messages carries.
pub open spec fn bodies_of<Q, P>(msgs: Seq<Message<Q, P>>) -> Seq<Body<Q, P>> {
    msgs.map_values(|m: Message<Q, P>| body_of(m))
}

/// How many of `msgs` are requests.
pub open spec fn count_requests<Q, P>(msgs: Seq<Message<Q, P>>) -> nat
    decreases msgs.len(),
{
    if msgs.len() == 0 {
        0
    } else {
        count_requests(msgs.drop_last()) + if msgs.last().body is Request {
            1nat
        } else {
            0nat
        }
    }
}

/// How many of `bodies` are requests.
pub open spec fn body_requests<Q, P>(bodies: Seq<Body<Q, P>>) -> nat
    decreases bodies.len(),
{
    if bodies.len() == 0 {
        0
    } else {
        body_requests(bodies.drop_last()) + if bodies.last() is Request {
            1nat
        } else {
            0nat
        }
    }
}

/// Messages and the items they carry hold as many requests.
proof fn lemma_count_bodies<Q, P>(msgs: Seq<Message<Q, P>>)
    ensures
        count_requests(msgs) == body_requests(bodies_of(msgs)),
    decreases msgs.len(),
{
    if msgs.len() > 0 {
        lemma_count_bodies(msgs.drop_last());
        assert(bodies_of(msgs).drop_last() =~= bodies_of(msgs.drop_last()));
    }
}

/// The requests before a request at `k` are fewer than all of them.
proof fn lemma_body_requests_prefix<Q, P>(bodies: Seq<Body<Q, P>>, k: int)
    requires
        0 <= k < bodies.len(),
        bodies[k] is Request,
    ensures
        body_requests(bodies.take(k)) + 1 <= body_requests(bodies),
    decreases bodies.len(),
{
    if k == bodies.len() - 1 {
        assert(bodies.drop_last() =~= bodies.take(k));
    } else {
        lemma_body_requests_prefix(bodies.drop_last(), k);
        assert(bodies.drop_last().take(k) =~= bodies.take(k));
    }
}

/// `msgs` are sent by `src`, their requests numbered in order from `first`.
pub open spec fn stamped<Q, P>(msgs: Seq<Message<Q, P>>, src: Seq<char>, first: MsgId) -> bool {
    forall|i: int|
        0 <= i < msgs.len() ==> {
            &&& (#[trigger] msgs[i]).src@ == src
            &&& msgs[i].body is Request ==> msgs[i].body->Request_msg_id == first + count_requests(msgs.take(i))
        }
}

/// A running node: its identity, its workload and the requests it awaits answers to.
pub struct Node<W: Workload> {
    pub id: NodeId,
    workload: W,
    correlator: Correlator<W::Request>,
}

impl<W: Workload> Node<W> {
    /// This node's id.
    pub closed spec fn node_id(&self) -> Seq<char> {
        self.id@
    }

    /// The workload's state.
    pub closed spec fn state(&self) -> W {
        self.workload
    }

    /// The id the next request gets.
    pub closed spec fn next_id(&self) -> MsgId {
        self.correlator.next()
    }

    /// The ids of the requests awaiting a response, with where each went.
    pub closed spec fn awaiting(&self) -> Map<MsgId, Seq<char>> {
        self.correlator.pending().map_values(|o: crate::correlation::OutboundRequest<W::Request>| o.dest@)
    }

    pub closed spec fn inv(&self) -> bool {
        self.workload.inv() && self.correlator.inv()
    }

    /// `after` has sent `msgs` from `self`: requests got the next ids and are awaited.
    pub open spec fn sent(&self, after: Self, msgs: Seq<Message<W::Request, W::Response>>) -> bool {
        &&& stamped(msgs, self.node_id(), self.next_id())
        &&& after.next_id() == self.next_id() + count_requests(msgs)
        &&& forall|k: MsgId| #[trigger] self.awaiting().contains_key(k) ==> after.awaiting().contains_key(k)
            && after.awaiting()[k] == self.awaiting()[k]
        &&& forall|i: int|
            0 <= i < msgs.len() && (#[trigger] msgs[i]).body is Request ==> after.awaiting().contains_key(
                msgs[i].body->Request_msg_id,
            ) && after.awaiting()[msgs[i].body->Request_msg_id] == msgs[i].dest@
    }

    /// What handling `msg` may do: `after` is the node then and `r` what it sends.
    pub open spec fn handled(
        &self,
        msg: Message<W::Request, W::Response>,
        after: Self,
        r: Result<Seq<Message<W::Request, W::Response>>, ProtocolError>,
    ) -> bool {
        &&& after.node_id() == self.node_id()
        &&& if msg.dest@ != self.node_id() {
            &&& r == Ok::<Seq<Message<W::Request, W::Response>>, ProtocolError>(Seq::empty())
            &&& after == *self
        } else {
            match msg.body {
                MessageBody::Request { msg_id, request } => match r {
                    Ok(msgs) => {
                        &&& self.state().on_request(request, msg.src@, msg_id, after.state(), Ok(bodies_of(msgs)))
                        &&& self.sent(after, msgs)
                    },
                    Err(e) => self.state().on_request(request, msg.src@, msg_id, after.state(), Err(e)) || {
                        &&& e == ProtocolError::MsgIdsExhausted
                        &&& exists|b: Seq<Body<W::Request, W::Response>>|
                            #[trigger] self.state().on_request(request, msg.src@, msg_id, after.state(), Ok(b))
                                && self.next_id() + body_requests(b) > u64::MAX
                    },
                },
                MessageBody::Response { in_reply_to, response } => if self.awaiting().contains_key(in_reply_to) {
                    &&& self.state().on_response(response, in_reply_to, after.state(), unit_of(r))
                    &&& r matches Ok(msgs) ==> msgs.len() == 0
                    &&& after.next_id() == self.next_id()
                    &&& after.awaiting() == self.awaiting().remove(in_reply_to)
                } else {
                    &&& r == Ok::<Seq<Message<W::Request, W::Response>>, ProtocolError>(Seq::empty())
                    &&& after == *self
                },
            }
        }
    }

    /// What a timer period may do: `after` is the node then and `r` what it sends.
    pub open spec fn ticked(&self, after: Self, r: Result<Seq<Message<W::Request, W::Response>>, ProtocolError>) -> bool {
        &&& after.node_id() == self.node_id()
        &&& match r {
            Ok(msgs) => self.state().on_tick(after.state(), bodies_of(msgs)) && self.sent(after, msgs),
            Err(e) => {
                &&& e == ProtocolError::MsgIdsExhausted
                &&& exists|b: Seq<Body<W::Request, W::Response>>|
                    #[trigger] self.state().on_tick(after.state(), b) && self.next_id() + body_requests(b) > u64::MAX
            },
        }
    }

    /// `self` is the node that the handshake request `msg` starts, and `reply` its acknowledgement.
    pub open spec fn started(&self, reply: Message<Init, InitResponse>, msg: Message<Init, InitResponse>) -> bool {
        &&& msg.body is Request
        &&& self.inv()
        &&& self.node_id() == msg.body->Request_request.node_id@
        &&& self.state().initial(self.node_id(), names(msg.body->Request_request.node_ids@))
        &&& self.next_id() == 0
        &&& self.awaiting() == Map::<MsgId, Seq<char>>::empty()
        &&& reply.src@ == self.node_id()
        &&& reply.dest@ == msg.src@
        &&& reply.body == MessageBody::<Init, InitResponse>::Response {
            in_reply_to: msg.body->Request_msg_id,
            response: InitResponse::InitOk,
        }
    }

    /// Starts a node from the handshake request; also returns its acknowledgement.
    pub fn init(msg: &Message<Init, InitResponse>) -> (r: Result<(Node<W>, Message<Init, InitResponse>), ProtocolError>)
        ensures
            match msg.body {
                MessageBody::Request { .. } => r is Ok && r->Ok_0.0.started(r->Ok_0.1, *msg),
                MessageBody::Response { .. } => r == Err::<(Node<W>, Message<Init, InitResponse>), ProtocolError>(
                    ProtocolError::NotInitialized,
                ),
            },
    {
        match &msg.body {
            MessageBody::Request { msg_id, request } => {
                let workload = W::new(request.node_id.clone(), copy_nodes(&request.node_ids));
                let node = Node { id: request.node_id.clone(), workload, correlator: Correlator::new() };
                assert(node.awaiting() =~= Map::<MsgId, Seq<char>>::empty());
                let reply = Message {
                    src: request.node_id.clone(),
                    dest: msg.src.clone(),
                    body: MessageBody::Response { in_reply_to: *msg_id, response: InitResponse::InitOk },
                };
                Ok((node, reply))
            },
            MessageBody::Response { .. } => Err(ProtocolError::NotInitialized),
        }
    }

    /// Turns outbound items into messages from this node, numbering and remembering requests.
    fn send_all(&mut self, bodies: Vec<Body<W::Request, W::Response>>) -> (r: Result<
        Vec<Message<W::Request, W::Response>>,
        ProtocolError,
    >)
        requires
            old(self).inv(),
        ensures
            final(self).inv(),
            final(self).node_id() == old(self).node_id(),
            final(self).state() == old(self).state(),
            match r {
                Ok(msgs) => bodies_of(msgs@) == bodies@ && old(self).sent(*final(self), msgs@),
                Err(e) => e == ProtocolError::MsgIdsExhausted && old(self).next_id() + body_requests(bodies@)
                    > u64::MAX,
            },
    {
        let ghost items = bodies@;
        let mut msgs: Vec<Message<W::Request, W::Response>> = Vec::new();
        for b in it: bodies
            invariant
                it.seq() == items,
                self.inv(),
                self.node_id() == old(self).node_id(),
                self.state() == old(self).state(),
                msgs@.len() == it.index(),
                bodies_of(msgs@) == items.take(it.index() as int),
                old(self).sent(*self, msgs@),
        {
            let ghost before = *self;
            let ghost prev = msgs@;
            match b {
                Body::Request { dest, request } => {
                    let msg_id = match self.correlator.allocate(&dest, &request) {
                        Ok(id) => id,
                        Err(e) => {
                            proof {
                                lemma_count_bodies(msgs@);
                                lemma_body_requests_prefix(items, it.index() as int);
                            }
                            return Err(e);
                        },
                    };
                    msgs.push(Message { src: self.id.clone(), dest, body: MessageBody::Request { msg_id, request } });
                    proof {
                        assert(msgs@.drop_last() =~= prev);
                        assert(msgs@.take(prev.len() as int) =~= prev);
                        assert forall|i: int| 0 <= i < prev.len() implies #[trigger] msgs@.take(i) == prev.take(i) by {
                            assert(msgs@.take(i) =~= prev.take(i));
                        }
                    }
                },
                Body::Response { dest, in_reply_to, response } => {
                    msgs.push(Message { src: self.id.clone(), dest, body: MessageBody::Response { in_reply_to, response } });
                    proof {
                        assert(msgs@.drop_last() =~= prev);
                        assert forall|i: int| 0 <= i < prev.len() implies #[trigger] msgs@.take(i) == prev.take(i) by {
                            assert(msgs@.take(i) =~= prev.take(i));
                        }
                    }
                },
            }
            assert(bodies_of(msgs@) =~= items.take(it.index() + 1));
        }
        assert(items.take(items.len() as int) =~= items);
        Ok(msgs)
    }

    /// Handles one message from the network.
    pub fn handle(&mut self, msg: Message<W::Request, W::Response>) -> (r: Result<
        Vec<Message<W::Request, W::Response>>,
        ProtocolError,
    >)
        requires
            old(self).inv(),
        ensures
            final(self).inv(),
            old(self).handled(msg, *final(self), out_msgs(r)),
    {
        if !(msg.dest == self.id) {
            return Ok(Vec::new());
        }
        let src = msg.src;
        match msg.body {
            MessageBody::Request { msg_id, request } => {
                let bodies = self.workload.handle_request(&request, &src, msg_id);
                let ghost mid = *self;
                assert(mid.awaiting() == old(self).awaiting());
                match bodies {
                    Ok(bodies) => self.send_all(bodies),
                    Err(e) => Err(e),
                }
            },
            MessageBody::Response { in_reply_to, response } => {
                if !self.correlator.awaits(in_reply_to) {
                    return Ok(Vec::new());
                }
                let _ = self.correlator.resolve(in_reply_to);
                assert(self.awaiting() =~= old(self).awaiting().remove(in_reply_to));
                let ghost mid = *self;
                let res = self.workload.handle_response(&response, in_reply_to, &src);
                assert(self.awaiting() == mid.awaiting());
                match res {
                    Ok(u) => {
                        assert(res == Ok::<(), ProtocolError>(()));
                        Ok(Vec::new())
                    },
                    Err(e) => Err(e),
                }
            },
        }
    }

    /// One period of the background timer.
    pub fn tick(&mut self) -> (r: Result<Vec<Message<W::Request, W::Response>>, ProtocolError>)
        requires
            old(self).inv(),
        ensures
            final(self).inv(),
            old(self).ticked(*final(self), out_msgs(r)),
    {
        let bodies = self.workload.tick();
        let ghost items = bodies@;
        let ghost mid = *self;
        assert(mid.awaiting() == old(self).awaiting());
        assert(mid.next_id() == old(self).next_id());
        let r = self.send_all(bodies);
        assert(old(self).state().on_tick(self.state(), items));
        r
    }
}

/// An event a node reacts to.
pub enum Inbound<Q, P> {
    /// The handshake request.
    Handshake(Message<Init, InitResponse>),
    /// A message of the workload.
    Message(Message<Q, P>),
    /// A period of the background timer.
    Tick,
}

/// What a node sends in reaction to an event.
pub enum Outbound<Q, P> {
    Handshake(Message<Init, InitResponse>),
    Messages(Vec<Message<Q, P>>),
}

/// The messages of a reaction that sends workload messages.
pub open spec fn sent_msgs<Q, P>(r: Result<Outbound<Q, P>, ProtocolError>) -> Result<Seq<Message<Q, P>>, ProtocolError> {
    match r {
        Ok(Outbound::Messages(v)) => Ok(v@),
        Ok(Outbound::Handshake(_)) => Ok(Seq::empty()),
        Err(e) => Err(e),
    }
}

/// A node's life: first the handshake, then its workload.
pub enum Runtime<W: Workload> {
    AwaitingHandshake,
    Running(Node<W>),
}

impl<W: Workload> Runtime<W> {
    pub open spec fn inv(&self) -> bool {
        match self {
            Runtime::AwaitingHandshake => true,
            Runtime::Running(node) => node.inv(),
        }
    }

    pub fn new() -> (r: Self)
        ensures
            r is AwaitingHandshake,
    {
        Runtime::AwaitingHandshake
    }

    /// Reacts to one event.
    pub fn step(&mut self, event: Inbound<W::Request, W::Response>) -> (r: Result<Outbound<W::Request, W::Response>, ProtocolError>)
        requires
            old(self).inv(),
        ensures
            final(self).inv(),
            match *old(self) {
                Runtime::AwaitingHandshake => match event {
                    Inbound::Handshake(m) => if m.body is Request {
                        &&& *final(self) is Running
                        &&& r is Ok
                        &&& r->Ok_0 is Handshake
                        &&& (*final(self))->Running_0.started(r->Ok_0->Handshake_0, m)
                    } else {
                        &&& r == Err::<Outbound<W::Request, W::Response>, ProtocolError>(ProtocolError::NotInitialized)
                        &&& *final(self) == *old(self)
                    },
                    Inbound::Message(_) => {
                        &&& r == Err::<Outbound<W::Request, W::Response>, ProtocolError>(ProtocolError::NotInitialized)
                        &&& *final(self) == *old(self)
                    },
                    Inbound::Tick => {
                        &&& r is Ok
                        &&& r->Ok_0 is Messages
                        &&& r->Ok_0->Messages_0@.len() == 0
                        &&& *final(self) == *old(self)
                    },
                },
                Runtime::Running(node) => match event {
                    Inbound::Handshake(_) => {
                        &&& r == Err::<Outbound<W::Request, W::Response>, ProtocolError>(ProtocolError::AlreadyInitialized)
                        &&& *final(self) == *old(self)
                    },
                    Inbound::Message(m) => {
                        &&& *final(self) is Running
                        &&& r matches Ok(o) ==> o is Messages
                        &&& node.handled(m, (*final(self))->Running_0, sent_msgs(r))
                    },
                    Inbound::Tick => {
                        &&& *final(self) is Running
                        &&& r matches Ok(o) ==> o is Messages
                        &&& node.ticked((*final(self))->Running_0, sent_msgs(r))
                    },
                },
            },
    {
        let mut state = Runtime::AwaitingHandshake;
        std::mem::swap(self, &mut state);
        match state {
            Runtime::AwaitingHandshake => match event {
                Inbound::Handshake(m) => match Node::init(&m) {
                    Ok((node, reply)) => {
                        *self = Runtime::Running(node);
                        Ok(Outbound::Handshake(reply))
                    },
                    Err(e) => Err(e),
                },
                Inbound::Message(_) => Err(ProtocolError::NotInitialized),
                Inbound::Tick => Ok(Outbound::Messages(Vec::new())),
            },
            Runtime::Running(mut node) => {
                let r = match event {
                    Inbound::Handshake(_) => Err(ProtocolError::AlreadyInitialized),
                    Inbound::Message(m) => match node.handle(m) {
                        Ok(msgs) => Ok(Outbound::Messages(msgs)),
                        Err(e) => Err(e),
                    },
                    Inbound::Tick => match node.tick() {
                        Ok(msgs) => Ok(Outbound::Messages(msgs)),
                        Err(e) => Err(e),
                    },
                };
                *self = Runtime::Running(node);
                r
            },
        }
    }
}

/// Whether a result is a success, and its error if not.
pub open spec fn unit_of<T>(r: Result<T, ProtocolError>) -> Result<(), ProtocolError> {
    match r {
        Ok(_) => Ok(()),
        Err(e) => Err(e),
    }
}

/// The messages of a result.
pub open spec fn out_msgs<Q, P>(r: Result<Vec<Message<Q, P>>, ProtocolError>) -> Result<Seq<Message<Q, P>>, ProtocolError> {
    match r {
        Ok(v) => Ok(v@),
        Err(e) => Err(e),
    }
}

} // verus!
