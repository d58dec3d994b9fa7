use vstd::prelude::*;
use crate::keyed::{find_key, has_key, is_first_key, key_set};
use crate::message::{MsgId, NodeId, ProtocolError};
use crate::peers::{choose_peers, contains_value, insert_keys, insert_nodes, insert_value, is_pick, names, FANOUT};
use crate::workloads::workload::{is_reply, Body, Workload};

verus! {

/// Requests of the gossip broadcast workload.
#[derive(Debug, Clone)]
pub enum Request {
    /// The neighbours of every node; its keys are the whole cluster.
    Topology { topology: Vec<(NodeId, Vec<NodeId>)> },
    /// A new value to spread.
    Broadcast { value: isize },
    /// Asks for every value this node knows.
    Read,
    /// Values that a peer knows.
    Gossip { values: Vec<isize> },
}

/// Responses of the gossip broadcast workload.
#[derive(Debug, Clone)]
pub enum Response {
    TopologyOk,
    BroadcastOk,
    ReadOk { values: Vec<isize> },
    GossipOk,
}

/// Epidemic set-union broadcast with periodic anti-entropy.
pub struct BroadcastWorkload {
    id: NodeId,
    seen_values: Vec<isize>,
    to_broadcast: Vec<isize>,
    neighbors: Vec<NodeId>,
    all_nodes: Vec<NodeId>,
}

/// The destinations of a sequence of outbound requests.
pub open spec fn dests(out: Seq<Body<Request, Response>>) -> Seq<Seq<char>> {
    Seq::new(out.len(), |i: int| out[i]->Request_dest@)
}

/// `b` is a gossip request carrying exactly `values`, each once.
pub open spec fn carries(b: Body<Request, Response>, values: Set<isize>) -> bool {
    &&& b is Request
    &&& b->Request_request is Gossip
    &&& b->Request_request->Gossip_values@.to_set() == values
    &&& b->Request_request->Gossip_values@.no_duplicates()
}

/// `out` is one gossip round: `values` sent to a random pick of `peers`.
pub open spec fn is_gossip_round(out: Seq<Body<Request, Response>>, peers: Seq<Seq<char>>, values: Set<isize>) -> bool {
    &&& is_pick(dests(out), peers, FANOUT as nat)
    &&& dests(out).no_duplicates()
    &&& forall|i: int| 0 <= i < out.len() ==> carries(#[trigger] out[i], values)
}

/// `out` is the single reply `response` to request `msg_id` from `src`.
pub open spec fn replies(out: Seq<Body<Request, Response>>, src: Seq<char>, msg_id: MsgId, response: Response) -> bool {
    is_reply(out, src, msg_id) && out[0]->Response_response == response
}

impl BroadcastWorkload {
    /// This node's id.
    pub closed spec fn node_id(&self) -> Seq<char> {
        self.id@
    }

    /// The values this node treats as known: what `Read` returns.
    pub closed spec fn seen(&self) -> Set<isize> {
        self.seen_values@.to_set()
    }

    /// Values learnt from gossip that the next round forwards.
    pub closed spec fn pending(&self) -> Set<isize> {
        self.to_broadcast@.to_set()
    }

    /// This node's neighbours in the topology.
    pub closed spec fn neighbor_set(&self) -> Set<Seq<char>> {
        names(self.neighbors@).to_set()
    }

    /// The cluster, in the order gossip picks from.
    pub closed spec fn peers(&self) -> Seq<Seq<char>> {
        names(self.all_nodes@)
    }

    /// Everything this node would gossip.
    pub open spec fn known(&self) -> Set<isize> {
        self.seen().union(self.pending())
    }

    /// `after` differs from `self` in its values at most.
    pub open spec fn same_cluster(&self, after: Self) -> bool {
        &&& after.node_id() == self.node_id()
        &&& after.neighbor_set() == self.neighbor_set()
        &&& after.peers() == self.peers()
    }

    /// `after` is `self` after a gossip round: everything known becomes seen.
    pub open spec fn gossiped(&self, after: Self) -> bool {
        &&& self.same_cluster(after)
        &&& after.seen() == self.known()
        &&& after.pending() == Set::<isize>::empty()
    }

    /// The values of `seen_values` and `to_broadcast` together, each once.
    fn known_values(&self) -> (r: Vec<isize>)
        requires
            self.inv(),
        ensures
            r@.to_set() == self.known(),
            r@.no_duplicates(),
    {
        let mut r: Vec<isize> = Vec::new();
        let mut i: usize = 0;
        while i < self.seen_values.len()
            invariant
                i <= self.seen_values@.len(),
                r@ == self.seen_values@.subrange(0, i as int),
            decreases self.seen_values@.len() - i,
        {
            r.push(self.seen_values[i]);
            i = i + 1;
        }
        assert(r@ == self.seen_values@);
        let mut j: usize = 0;
        while j < self.to_broadcast.len()
            invariant
                self.inv(),
                j <= self.to_broadcast@.len(),
                r@.no_duplicates(),
                r@.to_set() == self.seen().union(self.to_broadcast@.subrange(0, j as int).to_set()),
            decreases self.to_broadcast@.len() - j,
        {
            let x = self.to_broadcast[j];
            let ghost before = r@;
            insert_value(&mut r, x);
            proof {
                before.lemma_push_to_set_commute(x);
                self.to_broadcast@.subrange(0, j as int).lemma_push_to_set_commute(x);
                assert(self.to_broadcast@.subrange(0, j + 1) =~= self.to_broadcast@.subrange(0, j as int).push(x));
                if before.contains(x) {
                    assert(before.to_set().insert(x) =~= before.to_set());
                }
            }
            j = j + 1;
        }
        assert(self.to_broadcast@.subrange(0, j as int) =~= self.to_broadcast@);
        r
    }

    /// One gossip round to `targets`: each gets every known value; pending values become seen.
    pub fn gossip_to(&mut self, targets: &Vec<NodeId>) -> (r: Vec<Body<Request, Response>>)
        requires
            old(self).inv(),
        ensures
            final(self).inv(),
            old(self).gossiped(*final(self)),
            dests(r@) == names(targets@),
            forall|i: int| 0 <= i < r@.len() ==> carries(#[trigger] r@[i], old(self).known()),
    {
        let values = self.known_values();
        let mut r: Vec<Body<Request, Response>> = Vec::new();
        let mut i: usize = 0;
        while i < targets.len()
            invariant
                i <= targets@.len(),
                values@.to_set() == old(self).known(),
                values@.no_duplicates(),
                r@.len() == i,
                dests(r@) == names(targets@.subrange(0, i as int)),
                forall|j: int| 0 <= j < r@.len() ==> carries(#[trigger] r@[j], old(self).known()),
            decreases targets@.len() - i,
        {
            let mut copy: Vec<isize> = Vec::new();
            let mut k: usize = 0;
            while k < values.len()
                invariant
                    k <= values@.len(),
                    copy@ == values@.subrange(0, k as int),
                decreases values@.len() - k,
            {
                copy.push(values[k]);
                k = k + 1;
            }
            assert(copy@ == values@);
            let ghost prev = r@;
            let dest = targets[i].clone();
            r.push(Body::Request { dest, request: Request::Gossip { values: copy } });
            assert forall|j: int| 0 <= j < i + 1 implies #[trigger] dests(r@)[j] == names(targets@.subrange(0, i + 1))[j] by {
                if j < i {
                    assert(dests(prev)[j] == names(targets@.subrange(0, i as int))[j]);
                }
            }
            assert(dests(r@) =~= names(targets@.subrange(0, i + 1)));
            i = i + 1;
        }
        assert(targets@.subrange(0, i as int) =~= targets@);
        self.seen_values = values;
        self.to_broadcast = Vec::new();
        assert(self.to_broadcast@.to_set() =~= Set::<isize>::empty());
        r
    }

    /// One gossip round to a random pick of the cluster.
    pub fn gossip(&mut self) -> (r: Vec<Body<Request, Response>>)
        requires
            old(self).inv(),
        ensures
            final(self).inv(),
            old(self).gossiped(*final(self)),
            is_gossip_round(r@, old(self).peers(), old(self).known()),
    {
        let targets = choose_peers(&self.all_nodes, FANOUT);
        self.gossip_to(&targets)
    }
}

impl Workload for BroadcastWorkload {
    type Request = Request;
    type Response = Response;

    closed spec fn inv(&self) -> bool {
        &&& self.seen_values@.no_duplicates()
        &&& self.to_broadcast@.no_duplicates()
        &&& names(self.neighbors@).no_duplicates()
        &&& names(self.all_nodes@).no_duplicates()
    }

    open spec fn initial(&self, id: Seq<char>, all_nodes: Seq<Seq<char>>) -> bool {
        &&& self.node_id() == id
        &&& self.seen() == Set::<isize>::empty()
        &&& self.pending() == Set::<isize>::empty()
        &&& self.neighbor_set() == Set::<Seq<char>>::empty()
        &&& self.peers() == Seq::<Seq<char>>::empty()
    }

    open spec fn on_request(
        &self,
        request: Request,
        src: Seq<char>,
        msg_id: MsgId,
        after: Self,
        out: Result<Seq<Body<Request, Response>>, ProtocolError>,
    ) -> bool {
        match request {
            Request::Topology { topology } => if has_key(topology@, self.node_id()) {
                &&& out is Ok
                &&& replies(out->Ok_0, src, msg_id, Response::TopologyOk)
                &&& after.node_id() == self.node_id()
                &&& after.seen() == self.seen()
                &&& after.pending() == self.pending()
                &&& forall|i: int| #[trigger] is_first_key(topology@, self.node_id(), i)
                    ==> after.neighbor_set() == self.neighbor_set() + names(topology@[i].1@).to_set()
                &&& after.peers().to_set() == self.peers().to_set() + key_set(topology@)
            } else {
                &&& out == Err::<Seq<Body<Request, Response>>, ProtocolError>(ProtocolError::MissingOwnTopology)
                &&& after == *self
            },
            Request::Broadcast { value } => if self.seen().contains(value) {
                &&& out is Ok
                &&& replies(out->Ok_0, src, msg_id, Response::BroadcastOk)
                &&& after == *self
            } else {
                &&& out is Ok
                &&& out->Ok_0.len() >= 1
                &&& is_gossip_round(out->Ok_0.drop_last(), self.peers(), self.known().insert(value))
                &&& replies(seq![out->Ok_0.last()], src, msg_id, Response::BroadcastOk)
                &&& self.same_cluster(after)
                &&& after.seen() == self.known().insert(value)
                &&& after.pending() == Set::<isize>::empty()
            },
            Request::Read => {
                &&& out is Ok
                &&& is_reply(out->Ok_0, src, msg_id)
                &&& out->Ok_0[0]->Response_response is ReadOk
                &&& out->Ok_0[0]->Response_response->ReadOk_values@.to_set() == self.seen()
                &&& out->Ok_0[0]->Response_response->ReadOk_values@.no_duplicates()
                &&& after == *self
            },
            Request::Gossip { values } => {
                &&& out is Ok
                &&& replies(out->Ok_0, src, msg_id, Response::GossipOk)
                &&& self.same_cluster(after)
                &&& after.seen() == self.seen() + values@.to_set()
                &&& after.pending() == self.pending() + values@.to_set().difference(self.seen())
            },
        }
    }

    open spec fn on_response(
        &self,
        response: Response,
        in_reply_to: MsgId,
        after: Self,
        out: Result<(), ProtocolError>,
    ) -> bool {
        &&& after == *self
        &&& out == if response is GossipOk {
            Ok::<(), ProtocolError>(())
        } else {
            Err(ProtocolError::UnexpectedResponse)
        }
    }

    open spec fn on_tick(&self, after: Self, out: Seq<Body<Request, Response>>) -> bool {
        &&& self.gossiped(after)
        &&& is_gossip_round(out, self.peers(), self.known())
    }

    fn new(id: NodeId, all_nodes: Vec<NodeId>) -> (r: Self) {
        let r = BroadcastWorkload {
            id,
            seen_values: Vec::new(),
            to_broadcast: Vec::new(),
            neighbors: Vec::new(),
            all_nodes: Vec::new(),
        };
        assert(r.seen_values@.to_set() =~= Set::<isize>::empty());
        assert(r.to_broadcast@.to_set() =~= Set::<isize>::empty());
        assert(names(r.neighbors@).to_set() =~= Set::<Seq<char>>::empty());
        assert(names(r.all_nodes@) =~= Seq::<Seq<char>>::empty());
        r
    }

    fn handle_request(&mut self, request: &Request, src: &NodeId, msg_id: MsgId) -> (r: Result<
        Vec<Body<Request, Response>>,
        ProtocolError,
    >) {
        match request {
            Request::Topology { topology } => {
                match find_key(topology, &self.id) {
                    None => Err(ProtocolError::MissingOwnTopology),
                    Some(i) => {
                        insert_nodes(&mut self.neighbors, &topology[i].1);
                        insert_keys(&mut self.all_nodes, topology);
                        proof {
                            assert forall|j: int| #[trigger] is_first_key(topology@, old(self).node_id(), j) implies j == i by {
                                if j < i {
                                    assert(topology@[j].0@ != old(self).node_id());
                                } else if i < j {
                                    assert(topology@[i as int].0@ != old(self).node_id());
                                }
                            }
                        }
                        Ok(vec![Body::Response { dest: src.clone(), in_reply_to: msg_id, response: Response::TopologyOk }])
                    },
                }
            },
            Request::Broadcast { value } => {
                let reply = Body::Response { dest: src.clone(), in_reply_to: msg_id, response: Response::BroadcastOk };
                if contains_value(&self.seen_values, *value) {
                    assert(self.seen_values@.contains(*value) ==> self.seen().contains(*value));
                    Ok(vec![reply])
                } else {
                    proof {
                        if self.seen().contains(*value) {
                            assert(self.seen_values@.contains(*value));
                        }
                    }
                    let ghost before = *self;
                    self.seen_values.push(*value);
                    proof {
                        before.seen_values@.lemma_push_to_set_commute(*value);
                        assert(self.known() =~= before.known().insert(*value));
                    }
                    let mut out = self.gossip();
                    let ghost round = out@;
                    out.push(reply);
                    assert(out@.drop_last() =~= round);
                    Ok(out)
                }
            },
            Request::Read => {
                let mut values: Vec<isize> = Vec::new();
                let mut i: usize = 0;
                while i < self.seen_values.len()
                    invariant
                        i <= self.seen_values@.len(),
                        values@ == self.seen_values@.subrange(0, i as int),
                    decreases self.seen_values@.len() - i,
                {
                    values.push(self.seen_values[i]);
                    i = i + 1;
                }
                assert(values@ =~= self.seen_values@);
                Ok(vec![Body::Response { dest: src.clone(), in_reply_to: msg_id, response: Response::ReadOk { values } }])
            },
            Request::Gossip { values } => {
                let mut i: usize = 0;
                while i < values.len()
                    invariant
                        i <= values@.len(),
                        self.inv(),
                        old(self).same_cluster(*self),
                        self.seen() == old(self).seen() + values@.subrange(0, i as int).to_set(),
                        self.pending() == old(self).pending() + values@.subrange(0, i as int).to_set().difference(old(self).seen()),
                    decreases values@.len() - i,
                {
                    let x = values[i];
                    let ghost start = *self;
                    let ghost added = set![x].difference(old(self).seen());
                    if !contains_value(&self.seen_values, x) {
                        self.seen_values.push(x);
                        insert_value(&mut self.to_broadcast, x);
                        proof {
                            start.seen_values@.lemma_push_to_set_commute(x);
                            start.to_broadcast@.lemma_push_to_set_commute(x);
                            if start.to_broadcast@.contains(x) {
                                assert(start.pending().insert(x) =~= start.pending());
                            }
                            assert(!start.seen_values@.contains(x));
                            assert(!start.seen().contains(x));
                            assert(old(self).seen() <= start.seen());
                            assert(!old(self).seen().contains(x));
                            assert(self.pending() =~= start.pending() + added);
                        }
                    } else {
                        proof {
                            assert(start.seen().contains(x));
                            assert(self.pending() =~= start.pending() + added);
                        }
                    }
                    proof {
                        values@.subrange(0, i as int).lemma_push_to_set_commute(x);
                        assert(values@.subrange(0, i + 1) =~= values@.subrange(0, i as int).push(x));
                        assert(self.seen() =~= old(self).seen() + values@.subrange(0, i + 1).to_set());
                        assert(self.pending() =~= old(self).pending() + values@.subrange(0, i + 1).to_set().difference(old(self).seen()));
                    }
                    i = i + 1;
                }
                assert(values@.subrange(0, i as int) =~= values@);
                Ok(vec![Body::Response { dest: src.clone(), in_reply_to: msg_id, response: Response::GossipOk }])
            },
        }
    }

    fn handle_response(&mut self, response: &Response, in_reply_to: MsgId, src: &NodeId) -> (r: Result<(), ProtocolError>) {
        match response {
            Response::GossipOk => Ok(()),
            _ => Err(ProtocolError::UnexpectedResponse),
        }
    }

    fn tick(&mut self) -> (r: Vec<Body<Request, Response>>) {
        self.gossip()
    }
}

/// What a node knows never shrinks: no request takes a value out of what `Read` returns.
pub proof fn lemma_seen_grows(
    w: BroadcastWorkload,
    request: Request,
    src: Seq<char>,
    msg_id: MsgId,
    after: BroadcastWorkload,
    out: Result<Seq<Body<Request, Response>>, ProtocolError>,
)
    requires
        w.on_request(request, src, msg_id, after, out),
    ensures
        w.seen() <= after.seen(),
{
}

/// A gossip round never forgets either: everything known before it is seen after it.
pub proof fn lemma_round_keeps_known(w: BroadcastWorkload, after: BroadcastWorkload, out: Seq<Body<Request, Response>>)
    requires
        w.on_tick(after, out),
    ensures
        w.known() <= after.seen(),
{
}

/// Gossip of values the node has already seen changes nothing, and gossip received twice
/// leaves the node as it left it the first time.
pub proof fn lemma_gossip_idempotent(
    w: BroadcastWorkload,
    values: Vec<isize>,
    src: Seq<char>,
    msg_id: MsgId,
    once: BroadcastWorkload,
    out1: Result<Seq<Body<Request, Response>>, ProtocolError>,
    twice: BroadcastWorkload,
    out2: Result<Seq<Body<Request, Response>>, ProtocolError>,
)
    requires
        w.on_request(Request::Gossip { values }, src, msg_id, once, out1),
        once.on_request(Request::Gossip { values }, src, msg_id, twice, out2),
    ensures
        values@.to_set() <= w.seen() ==> once.seen() == w.seen() && once.pending() == w.pending(),
        twice.seen() == once.seen(),
        twice.pending() == once.pending(),
{
    if values@.to_set() <= w.seen() {
        assert(values@.to_set().difference(w.seen()) =~= Set::empty());
        assert(once.pending() =~= w.pending());
        assert(once.seen() =~= w.seen());
    }
    assert(values@.to_set().difference(once.seen()) =~= Set::empty());
    assert(twice.pending() =~= once.pending());
    assert(twice.seen() =~= once.seen());
}

/// Gossip merges are a set union: two gossip messages taken in either order, each any number of
/// times, leave the node with what it had seen plus both sets of values.
pub proof fn lemma_gossip_order(
    w: BroadcastWorkload,
    a: Vec<isize>,
    b: Vec<isize>,
    src: Seq<char>,
    msg_id: MsgId,
    wa: BroadcastWorkload,
    out_a: Result<Seq<Body<Request, Response>>, ProtocolError>,
    wab: BroadcastWorkload,
    out_ab: Result<Seq<Body<Request, Response>>, ProtocolError>,
    wb: BroadcastWorkload,
    out_b: Result<Seq<Body<Request, Response>>, ProtocolError>,
    wba: BroadcastWorkload,
    out_ba: Result<Seq<Body<Request, Response>>, ProtocolError>,
)
    requires
        w.on_request(Request::Gossip { values: a }, src, msg_id, wa, out_a),
        wa.on_request(Request::Gossip { values: b }, src, msg_id, wab, out_ab),
        w.on_request(Request::Gossip { values: b }, src, msg_id, wb, out_b),
        wb.on_request(Request::Gossip { values: a }, src, msg_id, wba, out_ba),
    ensures
        wab.seen() == w.seen() + a@.to_set() + b@.to_set(),
        wba.seen() == wab.seen(),
        wba.pending() == wab.pending(),
{
    assert(wba.seen() =~= wab.seen());
    assert(wba.pending() =~= wab.pending());
}

/// When the cluster is no larger than the fan-out, a gossip round reaches every node of it.
pub proof fn lemma_round_reaches_all(w: BroadcastWorkload, after: BroadcastWorkload, out: Seq<Body<Request, Response>>)
    requires
        w.on_tick(after, out),
        w.peers().len() <= FANOUT,
    ensures
        forall|p: Seq<char>|
            w.peers().contains(p) ==> exists|i: int| 0 <= i < out.len() && #[trigger] dests(out)[i] == p,
{
    assert forall|p: Seq<char>| w.peers().contains(p) implies exists|i: int|
        0 <= i < out.len() && #[trigger] dests(out)[i] == p by {
        let i = choose|i: int| 0 <= i < w.peers().len() && w.peers()[i] == p;
        assert(dests(out)[i] == p);
    }
}

/// Convergence: a value that a node knows reaches a peer that its gossip round picks, once that
/// peer has taken in the gossip and run its own next round; from then on the peer's `Read`
/// includes the value.
pub proof fn lemma_gossip_converges(
    sender: BroadcastWorkload,
    sender_after: BroadcastWorkload,
    round: Seq<Body<Request, Response>>,
    i: int,
    receiver: BroadcastWorkload,
    msg_id: MsgId,
    received: BroadcastWorkload,
    reply: Result<Seq<Body<Request, Response>>, ProtocolError>,
    receiver_after: BroadcastWorkload,
    receiver_round: Seq<Body<Request, Response>>,
    v: isize,
)
    requires
        sender.known().contains(v),
        sender.on_tick(sender_after, round),
        0 <= i < round.len(),
        dests(round)[i] == receiver.node_id(),
        receiver.on_request(round[i]->Request_request, sender.node_id(), msg_id, received, reply),
        received.on_tick(receiver_after, receiver_round),
    ensures
        sender_after.seen().contains(v),
        receiver_after.seen().contains(v),
{
    assert(carries(round[i], sender.known()));
}

/// Node `k` runs a gossip round from state `ticking[k]` to `done[k]`, sending `rounds[k]`; node
/// `k + 1` got to `ticking[k + 1]` from `receiving[k + 1]` by taking in the gossip request at
/// position `picks[k]` of that round.
pub open spec fn is_gossip_chain(
    ticking: Seq<BroadcastWorkload>,
    done: Seq<BroadcastWorkload>,
    rounds: Seq<Seq<Body<Request, Response>>>,
    receiving: Seq<BroadcastWorkload>,
    picks: Seq<int>,
    ids: Seq<MsgId>,
    replies: Seq<Result<Seq<Body<Request, Response>>, ProtocolError>>,
) -> bool {
    &&& ticking.len() > 0
    &&& done.len() == ticking.len()
    &&& rounds.len() == ticking.len()
    &&& receiving.len() == ticking.len()
    &&& picks.len() + 1 == ticking.len()
    &&& ids.len() == ticking.len()
    &&& replies.len() == ticking.len()
    &&& forall|k: int| 0 <= k < ticking.len() ==> #[trigger] ticking[k].on_tick(done[k], rounds[k])
    &&& forall|k: int|
        0 <= k < picks.len() ==> {
            &&& 0 <= #[trigger] picks[k] < rounds[k].len()
            &&& dests(rounds[k])[picks[k]] == receiving[k + 1].node_id()
            &&& receiving[k + 1].on_request(
                rounds[k][picks[k]]->Request_request,
                ticking[k].node_id(),
                ids[k + 1],
                ticking[k + 1],
                replies[k + 1],
            )
        }
}

/// Convergence along a chain of gossip rounds: a value that the first node of the chain knows
/// is, after each node's round, in that node's `Read`; as many rounds as the chain is long spread
/// it to all of it.
pub proof fn lemma_chain_converges(
    ticking: Seq<BroadcastWorkload>,
    done: Seq<BroadcastWorkload>,
    rounds: Seq<Seq<Body<Request, Response>>>,
    receiving: Seq<BroadcastWorkload>,
    picks: Seq<int>,
    ids: Seq<MsgId>,
    replies: Seq<Result<Seq<Body<Request, Response>>, ProtocolError>>,
    v: isize,
)
    requires
        is_gossip_chain(ticking, done, rounds, receiving, picks, ids, replies),
        ticking[0].known().contains(v),
    ensures
        forall|k: int| 0 <= k < ticking.len() ==> (#[trigger] done[k]).seen().contains(v),
{
    assert forall|k: int| 0 <= k < ticking.len() implies (#[trigger] done[k]).seen().contains(v) by {
        lemma_chain_knows(ticking, done, rounds, receiving, picks, ids, replies, v, k);
        assert(ticking[k].on_tick(done[k], rounds[k]));
    }
}

/// The induction step of `lemma_chain_converges`: node `n` knows the value when its round starts.
proof fn lemma_chain_knows(
    ticking: Seq<BroadcastWorkload>,
    done: Seq<BroadcastWorkload>,
    rounds: Seq<Seq<Body<Request, Response>>>,
    receiving: Seq<BroadcastWorkload>,
    picks: Seq<int>,
    ids: Seq<MsgId>,
    replies: Seq<Result<Seq<Body<Request, Response>>, ProtocolError>>,
    v: isize,
    n: int,
)
    requires
        is_gossip_chain(ticking, done, rounds, receiving, picks, ids, replies),
        ticking[0].known().contains(v),
        0 <= n < ticking.len(),
    ensures
        ticking[n].known().contains(v),
    decreases n,
{
    if n > 0 {
        lemma_chain_knows(ticking, done, rounds, receiving, picks, ids, replies, v, n - 1);
        let k = n - 1;
        assert(ticking[k].on_tick(done[k], rounds[k]));
        let i = picks[k];
        assert(carries(rounds[k][i], ticking[k].known()));
    }
}

} // verus!
