use vstd::prelude::*;
use crate::keyed::{find_key, has_key, keys_unique, lemma_to_map_all, lemma_to_map_finite, lemma_to_map_index, lemma_to_map_push, lemma_to_map_update, to_map};
use crate::message::{MsgId, NodeId, ProtocolError};
use crate::peers::{choose_peers, is_pick, names, FANOUT};
use crate::workloads::workload::{is_reply, Body, Workload};

verus! {

/// Requests of the grow-only counter workload.
#[derive(Debug, Clone)]
pub enum Request {
    /// Adds `delta` to this node's own count.
    Add { delta: u64 },
    /// A peer's view of every node's count.
    SyncState { state: Vec<(NodeId, u64)> },
    /// Asks for the counter's value.
    Read,
}

/// Responses of the grow-only counter workload.
#[derive(Debug, Clone)]
pub enum Response {
    AddOk,
    ReadOk { value: u128 },
}

/// A grow-only counter: one count per node, merged by pointwise maximum.
pub struct GCounterWorkload {
    id: NodeId,
    node_values: Vec<(NodeId, u64)>,
}

/// The larger of two counts.
pub open spec fn max_count(a: u64, b: u64) -> u64 {
    if a >= b { a } else { b }
}

/// Pointwise maximum of two count maps, over the union of their nodes.
pub open spec fn join(a: Map<Seq<char>, u64>, b: Map<Seq<char>, u64>) -> Map<Seq<char>, u64> {
    Map::new(
        |k: Seq<char>| a.contains_key(k) || b.contains_key(k),
        |k: Seq<char>|
            if a.contains_key(k) && b.contains_key(k) {
                max_count(a[k], b[k])
            } else if a.contains_key(k) {
                a[k]
            } else {
                b[k]
            },
    )
}

/// The counts that a received state stands for; a node listed twice counts with its larger value.
pub open spec fn incoming(s: Seq<(NodeId, u64)>) -> Map<Seq<char>, u64>
    decreases s.len(),
{
    if s.len() == 0 {
        Map::empty()
    } else {
        join(incoming(s.drop_last()), map![s.last().0@ => s.last().1])
    }
}

/// The sum of all counts of a finite map.
pub open spec fn total(m: Map<Seq<char>, u64>) -> nat
    decreases m.dom().len(),
{
    if m.dom().finite() && m.dom().len() > 0 {
        let k = m.dom().choose();
        (m[k] + total(m.remove(k))) as nat
    } else {
        0
    }
}

/// The sum of the counts of an association list, in its order.
pub open spec fn list_total(s: Seq<(NodeId, u64)>) -> nat
    decreases s.len(),
{
    if s.len() == 0 {
        0
    } else {
        (list_total(s.drop_last()) + s.last().1) as nat
    }
}

/// The keys of `s` other than `id`, in order.
pub open spec fn other_keys(s: Seq<(NodeId, u64)>, id: Seq<char>) -> Seq<Seq<char>>
    decreases s.len(),
{
    if s.len() == 0 {
        Seq::empty()
    } else if s.last().0@ != id {
        other_keys(s.drop_last(), id).push(s.last().0@)
    } else {
        other_keys(s.drop_last(), id)
    }
}

/// The destinations of a sequence of outbound requests.
pub open spec fn dests(out: Seq<Body<Request, Response>>) -> Seq<Seq<char>> {
    Seq::new(out.len(), |i: int| out[i]->Request_dest@)
}

/// `b` is a sync request carrying exactly the counts `m`.
pub open spec fn carries(b: Body<Request, Response>, m: Map<Seq<char>, u64>) -> bool {
    &&& b is Request
    &&& b->Request_request is SyncState
    &&& keys_unique(b->Request_request->SyncState_state@)
    &&& to_map(b->Request_request->SyncState_state@) == m
}

/// `out` is one sync round: the counts `m` sent to a random pick of `peers`.
pub open spec fn is_sync_round(out: Seq<Body<Request, Response>>, peers: Seq<Seq<char>>, m: Map<Seq<char>, u64>) -> bool {
    &&& is_pick(dests(out), peers, FANOUT as nat)
    &&& forall|i: int| 0 <= i < out.len() ==> carries(#[trigger] out[i], m)
}

/// Taking out one node takes its count off the total.
pub proof fn lemma_total_remove(m: Map<Seq<char>, u64>, k: Seq<char>)
    requires
        m.dom().finite(),
        m.contains_key(k),
    ensures
        total(m) == m[k] + total(m.remove(k)),
    decreases m.dom().len(),
{
    let c = m.dom().choose();
    if c != k {
        lemma_total_remove(m.remove(c), k);
        lemma_total_remove(m.remove(k), c);
        assert(m.remove(c).remove(k) =~= m.remove(k).remove(c));
    }
}

/// The sum over a list without repeated keys is the total of its map.
pub proof fn lemma_list_total(s: Seq<(NodeId, u64)>)
    requires
        keys_unique(s),
    ensures
        list_total(s) == total(to_map(s)),
    decreases s.len(),
{
    if s.len() == 0 {
        assert(to_map(s).dom() =~= Set::empty());
    } else {
        let t = s.drop_last();
        let e = s.last();
        assert(keys_unique(t));
        assert(!has_key(t, e.0@)) by {
            if has_key(t, e.0@) {
                let j = choose|j: int| 0 <= j < t.len() && #[trigger] t[j].0@ == e.0@;
                assert(s[j].0@ != s[s.len() - 1].0@);
            }
        }
        assert(s =~= t.push(e));
        lemma_to_map_push(t, e.0, e.1);
        lemma_list_total(t);
        lemma_to_map_finite(s);
        lemma_total_remove(to_map(s), e.0@);
        assert(to_map(s).remove(e.0@) =~= to_map(t));
    }
}

/// Joining is associative.
pub proof fn lemma_join_assoc(a: Map<Seq<char>, u64>, b: Map<Seq<char>, u64>, c: Map<Seq<char>, u64>)
    ensures
        join(join(a, b), c) == join(a, join(b, c)),
{
    assert(join(join(a, b), c) =~= join(a, join(b, c)));
}

/// No entry of a list counts more than `u64::MAX`.
proof fn lemma_list_total_bound(s: Seq<(NodeId, u64)>)
    ensures
        list_total(s) <= s.len() * (u64::MAX as int),
    decreases s.len(),
{
    if s.len() > 0 {
        lemma_list_total_bound(s.drop_last());
        let n = s.len() as int;
        let t = list_total(s.drop_last()) as int;
        assert(t + u64::MAX as int <= n * (u64::MAX as int)) by (nonlinear_arith)
            requires
                t <= (n - 1) * (u64::MAX as int),
        ;
    }
}

/// The sum of the counts of `v`.
fn sum_counts(v: &Vec<(NodeId, u64)>) -> (r: u128)
    ensures
        r == list_total(v@),
{
    let n = v.len();
    let mut acc: u128 = 0;
    let mut i: usize = 0;
    while i < n
        invariant
            i <= n,
            n == v@.len(),
            acc == list_total(v@.subrange(0, i as int)),
        decreases n - i,
    {
        let ghost prefix = v@.subrange(0, i + 1);
        assert(prefix.drop_last() =~= v@.subrange(0, i as int));
        proof {
            lemma_list_total_bound(prefix);
            let m = (i + 1) as int;
            assert(m * (u64::MAX as int) <= (u64::MAX as int) * (u64::MAX as int)) by (nonlinear_arith)
                requires
                    m <= u64::MAX as int,
            ;
        }
        acc = acc + v[i].1 as u128;
        i = i + 1;
    }
    assert(v@.subrange(0, i as int) =~= v@);
    acc
}

/// A copy of a list of counts.
fn copy_counts(v: &Vec<(NodeId, u64)>) -> (r: Vec<(NodeId, u64)>)
    ensures
        r@ == v@,
{
    let mut r: Vec<(NodeId, u64)> = Vec::new();
    let mut i: usize = 0;
    while i < v.len()
        invariant
            i <= v@.len(),
            r@ == v@.subrange(0, i as int),
        decreases v@.len() - i,
    {
        r.push((v[i].0.clone(), v[i].1));
        i = i + 1;
    }
    assert(r@ =~= v@);
    r
}

/// Raises the count of `k` in `v` to at least `value`, adding `k` if it is missing.
fn raise(v: &mut Vec<(NodeId, u64)>, k: &NodeId, value: u64)
    requires
        keys_unique(old(v)@),
    ensures
        keys_unique(final(v)@),
        to_map(final(v)@) == join(to_map(old(v)@), map![k@ => value]),
{
    match find_key(v, k) {
        Some(i) => {
            proof {
                lemma_to_map_index(v@, i as int);
            }
            if v[i].1 < value {
                let key = v[i].0.clone();
                proof {
                    lemma_to_map_update(v@, i as int, value);
                }
                v.set(i, (key, value));
            }
            assert(to_map(v@) =~= join(to_map(old(v)@), map![k@ => value]));
        },
        None => {
            proof {
                lemma_to_map_push(v@, *k, value);
            }
            v.push((k.clone(), value));
            assert(to_map(v@) =~= join(to_map(old(v)@), map![k@ => value]));
        },
    }
}

/// Adds `k` with a count of zero to a list of zero counts, unless it is there.
fn add_zero(v: &mut Vec<(NodeId, u64)>, k: &NodeId)
    requires
        keys_unique(old(v)@),
        forall|j: int| 0 <= j < old(v)@.len() ==> #[trigger] old(v)@[j].1 == 0,
    ensures
        keys_unique(final(v)@),
        forall|j: int| 0 <= j < final(v)@.len() ==> #[trigger] final(v)@[j].1 == 0,
        to_map(final(v)@) == to_map(old(v)@).insert(k@, 0),
{
    match find_key(v, k) {
        Some(i) => {
            proof {
                lemma_to_map_index(v@, i as int);
            }
            assert(to_map(v@) =~= to_map(old(v)@).insert(k@, 0));
        },
        None => {
            proof {
                lemma_to_map_push(v@, *k, 0);
            }
            v.push((k.clone(), 0));
        },
    }
}

/// Merges received counts into `v` by pointwise maximum.
fn merge_into(v: &mut Vec<(NodeId, u64)>, state: &Vec<(NodeId, u64)>)
    requires
        keys_unique(old(v)@),
    ensures
        keys_unique(final(v)@),
        to_map(final(v)@) == join(to_map(old(v)@), incoming(state@)),
{
    let mut j: usize = 0;
    while j < state.len()
        invariant
            j <= state@.len(),
            keys_unique(v@),
            to_map(v@) == join(to_map(old(v)@), incoming(state@.subrange(0, j as int))),
        decreases state@.len() - j,
    {
        raise(v, &state[j].0, state[j].1);
        proof {
            let s0 = state@.subrange(0, j as int);
            let s1 = state@.subrange(0, j + 1);
            assert(s1.drop_last() =~= s0);
            lemma_join_assoc(to_map(old(v)@), incoming(s0), map![state@[j as int].0@ => state@[j as int].1]);
        }
        j = j + 1;
    }
    assert(state@.subrange(0, j as int) =~= state@);
}

impl GCounterWorkload {
    /// This node's id.
    pub closed spec fn node_id(&self) -> Seq<char> {
        self.id@
    }

    /// The count of every known node.
    pub closed spec fn values(&self) -> Map<Seq<char>, u64> {
        to_map(self.node_values@)
    }

    /// The nodes a sync round picks from: every known node but this one.
    pub closed spec fn others(&self) -> Seq<Seq<char>> {
        other_keys(self.node_values@, self.id@)
    }

    /// The counter's value.
    pub open spec fn value(&self) -> nat {
        total(self.values())
    }

    /// What holds of every state: finitely many counts, one for this node, a total that fits a
    /// `u128`, and a sync round picking among the other known nodes, each listed once.
    pub open spec fn view_ok(&self) -> bool {
        &&& self.values().dom().finite()
        &&& self.values().contains_key(self.node_id())
        &&& self.value() <= u128::MAX
        &&& self.others().no_duplicates()
        &&& self.others().to_set() == self.values().dom().remove(self.node_id())
    }

    /// The ids of every known node but this one.
    fn other_nodes(&self) -> (r: Vec<NodeId>)
        ensures
            names(r@) == self.others(),
    {
        let mut r: Vec<NodeId> = Vec::new();
        let mut i: usize = 0;
        while i < self.node_values.len()
            invariant
                i <= self.node_values@.len(),
                names(r@) == other_keys(self.node_values@.subrange(0, i as int), self.id@),
            decreases self.node_values@.len() - i,
        {
            assert(self.node_values@.subrange(0, i + 1).drop_last() =~= self.node_values@.subrange(0, i as int));
            if self.node_values[i].0 != self.id {
                r.push(self.node_values[i].0.clone());
                assert(names(r@) =~= other_keys(self.node_values@.subrange(0, i + 1), self.id@));
            }
            i = i + 1;
        }
        assert(self.node_values@.subrange(0, i as int) =~= self.node_values@);
        r
    }

    /// One sync round: every count sent to a random pick of the other nodes.
    pub fn sync(&self) -> (r: Vec<Body<Request, Response>>)
        requires
            self.inv(),
        ensures
            is_sync_round(r@, self.others(), self.values()),
    {
        let targets = choose_peers(&self.other_nodes(), FANOUT);
        let mut r: Vec<Body<Request, Response>> = Vec::new();
        let mut i: usize = 0;
        while i < targets.len()
            invariant
                self.inv(),
                i <= targets@.len(),
                r@.len() == i,
                dests(r@) == names(targets@.subrange(0, i as int)),
                forall|j: int| 0 <= j < r@.len() ==> carries(#[trigger] r@[j], self.values()),
            decreases targets@.len() - i,
        {
            let ghost prev = r@;
            let state = copy_counts(&self.node_values);
            r.push(Body::Request { dest: targets[i].clone(), request: Request::SyncState { state } });
            assert forall|j: int| 0 <= j < i + 1 implies #[trigger] dests(r@)[j] == names(targets@.subrange(0, i + 1))[j] by {
                if j < i {
                    assert(dests(prev)[j] == names(targets@.subrange(0, i as int))[j]);
                }
            }
            assert(dests(r@) =~= names(targets@.subrange(0, i + 1)));
            i = i + 1;
        }
        assert(targets@.subrange(0, i as int) =~= targets@);
        r
    }
}

impl Workload for GCounterWorkload {
    type Request = Request;
    type Response = Response;

    closed spec fn inv(&self) -> bool {
        &&& keys_unique(self.node_values@)
        &&& has_key(self.node_values@, self.id@)
        &&& self.node_values@.len() <= usize::MAX
    }

    open spec fn initial(&self, id: Seq<char>, all_nodes: Seq<Seq<char>>) -> bool {
        &&& self.node_id() == id
        &&& self.values() == Map::new(|k: Seq<char>| all_nodes.contains(k) || k == id, |k: Seq<char>| 0u64)
    }

    open spec fn on_request(
        &self,
        request: Request,
        src: Seq<char>,
        msg_id: MsgId,
        after: Self,
        out: Result<Seq<Body<Request, Response>>, ProtocolError>,
    ) -> bool {
        &&& self.view_ok()
        &&& after.view_ok()
        &&& match request {
            Request::Add { delta } => if self.values()[self.node_id()] + delta > u64::MAX {
                &&& out == Err::<Seq<Body<Request, Response>>, ProtocolError>(ProtocolError::CounterOverflow)
                &&& after == *self
            } else {
                &&& after.node_id() == self.node_id()
                &&& after.values() == self.values().insert(
                    self.node_id(),
                    (self.values()[self.node_id()] + delta) as u64,
                )
                &&& after.others() == self.others()
                &&& out is Ok
                &&& out->Ok_0.len() >= 1
                &&& is_sync_round(out->Ok_0.drop_last(), self.others(), after.values())
                &&& is_reply(seq![out->Ok_0.last()], src, msg_id)
                &&& out->Ok_0.last()->Response_response is AddOk
            },
            Request::SyncState { state } => {
                let merged = join(self.values(), incoming(state@));
                &&& after.node_id() == self.node_id()
                &&& after.values() == merged
                &&& out is Ok
                &&& if total(merged) == self.value() {
                    out->Ok_0.len() == 0
                } else {
                    is_sync_round(out->Ok_0, after.others(), merged)
                }
            },
            Request::Read => {
                &&& out is Ok
                &&& is_reply(out->Ok_0, src, msg_id)
                &&& out->Ok_0[0]->Response_response == (Response::ReadOk { value: self.value() as u128 })
                &&& after == *self
            },
        }
    }

    open spec fn on_response(
        &self,
        response: Response,
        in_reply_to: MsgId,
        after: Self,
        out: Result<(), ProtocolError>,
    ) -> bool {
        &&& after == *self
        &&& out == Err::<(), ProtocolError>(ProtocolError::UnexpectedResponse)
    }

    open spec fn on_tick(&self, after: Self, out: Seq<Body<Request, Response>>) -> bool {
        &&& after == *self
        &&& self.view_ok()
        &&& is_sync_round(out, self.others(), self.values())
    }

    fn new(id: NodeId, all_nodes: Vec<NodeId>) -> (r: Self) {
        let ghost ns = all_nodes@.map_values(|n: NodeId| n@);
        let mut node_values: Vec<(NodeId, u64)> = Vec::new();
        let mut i: usize = 0;
        while i < all_nodes.len()
            invariant
                i <= all_nodes@.len(),
                ns == all_nodes@.map_values(|n: NodeId| n@),
                keys_unique(node_values@),
                forall|j: int| 0 <= j < node_values@.len() ==> #[trigger] node_values@[j].1 == 0,
                to_map(node_values@) == Map::new(|k: Seq<char>| ns.subrange(0, i as int).contains(k), |k: Seq<char>| 0u64),
            decreases all_nodes@.len() - i,
        {
            add_zero(&mut node_values, &all_nodes[i]);
            proof {
                let s0 = ns.subrange(0, i as int);
                let s1 = ns.subrange(0, i + 1);
                assert(s1 =~= s0.push(ns[i as int]));
                assert(ns[i as int] == all_nodes@[i as int]@);
                assert forall|k: Seq<char>| #[trigger] s1.contains(k) <==> s0.contains(k) || k == ns[i as int] by {
                    if s1.contains(k) && k != ns[i as int] {
                        let j = choose|j: int| 0 <= j < s1.len() && s1[j] == k;
                        assert(s0[j] == k);
                    }
                    if s0.contains(k) {
                        let j = choose|j: int| 0 <= j < s0.len() && s0[j] == k;
                        assert(s1[j] == k);
                    }
                    assert(s1[i as int] == ns[i as int]);
                }
                assert(to_map(node_values@) =~= Map::new(|k: Seq<char>| s1.contains(k), |k: Seq<char>| 0u64));
            }
            i = i + 1;
        }
        add_zero(&mut node_values, &id);
        let _ = node_values.len();
        proof {
            assert(ns.subrange(0, i as int) =~= ns);
            assert(to_map(node_values@) =~= Map::new(|k: Seq<char>| ns.contains(k) || k == id@, |k: Seq<char>| 0u64));
            lemma_to_map_finite(node_values@);
            lemma_list_total(node_values@);
            lemma_zero_total(node_values@);
            assert(to_map(node_values@).contains_key(id@));
        }
        GCounterWorkload { id, node_values }
    }

    fn handle_request(&mut self, request: &Request, src: &NodeId, msg_id: MsgId) -> (r: Result<
        Vec<Body<Request, Response>>,
        ProtocolError,
    >) {
        proof {
            lemma_view_ok(*self);
            lemma_list_total(self.node_values@);
        }
        match request {
            Request::Add { delta } => {
                // The invariant keeps an entry for this node.
                let i = match find_key(&self.node_values, &self.id) {
                    Some(i) => i,
                    None => 0,
                };
                proof {
                    lemma_to_map_index(self.node_values@, i as int);
                }
                if self.node_values[i].1 > u64::MAX - *delta {
                    return Err(ProtocolError::CounterOverflow);
                }
                let key = self.node_values[i].0.clone();
                let count = self.node_values[i].1 + *delta;
                let ghost before = *self;
                proof {
                    lemma_to_map_update(self.node_values@, i as int, count);
                }
                self.node_values.set(i, (key, count));
                proof {
                    assert(has_key(self.node_values@, self.id@)) by {
                        assert(self.node_values@[i as int].0@ == self.id@);
                    }
                    lemma_others_frame(before.node_values@, i as int, count, self.id@);
                    lemma_view_ok(*self);
                }
                let mut out = self.sync();
                let ghost round = out@;
                out.push(Body::Response { dest: src.clone(), in_reply_to: msg_id, response: Response::AddOk });
                assert(out@.drop_last() =~= round);
                Ok(out)
            },
            Request::SyncState { state } => {
                let current = sum_counts(&self.node_values);
                let mut merged = copy_counts(&self.node_values);
                merge_into(&mut merged, state);
                let _ = merged.len();
                let next = sum_counts(&merged);
                proof {
                    lemma_list_total(merged@);
                    lemma_to_map_all(self.node_values@);
                    let j = choose|j: int| 0 <= j < self.node_values@.len() && #[trigger] self.node_values@[j].0@ == self.id@;
                    assert(to_map(merged@).contains_key(self.node_values@[j].0@));
                    lemma_has_key_of_map(merged@, self.id@);
                }
                self.node_values = merged;
                proof {
                    lemma_view_ok(*self);
                }
                if next != current {
                    Ok(self.sync())
                } else {
                    Ok(Vec::new())
                }
            },
            Request::Read => {
                let current = sum_counts(&self.node_values);
                Ok(vec![Body::Response { dest: src.clone(), in_reply_to: msg_id, response: Response::ReadOk { value: current } }])
            },
        }
    }

    fn handle_response(&mut self, response: &Response, in_reply_to: MsgId, src: &NodeId) -> (r: Result<(), ProtocolError>) {
        Err(ProtocolError::UnexpectedResponse)
    }

    fn tick(&mut self) -> (r: Vec<Body<Request, Response>>) {
        proof {
            lemma_view_ok(*self);
        }
        self.sync()
    }
}

/// The other keys of a list without repeated keys are, once each, the keys of its map but `id`.
proof fn lemma_others(s: Seq<(NodeId, u64)>, id: Seq<char>)
    requires
        keys_unique(s),
    ensures
        other_keys(s, id).no_duplicates(),
        other_keys(s, id).to_set() == to_map(s).dom().remove(id),
    decreases s.len(),
{
    if s.len() == 0 {
        assert(to_map(s).dom() =~= Set::empty());
        assert(other_keys(s, id).to_set() =~= Set::empty());
    } else {
        let t = s.drop_last();
        let e = s.last();
        assert(keys_unique(t));
        assert(!has_key(t, e.0@)) by {
            if has_key(t, e.0@) {
                let j = choose|j: int| 0 <= j < t.len() && #[trigger] t[j].0@ == e.0@;
                assert(s[j].0@ != s[s.len() - 1].0@);
            }
        }
        assert(s =~= t.push(e));
        lemma_to_map_push(t, e.0, e.1);
        lemma_others(t, id);
        if e.0@ != id {
            let o = other_keys(t, id);
            assert(!o.contains(e.0@)) by {
                if o.contains(e.0@) {
                    assert(o.to_set().contains(e.0@));
                }
            }
            o.lemma_push_to_set_commute(e.0@);
            assert(other_keys(s, id).to_set() =~= to_map(s).dom().remove(id));
        } else {
            assert(other_keys(s, id).to_set() =~= to_map(s).dom().remove(id));
        }
    }
}

/// The invariant gives every public fact of a state.
proof fn lemma_view_ok(w: GCounterWorkload)
    requires
        w.inv(),
    ensures
        w.view_ok(),
{
    lemma_to_map_finite(w.node_values@);
    lemma_list_total(w.node_values@);
    lemma_list_total_bound(w.node_values@);
    lemma_others(w.node_values@, w.id@);
    lemma_to_map_all(w.node_values@);
    let n = w.node_values@.len() as int;
    assert(n * (u64::MAX as int) <= (u64::MAX as int) * (u64::MAX as int)) by (nonlinear_arith)
        requires
            n <= u64::MAX as int,
    ;
}

/// A key of the map is a key of the list.
proof fn lemma_has_key_of_map(s: Seq<(NodeId, u64)>, k: Seq<char>)
    requires
        to_map(s).contains_key(k),
    ensures
        has_key(s, k),
{
}

/// A list whose counts are all zero sums to zero.
proof fn lemma_zero_total(s: Seq<(NodeId, u64)>)
    requires
        forall|i: int| 0 <= i < s.len() ==> #[trigger] s[i].1 == 0,
    ensures
        list_total(s) == 0,
    decreases s.len(),
{
    if s.len() > 0 {
        lemma_zero_total(s.drop_last());
    }
}

/// Changing a count keeps the list of other nodes.
proof fn lemma_others_frame(s: Seq<(NodeId, u64)>, i: int, v: u64, id: Seq<char>)
    requires
        0 <= i < s.len(),
    ensures
        other_keys(s.update(i, (s[i].0, v)), id) == other_keys(s, id),
    decreases s.len(),
{
    let t = s.update(i, (s[i].0, v));
    if i < s.len() - 1 {
        assert(t.drop_last() =~= s.drop_last().update(i, (s[i].0, v)));
        lemma_others_frame(s.drop_last(), i, v, id);
    } else {
        assert(t.drop_last() =~= s.drop_last());
    }
}

/// Merging is idempotent: merging the same counts again changes nothing.
pub proof fn lemma_join_idempotent(m: Map<Seq<char>, u64>, a: Map<Seq<char>, u64>)
    ensures
        join(join(m, a), a) == join(m, a),
{
    assert(join(join(m, a), a) =~= join(m, a));
}

/// Merging counts that are already known, none larger than the local one, changes nothing.
pub proof fn lemma_join_known(m: Map<Seq<char>, u64>, a: Map<Seq<char>, u64>)
    requires
        forall|k: Seq<char>| #[trigger] a.contains_key(k) ==> m.contains_key(k) && a[k] <= m[k],
    ensures
        join(m, a) == m,
{
    assert(join(m, a) =~= m);
}

/// Merges commute: two received states lead to the same counts in either order.
pub proof fn lemma_join_commutes(m: Map<Seq<char>, u64>, a: Map<Seq<char>, u64>, b: Map<Seq<char>, u64>)
    ensures
        join(join(m, a), b) == join(join(m, b), a),
{
    assert(join(join(m, a), b) =~= join(join(m, b), a));
}

/// Receiving a state whose counts are all known and no larger leaves the node unchanged and
/// silent.
pub proof fn lemma_sync_known_is_silent(
    w: GCounterWorkload,
    state: Vec<(NodeId, u64)>,
    src: Seq<char>,
    msg_id: MsgId,
    after: GCounterWorkload,
    out: Result<Seq<Body<Request, Response>>, ProtocolError>,
)
    requires
        w.inv(),
        forall|k: Seq<char>|
            #[trigger] incoming(state@).contains_key(k) ==> w.values().contains_key(k) && incoming(state@)[k]
                <= w.values()[k],
        w.on_request(Request::SyncState { state }, src, msg_id, after, out),
    ensures
        after.values() == w.values(),
        out == Ok::<Seq<Body<Request, Response>>, ProtocolError>(Seq::empty()),
{
    lemma_join_known(w.values(), incoming(state@));
    assert(out->Ok_0 =~= Seq::empty());
}

/// Whatever order two received states are merged in, the counter reads the same.
pub proof fn lemma_sync_order_irrelevant(
    w: GCounterWorkload,
    a: Vec<(NodeId, u64)>,
    b: Vec<(NodeId, u64)>,
    src: Seq<char>,
    msg_id: MsgId,
    wa: GCounterWorkload,
    out_a: Result<Seq<Body<Request, Response>>, ProtocolError>,
    wab: GCounterWorkload,
    out_ab: Result<Seq<Body<Request, Response>>, ProtocolError>,
    wb: GCounterWorkload,
    out_b: Result<Seq<Body<Request, Response>>, ProtocolError>,
    wba: GCounterWorkload,
    out_ba: Result<Seq<Body<Request, Response>>, ProtocolError>,
)
    requires
        w.on_request(Request::SyncState { state: a }, src, msg_id, wa, out_a),
        wa.on_request(Request::SyncState { state: b }, src, msg_id, wab, out_ab),
        w.on_request(Request::SyncState { state: b }, src, msg_id, wb, out_b),
        wb.on_request(Request::SyncState { state: a }, src, msg_id, wba, out_ba),
    ensures
        wab.values() == wba.values(),
        wab.value() == wba.value(),
{
    lemma_join_commutes(w.values(), incoming(a@), incoming(b@));
}

/// Counts never go down: every request keeps each known node, with at least its count.
pub proof fn lemma_counts_grow(
    w: GCounterWorkload,
    request: Request,
    src: Seq<char>,
    msg_id: MsgId,
    after: GCounterWorkload,
    out: Result<Seq<Body<Request, Response>>, ProtocolError>,
)
    requires
        w.on_request(request, src, msg_id, after, out),
    ensures
        forall|k: Seq<char>| #[trigger] w.values().contains_key(k) ==> after.values().contains_key(k)
            && after.values()[k] >= w.values()[k],
{
}

} // verus!
