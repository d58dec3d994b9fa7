use vstd::prelude::*;
use crate::keyed::{find_key, keys_unique, lemma_to_map_index, lemma_to_map_push, lemma_to_map_update, to_map};
use crate::message::{MsgId, NodeId, ProtocolError};
use crate::workloads::workload::{is_reply, Body, Workload};

verus! {

/// Requests of the single-node log workload.
#[derive(Debug, Clone)]
pub enum Request {
    /// Appends `msg` to the log of `key`.
    Send { key: String, msg: u64 },
    /// Asks for the messages of each log from the given offset on.
    Poll { offsets: Vec<(String, usize)> },
    /// Records, for each log, the offset up to which messages were processed.
    CommitOffsets { offsets: Vec<(String, usize)> },
    /// Asks for the committed offset of each log.
    ListCommittedOffsets { keys: Vec<String> },
}

/// Responses of the single-node log workload.
#[derive(Debug, Clone)]
pub enum Response {
    SendOk { offset: usize },
    PollOk { msgs: Vec<(String, Vec<(usize, u64)>)> },
    CommitOffsetsOk,
    ListCommittedOffsetsOk { offsets: Vec<(String, usize)> },
}

/// What a log holds: its committed offset and its entries, with holes.
pub struct LogView {
    pub commit: Option<usize>,
    pub entries: Seq<Option<u64>>,
}

/// The log of one key.
pub struct Log {
    commit_offset: Option<usize>,
    entries: Vec<Option<u64>>,
}

impl View for Log {
    type V = LogView;

    closed spec fn view(&self) -> LogView {
        LogView { commit: self.commit_offset, entries: self.entries@ }
    }
}

/// Every log is short enough for its offsets to be `usize` values.
pub open spec fn logs_fit(logs: Map<Seq<char>, LogView>) -> bool {
    forall|k: Seq<char>| #[trigger] logs.contains_key(k) ==> logs[k].entries.len() <= usize::MAX
}

/// The entries of `a` begin the entries of `b`.
pub open spec fn extends(a: LogView, b: LogView) -> bool {
    a.entries.len() <= b.entries.len() && b.entries.take(a.entries.len() as int) == a.entries
}

/// A log with no entries and no commit.
pub open spec fn empty_log() -> LogView {
    LogView { commit: None, entries: Seq::empty() }
}

/// The log of `k`, or an empty one.
pub open spec fn log_of(logs: Map<Seq<char>, LogView>, k: Seq<char>) -> LogView {
    if logs.contains_key(k) {
        logs[k]
    } else {
        empty_log()
    }
}

/// The present entries at offsets `from` up to `upto`, with their offsets, in order.
pub open spec fn present_from(entries: Seq<Option<u64>>, from: int, upto: int) -> Seq<(usize, u64)>
    decreases upto - from,
{
    if upto <= from {
        Seq::empty()
    } else {
        let p = present_from(entries, from, upto - 1);
        match entries[upto - 1] {
            Some(v) => p.push(((upto - 1) as usize, v)),
            None => p,
        }
    }
}

/// What a poll for `offsets` returns: for each key with a log at least that long, its present
/// entries from the offset on.
pub open spec fn polled(logs: Map<Seq<char>, LogView>, offsets: Seq<(String, usize)>) -> Seq<
    (Seq<char>, Seq<(usize, u64)>),
>
    decreases offsets.len(),
{
    if offsets.len() == 0 {
        Seq::empty()
    } else {
        let p = polled(logs, offsets.drop_last());
        let k = offsets.last().0@;
        let o = offsets.last().1;
        if logs.contains_key(k) && o <= logs[k].entries.len() {
            p.push((k, present_from(logs[k].entries, o as int, logs[k].entries.len() as int)))
        } else {
            p
        }
    }
}

/// The log `l` once `o` is committed: holes extend it to at least `o` entries.
pub open spec fn committed(l: LogView, o: usize) -> LogView {
    LogView {
        commit: Some(o),
        entries: if l.entries.len() < o {
            l.entries + Seq::new((o - l.entries.len()) as nat, |i: int| None::<u64>)
        } else {
            l.entries
        },
    }
}

/// The logs once each offset of `offsets` is committed, in order.
pub open spec fn commit_all(logs: Map<Seq<char>, LogView>, offsets: Seq<(String, usize)>) -> Map<Seq<char>, LogView>
    decreases offsets.len(),
{
    if offsets.len() == 0 {
        logs
    } else {
        let m = commit_all(logs, offsets.drop_last());
        let k = offsets.last().0@;
        m.insert(k, committed(log_of(m, k), offsets.last().1))
    }
}

/// The committed offsets of the keys of `keys` that have one, in order.
pub open spec fn listed(logs: Map<Seq<char>, LogView>, keys: Seq<String>) -> Seq<(Seq<char>, usize)>
    decreases keys.len(),
{
    if keys.len() == 0 {
        Seq::empty()
    } else {
        let p = listed(logs, keys.drop_last());
        let k = keys.last()@;
        if logs.contains_key(k) && logs[k].commit is Some {
            p.push((k, logs[k].commit->0))
        } else {
            p
        }
    }
}

/// The names and entries of a poll result.
pub open spec fn poll_view(msgs: Seq<(String, Vec<(usize, u64)>)>) -> Seq<(Seq<char>, Seq<(usize, u64)>)> {
    msgs.map_values(|e: (String, Vec<(usize, u64)>)| (e.0@, e.1@))
}

/// The names and offsets of a list of offsets.
pub open spec fn offsets_view(offsets: Seq<(String, usize)>) -> Seq<(Seq<char>, usize)> {
    offsets.map_values(|e: (String, usize)| (e.0@, e.1))
}

impl Log {
    fn new() -> (r: Log)
        ensures
            r@ == empty_log(),
    {
        Log { commit_offset: None, entries: Vec::new() }
    }

    /// Appends `msg`; returns the offset it now has.
    fn append(&mut self, msg: u64) -> (r: usize)
        ensures
            r == old(self)@.entries.len(),
            final(self)@ == (LogView { commit: old(self)@.commit, entries: old(self)@.entries.push(Some(msg)) }),
            final(self)@.entries.len() <= usize::MAX,
    {
        let offset = self.entries.len();
        self.entries.push(Some(msg));
        let _ = self.entries.len();
        offset
    }

    /// Records `offset` as committed.
    fn commit(&mut self, offset: usize)
        requires
            old(self)@.entries.len() <= usize::MAX,
        ensures
            final(self)@ == committed(old(self)@, offset),
            final(self)@.entries.len() <= usize::MAX,
    {
        self.commit_offset = Some(offset);
        if self.entries.len() < offset {
            let ghost start = self.entries@;
            while self.entries.len() < offset
                invariant
                    self.commit_offset == Some(offset),
                    start.len() < offset,
                    start.len() <= self.entries@.len() <= offset,
                    self.entries@ == start + Seq::new((self.entries@.len() - start.len()) as nat, |i: int| None::<u64>),
                decreases offset - self.entries@.len(),
            {
                self.entries.push(None);
                assert(self.entries@ =~= start + Seq::new((self.entries@.len() - start.len()) as nat, |i: int| None::<u64>));
            }
        }
        assert(self@.entries =~= committed(old(self)@, offset).entries);
    }

    /// The present entries from `offset` on, with their offsets.
    fn read_from(&self, offset: usize) -> (r: Vec<(usize, u64)>)
        requires
            offset <= self@.entries.len(),
        ensures
            r@ == present_from(self@.entries, offset as int, self@.entries.len() as int),
    {
        let mut r: Vec<(usize, u64)> = Vec::new();
        let mut i: usize = offset;
        while i < self.entries.len()
            invariant
                offset <= i <= self.entries@.len(),
                r@ == present_from(self.entries@, offset as int, i as int),
            decreases self.entries@.len() - i,
        {
            match self.entries[i] {
                Some(v) => r.push((i, v)),
                None => {},
            }
            i = i + 1;
        }
        r
    }
}

/// A single-node, per-key append-only log.
pub struct KafkaWorkload {
    id: NodeId,
    logs: Vec<(String, Log)>,
}

impl KafkaWorkload {
    /// This node's id.
    pub closed spec fn node_id(&self) -> Seq<char> {
        self.id@
    }

    /// The log of every key.
    pub closed spec fn logs(&self) -> Map<Seq<char>, LogView> {
        to_map(self.logs@).map_values(|l: Log| l@)
    }

    /// The position of the log of `key`, which is created empty if it is missing.
    fn log_index(&mut self, key: &String) -> (r: usize)
        requires
            old(self).inv(),
        ensures
            final(self).inv(),
            r < final(self).logs@.len(),
            final(self).logs@[r as int].0@ == key@,
            final(self).node_id() == old(self).node_id(),
            final(self).logs() == old(self).logs().insert(key@, log_of(old(self).logs(), key@)),
    {
        match find_key(&self.logs, key) {
            Some(i) => {
                proof {
                    lemma_to_map_index(self.logs@, i as int);
                    assert(self.logs() =~= old(self).logs().insert(key@, log_of(old(self).logs(), key@)));
                }
                i
            },
            None => {
                let log = Log::new();
                proof {
                    lemma_to_map_push(self.logs@, *key, log);
                }
                self.logs.push((key.clone(), log));
                assert(self.logs() =~= old(self).logs().insert(key@, log_of(old(self).logs(), key@)));
                self.logs.len() - 1
            },
        }
    }

    /// Replaces the log at position `i`.
    fn set_log(&mut self, i: usize, log: Log)
        requires
            old(self).inv(),
            i < old(self).logs@.len(),
            log@.entries.len() <= usize::MAX,
        ensures
            final(self).inv(),
            final(self).node_id() == old(self).node_id(),
            final(self).logs() == old(self).logs().insert(old(self).logs@[i as int].0@, log@),
    {
        let key = self.logs[i].0.clone();
        proof {
            lemma_to_map_update(self.logs@, i as int, log);
        }
        self.logs.set(i, (key, log));
        assert(self.logs() =~= old(self).logs().insert(old(self).logs@[i as int].0@, log@));
    }

    /// Takes the log at position `i` out, leaving an empty one in its place.
    fn take_log(&mut self, i: usize) -> (r: Log)
        requires
            old(self).inv(),
            i < old(self).logs@.len(),
        ensures
            r@ == old(self).logs()[old(self).logs@[i as int].0@],
            final(self).logs@.len() == old(self).logs@.len(),
            final(self).logs@[i as int].0@ == old(self).logs@[i as int].0@,
            final(self).inv(),
            final(self).node_id() == old(self).node_id(),
            final(self).logs() == old(self).logs().insert(old(self).logs@[i as int].0@, empty_log()),
    {
        proof {
            lemma_to_map_index(self.logs@, i as int);
        }
        let key = self.logs[i].0.clone();
        let empty = Log::new();
        proof {
            lemma_to_map_update(self.logs@, i as int, empty);
        }
        let mut old_pair = (key, empty);
        std::mem::swap(&mut self.logs[i], &mut old_pair);
        proof {
            assert(self.logs@ == old(self).logs@.update(i as int, (old(self).logs@[i as int].0, empty)));
        }
        assert(self.logs() =~= old(self).logs().insert(old(self).logs@[i as int].0@, empty_log()));
        old_pair.1
    }

    /// The log of `key`, if it has one.
    fn find_log(&self, key: &String) -> (r: Option<&Log>)
        requires
            self.inv(),
        ensures
            match r {
                Some(l) => self.logs().contains_key(key@) && l@ == self.logs()[key@],
                None => !self.logs().contains_key(key@),
            },
    {
        match find_key(&self.logs, key) {
            Some(i) => {
                proof {
                    lemma_to_map_index(self.logs@, i as int);
                }
                Some(&self.logs[i].1)
            },
            None => None,
        }
    }
}

impl Workload for KafkaWorkload {
    type Request = Request;
    type Response = Response;

    closed spec fn inv(&self) -> bool {
        &&& keys_unique(self.logs@)
        &&& forall|i: int| 0 <= i < self.logs@.len() ==> (#[trigger] self.logs@[i]).1@.entries.len() <= usize::MAX
    }

    open spec fn initial(&self, id: Seq<char>, all_nodes: Seq<Seq<char>>) -> bool {
        &&& self.node_id() == id
        &&& self.logs() == Map::<Seq<char>, LogView>::empty()
    }

    open spec fn on_request(
        &self,
        request: Request,
        src: Seq<char>,
        msg_id: MsgId,
        after: Self,
        out: Result<Seq<Body<Request, Response>>, ProtocolError>,
    ) -> bool {
        &&& out is Ok
        &&& is_reply(out->Ok_0, src, msg_id)
        &&& after.node_id() == self.node_id()
        &&& logs_fit(self.logs())
        &&& logs_fit(after.logs())
        &&& match request {
            Request::Send { key, msg } => {
                let l = log_of(self.logs(), key@);
                &&& out->Ok_0[0]->Response_response == (Response::SendOk { offset: l.entries.len() as usize })
                &&& after.logs() == self.logs().insert(
                    key@,
                    LogView { commit: l.commit, entries: l.entries.push(Some(msg)) },
                )
            },
            Request::Poll { offsets } => {
                &&& out->Ok_0[0]->Response_response is PollOk
                &&& poll_view(out->Ok_0[0]->Response_response->PollOk_msgs@) == polled(self.logs(), offsets@)
                &&& after.logs() == self.logs()
            },
            Request::CommitOffsets { offsets } => {
                &&& out->Ok_0[0]->Response_response is CommitOffsetsOk
                &&& after.logs() == commit_all(self.logs(), offsets@)
            },
            Request::ListCommittedOffsets { keys } => {
                &&& out->Ok_0[0]->Response_response is ListCommittedOffsetsOk
                &&& offsets_view(out->Ok_0[0]->Response_response->ListCommittedOffsetsOk_offsets@) == listed(self.logs(), keys@)
                &&& after.logs() == self.logs()
            },
        }
    }

    open spec fn on_response(
        &self,
        response: Response,
        in_reply_to: MsgId,
        after: Self,
        out: Result<(), ProtocolError>,
    ) -> bool {
        &&& after == *self
        &&& out == Err::<(), ProtocolError>(ProtocolError::UnexpectedResponse)
    }

    open spec fn on_tick(&self, after: Self, out: Seq<Body<Request, Response>>) -> bool {
        &&& after == *self
        &&& out.len() == 0
    }

    fn new(id: NodeId, all_nodes: Vec<NodeId>) -> (r: Self) {
        let r = KafkaWorkload { id, logs: Vec::new() };
        assert(r.logs() =~= Map::<Seq<char>, LogView>::empty());
        r
    }

    fn handle_request(&mut self, request: &Request, src: &NodeId, msg_id: MsgId) -> (r: Result<
        Vec<Body<Request, Response>>,
        ProtocolError,
    >) {
        let response = match request {
            Request::Send { key, msg } => {
                let i = self.log_index(key);
                let mut log = self.take_log(i);
                let offset = log.append(*msg);
                self.set_log(i, log);
                assert(self.logs() =~= old(self).logs().insert(
                    key@,
                    LogView {
                        commit: log_of(old(self).logs(), key@).commit,
                        entries: log_of(old(self).logs(), key@).entries.push(Some(*msg)),
                    },
                ));
                Response::SendOk { offset }
            },
            Request::Poll { offsets } => {
                let mut msgs: Vec<(String, Vec<(usize, u64)>)> = Vec::new();
                let mut j: usize = 0;
                while j < offsets.len()
                    invariant
                        self.inv(),
                        j <= offsets@.len(),
                        poll_view(msgs@) == polled(self.logs(), offsets@.subrange(0, j as int)),
                    decreases offsets@.len() - j,
                {
                    let ghost before = msgs@;
                    assert(offsets@.subrange(0, j + 1).drop_last() =~= offsets@.subrange(0, j as int));
                    match self.find_log(&offsets[j].0) {
                        Some(log) => {
                            if offsets[j].1 <= log.entries.len() {
                                let found = log.read_from(offsets[j].1);
                                msgs.push((offsets[j].0.clone(), found));
                                assert(poll_view(msgs@) =~= poll_view(before).push((offsets@[j as int].0@, found@)));
                            }
                        },
                        None => {},
                    }
                    j = j + 1;
                }
                assert(offsets@.subrange(0, j as int) =~= offsets@);
                Response::PollOk { msgs }
            },
            Request::CommitOffsets { offsets } => {
                let mut j: usize = 0;
                while j < offsets.len()
                    invariant
                        self.inv(),
                        j <= offsets@.len(),
                        self.node_id() == old(self).node_id(),
                        self.logs() == commit_all(old(self).logs(), offsets@.subrange(0, j as int)),
                    decreases offsets@.len() - j,
                {
                    assert(offsets@.subrange(0, j + 1).drop_last() =~= offsets@.subrange(0, j as int));
                    let ghost before = self.logs();
                    let i = self.log_index(&offsets[j].0);
                    let mut log = self.take_log(i);
                    log.commit(offsets[j].1);
                    self.set_log(i, log);
                    assert(self.logs() =~= before.insert(offsets@[j as int].0@, committed(log_of(before, offsets@[j as int].0@), offsets@[j as int].1)));
                    j = j + 1;
                }
                assert(offsets@.subrange(0, j as int) =~= offsets@);
                Response::CommitOffsetsOk
            },
            Request::ListCommittedOffsets { keys } => {
                let mut found: Vec<(String, usize)> = Vec::new();
                let mut j: usize = 0;
                while j < keys.len()
                    invariant
                        self.inv(),
                        j <= keys@.len(),
                        offsets_view(found@) == listed(self.logs(), keys@.subrange(0, j as int)),
                    decreases keys@.len() - j,
                {
                    let ghost before = found@;
                    assert(keys@.subrange(0, j + 1).drop_last() =~= keys@.subrange(0, j as int));
                    match self.find_log(&keys[j]) {
                        Some(log) => match log.commit_offset {
                            Some(c) => {
                                found.push((keys[j].clone(), c));
                                assert(offsets_view(found@) =~= offsets_view(before).push((keys@[j as int]@, c)));
                            },
                            None => {},
                        },
                        None => {},
                    }
                    j = j + 1;
                }
                assert(keys@.subrange(0, j as int) =~= keys@);
                Response::ListCommittedOffsetsOk { offsets: found }
            },
        };
        Ok(vec![Body::Response { dest: src.clone(), in_reply_to: msg_id, response }])
    }

    fn handle_response(&mut self, response: &Response, in_reply_to: MsgId, src: &NodeId) -> (r: Result<(), ProtocolError>) {
        Err(ProtocolError::UnexpectedResponse)
    }

    fn tick(&mut self) -> (r: Vec<Body<Request, Response>>) {
        Vec::new()
    }
}

/// Two sends to one key get consecutive offsets, the first send to a new key offset 0.
pub proof fn lemma_send_offsets_increase(
    w: KafkaWorkload,
    key: String,
    m1: u64,
    m2: u64,
    src: Seq<char>,
    id1: MsgId,
    id2: MsgId,
    mid: KafkaWorkload,
    out1: Result<Seq<Body<Request, Response>>, ProtocolError>,
    after: KafkaWorkload,
    out2: Result<Seq<Body<Request, Response>>, ProtocolError>,
)
    requires
        w.on_request(Request::Send { key, msg: m1 }, src, id1, mid, out1),
        mid.on_request(Request::Send { key, msg: m2 }, src, id2, after, out2),
    ensures
        out1->Ok_0[0]->Response_response->SendOk_offset + 1 == out2->Ok_0[0]->Response_response->SendOk_offset,
        !w.logs().contains_key(key@) ==> out1->Ok_0[0]->Response_response->SendOk_offset == 0,
{
}

/// A poll from offset `from` returns exactly the present entries at `from` or later, in offset
/// order.
pub proof fn lemma_poll_exact(entries: Seq<Option<u64>>, from: int, upto: int)
    requires
        0 <= from <= upto <= entries.len(),
        upto <= usize::MAX,
    ensures
        forall|j: int|
            0 <= j < present_from(entries, from, upto).len() ==> {
                let (o, v) = #[trigger] present_from(entries, from, upto)[j];
                from <= o < upto && entries[o as int] == Some(v)
            },
        forall|j1: int, j2: int|
            0 <= j1 < j2 < present_from(entries, from, upto).len() ==> (#[trigger] present_from(entries, from, upto)[j1]).0
                < (#[trigger] present_from(entries, from, upto)[j2]).0,
        forall|o: int|
            from <= o < upto && #[trigger] entries[o] is Some ==> present_from(entries, from, upto).contains(
                (o as usize, entries[o]->0),
            ),
    decreases upto - from,
{
    if from < upto {
        lemma_poll_exact(entries, from, upto - 1);
        let p = present_from(entries, from, upto - 1);
        let q = present_from(entries, from, upto);
        assert forall|o: int| from <= o < upto && #[trigger] entries[o] is Some implies q.contains(
            (o as usize, entries[o]->0),
        ) by {
            if o < upto - 1 {
                let j = choose|j: int| 0 <= j < p.len() && p[j] == (o as usize, entries[o]->0);
                assert(q[j] == p[j]);
            } else {
                assert(q[q.len() - 1] == (o as usize, entries[o]->0));
            }
        }
    }
}

/// Committing only ever appends holes to the logs.
proof fn lemma_commit_all_extends(logs: Map<Seq<char>, LogView>, offsets: Seq<(String, usize)>, k: Seq<char>)
    ensures
        extends(log_of(logs, k), log_of(commit_all(logs, offsets), k)),
    decreases offsets.len(),
{
    if offsets.len() > 0 {
        lemma_commit_all_extends(logs, offsets.drop_last(), k);
        let m = commit_all(logs, offsets.drop_last());
        let l = log_of(m, k);
        let l2 = log_of(commit_all(logs, offsets), k);
        assert(extends(l, l2)) by {
            if k == offsets.last().0@ {
                assert(l2.entries.take(l.entries.len() as int) =~= l.entries);
            } else {
                assert(l2 == l);
                assert(l.entries.take(l.entries.len() as int) =~= l.entries);
            }
        }
        let l0 = log_of(logs, k);
        assert(l2.entries.take(l0.entries.len() as int) =~= l.entries.take(l0.entries.len() as int));
    } else {
        assert(log_of(logs, k).entries.take(log_of(logs, k).entries.len() as int) =~= log_of(logs, k).entries);
    }
}

/// Logs only grow: whatever requests come in between, each key's entries stay a prefix of its
/// later entries. As `Send` answers with the log's length, the offsets it gives a key keep
/// increasing across any interleaving of requests.
pub proof fn lemma_logs_only_grow(
    w: KafkaWorkload,
    request: Request,
    src: Seq<char>,
    msg_id: MsgId,
    after: KafkaWorkload,
    out: Result<Seq<Body<Request, Response>>, ProtocolError>,
    k: Seq<char>,
)
    requires
        w.on_request(request, src, msg_id, after, out),
    ensures
        extends(log_of(w.logs(), k), log_of(after.logs(), k)),
{
    let l = log_of(w.logs(), k);
    match request {
        Request::CommitOffsets { offsets } => {
            lemma_commit_all_extends(w.logs(), offsets@, k);
        },
        Request::Send { key, msg } => {
            if key@ == k {
                assert(log_of(after.logs(), k).entries.take(l.entries.len() as int) =~= l.entries);
            } else {
                assert(l.entries.take(l.entries.len() as int) =~= l.entries);
            }
        },
        _ => {
            assert(l.entries.take(l.entries.len() as int) =~= l.entries);
        },
    }
}

} // verus!
