use dist_sys_challenge::message::{Message, MessageBody, ProtocolError};
use dist_sys_challenge::node::{Inbound, Outbound, Runtime};
use dist_sys_challenge::workloads::broadcast::{BroadcastWorkload, Request, Response};
use dist_sys_challenge::workloads::g_counter::{
    GCounterWorkload, Request as CounterRequest, Response as CounterResponse,
};
use dist_sys_challenge::workloads::init::{Init, Response as InitResponse};

type Msg = Message<Request, Response>;

fn s(x: &str) -> String {
    x.to_string()
}

fn handshake(node: &str, nodes: &[&str]) -> Message<Init, InitResponse> {
    Message {
        src: s("c0"),
        dest: s(node),
        body: MessageBody::Request {
            msg_id: 1,
            request: Init { node_id: s(node), node_ids: nodes.iter().map(|n| s(n)).collect() },
        },
    }
}

fn started_broadcast(node: &str, nodes: &[&str]) -> Runtime<BroadcastWorkload> {
    let mut rt = Runtime::new();
    match rt.step(Inbound::Handshake(handshake(node, nodes))) {
        Ok(Outbound::Handshake(_)) => {}
        _ => panic!("handshake failed"),
    }
    rt
}

fn request(src: &str, dest: &str, msg_id: u64, request: Request) -> Msg {
    Message { src: s(src), dest: s(dest), body: MessageBody::Request { msg_id, request } }
}

fn messages(r: Result<Outbound<Request, Response>, ProtocolError>) -> Vec<Msg> {
    match r {
        Ok(Outbound::Messages(v)) => v,
        _ => panic!("expected messages"),
    }
}

fn read_values(rt: &mut Runtime<BroadcastWorkload>, me: &str, msg_id: u64) -> Vec<isize> {
    let out = messages(rt.step(Inbound::Message(request("c1", me, msg_id, Request::Read))));
    assert_eq!(out.len(), 1);
    match &out[0].body {
        MessageBody::Response { in_reply_to, response: Response::ReadOk { values } } => {
            assert_eq!(*in_reply_to, msg_id);
            let mut v = values.clone();
            v.sort();
            v
        }
        _ => panic!("expected read_ok"),
    }
}

fn full_topology(nodes: &[&str]) -> Request {
    Request::Topology {
        topology: nodes
            .iter()
            .map(|n| (s(n), nodes.iter().filter(|m| *m != n).map(|m| s(m)).collect()))
            .collect(),
    }
}

#[test]
fn handshake_then_broadcast_and_read() {
    let mut rt: Runtime<BroadcastWorkload> = Runtime::new();
    match rt.step(Inbound::Handshake(handshake("n1", &["n1", "n2"]))) {
        Ok(Outbound::Handshake(reply)) => {
            assert_eq!(reply.src, "n1");
            assert_eq!(reply.dest, "c0");
            assert!(matches!(
                reply.body,
                MessageBody::Response { in_reply_to: 1, response: InitResponse::InitOk }
            ));
        }
        _ => panic!("expected init_ok"),
    }
    let out = messages(rt.step(Inbound::Message(request("n2", "n1", 2, Request::Broadcast { value: 5 }))));
    let last = out.last().expect("a reply");
    assert_eq!(last.dest, "n2");
    assert!(matches!(
        last.body,
        MessageBody::Response { in_reply_to: 2, response: Response::BroadcastOk }
    ));
    assert_eq!(read_values(&mut rt, "n1", 3), vec![5]);
}

#[test]
fn one_anti_entropy_period_spreads_a_value() {
    let nodes = ["n1", "n2"];
    let mut n1 = started_broadcast("n1", &nodes);
    let mut n2 = started_broadcast("n2", &nodes);
    messages(n1.step(Inbound::Message(request("c0", "n1", 2, full_topology(&nodes)))));
    messages(n2.step(Inbound::Message(request("c0", "n2", 2, full_topology(&nodes)))));
    // The round that the broadcast triggers is lost; the next timer round carries the value.
    let lost = messages(n1.step(Inbound::Message(request("c1", "n1", 3, Request::Broadcast { value: 10 }))));
    assert_eq!(lost.iter().filter(|m| m.dest == "n2").count(), 1);
    assert!(!read_values(&mut n2, "n2", 4).contains(&10));
    let out = messages(n1.step(Inbound::Tick));
    let to_n2: Vec<Msg> = out.into_iter().filter(|m| m.dest == "n2").collect();
    assert_eq!(to_n2.len(), 1);
    let mut replies = Vec::new();
    for m in to_n2 {
        replies.extend(messages(n2.step(Inbound::Message(m))));
    }
    assert!(read_values(&mut n2, "n2", 5).contains(&10));
    for r in replies {
        assert!(messages(n1.step(Inbound::Message(r))).is_empty());
    }
}

#[test]
fn gossip_picks_at_most_four_distinct_peers() {
    let nodes = ["n1", "n2", "n3", "n4", "n5", "n6"];
    let mut n1 = started_broadcast("n1", &nodes);
    messages(n1.step(Inbound::Message(request("c0", "n1", 2, full_topology(&nodes)))));
    let out = messages(n1.step(Inbound::Message(request("c1", "n1", 3, Request::Broadcast { value: 7 }))));
    assert_eq!(out.len(), 5);
    let mut dests: Vec<String> = out[..4].iter().map(|m| m.dest.clone()).collect();
    dests.sort();
    dests.dedup();
    assert_eq!(dests.len(), 4);
    for (i, m) in out[..4].iter().enumerate() {
        assert!(nodes.contains(&m.dest.as_str()));
        match &m.body {
            MessageBody::Request { msg_id, request: Request::Gossip { values } } => {
                assert_eq!(*msg_id, i as u64);
                assert_eq!(values, &vec![7]);
            }
            _ => panic!("expected gossip"),
        }
    }
}

#[test]
fn messages_for_other_nodes_are_ignored() {
    let mut rt = started_broadcast("n1", &["n1", "n2"]);
    let out = messages(rt.step(Inbound::Message(request("n2", "n9", 2, Request::Broadcast { value: 5 }))));
    assert!(out.is_empty());
    assert!(read_values(&mut rt, "n1", 3).is_empty());
}

#[test]
fn messages_before_the_handshake_are_fatal() {
    let mut rt: Runtime<BroadcastWorkload> = Runtime::new();
    let r = rt.step(Inbound::Message(request("n2", "n1", 2, Request::Read)));
    assert!(matches!(r, Err(ProtocolError::NotInitialized)));
    let mut rt: Runtime<BroadcastWorkload> = Runtime::new();
    let not_a_request: Message<Init, InitResponse> = Message {
        src: s("c0"),
        dest: s("n1"),
        body: MessageBody::Response { in_reply_to: 1, response: InitResponse::InitOk },
    };
    assert!(matches!(rt.step(Inbound::Handshake(not_a_request)), Err(ProtocolError::NotInitialized)));
}

#[test]
fn a_second_handshake_is_fatal() {
    let mut rt = started_broadcast("n1", &["n1"]);
    let r = rt.step(Inbound::Handshake(handshake("n1", &["n1"])));
    assert!(matches!(r, Err(ProtocolError::AlreadyInitialized)));
}

#[test]
fn a_timer_before_the_handshake_does_nothing() {
    let mut rt: Runtime<BroadcastWorkload> = Runtime::new();
    assert!(messages(rt.step(Inbound::Tick)).is_empty());
}

#[test]
fn topology_without_this_node_is_fatal() {
    let mut rt = started_broadcast("n1", &["n1", "n2"]);
    let r = rt.step(Inbound::Message(request("c0", "n1", 2, full_topology(&["n2", "n3"]))));
    assert!(matches!(r, Err(ProtocolError::MissingOwnTopology)));
}

#[test]
fn stale_and_unexpected_responses() {
    let nodes = ["n1", "n2"];
    let mut n1 = started_broadcast("n1", &nodes);
    messages(n1.step(Inbound::Message(request("c0", "n1", 2, full_topology(&nodes)))));
    let unknown = Message { src: s("n2"), dest: s("n1"), body: MessageBody::Response { in_reply_to: 42, response: Response::GossipOk } };
    assert!(messages(n1.step(Inbound::Message(unknown))).is_empty());
    let out = messages(n1.step(Inbound::Tick));
    let id = match &out[0].body {
        MessageBody::Request { msg_id, .. } => *msg_id,
        _ => panic!("expected gossip"),
    };
    let wrong = Message { src: s("n2"), dest: s("n1"), body: MessageBody::Response { in_reply_to: id, response: Response::BroadcastOk } };
    assert!(matches!(n1.step(Inbound::Message(wrong)), Err(ProtocolError::UnexpectedResponse)));
}

#[test]
fn respond_with_needs_a_request() {
    let m = request("n2", "n1", 9, Request::Read);
    let r = m.respond_with(Response::BroadcastOk).expect("a reply");
    assert_eq!(r.src, "n1");
    assert_eq!(r.dest, "n2");
    assert!(matches!(r.body, MessageBody::Response { in_reply_to: 9, response: Response::BroadcastOk }));
    assert!(matches!(r.respond_with(Response::GossipOk), Err(ProtocolError::ExpectedRequest)));
}

fn counter_messages(
    r: Result<Outbound<CounterRequest, CounterResponse>, ProtocolError>,
) -> Vec<Message<CounterRequest, CounterResponse>> {
    match r {
        Ok(Outbound::Messages(v)) => v,
        _ => panic!("expected messages"),
    }
}

fn counter_read(rt: &mut Runtime<GCounterWorkload>, me: &str) -> u128 {
    let m = Message { src: s("c1"), dest: s(me), body: MessageBody::Request { msg_id: 99, request: CounterRequest::Read } };
    let out = counter_messages(rt.step(Inbound::Message(m)));
    match &out[0].body {
        MessageBody::Response { response: CounterResponse::ReadOk { value }, .. } => *value,
        _ => panic!("expected read_ok"),
    }
}

#[test]
fn counters_converge_after_sync_rounds() {
    let nodes = ["n1", "n2"];
    let mut rts: Vec<Runtime<GCounterWorkload>> = Vec::new();
    for n in nodes {
        let mut rt = Runtime::new();
        assert!(rt.step(Inbound::Handshake(handshake(n, &nodes))).is_ok());
        rts.push(rt);
    }
    let mut queue = Vec::new();
    for (i, delta) in [(0usize, 3u64), (1, 4)] {
        let m = Message { src: s("c1"), dest: s(nodes[i]), body: MessageBody::Request { msg_id: 5, request: CounterRequest::Add { delta } } };
        let out = counter_messages(rts[i].step(Inbound::Message(m)));
        assert!(matches!(out.last().unwrap().body, MessageBody::Response { response: CounterResponse::AddOk, .. }));
        queue.extend(out.into_iter().filter(|m| nodes.contains(&m.dest.as_str())));
    }
    let mut rounds = 0;
    while let Some(m) = queue.pop() {
        rounds += 1;
        assert!(rounds < 100);
        let i = nodes.iter().position(|n| *n == m.dest).unwrap();
        queue.extend(counter_messages(rts[i].step(Inbound::Message(m))));
    }
    assert_eq!(counter_read(&mut rts[0], "n1"), 7);
    assert_eq!(counter_read(&mut rts[1], "n2"), 7);
}

#[test]
fn counter_overflow_is_refused() {
    let mut rt: Runtime<GCounterWorkload> = Runtime::new();
    assert!(rt.step(Inbound::Handshake(handshake("n1", &["n1"]))).is_ok());
    let add = |delta: u64| Message { src: s("c1"), dest: s("n1"), body: MessageBody::Request { msg_id: 2, request: CounterRequest::Add { delta } } };
    assert!(rt.step(Inbound::Message(add(u64::MAX))).is_ok());
    assert!(matches!(rt.step(Inbound::Message(add(1))), Err(ProtocolError::CounterOverflow)));
    assert_eq!(counter_read(&mut rt, "n1"), u64::MAX as u128);
}
