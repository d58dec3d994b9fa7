use dist_sys_challenge::message::ProtocolError;
use dist_sys_challenge::workloads::echo::{Echo, EchoWorkload};
use dist_sys_challenge::workloads::generate::{GenerateWorkload, Request as GenerateRequest, Response as GenerateResponse};
use dist_sys_challenge::workloads::kafka::{KafkaWorkload, Request, Response};
use dist_sys_challenge::workloads::multi::{Either, MultiWorkload};
use dist_sys_challenge::workloads::workload::{Body, Workload};

fn s(x: &str) -> String {
    x.to_string()
}

fn kafka() -> KafkaWorkload {
    KafkaWorkload::new(s("n1"), vec![s("n1")])
}

fn reply(w: &mut KafkaWorkload, request: Request) -> Response {
    let mut out = w.handle_request(&request, &s("c1"), 7).expect("a reply");
    assert_eq!(out.len(), 1);
    match out.pop().unwrap() {
        Body::Response { dest, in_reply_to, response } => {
            assert_eq!(dest, "c1");
            assert_eq!(in_reply_to, 7);
            response
        }
        _ => panic!("expected a response"),
    }
}

fn send(w: &mut KafkaWorkload, key: &str, msg: u64) -> usize {
    match reply(w, Request::Send { key: s(key), msg }) {
        Response::SendOk { offset } => offset,
        _ => panic!("expected send_ok"),
    }
}

fn poll(w: &mut KafkaWorkload, offsets: Vec<(String, usize)>) -> Vec<(String, Vec<(usize, u64)>)> {
    match reply(w, Request::Poll { offsets }) {
        Response::PollOk { msgs } => msgs,
        _ => panic!("expected poll_ok"),
    }
}

fn list(w: &mut KafkaWorkload, keys: Vec<String>) -> Vec<(String, usize)> {
    match reply(w, Request::ListCommittedOffsets { keys }) {
        Response::ListCommittedOffsetsOk { offsets } => offsets,
        _ => panic!("expected list_committed_offsets_ok"),
    }
}

#[test]
fn kafka_send_poll_commit_list() {
    let mut w = kafka();
    assert_eq!(send(&mut w, "k", 100), 0);
    assert_eq!(send(&mut w, "k", 200), 1);
    assert_eq!(poll(&mut w, vec![(s("k"), 0)]), vec![(s("k"), vec![(0, 100), (1, 200)])]);
    assert!(matches!(reply(&mut w, Request::CommitOffsets { offsets: vec![(s("k"), 1)] }), Response::CommitOffsetsOk));
    assert_eq!(list(&mut w, vec![s("k")]), vec![(s("k"), 1)]);
}

#[test]
fn kafka_offsets_are_per_key_and_increasing() {
    let mut w = kafka();
    assert_eq!(send(&mut w, "a", 1), 0);
    assert_eq!(send(&mut w, "b", 2), 0);
    assert_eq!(send(&mut w, "a", 3), 1);
    assert_eq!(send(&mut w, "a", 4), 2);
    assert_eq!(poll(&mut w, vec![(s("a"), 1), (s("b"), 0)]), vec![(s("a"), vec![(1, 3), (2, 4)]), (s("b"), vec![(0, 2)])]);
}

#[test]
fn kafka_poll_skips_unknown_keys_and_offsets_past_the_end() {
    let mut w = kafka();
    send(&mut w, "a", 1);
    assert_eq!(poll(&mut w, vec![(s("x"), 0), (s("a"), 2)]), vec![]);
    assert_eq!(poll(&mut w, vec![(s("a"), 1)]), vec![(s("a"), vec![])]);
}

#[test]
fn kafka_commit_past_the_end_leaves_holes() {
    let mut w = kafka();
    send(&mut w, "a", 1);
    reply(&mut w, Request::CommitOffsets { offsets: vec![(s("a"), 3), (s("fresh"), 2)] });
    assert_eq!(send(&mut w, "a", 9), 3);
    assert_eq!(send(&mut w, "fresh", 5), 2);
    assert_eq!(poll(&mut w, vec![(s("a"), 0)]), vec![(s("a"), vec![(0, 1), (3, 9)])]);
    assert_eq!(poll(&mut w, vec![(s("a"), 1)]), vec![(s("a"), vec![(3, 9)])]);
}

#[test]
fn kafka_list_omits_uncommitted_keys() {
    let mut w = kafka();
    send(&mut w, "a", 1);
    send(&mut w, "b", 1);
    reply(&mut w, Request::CommitOffsets { offsets: vec![(s("b"), 0)] });
    assert_eq!(list(&mut w, vec![s("a"), s("b"), s("z")]), vec![(s("b"), 0)]);
}

#[test]
fn kafka_refuses_responses() {
    let mut w = kafka();
    assert_eq!(w.handle_response(&Response::CommitOffsetsOk, 0, &s("n2")), Err(ProtocolError::UnexpectedResponse));
    assert!(w.tick().is_empty());
}

#[test]
fn generated_ids_differ() {
    let mut w = GenerateWorkload::new(s("n1"), vec![]);
    let mut ids = Vec::new();
    for _ in 0..2 {
        let out = w.handle_request(&GenerateRequest::Generate, &s("c1"), 1).expect("a reply");
        match &out[0] {
            Body::Response { response: GenerateResponse::GenerateOk { id }, .. } => ids.push(*id),
            _ => panic!("expected generate_ok"),
        }
    }
    assert_ne!(ids[0], ids[1]);
}

#[test]
fn multi_routes_by_side() {
    let mut w: MultiWorkload<EchoWorkload, KafkaWorkload> = MultiWorkload::new(s("n1"), vec![s("n1")]);
    let out = w.handle_request(&Either::A(Echo { echo: s("hi") }), &s("c1"), 3).expect("a reply");
    match &out[0] {
        Body::Response { dest, in_reply_to, response: Either::A(ok) } => {
            assert_eq!(dest, "c1");
            assert_eq!(*in_reply_to, 3);
            assert_eq!(ok.echo, "hi");
        }
        _ => panic!("expected an echo reply"),
    }
    let out = w.handle_request(&Either::B(Request::Send { key: s("k"), msg: 1 }), &s("c1"), 4).expect("a reply");
    assert!(matches!(&out[0], Body::Response { response: Either::B(Response::SendOk { offset: 0 }), .. }));
    assert_eq!(w.handle_response(&Either::B(Response::CommitOffsetsOk), 0, &s("n2")), Err(ProtocolError::UnexpectedResponse));
}
