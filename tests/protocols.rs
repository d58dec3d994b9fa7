use dist_sys_challenge::message::ProtocolError;
use dist_sys_challenge::protocols::broadcast::{BroadcastOk, BroadcastProtocol, BroadcastRequest};
use dist_sys_challenge::protocols::echo::{Echo, EchoProtocol};
use dist_sys_challenge::protocols::init::{Init, InitProtocol};
use dist_sys_challenge::protocols::multi::{Either, MultiProtocol};
use dist_sys_challenge::protocols::protocol::NodeProtocol;

#[test]
fn echo_protocol_answers_with_the_text() {
    let mut p = EchoProtocol::new();
    let r = p.handle_request(&Echo { echo: "abc".to_string() }, 1, &"c1".to_string()).expect("an answer");
    assert_eq!(r.echo, "abc");
}

#[test]
fn multi_protocol_routes_init_and_broadcast() {
    let mut p: MultiProtocol<InitProtocol, BroadcastProtocol> = MultiProtocol::new();
    let src = "c1".to_string();
    let init = Init { node_id: "n1".to_string(), node_ids: vec!["n1".to_string()] };
    assert!(matches!(p.handle_request(&Either::A(init), 1, &src), Err(ProtocolError::AlreadyInitialized)));
    assert!(matches!(p.handle_request(&Either::B(BroadcastRequest { value: 3 }), 2, &src), Ok(Either::B(BroadcastOk))));
    assert!(p.handle_response(&Either::B(BroadcastOk), &src, 2).is_ok());
}
