use dist_sys_challenge::workloads::broadcast::{self, BroadcastWorkload};
use dist_sys_challenge::workloads::g_counter::{self, GCounterWorkload};
use dist_sys_challenge::workloads::workload::{Body, Workload};

fn s(x: &str) -> String {
    x.to_string()
}

fn broadcast_read(w: &mut BroadcastWorkload) -> Vec<isize> {
    let out = w.handle_request(&broadcast::Request::Read, &s("c1"), 1).expect("a reply");
    match &out[0] {
        Body::Response { response: broadcast::Response::ReadOk { values }, .. } => {
            let mut v = values.clone();
            v.sort();
            v
        }
        _ => panic!("expected read_ok"),
    }
}

fn counter_read(w: &mut GCounterWorkload) -> u128 {
    let out = w.handle_request(&g_counter::Request::Read, &s("c1"), 1).expect("a reply");
    match &out[0] {
        Body::Response { response: g_counter::Response::ReadOk { value }, .. } => *value,
        _ => panic!("expected read_ok"),
    }
}

fn sync(w: &mut GCounterWorkload, state: &[(&str, u64)]) -> usize {
    let state = state.iter().map(|(k, v)| (s(k), *v)).collect();
    w.handle_request(&g_counter::Request::SyncState { state }, &s("n2"), 2).expect("merged").len()
}

#[test]
fn gossip_of_known_values_changes_nothing() {
    let mut w = BroadcastWorkload::new(s("n1"), vec![s("n1")]);
    w.handle_request(&broadcast::Request::Broadcast { value: 1 }, &s("c1"), 1).unwrap();
    w.handle_request(&broadcast::Request::Broadcast { value: 2 }, &s("c1"), 2).unwrap();
    let gossip = broadcast::Request::Gossip { values: vec![2, 1, 2] };
    w.handle_request(&gossip, &s("n2"), 3).unwrap();
    w.tick();
    assert_eq!(broadcast_read(&mut w), vec![1, 2]);
}

#[test]
fn gossip_received_twice_counts_once() {
    let mut w = BroadcastWorkload::new(s("n1"), vec![s("n1")]);
    let gossip = broadcast::Request::Gossip { values: vec![4, 3] };
    w.handle_request(&gossip, &s("n2"), 1).unwrap();
    assert_eq!(broadcast_read(&mut w), vec![3, 4]);
    w.handle_request(&gossip, &s("n2"), 2).unwrap();
    assert_eq!(broadcast_read(&mut w), vec![3, 4]);
}

#[test]
fn gossip_merges_in_either_order() {
    let a = broadcast::Request::Gossip { values: vec![1, 2] };
    let b = broadcast::Request::Gossip { values: vec![2, 3] };
    let mut x = BroadcastWorkload::new(s("n1"), vec![s("n1")]);
    let mut y = BroadcastWorkload::new(s("n1"), vec![s("n1")]);
    x.handle_request(&broadcast::Request::Broadcast { value: 9 }, &s("c1"), 1).unwrap();
    y.handle_request(&broadcast::Request::Broadcast { value: 9 }, &s("c1"), 1).unwrap();
    x.handle_request(&a, &s("n2"), 2).unwrap();
    x.handle_request(&b, &s("n2"), 3).unwrap();
    y.handle_request(&b, &s("n2"), 2).unwrap();
    y.handle_request(&a, &s("n2"), 3).unwrap();
    y.handle_request(&b, &s("n2"), 4).unwrap();
    assert_eq!(broadcast_read(&mut x), vec![1, 2, 3, 9]);
    assert_eq!(broadcast_read(&mut y), vec![1, 2, 3, 9]);
}

#[test]
fn counter_total_may_pass_u64() {
    let mut w = GCounterWorkload::new(s("n1"), vec![s("n1"), s("n2")]);
    w.handle_request(&g_counter::Request::Add { delta: u64::MAX }, &s("c1"), 1).unwrap();
    sync(&mut w, &[("n2", 5)]);
    assert_eq!(counter_read(&mut w), u64::MAX as u128 + 5);
}

#[test]
fn counter_merge_of_known_state_is_silent() {
    let mut w = GCounterWorkload::new(s("n1"), vec![s("n1"), s("n2")]);
    assert_eq!(sync(&mut w, &[("n2", 5)]), 1);
    assert_eq!(sync(&mut w, &[("n2", 5), ("n1", 0)]), 0);
    assert_eq!(sync(&mut w, &[("n2", 3)]), 0);
    assert_eq!(counter_read(&mut w), 5);
}

#[test]
fn counter_merge_order_does_not_matter() {
    let a: [(&str, u64); 2] = [("n2", 5), ("n3", 1)];
    let b: [(&str, u64); 2] = [("n2", 2), ("n3", 6)];
    let mut x = GCounterWorkload::new(s("n1"), vec![s("n1"), s("n2"), s("n3")]);
    let mut y = GCounterWorkload::new(s("n1"), vec![s("n1"), s("n2"), s("n3")]);
    sync(&mut x, &a);
    sync(&mut x, &b);
    sync(&mut y, &b);
    sync(&mut y, &a);
    assert_eq!(counter_read(&mut x), 11);
    assert_eq!(counter_read(&mut y), 11);
}

#[test]
fn counter_add_increments_own_entry() {
    let mut w = GCounterWorkload::new(s("n1"), vec![s("n2")]);
    let out = w.handle_request(&g_counter::Request::Add { delta: 3 }, &s("c1"), 4).unwrap();
    assert_eq!(out.len(), 2);
    match &out[0] {
        Body::Request { dest, request: g_counter::Request::SyncState { state } } => {
            assert_eq!(dest, "n2");
            let mut st = state.clone();
            st.sort();
            assert_eq!(st, vec![(s("n1"), 3), (s("n2"), 0)]);
        }
        _ => panic!("expected a sync request"),
    }
    assert_eq!(counter_read(&mut w), 3);
}
