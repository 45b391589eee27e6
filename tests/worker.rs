use cds::cds_worker::{CdsWorker, PeerMapItem, PeerMapState, WorkerError};
use cds::cell::Store;
use cds::kv_message::KVMessage;
use cds::message::Message;
use cds::peer::{Peer, PeerError, PeerResult};
use cds::socket_worker::SocketWorker;

fn s(x: &str) -> String {
    x.to_string()
}

#[test]
fn peer_map_item_new_is_live() {
    let it = PeerMapItem::new(s("h:1"), 2);
    assert_eq!(it.address, "h:1");
    assert_eq!(it.client_id, 2);
    assert_eq!(it.state, PeerMapState::Live);
}

#[test]
fn kv_message_new_keeps_fields() {
    let m = KVMessage::new(s("k"), s("v"), 3, 9);
    assert_eq!((m.key.as_str(), m.value.as_str(), m.client_id, m.version), ("k", "v", 3, 9));
}

#[test]
fn set_key_local_returns_update() {
    let w = CdsWorker::new(1, vec![]);
    let mut st = Store::new();
    let m = w.set_key_local(&mut st, s("x"), s("v1")).unwrap();
    assert_eq!((m.client_id, m.version), (1, 0));
    let m = w.set_key_local(&mut st, s("x"), s("v2")).unwrap();
    assert_eq!((m.client_id, m.version), (1, 1));
    assert_eq!(st.read(&s("x")), Some(s("v2")));
}

#[test]
fn set_key_local_at_max_version_fails() {
    let w = CdsWorker::new(1, vec![]);
    let mut st = Store::new();
    w.set_key_foreign(&mut st, s("x"), s("v"), 2, u64::MAX);
    assert_eq!(w.set_key_local(&mut st, s("x"), s("w")).err(), Some(WorkerError::VersionExhausted));
    assert_eq!(st.get_cell(&s("x")), Some((2, u64::MAX, s("v"))));
}

#[test]
fn consume_results_merges_in_order() {
    let w = CdsWorker::new(1, vec![]);
    let mut st = Store::new();
    let rs = vec![
        PeerResult::KeyUpdate(s("a"), s("1"), 0, 2),
        PeerResult::KeyUpdate(s("a"), s("2"), 1, 2),
        PeerResult::KeyUpdate(s("a"), s("old"), 0, 3),
    ];
    assert_eq!(w.consume_peer_result(&mut st, rs), Ok(()));
    assert_eq!(st.get_cell(&s("a")), Some((2, 1, s("2"))));
}

#[test]
fn consume_results_stops_at_unknown() {
    let w = CdsWorker::new(1, vec![]);
    let mut st = Store::new();
    let rs = vec![
        PeerResult::KeyUpdate(s("a"), s("1"), 0, 2),
        PeerResult::Unknown,
        PeerResult::KeyUpdate(s("b"), s("2"), 0, 2),
    ];
    assert_eq!(w.consume_peer_result(&mut st, rs), Err(WorkerError::UnknownResult));
    assert_eq!(st.read(&s("a")), Some(s("1")));
    assert_eq!(st.read(&s("b")), None);
}

#[test]
fn accept_skips_known_address() {
    let mut w = CdsWorker::new(1, vec![]);
    assert!(w.dont_have_peer_with_addr(&s("h:1")));
    assert!(w.accept_new_peer(Peer::new(s("h:1"), 2)));
    assert!(!w.dont_have_peer_with_addr(&s("h:1")));
    assert!(!w.accept_new_peer(Peer::new(s("h:1"), 2)));
    assert!(w.accept_new_peer(Peer::new_from_worker(s("h:2"), 3, SocketWorker::new(s("h:2")))));
    assert_eq!(w.peer_count(), 2);
    assert_eq!(w.peer_address(1), "h:2");
}

#[test]
fn regenerate_lists_unconnected_entries() {
    let map = vec![PeerMapItem::new(s("h:1"), 2), PeerMapItem::new(s("h:2"), 3), PeerMapItem::new(s("h:3"), 4)];
    let mut w = CdsWorker::new(1, map);
    assert_eq!(w.regenerate_from_map().len(), 3);
    w.accept_new_peer(Peer::new(s("h:2"), 3));
    assert_eq!(w.regenerate_from_map(), vec![(s("h:1"), 2), (s("h:3"), 4)]);
}

#[test]
fn push_reaches_live_peers_only() {
    let mut w = CdsWorker::new(1, vec![]);
    w.accept_new_peer(Peer::new(s("h:1"), 2));
    w.accept_new_peer(Peer::new(s("h:2"), 3));
    w.peer_die(0);
    assert_eq!(w.push_to_peers(&b"u".to_vec()), Ok(()));
    let (_, out0) = w.peer_work(0, vec![]);
    assert_eq!(out0, None);
    let (_, out1) = w.peer_work(1, vec![]);
    assert_eq!(out1, Some(Message::new(1, b"u".to_vec()).serialize()));
}

#[test]
fn dead_peer_refuses_and_ignores() {
    let mut p = Peer::new(s("h:1"), 2);
    p.die();
    assert!(p.dead());
    assert_eq!(p.push_val(b"x".to_vec()), Err(PeerError::Dead));
    let (got, out) = p.work(vec![Message::new(1, b"x".to_vec()).serialize()]);
    assert!(got.is_empty());
    assert!(out.is_none());
}

#[test]
fn prune_drops_dead_peers() {
    let mut w = CdsWorker::new(1, vec![]);
    w.accept_new_peer(Peer::new(s("h:1"), 2));
    w.accept_new_peer(Peer::new(s("h:2"), 3));
    w.accept_new_peer(Peer::new(s("h:3"), 4));
    w.peer_die(1);
    w.prune_dead_peers();
    assert_eq!(w.peer_count(), 2);
    assert_eq!(w.peer_address(0), "h:1");
    assert_eq!(w.peer_address(1), "h:3");
}

fn encode(m: &KVMessage) -> Vec<u8> {
    format!("{}|{}|{}|{}", m.key, m.client_id, m.version, m.value).into_bytes()
}

fn decode(p: &[u8]) -> PeerResult {
    let t = String::from_utf8(p.to_vec()).unwrap();
    let f: Vec<&str> = t.split('|').collect();
    PeerResult::KeyUpdate(s(f[0]), s(f[3]), f[2].parse().unwrap(), f[1].parse().unwrap())
}

/// Runs ticks on two connected replicas until neither has anything to send.
fn exchange(wa: &mut CdsWorker, sa: &mut Store, wb: &mut CdsWorker, sb: &mut Store) {
    let mut to_a: Vec<Vec<u8>> = vec![];
    let mut to_b: Vec<Vec<u8>> = vec![];
    for _ in 0..20 {
        let (got_a, out_a) = wa.peer_work(0, std::mem::take(&mut to_a));
        let (got_b, out_b) = wb.peer_work(0, std::mem::take(&mut to_b));
        wa.consume_peer_result(sa, got_a.iter().map(|p| decode(p)).collect()).unwrap();
        wb.consume_peer_result(sb, got_b.iter().map(|p| decode(p)).collect()).unwrap();
        if let Some(d) = out_a {
            to_b.push(d);
        }
        if let Some(d) = out_b {
            to_a.push(d);
        }
    }
}

#[test]
fn replicas_converge_after_exchange() {
    let mut wa = CdsWorker::new(1, vec![]);
    let mut wb = CdsWorker::new(3, vec![]);
    wa.accept_new_peer(Peer::new(s("b"), 3));
    wb.accept_new_peer(Peer::new(s("a"), 1));
    let mut sa = Store::new();
    let mut sb = Store::new();
    let m = wa.set_key_local(&mut sa, s("x"), s("a")).unwrap();
    wa.push_to_peers(&encode(&m)).unwrap();
    let m = wb.set_key_local(&mut sb, s("x"), s("b")).unwrap();
    wb.push_to_peers(&encode(&m)).unwrap();
    let m = wb.set_key_local(&mut sb, s("y"), s("only-b")).unwrap();
    wb.push_to_peers(&encode(&m)).unwrap();
    exchange(&mut wa, &mut sa, &mut wb, &mut sb);
    for k in ["x", "y"] {
        assert_eq!(sa.get_cell(&s(k)), sb.get_cell(&s(k)));
    }
    assert_eq!(sa.get_cell(&s("x")), Some((1, 0, s("a"))));
    assert_eq!(sa.get_cell(&s("y")), Some((3, 0, s("only-b"))));
}
