use araponto::stats::{snapshot, Counters};
use araponto::ws::{
    ws_peer_add, ws_peer_exists, ws_peer_remove, ws_peer_route, ws_peer_send, ws_peer_settle,
    WsPeers,
};
use bytes::Bytes;
use tokio::sync::mpsc::unbounded_channel;

#[test]
fn message_reaches_the_connection() {
    let mut peers = WsPeers::new();
    let mut counters = Counters::new();
    let (tx, mut rx) = unbounded_channel();
    assert_eq!(ws_peer_add(&mut peers, "1", tx), 1);
    assert!(ws_peer_exists(&peers, "1"));
    assert_eq!(peers.len(), 1);
    let sent = ws_peer_send(&mut peers, &mut counters, "1", Bytes::from_static(b"hello"));
    assert_eq!(sent, Some(true));
    assert_eq!(rx.try_recv().unwrap(), Bytes::from_static(b"hello"));
    assert_eq!(snapshot(&counters)[13], 1);
    assert_eq!(snapshot(&counters)[14], 0);
}

#[test]
fn unknown_peer_is_not_a_websocket_peer() {
    let mut peers = WsPeers::new();
    let mut counters = Counters::new();
    assert_eq!(ws_peer_send(&mut peers, &mut counters, "1", Bytes::new()), None);
    assert!(!ws_peer_exists(&peers, "1"));
    assert!(ws_peer_route(&peers, "1").is_none());
    assert_eq!(snapshot(&counters), [0u64; 17]);
}

#[test]
fn lost_connection_is_forgotten() {
    let mut peers = WsPeers::new();
    let mut counters = Counters::new();
    let (tx, rx) = unbounded_channel();
    ws_peer_add(&mut peers, "1", tx);
    drop(rx);
    assert_eq!(ws_peer_send(&mut peers, &mut counters, "1", Bytes::new()), Some(false));
    assert!(!ws_peer_exists(&peers, "1"));
    assert_eq!(ws_peer_send(&mut peers, &mut counters, "1", Bytes::new()), None);
    assert_eq!(snapshot(&counters)[13], 0);
    assert_eq!(snapshot(&counters)[14], 1);
}

#[test]
fn older_connection_cannot_unregister_a_newer_one() {
    let mut peers = WsPeers::new();
    let mut counters = Counters::new();
    let (tx1, mut rx1) = unbounded_channel();
    let (tx2, mut rx2) = unbounded_channel();
    let first = ws_peer_add(&mut peers, "1", tx1);
    let second = ws_peer_add(&mut peers, "1", tx2);
    assert_ne!(first, second);
    assert_eq!(peers.len(), 1);
    assert!(!ws_peer_remove(&mut peers, "1", first));
    assert!(ws_peer_exists(&peers, "1"));
    ws_peer_send(&mut peers, &mut counters, "1", Bytes::from_static(b"x"));
    assert!(rx1.try_recv().is_err());
    assert!(rx2.try_recv().is_ok());
    assert!(!ws_peer_remove(&mut peers, "2", second));
    assert!(ws_peer_remove(&mut peers, "1", second));
    assert!(!ws_peer_exists(&peers, "1"));
    assert!(!ws_peer_remove(&mut peers, "1", second));
}

#[test]
fn outcome_of_a_message_by_what_the_connection_said() {
    let mut peers = WsPeers::new();
    let mut counters = Counters::new();
    let (tx, _rx) = unbounded_channel();
    ws_peer_add(&mut peers, "1", tx);
    assert_eq!(ws_peer_settle(&mut peers, &mut counters, "2", true), None);
    assert_eq!(ws_peer_settle(&mut peers, &mut counters, "1", true), Some(true));
    assert!(ws_peer_exists(&peers, "1"));
    assert_eq!(ws_peer_settle(&mut peers, &mut counters, "1", false), Some(false));
    assert!(!ws_peer_exists(&peers, "1"));
}

#[test]
fn many_peers_come_and_go() {
    let mut peers = WsPeers::new();
    let (tx, _rx) = unbounded_channel();
    for i in 0..200u64 {
        assert_eq!(ws_peer_add(&mut peers, &format!("{i}"), tx.clone()), i + 1);
    }
    for i in (0..200u64).step_by(3) {
        assert!(ws_peer_remove(&mut peers, &format!("{i}"), i + 1));
    }
    for i in 0..200u64 {
        assert_eq!(ws_peer_exists(&peers, &format!("{i}")), i % 3 != 0);
    }
    assert_eq!(peers.len(), 133);
}

#[test]
fn route_stands_since_the_last_registration() {
    let mut peers = WsPeers::new();
    let mut counters = Counters::new();
    let (tx, rx) = unbounded_channel();
    let first = ws_peer_add(&mut peers, "1", tx.clone());
    ws_peer_add(&mut peers, "2", tx.clone());
    assert!(ws_peer_remove(&mut peers, "1", first));
    let second = ws_peer_add(&mut peers, "1", tx.clone());
    assert_eq!(second, 3);
    // neither its old connection nor those of others take the route away
    assert!(!ws_peer_remove(&mut peers, "1", first));
    assert!(ws_peer_remove(&mut peers, "2", 2));
    assert_eq!(ws_peer_settle(&mut peers, &mut counters, "1", true), Some(true));
    assert!(ws_peer_exists(&peers, "1"));
    // a lost message does, until it registers again
    drop(rx);
    assert_eq!(ws_peer_send(&mut peers, &mut counters, "1", Bytes::new()), Some(false));
    assert!(!ws_peer_exists(&peers, "1"));
    assert!(!ws_peer_remove(&mut peers, "1", second));
    assert_eq!(ws_peer_add(&mut peers, "1", tx), 4);
    assert!(ws_peer_exists(&peers, "1"));
}
