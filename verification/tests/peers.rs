use async_tungstenite::tungstenite::Message;
use futures_channel::mpsc::unbounded;
use mefrpd::peers::{PeerAddr, PeerTable};

fn v4(last: u8, port: u16) -> PeerAddr {
    PeerAddr { v6: false, ip: u32::from_be_bytes([127, 0, 0, last]) as u128, port, flowinfo: 0, scope_id: 0 }
}

#[test]
fn connect_and_disconnect() {
    let mut t = PeerTable::new();
    assert_eq!(t.len(), 0);
    let (a, _ra) = unbounded::<Message>();
    let (b, _rb) = unbounded::<Message>();
    t.connect(v4(1, 1000), a);
    t.connect(v4(1, 1001), b);
    assert_eq!(t.len(), 2);
    let (c, _rc) = unbounded::<Message>();
    t.connect(v4(1, 1000), c);
    assert_eq!(t.len(), 2);
    t.disconnect(&v4(1, 1000));
    assert_eq!(t.len(), 1);
    t.disconnect(&v4(9, 9));
    assert_eq!(t.len(), 1);
}

#[test]
fn broadcast_skips_excluded_peer() {
    let mut t = PeerTable::new();
    let (a, mut ra) = unbounded::<Message>();
    let (b, mut rb) = unbounded::<Message>();
    let (c, mut rc) = unbounded::<Message>();
    t.connect(v4(1, 1), a);
    t.connect(v4(2, 2), b);
    t.connect(v4(3, 3), c);
    let msg = Message::Text("news".into());
    let (sent, sends) = t.broadcast(&msg, Some(&v4(2, 2)));
    assert_eq!(sent, 2);
    assert_eq!(sends, vec![(v4(1, 1), true), (v4(3, 3), true)]);
    assert_eq!(ra.try_next().unwrap(), Some(msg.clone()));
    assert!(rb.try_next().is_err());
    assert_eq!(rc.try_next().unwrap(), Some(msg.clone()));
}

#[test]
fn broadcast_to_everyone() {
    let mut t = PeerTable::new();
    let (a, mut ra) = unbounded::<Message>();
    let (b, mut rb) = unbounded::<Message>();
    t.connect(v4(1, 1), a);
    t.connect(v4(2, 2), b);
    let msg = Message::Ping(vec![7u8].into());
    assert_eq!(t.broadcast(&msg, None).0, 2);
    assert_eq!(ra.try_next().unwrap(), Some(msg.clone()));
    assert_eq!(rb.try_next().unwrap(), Some(msg.clone()));
}

#[test]
fn broadcast_counts_only_open_channels() {
    let mut t = PeerTable::new();
    let (a, ra) = unbounded::<Message>();
    let (b, mut rb) = unbounded::<Message>();
    t.connect(v4(1, 1), a);
    t.connect(v4(2, 2), b);
    drop(ra);
    let msg = Message::Text("x".into());
    assert_eq!(t.broadcast(&msg, None), (1, vec![(v4(1, 1), false), (v4(2, 2), true)]));
    assert_eq!(rb.try_next().unwrap(), Some(msg));
}

#[test]
fn broadcast_to_nobody() {
    let mut t = PeerTable::new();
    assert_eq!(t.broadcast(&Message::Text("x".into()), None), (0, vec![]));
}

#[test]
fn excluding_an_absent_peer_reaches_everyone() {
    let mut t = PeerTable::new();
    let (a, mut ra) = unbounded::<Message>();
    let (b, mut rb) = unbounded::<Message>();
    t.connect(v4(1, 1), a);
    t.connect(v4(2, 2), b);
    let msg = Message::Text("all".into());
    assert_eq!(t.broadcast(&msg, Some(&v4(7, 7))), (2, vec![(v4(1, 1), true), (v4(2, 2), true)]));
    assert_eq!(ra.try_next().unwrap(), Some(msg.clone()));
    assert_eq!(rb.try_next().unwrap(), Some(msg.clone()));
    assert!(ra.try_next().is_err());
    assert!(rb.try_next().is_err());
}

#[test]
fn broadcast_sends_each_peer_one_copy() {
    let mut t = PeerTable::new();
    let (a, mut ra) = unbounded::<Message>();
    t.connect(v4(1, 1), a);
    let first = Message::Text("one".into());
    let second = Message::Text("two".into());
    assert_eq!(t.broadcast(&first, None).0, 1);
    assert_eq!(t.broadcast(&second, None).0, 1);
    assert_eq!(ra.try_next().unwrap(), Some(first));
    assert_eq!(ra.try_next().unwrap(), Some(second));
    assert!(ra.try_next().is_err());
}

#[test]
fn broadcast_leaves_table_unchanged() {
    let mut t = PeerTable::new();
    let (a, _ra) = unbounded::<Message>();
    t.connect(v4(1, 1), a);
    t.broadcast(&Message::Text("x".into()), None);
    assert_eq!(t.len(), 1);
}
