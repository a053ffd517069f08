use bytes::Bytes;
use shell::session::{next_session_id, Session, SessionManager, SessionState};

fn tx() -> tokio::sync::mpsc::Sender<Bytes> {
    tokio::sync::mpsc::channel::<Bytes>(4).0
}

#[test]
fn session_ids_count_up_and_wrap() {
    let mut c = 1u64;
    assert_eq!(next_session_id(&mut c), 1);
    assert_eq!(next_session_id(&mut c), 2);
    let mut c = u64::MAX;
    assert_eq!(next_session_id(&mut c), u64::MAX);
    assert_eq!(c, 0);
}

#[test]
fn new_session_starts_connected_and_empty() {
    let s = Session::new(5, "127.0.0.1:4000".to_string(), tx());
    assert_eq!(s.id, 5);
    assert_eq!(s.addr, "127.0.0.1:4000");
    assert_eq!(s.state, SessionState::Connected);
    assert!(s.get_userdata("anything").is_none());
    assert!(s.created_at > 1_600_000_000_000);
}

#[test]
fn userdata_reads_back_what_was_written() {
    let mut s = Session::new(1, "a".to_string(), tx());
    s.set_userdata("room", "lobby");
    s.set_userdata("name", "bob");
    assert_eq!(s.get_userdata("room"), Some("lobby".to_string()));
    s.set_userdata("room", "arena");
    assert_eq!(s.get_userdata("room"), Some("arena".to_string()));
    assert_eq!(s.get_userdata("name"), Some("bob".to_string()));
    assert_eq!(s.get_userdata("level"), None);
}

#[test]
fn manager_hands_out_ids_and_respects_limit() {
    let mut m = SessionManager::new(2);
    let a = m.create_session("a".to_string(), tx()).unwrap();
    let b = m.create_session("b".to_string(), tx()).unwrap();
    assert_eq!((a.id, b.id), (1, 2));
    assert_eq!(b.addr, "b");
    assert_eq!(m.session_count(), 2);
    assert!(m.create_session("c".to_string(), tx()).is_none());
    assert_eq!(m.session_count(), 2);
    assert!(m.remove_session(1).is_some());
    let c = m.create_session("c".to_string(), tx()).unwrap();
    assert_eq!(c.id, 3);
}

#[test]
fn manager_with_no_room_refuses() {
    let mut m = SessionManager::new(0);
    assert!(m.create_session("a".to_string(), tx()).is_none());
    assert_eq!(m.session_count(), 0);
}

#[test]
fn get_and_remove_sessions() {
    let mut m = SessionManager::new(10);
    let a = m.create_session("a".to_string(), tx()).unwrap();
    assert_eq!(m.get_session(a.id).unwrap().addr, "a");
    assert!(m.get_session(99).is_none());
    let removed = m.remove_session(a.id).unwrap();
    assert_eq!(removed.id, a.id);
    assert!(m.get_session(a.id).is_none());
    assert!(m.remove_session(a.id).is_none());
    assert_eq!(m.session_count(), 0);
}

#[test]
fn broadcast_targets_skip_the_sender() {
    let mut m = SessionManager::new(10);
    for name in ["a", "b", "c"] {
        m.create_session(name.to_string(), tx()).unwrap();
    }
    let mut all: Vec<u64> = m.sessions_except(None).iter().map(|s| s.id).collect();
    all.sort();
    assert_eq!(all, vec![1, 2, 3]);
    let mut others: Vec<u64> = m.sessions_except(Some(2)).iter().map(|s| s.id).collect();
    others.sort();
    assert_eq!(others, vec![1, 3]);
    let mut none_skipped: Vec<u64> = m.sessions_except(Some(42)).iter().map(|s| s.id).collect();
    none_skipped.sort();
    assert_eq!(none_skipped, vec![1, 2, 3]);
}

#[test]
fn data_can_be_set_on_a_live_session() {
    let mut m = SessionManager::new(4);
    let a = m.create_session("a".to_string(), tx()).unwrap();
    let b = m.create_session("b".to_string(), tx()).unwrap();
    assert!(m.set_userdata(a.id, "room", "lobby"));
    assert_eq!(m.get_session(a.id).unwrap().get_userdata("room"), Some("lobby".to_string()));
    assert!(m.set_userdata(a.id, "room", "arena"));
    let live = m.get_session(a.id).unwrap();
    assert_eq!(live.get_userdata("room"), Some("arena".to_string()));
    assert_eq!((live.id, live.addr.as_str()), (a.id, "a"));
    assert_eq!(m.get_session(b.id).unwrap().get_userdata("room"), None);
    assert!(!m.set_userdata(99, "room", "x"));
    assert_eq!(m.session_count(), 2);
}

#[test]
fn new_ids_are_above_every_live_id() {
    let mut m = SessionManager::new(8);
    let mut last = 0;
    for _ in 0..5 {
        let s = m.create_session("x".to_string(), tx()).unwrap();
        assert!(s.id > last);
        last = s.id;
    }
    m.remove_session(3);
    let s = m.create_session("y".to_string(), tx()).unwrap();
    assert_eq!(s.id, 6);
    assert_eq!(m.session_count(), 5);
}
