use shell::connection::{
    next_connection_step, stamp_session, tcp_read_action, ws_frame_action, ConnectionAction,
    ConnectionEvent, ConnectionState, FrameAction, WsFrame,
};
use shell::Message;

fn frame(msg_id: u16, session_id: u64, data: &[u8]) -> Vec<u8> {
    Message::new(msg_id, session_id, data.to_vec()).encode().to_vec()
}

#[test]
fn stamping_replaces_the_session_id() {
    let m = stamp_session(Message::new(4, 999, b"ab".to_vec()), 17);
    assert_eq!((m.msg_id, m.session_id, m.data), (4, 17, b"ab".to_vec()));
}

#[test]
fn binary_frame_is_dispatched_with_the_connection_session() {
    match ws_frame_action(WsFrame::Binary(frame(1, 555, b"hello")), 3) {
        FrameAction::Dispatch(m) => {
            assert_eq!(m.msg_id, 1);
            assert_eq!(m.session_id, 3);
            assert_eq!(m.data, b"hello".to_vec());
        }
        _ => panic!("expected a dispatch"),
    }
}

#[test]
fn undecodable_binary_frame_is_skipped() {
    assert!(matches!(ws_frame_action(WsFrame::Binary(vec![1, 2, 3]), 3), FrameAction::Skip));
    let mut truncated = frame(1, 1, b"hello");
    truncated.pop();
    assert!(matches!(ws_frame_action(WsFrame::Binary(truncated), 3), FrameAction::Skip));
}

#[test]
fn other_frames_skip_or_stop() {
    assert!(matches!(ws_frame_action(WsFrame::Text, 1), FrameAction::Skip));
    assert!(matches!(ws_frame_action(WsFrame::Ping, 1), FrameAction::Skip));
    assert!(matches!(ws_frame_action(WsFrame::Other, 1), FrameAction::Skip));
    assert!(matches!(ws_frame_action(WsFrame::Close, 1), FrameAction::Stop));
    assert!(matches!(ws_frame_action(WsFrame::Failed, 1), FrameAction::Stop));
}

#[test]
fn tcp_reads_are_stamped_or_end_the_connection() {
    match tcp_read_action(Ok(Message::new(10, 0, b"mv".to_vec())), 8) {
        FrameAction::Dispatch(m) => assert_eq!((m.msg_id, m.session_id, m.data), (10, 8, b"mv".to_vec())),
        _ => panic!("expected a dispatch"),
    }
    let err = std::io::Error::new(std::io::ErrorKind::InvalidData, "bad");
    assert!(matches!(tcp_read_action(Err(err), 8), FrameAction::Stop));
}

#[test]
fn connection_opens_routes_then_removes_before_close_notice() {
    let (s, a) = next_connection_step(ConnectionState::Accepted, ConnectionEvent::SessionCreated(Some(3)));
    assert_eq!(s, ConnectionState::Open(3));
    assert!(matches!(a, ConnectionAction::NotifyOpen(3)));
    let msg = Message::new(7, 3, b"hi".to_vec());
    let (s, a) = next_connection_step(s, ConnectionEvent::Read(FrameAction::Dispatch(msg)));
    assert_eq!(s, ConnectionState::Open(3));
    match a {
        ConnectionAction::Dispatch(m) => assert_eq!((m.msg_id, m.session_id, m.data), (7, 3, b"hi".to_vec())),
        _ => panic!("expected a dispatch"),
    }
    let (s, a) = next_connection_step(s, ConnectionEvent::Read(FrameAction::Skip));
    assert_eq!(s, ConnectionState::Open(3));
    assert!(matches!(a, ConnectionAction::ReadNext));
    let (s, a) = next_connection_step(s, ConnectionEvent::StreamEnded);
    assert_eq!(s, ConnectionState::Closing(3));
    assert!(matches!(a, ConnectionAction::RemoveSession(3)));
    let (s, a) = next_connection_step(s, ConnectionEvent::Read(FrameAction::Skip));
    assert_eq!(s, ConnectionState::Closing(3));
    assert!(matches!(a, ConnectionAction::Idle));
    let (s, a) = next_connection_step(s, ConnectionEvent::ActionDone);
    assert_eq!(s, ConnectionState::Done);
    assert!(matches!(a, ConnectionAction::NotifyClose(3)));
}

#[test]
fn connection_refused_when_table_full_and_stop_closes() {
    let (s, a) = next_connection_step(ConnectionState::Accepted, ConnectionEvent::SessionCreated(None));
    assert_eq!(s, ConnectionState::Done);
    assert!(matches!(a, ConnectionAction::Reject));
    let (s, a) = next_connection_step(ConnectionState::Open(9), ConnectionEvent::Read(FrameAction::Stop));
    assert_eq!(s, ConnectionState::Closing(9));
    assert!(matches!(a, ConnectionAction::RemoveSession(9)));
    let (s, a) = next_connection_step(ConnectionState::Accepted, ConnectionEvent::StreamEnded);
    assert_eq!(s, ConnectionState::Accepted);
    assert!(matches!(a, ConnectionAction::Idle));
}
