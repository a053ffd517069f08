//! What a gateway connection does with what it reads: every message that
//! arrives is stamped with the connection's session id before it is routed.
use crate::buffers::bytes_mut_from_slice;
use crate::message::{decoded, Message, SessionId};
use vstd::prelude::*;

verus! {

/// A frame read from a WebSocket connection, as far as the gateway tells
/// frames apart.
pub enum WsFrame {
    /// A binary frame, which carries one encoded message.
    Binary(Vec<u8>),
    Text,
    Ping,
    Close,
    /// Any other frame (pong, raw frame).
    Other,
    /// Reading the next frame failed.
    Failed,
}

/// What the connection does next.
pub enum FrameAction {
    /// Route this message.
    Dispatch(Message),
    /// Nothing; read on.
    Skip,
    /// Close the connection.
    Stop,
}

/// `msg` as coming from the session `session_id`: the server fills in the
/// session id on receipt, whatever the client wrote there.
pub fn stamp_session(msg: Message, session_id: SessionId) -> (m: Message)
    ensures
        m.msg_id == msg.msg_id,
        m.session_id == session_id,
        m.data == msg.data,
{
    Message { session_id, ..msg }
}

/// What a WebSocket connection of session `session_id` does with a frame:
/// a binary frame holding a whole message is dispatched, stamped with the
/// session id; a close frame or a read failure ends the connection;
/// anything else (text, ping, a binary frame that does not decode) is
/// skipped.
pub fn ws_frame_action(frame: WsFrame, session_id: SessionId) -> (a: FrameAction)
    ensures
        match frame {
            WsFrame::Binary(d) => match decoded(d@) {
                Some((id, _, data)) => a matches FrameAction::Dispatch(m) && m.msg_id == id
                    && m.session_id == session_id && m.data@ == data,
                None => a is Skip,
            },
            WsFrame::Close => a is Stop,
            WsFrame::Failed => a is Stop,
            _ => a is Skip,
        },
{
    match frame {
        WsFrame::Binary(data) => {
            let mut buf = bytes_mut_from_slice(data.as_slice());
            match Message::decode(&mut buf) {
                Some(msg) => FrameAction::Dispatch(stamp_session(msg, session_id)),
                None => FrameAction::Skip,
            }
        },
        WsFrame::Close => FrameAction::Stop,
        WsFrame::Failed => FrameAction::Stop,
        _ => FrameAction::Skip,
    }
}

/// What a TCP connection of session `session_id` does with the codec's
/// next result: a message is dispatched, stamped with the session id; a
/// read error ends the connection.
pub fn tcp_read_action(read: Result<Message, std::io::Error>, session_id: SessionId) -> (a:
    FrameAction)
    ensures
        match read {
            Ok(msg) => a matches FrameAction::Dispatch(m) && m.msg_id == msg.msg_id
                && m.session_id == session_id && m.data == msg.data,
            Err(_) => a is Stop,
        },
{
    match read {
        Ok(msg) => FrameAction::Dispatch(stamp_session(msg, session_id)),
        Err(_) => FrameAction::Stop,
    }
}

/// Where a gateway connection stands in its life.
#[derive(Debug, Clone, Copy, PartialEq, Eq, Structural)]
pub enum ConnectionState {
    /// Accepted; no session yet.
    Accepted,
    /// Its session is open: frames are read and routed.
    Open(SessionId),
    /// Reading has ended; the session is being taken out of the table.
    Closing(SessionId),
    /// Nothing more to do.
    Done,
}

/// What the connection's task learns.
pub enum ConnectionEvent {
    /// The session table's answer: the new session's id, or `None` when
    /// the table is full.
    SessionCreated(Option<SessionId>),
    /// What the frame just read calls for (`ws_frame_action`,
    /// `tcp_read_action`).
    Read(FrameAction),
    /// The stream has no more frames.
    StreamEnded,
    /// The last action has been carried out.
    ActionDone,
}

/// What the connection's task does next.
pub enum ConnectionAction {
    /// Drop the connection: the table is full.
    Reject,
    /// Tell the actors that the session opened, then read.
    NotifyOpen(SessionId),
    /// Route the message, then read.
    Dispatch(Message),
    /// Read the next frame.
    ReadNext,
    /// Take the session out of the table.
    RemoveSession(SessionId),
    /// Tell the actors that the session closed; the connection is over.
    NotifyClose(SessionId),
    /// Nothing.
    Idle,
}

/// The life of a connection, one event at a time: a session is opened or
/// the connection refused; while open, each frame is routed or skipped
/// until reading stops; then the session leaves the table, and only after
/// that are the actors told it closed. An event that does not fit the
/// state changes nothing.
pub open spec fn connection_step(state: ConnectionState, event: ConnectionEvent) -> (
    ConnectionState,
    ConnectionAction,
) {
    match (state, event) {
        (ConnectionState::Accepted, ConnectionEvent::SessionCreated(None)) => (
            ConnectionState::Done,
            ConnectionAction::Reject,
        ),
        (ConnectionState::Accepted, ConnectionEvent::SessionCreated(Some(id))) => (
            ConnectionState::Open(id),
            ConnectionAction::NotifyOpen(id),
        ),
        (ConnectionState::Open(id), ConnectionEvent::Read(FrameAction::Dispatch(m))) => (
            ConnectionState::Open(id),
            ConnectionAction::Dispatch(m),
        ),
        (ConnectionState::Open(id), ConnectionEvent::Read(FrameAction::Stop)) => (
            ConnectionState::Closing(id),
            ConnectionAction::RemoveSession(id),
        ),
        (ConnectionState::Open(id), ConnectionEvent::StreamEnded) => (
            ConnectionState::Closing(id),
            ConnectionAction::RemoveSession(id),
        ),
        (ConnectionState::Open(id), _) => (ConnectionState::Open(id), ConnectionAction::ReadNext),
        (ConnectionState::Closing(id), ConnectionEvent::ActionDone) => (
            ConnectionState::Done,
            ConnectionAction::NotifyClose(id),
        ),
        (s, _) => (s, ConnectionAction::Idle),
    }
}

/// The next state and action of a connection in `state` on `event`; see
/// `connection_step`.
pub fn next_connection_step(state: ConnectionState, event: ConnectionEvent) -> (r: (
    ConnectionState,
    ConnectionAction,
))
    ensures
        r == connection_step(state, event),
{
    match (state, event) {
        (ConnectionState::Accepted, ConnectionEvent::SessionCreated(None)) => (
            ConnectionState::Done,
            ConnectionAction::Reject,
        ),
        (ConnectionState::Accepted, ConnectionEvent::SessionCreated(Some(id))) => (
            ConnectionState::Open(id),
            ConnectionAction::NotifyOpen(id),
        ),
        (ConnectionState::Open(id), ConnectionEvent::Read(FrameAction::Dispatch(m))) => (
            ConnectionState::Open(id),
            ConnectionAction::Dispatch(m),
        ),
        (ConnectionState::Open(id), ConnectionEvent::Read(FrameAction::Stop)) => (
            ConnectionState::Closing(id),
            ConnectionAction::RemoveSession(id),
        ),
        (ConnectionState::Open(id), ConnectionEvent::StreamEnded) => (
            ConnectionState::Closing(id),
            ConnectionAction::RemoveSession(id),
        ),
        (ConnectionState::Open(id), _) => (ConnectionState::Open(id), ConnectionAction::ReadNext),
        (ConnectionState::Closing(id), ConnectionEvent::ActionDone) => (
            ConnectionState::Done,
            ConnectionAction::NotifyClose(id),
        ),
        (s, _) => (s, ConnectionAction::Idle),
    }
}

/// The state of a connection that started in `start` after the first `k`
/// of the events.
pub open spec fn state_after(start: ConnectionState, events: Seq<ConnectionEvent>, k: nat) -> ConnectionState
    decreases k,
{
    if k == 0 {
        start
    } else {
        connection_step(state_after(start, events, (k - 1) as nat), events[k - 1]).0
    }
}

/// The action a connection that started in `start` takes on the `k`-th of
/// the events.
pub open spec fn action_at(start: ConnectionState, events: Seq<ConnectionEvent>, k: nat) -> ConnectionAction {
    connection_step(state_after(start, events, k), events[k as int]).1
}

/// What the actions on the first `k` events tell of the state they lead to.
proof fn lemma_connection_history(events: Seq<ConnectionEvent>, k: nat)
    requires
        k <= events.len(),
    ensures
        match state_after(ConnectionState::Accepted, events, k) {
            ConnectionState::Accepted => forall|j: nat| j < k ==> !(#[trigger] action_at(
                ConnectionState::Accepted,
                events,
                j,
            ) is NotifyOpen),
            ConnectionState::Open(id) => exists|j: nat|
                j < k && #[trigger] action_at(ConnectionState::Accepted, events, j)
                    == ConnectionAction::NotifyOpen(id),
            ConnectionState::Closing(id) => {
                &&& exists|j: nat|
                    j < k && #[trigger] action_at(ConnectionState::Accepted, events, j)
                        == ConnectionAction::NotifyOpen(id)
                &&& exists|j: nat|
                    j < k && #[trigger] action_at(ConnectionState::Accepted, events, j)
                        == ConnectionAction::RemoveSession(id)
            },
            ConnectionState::Done => true,
        },
        forall|j: nat|
            j < k && (#[trigger] action_at(ConnectionState::Accepted, events, j)) is RemoveSession
                ==> state_after(ConnectionState::Accepted, events, k) is Closing || state_after(
                ConnectionState::Accepted,
                events,
                k,
            ) is Done,
    decreases k,
{
    if k > 0 {
        let p = (k - 1) as nat;
        lemma_connection_history(events, p);
        let st = state_after(ConnectionState::Accepted, events, p);
        let a = action_at(ConnectionState::Accepted, events, p);
        assert(state_after(ConnectionState::Accepted, events, k) == connection_step(st, events[p as int]).0);
        assert(a == connection_step(st, events[p as int]).1);
    }
}

/// What the life of a connection promises, over any events it sees from
/// the moment it is accepted: a message is routed only once the actors have
/// been told its session opened, and never after the session has been
/// taken out of the table; the actors are told a session closed only once
/// it has been taken out of the table (and only if it was opened).
pub proof fn law_connection_life_cycle(events: Seq<ConnectionEvent>, k: nat)
    requires
        k < events.len(),
    ensures
        action_at(ConnectionState::Accepted, events, k) is Dispatch ==> {
            &&& exists|j: nat|
                j < k && #[trigger] action_at(ConnectionState::Accepted, events, j) is NotifyOpen
            &&& forall|j: nat|
                j < k ==> !(#[trigger] action_at(ConnectionState::Accepted, events, j) is RemoveSession)
        },
        forall|id: SessionId|
            action_at(ConnectionState::Accepted, events, k) == ConnectionAction::NotifyClose(id) ==> {
                &&& exists|j: nat|
                    j < k && #[trigger] action_at(ConnectionState::Accepted, events, j)
                        == ConnectionAction::RemoveSession(id)
                &&& exists|j: nat|
                    j < k && #[trigger] action_at(ConnectionState::Accepted, events, j)
                        == ConnectionAction::NotifyOpen(id)
            },
{
    lemma_connection_history(events, k);
    let st = state_after(ConnectionState::Accepted, events, k);
    let a = action_at(ConnectionState::Accepted, events, k);
    if a is Dispatch {
        let id = st->Open_0;
        let j = choose|j: nat|
            j < k && #[trigger] action_at(ConnectionState::Accepted, events, j)
                == ConnectionAction::NotifyOpen(id);
        assert(action_at(ConnectionState::Accepted, events, j) is NotifyOpen);
    }
}

} // verus!
