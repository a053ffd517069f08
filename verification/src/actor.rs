//! Actors: the units of business logic. An actor owns a queue of messages;
//! other parts of the server reach it through an `ActorRef`.
use crate::message::{Message, SessionId};
use crate::runtime::{clone_sender, mpsc_channel, receiver_bound, sender_bound};
use tokio::sync::{mpsc, oneshot};
use vstd::prelude::*;

verus! {

/// What an actor is created with: its name and the capacity of its queue.
#[derive(Debug)]
pub struct ActorConfig {
    pub name: String,
    pub channel_size: usize,
}

impl Clone for ActorConfig {
    fn clone(&self) -> (c: ActorConfig)
        ensures
            c == *self,
    {
        ActorConfig { name: self.name.clone(), channel_size: self.channel_size }
    }
}

impl Default for ActorConfig {
    /// An actor named "unnamed" with a queue of 4096 messages.
    fn default() -> (c: ActorConfig)
        ensures
            c.name@ == "unnamed"@,
            c.channel_size == 4096,
    {
        ActorConfig { name: "unnamed".to_owned(), channel_size: 4096 }
    }
}

/// What an actor's queue carries.
#[derive(Debug)]
pub enum ActorMessage {
    /// A request whose reply goes back through `reply_tx`.
    Call { msg: Message, reply_tx: oneshot::Sender<Message> },
    /// A message that needs no reply.
    Notify(Message),
    /// A timer of the actor fired.
    TimerTick { timer_id: u64 },
    /// A client connected.
    NewSession(SessionId),
    /// A client disconnected.
    CloseSession(SessionId),
    /// The actor is to stop.
    Stop,
}

/// A handle to an actor: its name and the sending end of its queue.
pub struct ActorRef {
    pub name: String,
    pub tx: mpsc::Sender<ActorMessage>,
}

impl Clone for ActorRef {
    /// Another handle to the same actor.
    fn clone(&self) -> (r: ActorRef)
        ensures
            r == *self,
    {
        ActorRef { name: self.name.clone(), tx: clone_sender(&self.tx) }
    }
}

/// Opens the queue of the actor that `config` describes: the handle through
/// which others reach it, named after it, and the end it reads from, both
/// made for a queue of `config.channel_size` messages.
pub fn actor_channel(config: &ActorConfig) -> (r: (ActorRef, mpsc::Receiver<ActorMessage>))
    requires
        0 < config.channel_size <= usize::MAX / 8,
    ensures
        r.0.name@ == config.name@,
        sender_bound(r.0.tx) == config.channel_size,
        receiver_bound(r.1) == config.channel_size,
{
    let (tx, rx) = mpsc_channel(config.channel_size);
    (ActorRef { name: config.name.clone(), tx }, rx)
}

/// What an actor does with a message from its queue: which handler method
/// gets it, with what, or that the actor stops.
pub enum ActorAction {
    /// Hand `msg` to the handler's `on_call`; its answer, if any, goes back
    /// through `reply_tx`.
    Call { msg: Message, reply_tx: oneshot::Sender<Message> },
    /// Hand the message to `on_message`.
    Deliver(Message),
    /// Tell `on_timer` that the timer fired.
    Timer(u64),
    /// Tell `on_session_open` that the session opened.
    SessionOpen(SessionId),
    /// Tell `on_session_close` that the session closed.
    SessionClose(SessionId),
    /// Stop reading the queue.
    Stop,
}

/// The action an actor takes on `msg`: each kind of message goes to its
/// handler method with its payload, and `Stop` stops the actor.
pub open spec fn action_of(msg: ActorMessage) -> ActorAction {
    match msg {
        ActorMessage::Call { msg, reply_tx } => ActorAction::Call { msg, reply_tx },
        ActorMessage::Notify(m) => ActorAction::Deliver(m),
        ActorMessage::TimerTick { timer_id } => ActorAction::Timer(timer_id),
        ActorMessage::NewSession(s) => ActorAction::SessionOpen(s),
        ActorMessage::CloseSession(s) => ActorAction::SessionClose(s),
        ActorMessage::Stop => ActorAction::Stop,
    }
}

/// What the actor does with the message it just took off its queue.
pub fn actor_step(msg: ActorMessage) -> (a: ActorAction)
    ensures
        a == action_of(msg),
{
    match msg {
        ActorMessage::Call { msg, reply_tx } => ActorAction::Call { msg, reply_tx },
        ActorMessage::Notify(m) => ActorAction::Deliver(m),
        ActorMessage::TimerTick { timer_id } => ActorAction::Timer(timer_id),
        ActorMessage::NewSession(s) => ActorAction::SessionOpen(s),
        ActorMessage::CloseSession(s) => ActorAction::SessionClose(s),
        ActorMessage::Stop => ActorAction::Stop,
    }
}

/// What goes back to the caller of a call once the handler has answered:
/// the handler's reply when it gave one, and nothing (the caller sees the
/// reply channel closed) when it gave none.
pub fn reply_to_send(answer: Option<Message>) -> (reply: Option<Message>)
    ensures
        reply == answer,
{
    match answer {
        Some(m) => Some(m),
        None => None,
    }
}

/// Where the first `Stop` stands in `msgs`; the length of `msgs` when there
/// is none.
pub open spec fn stop_index(msgs: Seq<ActorMessage>) -> nat
    decreases msgs.len(),
{
    if msgs.len() == 0 || msgs[0] is Stop {
        0
    } else {
        1 + stop_index(msgs.drop_first())
    }
}

/// The actions an actor takes when its queue delivers `msgs` in order: one
/// per message, up to and including the first `Stop`, after which it reads
/// no more.
pub open spec fn actions_taken(msgs: Seq<ActorMessage>) -> Seq<ActorAction>
    decreases msgs.len(),
{
    if msgs.len() == 0 {
        Seq::empty()
    } else if msgs[0] is Stop {
        seq![ActorAction::Stop]
    } else {
        seq![action_of(msgs[0])] + actions_taken(msgs.drop_first())
    }
}

/// An actor handles its queue message by message until `Stop`: each
/// message before the first `Stop` gets exactly its own action (none of
/// them a stop), the first `Stop` stops the actor, and no message queued
/// behind it is handled.
pub proof fn law_actor_handles_until_stop(msgs: Seq<ActorMessage>)
    ensures
        stop_index(msgs) <= msgs.len(),
        forall|i: int| 0 <= i < stop_index(msgs) ==> !(#[trigger] msgs[i] is Stop),
        forall|i: int|
            0 <= i < stop_index(msgs) ==> #[trigger] actions_taken(msgs)[i] == action_of(msgs[i])
                && !(actions_taken(msgs)[i] is Stop),
        stop_index(msgs) < msgs.len() ==> {
            &&& msgs[stop_index(msgs) as int] is Stop
            &&& actions_taken(msgs).len() == stop_index(msgs) + 1
            &&& actions_taken(msgs)[stop_index(msgs) as int] is Stop
        },
        stop_index(msgs) == msgs.len() ==> actions_taken(msgs).len() == msgs.len(),
    decreases msgs.len(),
{
    if msgs.len() > 0 && !(msgs[0] is Stop) {
        let tail = msgs.drop_first();
        law_actor_handles_until_stop(tail);
        let acts = actions_taken(msgs);
        assert(acts == seq![action_of(msgs[0])] + actions_taken(tail));
        assert forall|i: int| 0 <= i < stop_index(msgs) implies !(#[trigger] msgs[i] is Stop) by {
            if i > 0 {
                assert(msgs[i] == tail[i - 1]);
            }
        }
        assert forall|i: int|
            0 <= i < stop_index(msgs) implies #[trigger] actions_taken(msgs)[i] == action_of(msgs[i])
                && !(actions_taken(msgs)[i] is Stop) by {
            if i > 0 {
                assert(msgs[i] == tail[i - 1]);
                assert(acts[i] == actions_taken(tail)[i - 1]);
            }
        }
        if stop_index(msgs) < msgs.len() {
            assert(msgs[stop_index(msgs) as int] == tail[stop_index(tail) as int]);
            assert(acts[stop_index(msgs) as int] == actions_taken(tail)[stop_index(tail) as int]);
        }
    }
}

} // verus!
