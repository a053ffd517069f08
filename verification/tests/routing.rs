use shell::actor::{
    actor_channel, actor_step, reply_to_send, ActorAction, ActorConfig, ActorMessage, ActorRef,
};
use shell::Message;
use shell::router::Router;
use shell::ShellError;

fn actor(name: &str) -> (ActorRef, tokio::sync::mpsc::Receiver<ActorMessage>) {
    let cfg = ActorConfig { name: name.to_string(), channel_size: 8 };
    actor_channel(&cfg)
}

#[test]
fn actor_config_default() {
    let c = ActorConfig::default();
    assert_eq!(c.name, "unnamed");
    assert_eq!(c.channel_size, 4096);
    let d = c.clone();
    assert_eq!((d.name, d.channel_size), ("unnamed".to_string(), 4096));
}

#[test]
fn actor_channel_names_the_handle_and_delivers() {
    let (a, mut rx) = actor("chat");
    assert_eq!(a.name, "chat");
    let b = a.clone();
    assert_eq!(b.name, "chat");
    b.tx.try_send(ActorMessage::TimerTick { timer_id: 3 }).unwrap();
    match rx.try_recv() {
        Ok(ActorMessage::TimerTick { timer_id }) => assert_eq!(timer_id, 3),
        _ => panic!("expected the tick through the cloned handle"),
    }
}

#[test]
fn actor_channel_has_the_configured_capacity() {
    let cfg = ActorConfig { name: "q".to_string(), channel_size: 5 };
    let (a, rx) = actor_channel(&cfg);
    assert_eq!(a.tx.max_capacity(), 5);
    assert_eq!(rx.max_capacity(), 5);
    assert_eq!(a.clone().tx.max_capacity(), 5);
}

#[test]
fn routes_lead_to_registered_actors() {
    let mut r = Router::new();
    let (chat, _c) = actor("chat");
    let (game, _g) = actor("game");
    r.register_actor(chat.clone());
    r.register_actor(game.clone());
    r.register_msg_route(1, chat.clone());
    r.register_msg_routes(&[10, 20], &game);
    assert_eq!(r.route_by_msg_id(1).unwrap().name, "chat");
    assert_eq!(r.route_by_msg_id(10).unwrap().name, "game");
    assert_eq!(r.route_by_msg_id(20).unwrap().name, "game");
    assert_eq!(r.actor_count(), 2);
}

#[test]
fn unrouted_id_is_an_actor_not_found_error() {
    let r = Router::default();
    match r.route_by_msg_id(7) {
        Err(ShellError::ActorNotFound(text)) => assert_eq!(text, "msg_id=7"),
        _ => panic!("expected ActorNotFound"),
    }
    match r.route_by_msg_id(65535) {
        Err(ShellError::ActorNotFound(text)) => assert_eq!(text, "msg_id=65535"),
        _ => panic!("expected ActorNotFound"),
    }
}

#[test]
fn actors_are_found_by_name() {
    let mut r = Router::new();
    let (game, _g) = actor("game");
    r.register_actor(game);
    assert_eq!(r.get_actor("game").unwrap().name, "game");
    match r.get_actor("missing") {
        Err(ShellError::ActorNotFound(text)) => assert_eq!(text, "missing"),
        _ => panic!("expected ActorNotFound"),
    }
}

#[test]
fn later_registration_replaces_earlier() {
    let mut r = Router::new();
    let (a, _ra) = actor("a");
    let (b, _rb) = actor("b");
    r.register_msg_route(5, a.clone());
    r.register_msg_route(5, b.clone());
    assert_eq!(r.route_by_msg_id(5).unwrap().name, "b");
    let (a2, mut ra2) = actor("a");
    r.register_actor(a);
    r.register_actor(a2);
    assert_eq!(r.actor_count(), 1);
    r.get_actor("a").unwrap().tx.try_send(ActorMessage::Stop).unwrap();
    assert!(matches!(ra2.try_recv(), Ok(ActorMessage::Stop)));
}

#[test]
fn actor_refs_lists_each_actor_once() {
    let mut r = Router::new();
    let (a, _ra) = actor("a");
    let (b, _rb) = actor("b");
    r.register_actor(a);
    r.register_actor(b);
    let mut names: Vec<String> = r.actor_refs().into_iter().map(|x| x.name).collect();
    names.sort();
    assert_eq!(names, vec!["a".to_string(), "b".to_string()]);
}

#[test]
fn actor_step_picks_the_handler_method() {
    let m = Message::new(3, 4, b"go".to_vec());
    match actor_step(ActorMessage::Notify(m)) {
        ActorAction::Deliver(d) => assert_eq!((d.msg_id, d.session_id, d.data), (3, 4, b"go".to_vec())),
        _ => panic!("expected a delivery"),
    }
    assert!(matches!(actor_step(ActorMessage::TimerTick { timer_id: 9 }), ActorAction::Timer(9)));
    assert!(matches!(actor_step(ActorMessage::NewSession(5)), ActorAction::SessionOpen(5)));
    assert!(matches!(actor_step(ActorMessage::CloseSession(6)), ActorAction::SessionClose(6)));
    assert!(matches!(actor_step(ActorMessage::Stop), ActorAction::Stop));
    let (reply_tx, mut reply_rx) = tokio::sync::oneshot::channel();
    match actor_step(ActorMessage::Call { msg: Message::new(1, 2, b"q".to_vec()), reply_tx }) {
        ActorAction::Call { msg, reply_tx } => {
            assert_eq!((msg.msg_id, msg.session_id), (1, 2));
            reply_tx.send(Message::new(1, 2, b"a".to_vec())).unwrap();
            assert_eq!(reply_rx.try_recv().unwrap().data, b"a".to_vec());
        }
        _ => panic!("expected a call"),
    }
}

#[test]
fn actor_handles_queue_until_stop() {
    let msgs = vec![
        ActorMessage::TimerTick { timer_id: 1 },
        ActorMessage::NewSession(2),
        ActorMessage::Stop,
        ActorMessage::TimerTick { timer_id: 3 },
    ];
    let mut handled = Vec::new();
    for m in msgs {
        match actor_step(m) {
            ActorAction::Stop => break,
            ActorAction::Timer(id) => handled.push(id),
            ActorAction::SessionOpen(s) => handled.push(100 + s),
            _ => panic!("unexpected action"),
        }
    }
    assert_eq!(handled, vec![1, 102]);
}

#[test]
fn reply_is_sent_only_when_the_handler_answers() {
    assert!(reply_to_send(None).is_none());
    let r = reply_to_send(Some(Message::new(8, 9, b"ok".to_vec()))).unwrap();
    assert_eq!((r.msg_id, r.session_id, r.data), (8, 9, b"ok".to_vec()));
}
