use chat_relay::coordinator::ChatServer;
use chat_relay::coordinator::ClientMessage;
use chat_relay::coordinator::Connect;
use chat_relay::coordinator::Join;
use chat_relay::coordinator::ListRooms;
use chat_relay::session::Action;
use chat_relay::session::Frame;
use chat_relay::session::Phase;
use chat_relay::session::SessionState;
use chat_relay::session::CLIENT_TIMEOUT;
use chat_relay::session::HEARTBEAT_INTERVAL;

fn active_session(id: u64) -> SessionState {
    let mut s = SessionState::new(0);
    assert!(s.on_registered(Some(id)));
    assert!(matches!(s.phase, Phase::Active));
    s
}

fn reply_text(a: &Action) -> &str {
    match a {
        Action::Reply(m) => m.0.as_str(),
        _ => panic!("expected a reply"),
    }
}

#[test]
fn join_without_argument_is_rejected_locally() {
    let mut s = active_session(7);
    let acts = s.handle_frame(Frame::Text("/join".to_string()), 0);
    assert_eq!(acts.len(), 1);
    assert_eq!(reply_text(&acts[0]), "!!! room name is required");
    // membership is unchanged: no coordinator event, room still Main
    assert_eq!(s.room, "Main");
}

#[test]
fn name_without_argument_is_rejected_locally() {
    let mut s = active_session(7);
    let acts = s.handle_frame(Frame::Text("/name".to_string()), 0);
    assert_eq!(acts.len(), 1);
    assert_eq!(reply_text(&acts[0]), "!!! name is required");
}

#[test]
fn unknown_command_is_echoed_in_quotes() {
    let mut s = active_session(7);
    let acts = s.handle_frame(Frame::Text("  /frob it  ".to_string()), 0);
    assert_eq!(acts.len(), 1);
    assert_eq!(reply_text(&acts[0]), "!!! unknown command: \"/frob it\"");
}

#[test]
fn join_with_argument_updates_room_and_confirms() {
    let mut s = active_session(7);
    let acts = s.handle_frame(Frame::Text("/join Lobby".to_string()), 0);
    assert_eq!(acts.len(), 2);
    match &acts[0] {
        Action::SendJoin(j) => {
            assert_eq!(j.id, 7);
            assert_eq!(j.name, "Lobby");
        }
        _ => panic!("expected a join event"),
    }
    assert_eq!(reply_text(&acts[1]), "joined");
    assert_eq!(s.room, "Lobby");
}

#[test]
fn chat_is_trimmed_and_tagged_with_the_room() {
    let mut s = active_session(9);
    let acts = s.handle_frame(Frame::Text("  hello there \n".to_string()), 0);
    assert_eq!(acts.len(), 1);
    match &acts[0] {
        Action::SendChat(cm) => {
            assert_eq!(cm.id, 9);
            assert_eq!(cm.msg, "hello there");
            assert_eq!(cm.room, "Main");
        }
        _ => panic!("expected a chat event"),
    }
}

#[test]
fn chat_is_prefixed_with_the_display_name() {
    let mut s = active_session(9);
    let acts = s.handle_frame(Frame::Text("/name alice".to_string()), 0);
    assert!(acts.is_empty());
    let acts = s.handle_frame(Frame::Text("hi".to_string()), 0);
    match &acts[0] {
        Action::SendChat(cm) => assert_eq!(cm.msg, "alice: hi"),
        _ => panic!("expected a chat event"),
    }
}

#[test]
fn list_command_asks_the_coordinator_and_replies_per_room() {
    let mut s = active_session(3);
    let acts = s.handle_frame(Frame::Text("/list".to_string()), 0);
    assert_eq!(acts.len(), 1);
    assert!(matches!(acts[0], Action::RequestRooms));
    let lines = s.rooms_reply(vec!["Main".to_string(), "Lobby".to_string()]);
    assert_eq!(lines.len(), 2);
    assert_eq!(reply_text(&lines[0]), "Main");
    assert_eq!(reply_text(&lines[1]), "Lobby");
}

#[test]
fn liveness_frames_update_the_heartbeat() {
    let mut s = active_session(3);
    let acts = s.handle_frame(Frame::Ping(vec![1, 2]), 42);
    assert_eq!(acts.len(), 1);
    match &acts[0] {
        Action::Pong(p) => assert_eq!(p, &vec![1, 2]),
        _ => panic!("expected a pong"),
    }
    assert_eq!(s.hb, 42);
    let acts = s.handle_frame(Frame::Pong(vec![]), 50);
    assert!(acts.is_empty());
    assert_eq!(s.hb, 50);
}

#[test]
fn heartbeat_probes_until_the_timeout_passes() {
    assert_eq!(CLIENT_TIMEOUT, 2 * HEARTBEAT_INTERVAL);
    let mut s = active_session(3);
    let acts = s.heartbeat(CLIENT_TIMEOUT);
    assert_eq!(acts.len(), 1);
    assert!(matches!(acts[0], Action::Probe));
    assert!(matches!(s.phase, Phase::Active));
}

#[test]
fn heartbeat_timeout_closes_and_notifies() {
    let mut s = active_session(3);
    let acts = s.heartbeat(CLIENT_TIMEOUT + 1);
    assert_eq!(acts.len(), 2);
    match &acts[0] {
        Action::SendDisconnect(d) => assert_eq!(d.id, 3),
        _ => panic!("expected a disconnect event"),
    }
    assert!(matches!(acts[1], Action::Stop));
    assert!(matches!(s.phase, Phase::Closing));
    // teardown after a timeout does not notify a second time
    assert!(s.on_stopping().is_none());
}

#[test]
fn disconnect_notice_is_issued_exactly_once() {
    let mut s = active_session(5);
    let first = s.on_stopping();
    match first {
        Some(d) => assert_eq!(d.id, 5),
        None => panic!("expected the one disconnect notice"),
    }
    assert!(matches!(s.phase, Phase::Closed));
    assert!(s.on_stopping().is_none());
}

#[test]
fn close_and_protocol_errors_stop_the_session() {
    let mut s = active_session(5);
    let acts = s.handle_frame(Frame::Close, 0);
    assert_eq!(acts.len(), 1);
    assert!(matches!(acts[0], Action::Stop));
    assert!(matches!(s.phase, Phase::Closing));

    let mut s = active_session(5);
    let acts = s.handle_frame(Frame::Continuation, 0);
    assert!(matches!(acts[0], Action::Stop));

    let mut s = active_session(5);
    let acts = s.handle_frame(Frame::Invalid, 0);
    assert!(matches!(acts[0], Action::Stop));

    let mut s = active_session(5);
    assert!(s.handle_frame(Frame::Binary(vec![0]), 0).is_empty());
    assert!(s.handle_frame(Frame::Nop, 0).is_empty());
    assert!(matches!(s.phase, Phase::Active));
}

#[test]
fn failed_registration_closes_the_session() {
    let mut s = SessionState::new(0);
    assert!(!s.on_registered(None));
    assert!(matches!(s.phase, Phase::Closing));
}

#[test]
fn full_chat_scenario() {
    let mut server = ChatServer::new();

    // client a connects and gets an id
    let mut a = SessionState::new(0);
    let (id_a, _) = server.connect(Connect);
    assert!(a.on_registered(Some(id_a)));

    // a lists rooms and sees at least Main
    let acts = a.handle_frame(Frame::Text("/list".to_string()), 0);
    assert!(matches!(acts[0], Action::RequestRooms));
    let rooms = server.list_rooms(ListRooms);
    assert!(rooms.contains(&"Main".to_string()));
    let lines = a.rooms_reply(rooms);
    assert!(!lines.is_empty());

    // client b is already in Lobby
    let mut b = SessionState::new(0);
    let (id_b, _) = server.connect(Connect);
    assert!(b.on_registered(Some(id_b)));
    server.join(Join { id: id_b, name: "Lobby".to_string() });
    b.handle_frame(Frame::Text("/join Lobby".to_string()), 0);

    // a joins Lobby: a sees "joined", b sees the arrival notice
    let acts = a.handle_frame(Frame::Text("/join Lobby".to_string()), 0);
    let join_evt = match &acts[0] {
        Action::SendJoin(j) => Join { id: j.id, name: j.name.clone() },
        _ => panic!("expected a join event"),
    };
    assert_eq!(reply_text(&acts[1]), "joined");
    let obs = server.join(join_evt);
    let last = obs.last().unwrap();
    assert_eq!(last.msg.0, "Someone connected");
    assert_eq!(last.to, vec![id_b]);

    // a says hello: b receives it, a does not
    let acts = a.handle_frame(Frame::Text("hello".to_string()), 0);
    let chat = match &acts[0] {
        Action::SendChat(cm) => ClientMessage {
            id: cm.id,
            msg: cm.msg.clone(),
            room: cm.room.clone(),
        },
        _ => panic!("expected a chat event"),
    };
    let obs = server.client_message(&chat);
    assert_eq!(obs.len(), 1);
    assert_eq!(obs[0].msg.0, "hello");
    assert_eq!(obs[0].to, vec![id_b]);

    // a goes silent past the timeout: its session closes and tells the
    // coordinator; b gets the departure notice for Lobby
    let acts = a.heartbeat(CLIENT_TIMEOUT + 1);
    let disc = match &acts[0] {
        Action::SendDisconnect(d) => chat_relay::coordinator::Disconnect { id: d.id },
        _ => panic!("expected a disconnect event"),
    };
    assert!(matches!(acts[1], Action::Stop));
    let obs = server.disconnect(disc);
    assert_eq!(obs.len(), 1);
    assert_eq!(obs[0].msg.0, "Someone disconnected");
    assert_eq!(obs[0].to, vec![id_b]);
}
