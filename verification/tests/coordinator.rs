use chat_relay::coordinator::ChatServer;
use chat_relay::coordinator::ClientMessage;
use chat_relay::coordinator::Connect;
use chat_relay::coordinator::Disconnect;
use chat_relay::coordinator::Join;
use chat_relay::coordinator::ListRooms;
use chat_relay::coordinator::Outbound;

fn texts_and_targets(obs: &[Outbound]) -> Vec<(String, Vec<u64>)> {
    obs.iter().map(|o| (o.msg.0.clone(), o.to.clone())).collect()
}

#[test]
fn new_server_has_only_main() {
    let s = ChatServer::new();
    let rooms = s.list_rooms(ListRooms);
    assert_eq!(rooms, vec!["Main".to_string()]);
}

#[test]
fn connect_ids_are_unique() {
    let mut s = ChatServer::new();
    let (id1, _) = s.connect(Connect);
    let (id2, _) = s.connect(Connect);
    let (id3, _) = s.connect(Connect);
    assert_ne!(id1, id2);
    assert_ne!(id1, id3);
    assert_ne!(id2, id3);
}

#[test]
fn first_connect_announces_to_empty_room() {
    let mut s = ChatServer::new();
    let (_, obs) = s.connect(Connect);
    let got = texts_and_targets(&obs);
    // nobody was in the default room yet, and the visitor notice skips
    // the new session itself
    assert_eq!(got[0], ("Someone joined".to_string(), vec![]));
    assert_eq!(got[1], ("Total visitors 0".to_string(), vec![]));
    assert_eq!(got.len(), 2);
}

#[test]
fn second_connect_notifies_the_first() {
    let mut s = ChatServer::new();
    let (id1, _) = s.connect(Connect);
    let (_, obs) = s.connect(Connect);
    let got = texts_and_targets(&obs);
    assert_eq!(got[0], ("Someone joined".to_string(), vec![id1]));
    assert_eq!(got[1], ("Total visitors 1".to_string(), vec![id1]));
}

#[test]
fn chat_reaches_everyone_but_the_sender() {
    let mut s = ChatServer::new();
    let (a, _) = s.connect(Connect);
    let (b, _) = s.connect(Connect);
    let (c, _) = s.connect(Connect);
    let obs = s.client_message(&ClientMessage {
        id: b,
        msg: "hello".to_string(),
        room: "Main".to_string(),
    });
    let got = texts_and_targets(&obs);
    assert_eq!(got, vec![("hello".to_string(), vec![a, c])]);
}

#[test]
fn chat_to_unknown_room_is_a_noop() {
    let mut s = ChatServer::new();
    let (a, _) = s.connect(Connect);
    let obs = s.client_message(&ClientMessage {
        id: a,
        msg: "anyone?".to_string(),
        room: "Nowhere".to_string(),
    });
    let got = texts_and_targets(&obs);
    assert_eq!(got, vec![("anyone?".to_string(), vec![])]);
}

#[test]
fn join_moves_a_session_to_exactly_one_room() {
    let mut s = ChatServer::new();
    let (a, _) = s.connect(Connect);
    let (b, _) = s.connect(Connect);
    // b leaves Main for Lobby: a is told someone left, nobody is in
    // Lobby to greet b
    let obs = s.join(Join { id: b, name: "Lobby".to_string() });
    let got = texts_and_targets(&obs);
    assert_eq!(
        got,
        vec![
            ("Someone disconnected".to_string(), vec![a]),
            ("Someone connected".to_string(), vec![]),
        ]
    );
    // a chat from a to Main no longer reaches b
    let obs = s.client_message(&ClientMessage {
        id: a,
        msg: "hi".to_string(),
        room: "Main".to_string(),
    });
    assert_eq!(texts_and_targets(&obs), vec![("hi".to_string(), vec![])]);
    // a follows into Lobby: the departure notice to the now-empty Main
    // reaches nobody, and b is greeted
    let obs = s.join(Join { id: a, name: "Lobby".to_string() });
    let got = texts_and_targets(&obs);
    assert_eq!(
        got,
        vec![
            ("Someone disconnected".to_string(), vec![]),
            ("Someone connected".to_string(), vec![b]),
        ]
    );
}

#[test]
fn rejoining_the_same_room_leaves_it_first() {
    let mut s = ChatServer::new();
    let (a, _) = s.connect(Connect);
    let (b, _) = s.connect(Connect);
    let obs = s.join(Join { id: b, name: "Main".to_string() });
    let got = texts_and_targets(&obs);
    // b vacates Main (a is told), then re-enters it (a is greeted)
    assert_eq!(
        got,
        vec![
            ("Someone disconnected".to_string(), vec![a]),
            ("Someone connected".to_string(), vec![a]),
        ]
    );
}

#[test]
fn rooms_are_never_deleted() {
    let mut s = ChatServer::new();
    let (a, _) = s.connect(Connect);
    s.join(Join { id: a, name: "Lobby".to_string() });
    s.join(Join { id: a, name: "Back".to_string() });
    let rooms = s.list_rooms(ListRooms);
    // Lobby is empty now but still listed; Main is always listed
    assert_eq!(
        rooms,
        vec!["Main".to_string(), "Lobby".to_string(), "Back".to_string()]
    );
}

#[test]
fn disconnect_removes_from_registry_and_rooms() {
    let mut s = ChatServer::new();
    let (a, _) = s.connect(Connect);
    let (b, _) = s.connect(Connect);
    let obs = s.disconnect(Disconnect { id: a });
    let got = texts_and_targets(&obs);
    assert_eq!(got, vec![("Someone disconnected".to_string(), vec![b])]);
    // later broadcasts never reach a
    let obs = s.client_message(&ClientMessage {
        id: b,
        msg: "gone?".to_string(),
        room: "Main".to_string(),
    });
    assert_eq!(texts_and_targets(&obs), vec![("gone?".to_string(), vec![])]);
    // the room itself survives
    let rooms = s.list_rooms(ListRooms);
    assert_eq!(rooms, vec!["Main".to_string()]);
}

#[test]
fn disconnect_twice_is_a_noop() {
    let mut s = ChatServer::new();
    let (a, _) = s.connect(Connect);
    let (b, _) = s.connect(Connect);
    let first = s.disconnect(Disconnect { id: a });
    assert_eq!(first.len(), 1);
    let second = s.disconnect(Disconnect { id: a });
    assert!(second.is_empty());
    // the registry still routes to b as before
    let obs = s.client_message(&ClientMessage {
        id: a,
        msg: "echo".to_string(),
        room: "Main".to_string(),
    });
    assert_eq!(texts_and_targets(&obs), vec![("echo".to_string(), vec![b])]);
}

#[test]
fn disconnect_of_unknown_id_is_a_noop() {
    let mut s = ChatServer::new();
    let (a, _) = s.connect(Connect);
    let obs = s.disconnect(Disconnect { id: a.wrapping_add(1) });
    assert!(obs.is_empty());
    let rooms = s.list_rooms(ListRooms);
    assert_eq!(rooms, vec!["Main".to_string()]);
}
