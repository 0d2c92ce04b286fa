//! Handshake, dispatcher and registry behaviour.

use wes_sfu::dispatch::{
    DispatchError, DispatchOutcome, HandshakeOutcome, TcpCommandHandler, TcpHandler,
};
use wes_sfu::server_state::ServerState;
use wes_sfu::tcp_command::{DecodeOutcome, TcpCommand};
use wes_sfu::tcp_command_id::TcpCommandId;

type Session = Option<(Vec<u8>, Vec<u8>)>;

fn connect(state: &mut ServerState, name: &str) {
    let hello = TcpCommand::Text(TcpCommandId::HelloFromClient, name.as_bytes().to_vec());
    match TcpHandler::handle_handshake(state, &hello) {
        HandshakeOutcome::Accepted(reply) => {
            assert_eq!(reply.encode().unwrap(), vec![70]);
        }
        _ => panic!("handshake refused for {}", name),
    }
}

fn run(state: &mut ServerState, name: &str, session: &mut Session, cmd: TcpCommand) -> DispatchOutcome {
    TcpCommandHandler::handle_command(state, name.as_bytes(), session, &cmd).expect("command ok")
}

#[test]
fn handshake_ok_wire_level() {
    // The client's bytes [69, 5, 'a','l','i','c','e'] get the answer [70].
    let mut state = ServerState::new();
    let wire = [69u8, 5, b'a', b'l', b'i', b'c', b'e'];
    let cmd = match TcpCommand::decode_frame(&wire) {
        DecodeOutcome::Frame(cmd, used) => {
            assert_eq!(used, wire.len());
            cmd
        }
        _ => panic!("expected a frame"),
    };
    match TcpHandler::handle_handshake(&mut state, &cmd) {
        HandshakeOutcome::Accepted(reply) => assert_eq!(reply.encode().unwrap(), vec![70]),
        _ => panic!("expected acceptance"),
    }
    assert!(state.has_user(b"alice"));
}

#[test]
fn handshake_bad_name_is_refused_with_character_message() {
    let mut state = ServerState::new();
    let hello = TcpCommand::Text(TcpCommandId::HelloFromClient, b"a b".to_vec());
    match TcpHandler::handle_handshake(&mut state, &hello) {
        HandshakeOutcome::Refused(reply) => match reply {
            TcpCommand::Text(TcpCommandId::ErrorResponse, msg) => {
                assert_eq!(
                    String::from_utf8(msg).unwrap(),
                    "Username must contain only letters, numbers, underscores (_), or hyphens (-)."
                );
            }
            _ => panic!("expected an error response"),
        },
        _ => panic!("expected refusal"),
    }
    assert!(!state.has_user(b"a b"));
}

#[test]
fn handshake_rejects_long_empty_and_taken_names() {
    let mut state = ServerState::new();
    connect(&mut state, "alice");
    let long = TcpCommand::Text(TcpCommandId::HelloFromClient, vec![b'x'; 16]);
    assert!(matches!(
        TcpHandler::handle_handshake(&mut state, &long),
        HandshakeOutcome::Refused(_)
    ));
    let empty = TcpCommand::Text(TcpCommandId::HelloFromClient, vec![]);
    assert!(matches!(
        TcpHandler::handle_handshake(&mut state, &empty),
        HandshakeOutcome::Refused(_)
    ));
    let taken = TcpCommand::Text(TcpCommandId::HelloFromClient, b"alice".to_vec());
    match TcpHandler::handle_handshake(&mut state, &taken) {
        HandshakeOutcome::Refused(TcpCommand::Text(_, msg)) => {
            assert_eq!(String::from_utf8(msg).unwrap(), "Username is already taken.");
        }
        _ => panic!("expected refusal"),
    }
    let not_hello = TcpCommand::Simple(TcpCommandId::GetUserList);
    assert!(matches!(
        TcpHandler::handle_handshake(&mut state, &not_hello),
        HandshakeOutcome::Invalid
    ));
}

#[test]
fn create_then_list_rooms() {
    let mut state = ServerState::new();
    connect(&mut state, "alice");
    let mut session: Session = None;
    let out = run(
        &mut state,
        "alice",
        &mut session,
        TcpCommand::Text(TcpCommandId::CreateRoom, b"lobby".to_vec()),
    );
    assert_eq!(out.replies, vec![TcpCommand::Simple(TcpCommandId::CreateRoomSuccess)]);
    assert!(out.notices.is_empty());

    let out = run(&mut state, "alice", &mut session, TcpCommand::Simple(TcpCommandId::GetRoomList));
    assert_eq!(
        out.replies,
        vec![TcpCommand::TextList(TcpCommandId::RoomList, vec![b"lobby".to_vec()])]
    );
}

#[test]
fn create_room_validation_errors() {
    let mut state = ServerState::new();
    connect(&mut state, "alice");
    let mut session: Session = None;
    let cases: Vec<(&[u8], &str)> = vec![
        (b"   ", "Room name cannot be empty"),
        (b"abcdefghijklmnop", "Room name must be less than or equal to 15 characters."),
        (
            b"bad name",
            "Room name must contain only letters, numbers, underscores (_), or hyphens (-).",
        ),
    ];
    for (name, expected) in cases {
        let out = run(
            &mut state,
            "alice",
            &mut session,
            TcpCommand::Text(TcpCommandId::CreateRoom, name.to_vec()),
        );
        match &out.replies[0] {
            TcpCommand::Text(TcpCommandId::ErrorResponse, msg) => {
                assert_eq!(String::from_utf8(msg.clone()).unwrap(), expected);
            }
            other => panic!("expected an error, got {:?}", other),
        }
    }
    // Duplicate names are refused.
    run(
        &mut state,
        "alice",
        &mut session,
        TcpCommand::Text(TcpCommandId::CreateRoom, b"lobby".to_vec()),
    );
    let out = run(
        &mut state,
        "alice",
        &mut session,
        TcpCommand::Text(TcpCommandId::CreateRoom, b"lobby".to_vec()),
    );
    match &out.replies[0] {
        TcpCommand::Text(TcpCommandId::ErrorResponse, msg) => {
            assert_eq!(String::from_utf8(msg.clone()).unwrap(), "Room 'lobby' already exists");
        }
        other => panic!("expected an error, got {:?}", other),
    }
}

#[test]
fn user_list_reports_connection_order() {
    let mut state = ServerState::new();
    connect(&mut state, "alice");
    connect(&mut state, "bob");
    let mut session: Session = None;
    let out = run(&mut state, "alice", &mut session, TcpCommand::Simple(TcpCommandId::GetUserList));
    assert_eq!(
        out.replies,
        vec![TcpCommand::TextList(
            TcpCommandId::UserList,
            vec![b"alice".to_vec(), b"bob".to_vec()]
        )]
    );
}

#[test]
fn delete_room_occupancy_boundary() {
    // A room with exactly one member cannot go; an empty one can.
    let mut state = ServerState::new();
    connect(&mut state, "alice");
    let mut session: Session = None;
    run(
        &mut state,
        "alice",
        &mut session,
        TcpCommand::Text(TcpCommandId::CreateRoom, b"lobby".to_vec()),
    );
    run(
        &mut state,
        "alice",
        &mut session,
        TcpCommand::Text(TcpCommandId::JoinRoom, b"lobby".to_vec()),
    );
    let out = run(
        &mut state,
        "alice",
        &mut session,
        TcpCommand::Text(TcpCommandId::DeleteRoom, b"lobby".to_vec()),
    );
    match &out.replies[0] {
        TcpCommand::Text(TcpCommandId::ErrorResponse, msg) => {
            assert_eq!(
                String::from_utf8(msg.clone()).unwrap(),
                "Room 'lobby' cannot be deleted because it still has 1 active user(s)."
            );
        }
        other => panic!("expected an error, got {:?}", other),
    }
    // After the member leaves, deletion succeeds.
    run(&mut state, "alice", &mut session, TcpCommand::Simple(TcpCommandId::LeaveRoom));
    let out = run(
        &mut state,
        "alice",
        &mut session,
        TcpCommand::Text(TcpCommandId::DeleteRoom, b"lobby".to_vec()),
    );
    assert_eq!(out.replies, vec![TcpCommand::Simple(TcpCommandId::DeleteRoomSuccess)]);
}

#[test]
fn delete_unknown_room() {
    let mut state = ServerState::new();
    connect(&mut state, "alice");
    let mut session: Session = None;
    let out = run(
        &mut state,
        "alice",
        &mut session,
        TcpCommand::Text(TcpCommandId::DeleteRoom, b"nowhere".to_vec()),
    );
    match &out.replies[0] {
        TcpCommand::Text(TcpCommandId::ErrorResponse, msg) => {
            assert_eq!(String::from_utf8(msg.clone()).unwrap(), "Room 'nowhere' does not exist");
        }
        other => panic!("expected an error, got {:?}", other),
    }
}

#[test]
fn two_user_join_broadcast() {
    let mut state = ServerState::new();
    connect(&mut state, "alice");
    connect(&mut state, "bob");
    let mut alice_session: Session = None;
    let mut bob_session: Session = None;
    run(
        &mut state,
        "alice",
        &mut alice_session,
        TcpCommand::Text(TcpCommandId::CreateRoom, b"lobby".to_vec()),
    );
    // Alice joins: a JoinRoomSuccess carrying RoomID and both StreamIDs.
    let out = run(
        &mut state,
        "alice",
        &mut alice_session,
        TcpCommand::Text(TcpCommandId::JoinRoom, b"lobby".to_vec()),
    );
    assert!(out.notices.is_empty());
    let (alice_vsid, alice_asid) = alice_session.clone().expect("session set");
    match &out.replies[0] {
        TcpCommand::Bytes(TcpCommandId::JoinRoomSuccess, payload) => {
            // RoomID || video StreamID || RoomID || audio StreamID.
            assert_eq!(payload.len(), 16);
            assert_eq!(&payload[4..8], alice_vsid.as_slice());
            assert_eq!(&payload[12..16], alice_asid.as_slice());
            assert_eq!(&payload[0..4], &payload[8..12]);
        }
        other => panic!("expected join success, got {:?}", other),
    }
    assert_eq!(out.replies.len(), 1);

    // Bob joins: Alice is told Bob's streams, Bob is told Alice's.
    let out = run(
        &mut state,
        "bob",
        &mut bob_session,
        TcpCommand::Text(TcpCommandId::JoinRoom, b"lobby".to_vec()),
    );
    let (bob_vsid, bob_asid) = bob_session.clone().expect("session set");
    assert_eq!(out.replies.len(), 3);
    assert!(matches!(&out.replies[0], TcpCommand::Bytes(TcpCommandId::JoinRoomSuccess, _)));
    assert_eq!(
        out.replies[1],
        TcpCommand::Bytes(TcpCommandId::OtherUserJoinedRoom, alice_vsid.clone())
    );
    assert_eq!(
        out.replies[2],
        TcpCommand::Bytes(TcpCommandId::OtherUserJoinedRoom, alice_asid.clone())
    );
    assert_eq!(out.notices.len(), 2);
    assert_eq!(out.notices[0].0, b"alice".to_vec());
    assert_eq!(
        out.notices[0].1,
        TcpCommand::Bytes(TcpCommandId::OtherUserJoinedRoom, bob_vsid.clone())
    );
    assert_eq!(out.notices[1].0, b"alice".to_vec());
    assert_eq!(
        out.notices[1].1,
        TcpCommand::Bytes(TcpCommandId::OtherUserJoinedRoom, bob_asid.clone())
    );
}

#[test]
fn join_errors() {
    let mut state = ServerState::new();
    connect(&mut state, "alice");
    let mut session: Session = None;
    let out = run(
        &mut state,
        "alice",
        &mut session,
        TcpCommand::Text(TcpCommandId::JoinRoom, b"nowhere".to_vec()),
    );
    match &out.replies[0] {
        TcpCommand::Text(TcpCommandId::ErrorResponse, msg) => {
            assert_eq!(String::from_utf8(msg.clone()).unwrap(), "Room 'nowhere' does not exist");
        }
        other => panic!("expected an error, got {:?}", other),
    }
    run(
        &mut state,
        "alice",
        &mut session,
        TcpCommand::Text(TcpCommandId::CreateRoom, b"lobby".to_vec()),
    );
    run(
        &mut state,
        "alice",
        &mut session,
        TcpCommand::Text(TcpCommandId::JoinRoom, b"lobby".to_vec()),
    );
    // A second join while in a room is refused.
    let out = run(
        &mut state,
        "alice",
        &mut session,
        TcpCommand::Text(TcpCommandId::JoinRoom, b"lobby".to_vec()),
    );
    match &out.replies[0] {
        TcpCommand::Text(TcpCommandId::ErrorResponse, msg) => {
            assert_eq!(String::from_utf8(msg.clone()).unwrap(), "Already in a room.");
        }
        other => panic!("expected an error, got {:?}", other),
    }
}

#[test]
fn leave_without_session_is_internal_error() {
    let mut state = ServerState::new();
    connect(&mut state, "alice");
    let mut session: Session = None;
    let r = TcpCommandHandler::handle_command(
        &mut state,
        b"alice",
        &mut session,
        &TcpCommand::Simple(TcpCommandId::LeaveRoom),
    );
    match r {
        Err(e) => assert_eq!(e, DispatchError::NoSession),
        Ok(_) => panic!("expected an internal error"),
    }
}

#[test]
fn leave_notifies_remaining_members() {
    let mut state = ServerState::new();
    connect(&mut state, "alice");
    connect(&mut state, "bob");
    let mut alice_session: Session = None;
    let mut bob_session: Session = None;
    run(
        &mut state,
        "alice",
        &mut alice_session,
        TcpCommand::Text(TcpCommandId::CreateRoom, b"lobby".to_vec()),
    );
    run(
        &mut state,
        "alice",
        &mut alice_session,
        TcpCommand::Text(TcpCommandId::JoinRoom, b"lobby".to_vec()),
    );
    run(
        &mut state,
        "bob",
        &mut bob_session,
        TcpCommand::Text(TcpCommandId::JoinRoom, b"lobby".to_vec()),
    );
    let (bob_vsid, bob_asid) = bob_session.clone().unwrap();
    let out = run(&mut state, "bob", &mut bob_session, TcpCommand::Simple(TcpCommandId::LeaveRoom));
    assert!(bob_session.is_none());
    assert!(out.replies.is_empty());
    assert_eq!(out.notices.len(), 2);
    assert_eq!(out.notices[0].0, b"alice".to_vec());
    assert_eq!(out.notices[0].1, TcpCommand::Bytes(TcpCommandId::OtherUserLeftRoom, bob_vsid));
    assert_eq!(out.notices[1].1, TcpCommand::Bytes(TcpCommandId::OtherUserLeftRoom, bob_asid));
    assert!(state.has_user(b"bob"));
}

#[test]
fn disconnect_scrubs_user_and_streams() {
    // After teardown no room lists the user and no table holds the
    // session's streams.
    let mut state = ServerState::new();
    connect(&mut state, "alice");
    connect(&mut state, "bob");
    let mut alice_session: Session = None;
    let mut bob_session: Session = None;
    run(
        &mut state,
        "alice",
        &mut alice_session,
        TcpCommand::Text(TcpCommandId::CreateRoom, b"lobby".to_vec()),
    );
    run(
        &mut state,
        "alice",
        &mut alice_session,
        TcpCommand::Text(TcpCommandId::JoinRoom, b"lobby".to_vec()),
    );
    run(
        &mut state,
        "bob",
        &mut bob_session,
        TcpCommand::Text(TcpCommandId::JoinRoom, b"lobby".to_vec()),
    );
    let (vsid, asid) = alice_session.clone().unwrap();
    let notices = TcpHandler::teardown(&mut state, b"alice", &alice_session);
    assert!(!state.has_user(b"alice"));
    assert!(!state.user_in_any_room(b"alice"));
    assert!(!state.has_sid(&vsid));
    assert!(!state.has_sid(&asid));
    assert!(state.has_user(b"bob"));
    assert!(state.user_in_any_room(b"bob"));
    // Bob is told both of Alice's departed streams.
    assert_eq!(notices.len(), 2);
    assert_eq!(notices[0].0, b"bob".to_vec());
    assert_eq!(notices[0].1, TcpCommand::Bytes(TcpCommandId::OtherUserLeftRoom, vsid));
    assert_eq!(notices[1].1, TcpCommand::Bytes(TcpCommandId::OtherUserLeftRoom, asid));
}

#[test]
fn unsupported_commands_get_an_error_reply() {
    let mut state = ServerState::new();
    connect(&mut state, "alice");
    let mut session: Session = None;
    let out = run(&mut state, "alice", &mut session, TcpCommand::Simple(TcpCommandId::HelloFromServer));
    match &out.replies[0] {
        TcpCommand::Text(TcpCommandId::ErrorResponse, msg) => {
            // HelloFromServer is tag 70; the reply names the refused tag.
            assert_eq!(String::from_utf8(msg.clone()).unwrap(), "Command not supported: 70");
        }
        other => panic!("expected an error, got {:?}", other),
    }
    let out = run(
        &mut state,
        "alice",
        &mut session,
        TcpCommand::Bytes(TcpCommandId::OtherUserLeftRoom, vec![1, 2, 3, 4]),
    );
    match &out.replies[0] {
        TcpCommand::Text(TcpCommandId::ErrorResponse, msg) => {
            assert_eq!(String::from_utf8(msg.clone()).unwrap(), "Command not supported: 84");
        }
        other => panic!("expected an error, got {:?}", other),
    }
}

#[test]
fn fresh_identifiers_avoid_existing_rooms() {
    let mut state = ServerState::new();
    connect(&mut state, "alice");
    let mut session: Session = None;
    run(
        &mut state,
        "alice",
        &mut session,
        TcpCommand::Text(TcpCommandId::CreateRoom, b"lobby".to_vec()),
    );
    let existing = state.rooms[0].id.clone();
    assert_eq!(existing.len(), 4);
    let fresh = wes_sfu::server_state::fresh_room_id(&state).expect("an identifier");
    assert_eq!(fresh.len(), 4);
    assert_ne!(fresh, existing);
}
