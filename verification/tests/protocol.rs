//! Control-channel frame codec behaviour.

use wes_sfu::tcp_command::{DecodeOutcome, TcpCommand};
use wes_sfu::tcp_command_id::{TcpCommandId, TcpCommandPayloadType};
use wes_sfu::precall::{PreCallInterface, UserAction};
use wes_sfu::{is_valid_name, is_valid_name_bytes};

fn roundtrip(cmd: TcpCommand) {
    let bytes = cmd.encode().expect("encodable");
    match TcpCommand::decode_frame(&bytes) {
        DecodeOutcome::Frame(decoded, used) => {
            assert_eq!(used, bytes.len());
            assert_eq!(decoded, cmd);
            let re = decoded.encode().expect("encodable");
            assert_eq!(re, bytes);
        }
        _ => panic!("expected a complete frame"),
    }
}

#[test]
fn simple_frames_roundtrip() {
    roundtrip(TcpCommand::Simple(TcpCommandId::HelloFromServer));
    roundtrip(TcpCommand::Simple(TcpCommandId::GetUserList));
    roundtrip(TcpCommand::Simple(TcpCommandId::LeaveRoom));
}

#[test]
fn text_frames_roundtrip() {
    roundtrip(TcpCommand::Text(TcpCommandId::HelloFromClient, b"alice".to_vec()));
    roundtrip(TcpCommand::Text(TcpCommandId::CreateRoom, b"lobby".to_vec()));
    roundtrip(TcpCommand::Text(TcpCommandId::ErrorResponse, b"".to_vec()));
}

#[test]
fn bytes_frames_roundtrip() {
    roundtrip(TcpCommand::Bytes(TcpCommandId::JoinRoomSuccess, vec![1, 2, 3, 4, 5, 6, 7, 8]));
    roundtrip(TcpCommand::Bytes(TcpCommandId::OtherUserLeftRoom, vec![]));
}

#[test]
fn text_list_frames_roundtrip() {
    roundtrip(TcpCommand::TextList(TcpCommandId::UserList, vec![]));
    roundtrip(TcpCommand::TextList(
        TcpCommandId::RoomList,
        vec![b"lobby".to_vec(), b"den".to_vec(), b"".to_vec()],
    ));
}

#[test]
fn payload_boundaries() {
    // Lengths 0 and 255 round-trip; 256 is rejected on encode.
    roundtrip(TcpCommand::Text(TcpCommandId::ErrorResponse, vec![]));
    roundtrip(TcpCommand::Text(TcpCommandId::ErrorResponse, vec![b'x'; 255]));
    assert!(TcpCommand::Text(TcpCommandId::ErrorResponse, vec![b'x'; 256]).encode().is_err());
    roundtrip(TcpCommand::Bytes(TcpCommandId::JoinRoomSuccess, vec![0xFF; 255]));
    assert!(TcpCommand::Bytes(TcpCommandId::JoinRoomSuccess, vec![0xFF; 256]).encode().is_err());
    assert!(
        TcpCommand::TextList(TcpCommandId::UserList, vec![vec![b'y'; 256]]).encode().is_err()
    );
}

#[test]
fn hello_wire_bytes() {
    // HelloFromClient("alice") is exactly tag 69, length 5, the name.
    let cmd = TcpCommand::Text(TcpCommandId::HelloFromClient, b"alice".to_vec());
    let bytes = cmd.encode().unwrap();
    assert_eq!(bytes, vec![69, 5, b'a', b'l', b'i', b'c', b'e']);
    // HelloFromServer is the single byte 70.
    let hello = TcpCommand::Simple(TcpCommandId::HelloFromServer);
    assert_eq!(hello.encode().unwrap(), vec![70]);
}

#[test]
fn incomplete_and_invalid_prefixes() {
    assert!(matches!(TcpCommand::decode_frame(&[]), DecodeOutcome::Incomplete));
    // A text frame cut before its payload ends.
    assert!(matches!(TcpCommand::decode_frame(&[69, 5, b'a']), DecodeOutcome::Incomplete));
    // Unmapped tag bytes break the stream.
    assert!(matches!(TcpCommand::decode_frame(&[68]), DecodeOutcome::Invalid));
    assert!(matches!(TcpCommand::decode_frame(&[85]), DecodeOutcome::Invalid));
    assert!(matches!(TcpCommand::decode_frame(&[0]), DecodeOutcome::Invalid));
}

#[test]
fn decode_leaves_trailing_bytes() {
    let mut bytes = TcpCommand::Simple(TcpCommandId::HelloFromServer).encode().unwrap();
    bytes.extend_from_slice(&[69, 1]);
    match TcpCommand::decode_frame(&bytes) {
        DecodeOutcome::Frame(cmd, used) => {
            assert_eq!(cmd, TcpCommand::Simple(TcpCommandId::HelloFromServer));
            assert_eq!(used, 1);
        }
        _ => panic!("expected a frame"),
    }
}

#[test]
fn tag_bytes_map_back() {
    let ids = [
        TcpCommandId::HelloFromClient,
        TcpCommandId::HelloFromServer,
        TcpCommandId::ErrorResponse,
        TcpCommandId::GetUserList,
        TcpCommandId::UserList,
        TcpCommandId::GetRoomList,
        TcpCommandId::RoomList,
        TcpCommandId::CreateRoom,
        TcpCommandId::CreateRoomSuccess,
        TcpCommandId::DeleteRoom,
        TcpCommandId::DeleteRoomSuccess,
        TcpCommandId::JoinRoom,
        TcpCommandId::JoinRoomSuccess,
        TcpCommandId::LeaveRoom,
        TcpCommandId::OtherUserJoinedRoom,
        TcpCommandId::OtherUserLeftRoom,
    ];
    for (i, id) in ids.iter().enumerate() {
        assert_eq!(id.to_byte(), 69 + i as u8);
        assert_eq!(TcpCommandId::from_byte(69 + i as u8), Some(*id));
    }
    assert_eq!(TcpCommandId::from_byte(68), None);
    assert_eq!(TcpCommandId::from_byte(85), None);
}

#[test]
fn payload_types_match_catalog() {
    assert_eq!(TcpCommandId::HelloFromServer.get_payload_type(), TcpCommandPayloadType::Simple);
    assert_eq!(TcpCommandId::HelloFromClient.get_payload_type(), TcpCommandPayloadType::Text);
    assert_eq!(TcpCommandId::UserList.get_payload_type(), TcpCommandPayloadType::TextList);
    assert_eq!(TcpCommandId::JoinRoomSuccess.get_payload_type(), TcpCommandPayloadType::Bytes);
    assert_eq!(TcpCommandId::CreateRoom.get_payload_type(), TcpCommandPayloadType::Text);
    assert_eq!(TcpCommandId::OtherUserLeftRoom.get_payload_type(), TcpCommandPayloadType::Bytes);
}

#[test]
fn name_character_class() {
    assert!(is_valid_name("alice"));
    assert!(is_valid_name("A1_-z"));
    assert!(!is_valid_name("a b"));
    assert!(!is_valid_name("nope!"));
    assert!(is_valid_name(""));
    assert!(is_valid_name_bytes(b"bob-2"));
    assert!(!is_valid_name_bytes(b"caf\xc3\xa9"));
}

#[test]
fn prompt_lines_parse() {
    assert!(matches!(PreCallInterface::parse_command(b""), UserAction::Empty));
    assert!(matches!(PreCallInterface::parse_command(b"exit"), UserAction::Exit));
    assert!(matches!(PreCallInterface::parse_command(b"HELP"), UserAction::Help));
    assert!(matches!(PreCallInterface::parse_command(b"list users"), UserAction::ListUsers));
    assert!(matches!(PreCallInterface::parse_command(b"List Rooms"), UserAction::ListRooms));
    assert!(matches!(PreCallInterface::parse_command(b"list cameras"), UserAction::ListCameras));
    match PreCallInterface::parse_command(b"create room Lobby") {
        UserAction::CreateRoom(name) => assert_eq!(name, b"Lobby".to_vec()),
        _ => panic!("expected a create action"),
    }
    match PreCallInterface::parse_command(b"JOIN ROOM den") {
        UserAction::JoinRoom(name) => assert_eq!(name, b"den".to_vec()),
        _ => panic!("expected a join action"),
    }
    match PreCallInterface::parse_command(b"delete room den") {
        UserAction::DeleteRoom(name) => assert_eq!(name, b"den".to_vec()),
        _ => panic!("expected a delete action"),
    }
    match PreCallInterface::parse_command(b"switch camera 2") {
        UserAction::SwitchCamera(name) => assert_eq!(name, b"2".to_vec()),
        _ => panic!("expected a switch action"),
    }
    // Wrong shapes print the usage; extra tokens too.
    assert!(matches!(PreCallInterface::parse_command(b"create room"), UserAction::CreateRoomUsage));
    assert!(matches!(
        PreCallInterface::parse_command(b"create room a b"),
        UserAction::CreateRoomUsage
    ));
    assert!(matches!(PreCallInterface::parse_command(b"dance"), UserAction::Unknown));
    // "exit" matches case-sensitively, as the prompt loop read it.
    assert!(matches!(PreCallInterface::parse_command(b"EXIT"), UserAction::Unknown));
}

#[test]
fn non_utf8_text_bodies_are_fatal() {
    // A text frame whose body is not valid UTF-8 is malformed, like an
    // unmapped tag; a raw-bytes frame carries the same bytes fine.
    assert!(matches!(
        TcpCommand::decode_frame(&[71, 2, 0xC3, 0x28]),
        DecodeOutcome::Invalid
    ));
    // HelloFromClient with a lone continuation byte.
    assert!(matches!(TcpCommand::decode_frame(&[69, 1, 0x80]), DecodeOutcome::Invalid));
    // A UserList whose second entry is malformed.
    assert!(matches!(
        TcpCommand::decode_frame(&[73, 2, 1, b'a', 1, 0xFF]),
        DecodeOutcome::Invalid
    ));
    // The same bytes in a Bytes frame are opaque and decode.
    assert!(matches!(
        TcpCommand::decode_frame(&[81, 2, 0xC3, 0x28]),
        DecodeOutcome::Frame(_, 4)
    ));
    // A multi-byte, well-formed text round-trips.
    roundtrip(TcpCommand::Text(
        TcpCommandId::ErrorResponse,
        "caf\u{e9} \u{2713} \u{1f600}".as_bytes().to_vec(),
    ));
}

#[test]
fn utf8_validator_agrees_with_std() {
    let cases: Vec<Vec<u8>> = vec![
        vec![],
        b"plain ascii".to_vec(),
        "caf\u{e9}".as_bytes().to_vec(),
        "\u{7ff}\u{800}\u{ffff}\u{10000}\u{10ffff}".as_bytes().to_vec(),
        vec![0x80],                    // bare continuation
        vec![0xC3, 0x28],              // bad continuation
        vec![0xC0, 0xAF],              // overlong two-byte
        vec![0xE0, 0x80, 0xAF],        // overlong three-byte
        vec![0xED, 0xA0, 0x80],        // surrogate
        vec![0xF4, 0x90, 0x80, 0x80],  // beyond U+10FFFF
        vec![0xF8, 0x88, 0x80, 0x80],  // five-byte form
        vec![0xE2, 0x9C],              // truncated
        vec![0xF0, 0x9F, 0x98],        // truncated
        vec![0x7F, 0xDF, 0xBF, 0xEF, 0xBF, 0xBF],
    ];
    for case in cases {
        assert_eq!(
            wes_sfu::byteops::is_valid_utf8(&case),
            std::str::from_utf8(&case).is_ok(),
            "case {:?}",
            case
        );
    }
}
