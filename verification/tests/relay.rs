//! Datagram relay: size gate, rate limit, lookup, learning, fan-out.

use wes_sfu::dispatch::{HandshakeOutcome, TcpCommandHandler, TcpHandler};
use wes_sfu::rate_limit::RateLimiter;
use wes_sfu::relay::{relay_packet, route_forward, PacketBatch, RelayAction, RouteAction, ServerStats};
use wes_sfu::server_state::ServerState;
use wes_sfu::tcp_command::TcpCommand;
use wes_sfu::tcp_command_id::TcpCommandId;

type Session = Option<(Vec<u8>, Vec<u8>)>;

fn connect(state: &mut ServerState, name: &str) {
    let hello = TcpCommand::Text(TcpCommandId::HelloFromClient, name.as_bytes().to_vec());
    assert!(matches!(
        TcpHandler::handle_handshake(state, &hello),
        HandshakeOutcome::Accepted(_)
    ));
}

fn join(state: &mut ServerState, name: &str, session: &mut Session, room: &[u8]) {
    TcpCommandHandler::handle_command(
        state,
        name.as_bytes(),
        session,
        &TcpCommand::Text(TcpCommandId::JoinRoom, room.to_vec()),
    )
    .expect("join ok");
    assert!(session.is_some());
}

fn room_setup() -> (ServerState, Vec<u8>, Session, Session) {
    let mut state = ServerState::new();
    connect(&mut state, "alice");
    connect(&mut state, "bob");
    let mut none: Session = None;
    TcpCommandHandler::handle_command(
        &mut state,
        b"alice",
        &mut none,
        &TcpCommand::Text(TcpCommandId::CreateRoom, b"lobby".to_vec()),
    )
    .expect("create ok");
    let rid = state.rooms[0].id.clone();
    let mut alice: Session = None;
    let mut bob: Session = None;
    join(&mut state, "alice", &mut alice, b"lobby");
    join(&mut state, "bob", &mut bob, b"lobby");
    (state, rid, alice, bob)
}

fn datagram(rid: &[u8], sid: &[u8], media: &[u8]) -> Vec<u8> {
    let mut d = rid.to_vec();
    d.extend_from_slice(sid);
    d.extend_from_slice(media);
    d
}

#[test]
fn datagram_size_boundary() {
    // Nine bytes pass the size gate; eight are dropped silently.
    let (mut state, rid, alice, _bob) = room_setup();
    let (alice_vsid, _) = alice.unwrap();
    let mut limiter = RateLimiter::new();
    let mut stats = ServerStats::new();
    let ok = datagram(&rid, &alice_vsid, &[0xAA]);
    assert_eq!(ok.len(), 9);
    match relay_packet(&mut state, &mut limiter, &mut stats, &ok, 1, 0) {
        RelayAction::Forward { .. } => {}
        other => panic!("expected forwarding, got {:?}", kind(&other)),
    }
    let short = &ok[..8];
    assert!(matches!(
        relay_packet(&mut state, &mut limiter, &mut stats, short, 1, 0),
        RelayAction::DropShort
    ));
    assert_eq!(stats.packets_received, 2);
}

#[test]
fn unknown_room_and_stream_are_dropped() {
    let (mut state, rid, _alice, _bob) = room_setup();
    let mut limiter = RateLimiter::new();
    let mut stats = ServerStats::new();
    let bad_room = datagram(&[0xDE, 0xAD, 0xBE, 0xEF], &[1, 2, 3, 4], &[0xAA]);
    assert!(matches!(
        relay_packet(&mut state, &mut limiter, &mut stats, &bad_room, 1, 0),
        RelayAction::DropUnknown
    ));
    let bad_stream = datagram(&rid, &[0xDE, 0xAD, 0xBE, 0xEF], &[0xAA]);
    assert!(matches!(
        relay_packet(&mut state, &mut limiter, &mut stats, &bad_stream, 1, 0),
        RelayAction::DropUnknown
    ));
}

#[test]
fn relay_forwards_to_peer_not_sender() {
    // Bob's socket gets Alice's media with the room stripped; Alice
    // gets nothing back.
    let (mut state, rid, alice, bob) = room_setup();
    let (alice_vsid, _) = alice.unwrap();
    let (bob_vsid, _) = bob.unwrap();
    let mut limiter = RateLimiter::new();
    let mut stats = ServerStats::new();
    let alice_addr = 11u64;
    let bob_addr = 22u64;
    // Bob is heard first, binding his address.
    let from_bob = datagram(&rid, &bob_vsid, &[0x01]);
    match relay_packet(&mut state, &mut limiter, &mut stats, &from_bob, bob_addr, 0) {
        RelayAction::Forward { dests, .. } => assert!(dests.is_empty()),
        other => panic!("expected forwarding, got {:?}", kind(&other)),
    }
    // Alice's datagram reaches exactly Bob, as StreamID || media.
    let from_alice = datagram(&rid, &alice_vsid, &[0xAA, 0xBB]);
    match relay_packet(&mut state, &mut limiter, &mut stats, &from_alice, alice_addr, 1) {
        RelayAction::Forward { payload, dests } => {
            let mut expected = alice_vsid.clone();
            expected.extend_from_slice(&[0xAA, 0xBB]);
            assert_eq!(payload, expected);
            assert_eq!(dests, vec![bob_addr]);
        }
        other => panic!("expected forwarding, got {:?}", kind(&other)),
    }
}

#[test]
fn learned_address_is_never_overwritten() {
    // A valid datagram from another address still forwards, but the
    // first-learned address stays.
    let (mut state, rid, alice, _bob) = room_setup();
    let (alice_vsid, _) = alice.unwrap();
    let mut limiter = RateLimiter::new();
    let mut stats = ServerStats::new();
    let d = datagram(&rid, &alice_vsid, &[0xAA]);
    relay_packet(&mut state, &mut limiter, &mut stats, &d, 11, 0);
    let learned = |state: &ServerState| {
        state.rooms[0]
            .video_streams
            .iter()
            .find(|e| e.sid == alice_vsid)
            .unwrap()
            .addr
    };
    assert_eq!(learned(&state), Some(11));
    match relay_packet(&mut state, &mut limiter, &mut stats, &d, 99, 1) {
        RelayAction::Forward { .. } => {}
        other => panic!("expected forwarding, got {:?}", kind(&other)),
    }
    assert_eq!(learned(&state), Some(11));
}

#[test]
fn audio_streams_use_their_own_table() {
    let (mut state, rid, alice, bob) = room_setup();
    let (_, alice_asid) = alice.unwrap();
    let (_, bob_asid) = bob.unwrap();
    let mut limiter = RateLimiter::new();
    let mut stats = ServerStats::new();
    relay_packet(&mut state, &mut limiter, &mut stats, &datagram(&rid, &bob_asid, &[1]), 22, 0);
    match relay_packet(
        &mut state,
        &mut limiter,
        &mut stats,
        &datagram(&rid, &alice_asid, &[2]),
        11,
        1,
    ) {
        RelayAction::Forward { dests, .. } => assert_eq!(dests, vec![22]),
        other => panic!("expected forwarding, got {:?}", kind(&other)),
    }
}

#[test]
fn rate_limit_window_boundary() {
    // Exactly 5000 packets pass within one window; the 5001st is
    // dropped; a new window admits again.
    let mut limiter = RateLimiter::new();
    for _ in 0..5000 {
        assert!(limiter.check_rate_limit(7, 100));
    }
    assert!(!limiter.check_rate_limit(7, 100));
    assert!(!limiter.check_rate_limit(7, 1099));
    assert!(limiter.check_rate_limit(7, 1100));
    // Other sources have their own windows.
    assert!(limiter.check_rate_limit(8, 100));
}

#[test]
fn idle_sources_are_cleaned_up() {
    let mut limiter = RateLimiter::new();
    limiter.check_rate_limit(1, 0);
    limiter.check_rate_limit(2, 250_000);
    limiter.cleanup(300_000);
    assert_eq!(limiter.clients.len(), 1);
    assert_eq!(limiter.clients[0].addr, 2);
}

#[test]
fn rate_limited_packets_are_dropped_and_counted() {
    let (mut state, rid, alice, _bob) = room_setup();
    let (alice_vsid, _) = alice.unwrap();
    let mut limiter = RateLimiter::new();
    let mut stats = ServerStats::new();
    let d = datagram(&rid, &alice_vsid, &[0xAA]);
    for _ in 0..5000 {
        assert!(limiter.check_rate_limit(5, 0));
    }
    assert!(matches!(
        relay_packet(&mut state, &mut limiter, &mut stats, &d, 5, 0),
        RelayAction::DropRate
    ));
    assert_eq!(stats.packets_dropped, 1);
}

#[test]
fn batching_and_backpressure() {
    let mut batch = PacketBatch::new(0);
    let mut stats = ServerStats::new();
    // A small fan-out goes straight to the socket.
    assert!(matches!(
        route_forward(&mut batch, &mut stats, vec![1], vec![1, 2, 3], 0),
        RouteAction::SendNow
    ));
    // A larger one queues; age forces a flush.
    match route_forward(&mut batch, &mut stats, vec![1], vec![1, 2, 3, 4], 0) {
        RouteAction::Queued { flush } => assert!(!flush),
        other => panic!("expected queueing, got {:?}", route_kind(&other)),
    }
    match route_forward(&mut batch, &mut stats, vec![2], vec![1, 2, 3, 4], 5) {
        RouteAction::Queued { flush } => assert!(flush),
        other => panic!("expected queueing, got {:?}", route_kind(&other)),
    }
    // A saturated batch drops new packets, counted.
    while batch.packets.len() < 500 {
        batch.add_packet(vec![0], vec![1, 2, 3, 4]);
    }
    assert!(matches!(
        route_forward(&mut batch, &mut stats, vec![3], vec![1, 2, 3, 4], 5),
        RouteAction::DropBackpressure
    ));
    assert_eq!(stats.packets_dropped, 1);
    batch.clear(9);
    assert_eq!(batch.packets.len(), 0);
    assert_eq!(batch.last_flush_ms, 9);
    assert!(!batch.should_flush(9));
}

fn kind(a: &RelayAction) -> &'static str {
    match a {
        RelayAction::DropShort => "short",
        RelayAction::DropRate => "rate",
        RelayAction::DropUnknown => "unknown",
        RelayAction::Forward { .. } => "forward",
    }
}

fn route_kind(a: &RouteAction) -> &'static str {
    match a {
        RouteAction::DropBackpressure => "backpressure",
        RouteAction::SendNow => "send",
        RouteAction::Queued { .. } => "queued",
    }
}
