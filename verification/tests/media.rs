//! Delta compression, chunking and reassembly behaviour.

use wes_sfu::delta::{
    apply_delta_safe, create_delta_optimized, deserialize_deltas, serialize_deltas_optimized,
    DeltaChunk,
};
use wes_sfu::fragment::{parse_media_packet, BufferPool, FrameType, PeerAssembly, Reassembler};
use wes_sfu::sender::{build_heartbeat_packet, build_media_packets, FramePlan, FrameSender};

#[test]
fn delta_roundtrip_applies() {
    // For equal-length frames, applying the computed delta to the old
    // frame rebuilds the new one.
    let mut old = vec![0u8; 100];
    let mut new = vec![0u8; 100];
    for i in 0..100 {
        old[i] = i as u8;
        new[i] = i as u8;
    }
    new[2] = 99;
    new[3] = 99;
    let deltas = create_delta_optimized(&old, &new).expect("a delta");
    assert_eq!(deltas.len(), 1);
    assert_eq!(deltas[0].offset, 2);
    assert_eq!(deltas[0].data, vec![99, 99]);
    let mut frame = old.clone();
    apply_delta_safe(&mut frame, &deltas).expect("in bounds");
    assert_eq!(frame, new);
}

#[test]
fn small_frame_delta_applies_via_reassembler() {
    // A delta of one run at offset 2 carrying [9, 9], applied to a
    // cached eight-byte frame, yields the changed frame.
    let old = vec![0u8, 1, 2, 3, 4, 5, 6, 7];
    let new = vec![0u8, 1, 9, 9, 4, 5, 6, 7];
    let delta = vec![DeltaChunk { offset: 2, data: vec![9, 9] }];
    let bytes = serialize_deltas_optimized(&delta);
    assert_eq!(bytes, vec![0, 0, 0, 1, 0, 0, 0, 2, 0, 0, 0, 2, 9, 9]);
    let mut frame = old.clone();
    apply_delta_safe(&mut frame, &deserialize_deltas(&bytes).unwrap()).unwrap();
    assert_eq!(frame, new);
    // The sender itself falls back to a full frame here: the delta's
    // wire size reaches three tenths of so small a frame.
    assert!(create_delta_optimized(&old, &new).is_none());
}

#[test]
fn delta_wire_roundtrip() {
    let deltas = vec![
        DeltaChunk { offset: 2, data: vec![9, 9] },
        DeltaChunk { offset: 250, data: vec![1] },
    ];
    let bytes = serialize_deltas_optimized(&deltas);
    // count || per entry: offset || length || bytes, all big-endian.
    assert_eq!(
        bytes,
        vec![0, 0, 0, 2, 0, 0, 0, 2, 0, 0, 0, 2, 9, 9, 0, 0, 0, 250, 0, 0, 0, 1, 1]
    );
    let back = deserialize_deltas(&bytes).expect("well formed");
    assert_eq!(back, deltas);
}

#[test]
fn delta_malformed_wire_is_rejected() {
    assert!(deserialize_deltas(&[]).is_err());
    assert!(deserialize_deltas(&[0, 0, 0, 1]).is_err());
    assert!(deserialize_deltas(&[0, 0, 0, 1, 0, 0, 0, 0, 0, 0, 0, 9]).is_err());
}

#[test]
fn delta_out_of_bounds_apply_fails_atomically() {
    let mut frame = vec![0u8, 1, 2, 3];
    let deltas = vec![DeltaChunk { offset: 100, data: vec![9, 9] }];
    assert!(apply_delta_safe(&mut frame, &deltas).is_err());
    assert_eq!(frame, vec![0, 1, 2, 3]);
}

#[test]
fn delta_length_mismatch_or_equal_frames() {
    assert!(create_delta_optimized(&[1, 2, 3], &[1, 2, 3, 4]).is_none());
    let ds = create_delta_optimized(&[7; 64], &[7; 64]).expect("equal frames give a delta");
    assert!(ds.is_empty());
    // A frame differing nearly everywhere is cheaper sent whole.
    let old = vec![0u8; 100];
    let new = vec![1u8; 100];
    assert!(create_delta_optimized(&old, &new).is_none());
}

fn push_packet(
    peer: &mut PeerAssembly,
    pool: &mut BufferPool,
    pkt: &[u8],
    now: u64,
) -> Option<Vec<u8>> {
    let c = parse_media_packet(pkt).expect("parsable");
    assert!(c.frame_type != FrameType::Heartbeat);
    peer.assemble_step(pool, c.frame_type, c.sequence, c.chunk_id, c.is_last, c.data, now)
}

#[test]
fn chunks_reassemble_in_any_order() {
    // A frame of three chunks arrives as [2, 0, 1]; the assembler still
    // rebuilds the exact bytes.
    let mut payload = Vec::new();
    for i in 0..3000usize {
        payload.push((i % 251) as u8);
    }
    let prefix = b"sid1".to_vec();
    let packets = build_media_packets(&prefix, FrameType::Full, 7, &payload);
    assert_eq!(packets.len(), 3);
    let mut peer = PeerAssembly::new();
    let mut pool = BufferPool::new();
    assert!(push_packet(&mut peer, &mut pool, &packets[2], 0).is_none());
    assert!(push_packet(&mut peer, &mut pool, &packets[0], 1).is_none());
    let frame = push_packet(&mut peer, &mut pool, &packets[1], 2);
    assert_eq!(frame, Some(payload.clone()));

    // In-order arrival spells the same frame.
    let mut peer2 = PeerAssembly::new();
    assert!(push_packet(&mut peer2, &mut pool, &packets[0], 0).is_none());
    assert!(push_packet(&mut peer2, &mut pool, &packets[1], 1).is_none());
    assert_eq!(push_packet(&mut peer2, &mut pool, &packets[2], 2), Some(payload));
}

#[test]
fn single_chunk_frame_and_header_layout() {
    let payload = vec![0xAAu8, 0xBB];
    let prefix = vec![9u8, 9, 9, 9];
    let packets = build_media_packets(&prefix, FrameType::Full, 1, &payload);
    assert_eq!(packets.len(), 1);
    // sid || type || sequence || chunk_id || last || data
    assert_eq!(packets[0], vec![9, 9, 9, 9, 0, 0, 0, 0, 1, 0, 0, 0, 0, 1, 0xAA, 0xBB]);
    let hb = build_heartbeat_packet(&prefix, 2);
    assert_eq!(hb, vec![9, 9, 9, 9, 2, 0, 0, 0, 2, 0, 0, 0, 0, 1]);
}

#[test]
fn delta_frames_rebuild_and_corruption_recovers() {
    // A full frame, then a delta, then a corrupted delta, then a full
    // frame again: the cache follows the protocol.
    let base = vec![0u8, 1, 2, 3, 4, 5, 6, 7];
    let changed = vec![0u8, 1, 9, 9, 4, 5, 6, 7];
    let prefix = b"sid1".to_vec();
    let mut peer = PeerAssembly::new();
    let mut pool = BufferPool::new();

    let full = build_media_packets(&prefix, FrameType::Full, 1, &base);
    assert_eq!(push_packet(&mut peer, &mut pool, &full[0], 0), Some(base.clone()));

    let deltas = vec![DeltaChunk { offset: 2, data: vec![9, 9] }];
    let delta_bytes = serialize_deltas_optimized(&deltas);
    let dpkts = build_media_packets(&prefix, FrameType::Delta, 2, &delta_bytes);
    assert_eq!(push_packet(&mut peer, &mut pool, &dpkts[0], 1), Some(changed.clone()));
    assert!(!peer.cache.corrupted);

    // A delta reaching outside the frame poisons the cache.
    let bad = serialize_deltas_optimized(&vec![DeltaChunk { offset: 100, data: vec![9] }]);
    let bpkts = build_media_packets(&prefix, FrameType::Delta, 3, &bad);
    assert_eq!(push_packet(&mut peer, &mut pool, &bpkts[0], 2), None);
    assert!(peer.cache.corrupted);

    // Further deltas are discarded while corrupted.
    let dpkts2 = build_media_packets(&prefix, FrameType::Delta, 4, &delta_bytes);
    assert_eq!(push_packet(&mut peer, &mut pool, &dpkts2[0], 3), None);

    // The next full frame restores operation.
    let full2 = build_media_packets(&prefix, FrameType::Full, 5, &changed);
    assert_eq!(push_packet(&mut peer, &mut pool, &full2[0], 4), Some(changed.clone()));
    assert!(!peer.cache.corrupted);
}

#[test]
fn stale_partial_frames_are_evicted() {
    let base = vec![1u8; 2000];
    let prefix = b"sid1".to_vec();
    let mut peer = PeerAssembly::new();
    let mut pool = BufferPool::new();
    let full = build_media_packets(&prefix, FrameType::Full, 1, &vec![5u8; 4]);
    assert!(push_packet(&mut peer, &mut pool, &full[0], 0).is_some());
    // First chunk of a two-chunk frame arrives, then nothing for 50ms.
    let pkts = build_media_packets(&prefix, FrameType::Full, 2, &base);
    assert_eq!(pkts.len(), 2);
    assert!(push_packet(&mut peer, &mut pool, &pkts[0], 10).is_none());
    assert!(!peer.evict_if_stale(59));
    assert!(peer.evict_if_stale(60));
    assert!(peer.cache.corrupted);
    assert!(peer.buffer.is_none());
}

#[test]
fn restart_on_new_sequence() {
    // A chunk of a newer sequence discards the old partial frame.
    let prefix = b"sid1".to_vec();
    let mut peer = PeerAssembly::new();
    let mut pool = BufferPool::new();
    let big = vec![3u8; 2000];
    let pkts_old = build_media_packets(&prefix, FrameType::Full, 1, &big);
    assert!(push_packet(&mut peer, &mut pool, &pkts_old[0], 0).is_none());
    let small = vec![4u8; 8];
    let pkts_new = build_media_packets(&prefix, FrameType::Full, 2, &small);
    assert_eq!(push_packet(&mut peer, &mut pool, &pkts_new[0], 1), Some(small));
}

#[test]
fn sender_plans_full_delta_skip_and_heartbeat() {
    let mut sender = FrameSender::new();
    let mut base = vec![0u8; 100];
    for i in 0..100 {
        base[i] = i as u8;
    }
    // First frame: always full.
    match sender.plan_frame(base.clone()) {
        FramePlan::Full(p) => assert_eq!(p, base),
        other => panic!("expected a full frame, got {:?}", planned(&other)),
    }
    assert_eq!(sender.sequence, 1);
    // A changed frame of the same length: a delta that rebuilds it.
    let mut changed = base.clone();
    changed[2] = 99;
    changed[3] = 99;
    match sender.plan_frame(changed.clone()) {
        FramePlan::Delta(bytes) => {
            let ds = deserialize_deltas(&bytes).unwrap();
            let mut frame = base.clone();
            apply_delta_safe(&mut frame, &ds).unwrap();
            assert_eq!(frame, changed);
        }
        other => panic!("expected a delta, got {:?}", planned(&other)),
    }
    // 29 repeats are skipped, the 30th sends a heartbeat.
    for i in 0..29 {
        match sender.plan_frame(changed.clone()) {
            FramePlan::Skip => {}
            other => panic!("expected skip at {}, got {:?}", i, planned(&other)),
        }
    }
    match sender.plan_frame(changed.clone()) {
        FramePlan::Heartbeat => {}
        other => panic!("expected a heartbeat, got {:?}", planned(&other)),
    }
    // A different length forces a full frame.
    let longer = vec![1u8; 101];
    match sender.plan_frame(longer.clone()) {
        FramePlan::Full(p) => assert_eq!(p, longer),
        other => panic!("expected a full frame, got {:?}", planned(&other)),
    }
}

fn planned(p: &FramePlan) -> &'static str {
    match p {
        FramePlan::Skip => "skip",
        FramePlan::Heartbeat => "heartbeat",
        FramePlan::Full(_) => "full",
        FramePlan::Delta(_) => "delta",
    }
}

#[test]
fn media_packet_parse_rejects_runts_and_bad_types() {
    assert!(parse_media_packet(&[]).is_none());
    // Header with no media byte.
    assert!(parse_media_packet(&[9, 9, 9, 9, 0, 0, 0, 0, 1, 0, 0, 0, 0, 1]).is_none());
    // Unknown frame type byte.
    assert!(parse_media_packet(&[9, 9, 9, 9, 3, 0, 0, 0, 1, 0, 0, 0, 0, 1, 0xAA]).is_none());
    let c = parse_media_packet(&[9, 9, 9, 9, 1, 0, 0, 0, 1, 0, 0, 0, 2, 0, 0xAA]).unwrap();
    assert_eq!(c.sid, vec![9, 9, 9, 9]);
    assert_eq!(c.frame_type, FrameType::Delta);
    assert_eq!(c.sequence, 1);
    assert_eq!(c.chunk_id, 2);
    assert!(!c.is_last);
    assert_eq!(c.data, vec![0xAA]);
}

#[test]
fn reassembler_keys_peers_by_stream() {
    let mut reasm = Reassembler::new();
    let frame_a = vec![1u8; 20];
    let frame_b = vec![2u8; 30];
    let pkts_a = build_media_packets(b"sidA", FrameType::Full, 1, &frame_a);
    let pkts_b = build_media_packets(b"sidB", FrameType::Full, 1, &frame_b);
    // Runts and heartbeats change nothing.
    assert!(reasm.handle_datagram(&[1, 2, 3], 0).is_none());
    assert!(reasm.handle_datagram(&build_heartbeat_packet(b"sidA", 9), 0).is_none());
    assert_eq!(
        reasm.handle_datagram(&pkts_a[0], 0),
        Some((b"sidA".to_vec(), frame_a))
    );
    assert_eq!(
        reasm.handle_datagram(&pkts_b[0], 1),
        Some((b"sidB".to_vec(), frame_b))
    );
    reasm.evict_stale(1000);
    assert_eq!(reasm.peers.len(), 2);
}

#[test]
fn duplicate_chunks_do_not_disturb_reassembly() {
    // A resent chunk replaces its slot byte-for-byte; the frame still
    // completes to the exact payload once every index has landed.
    let mut payload = Vec::new();
    for i in 0..2800usize {
        payload.push((i % 13) as u8);
    }
    let prefix = b"sid1".to_vec();
    let packets = build_media_packets(&prefix, FrameType::Full, 3, &payload);
    assert_eq!(packets.len(), 3);
    let mut peer = PeerAssembly::new();
    let mut pool = BufferPool::new();
    assert!(push_packet(&mut peer, &mut pool, &packets[0], 0).is_none());
    assert!(push_packet(&mut peer, &mut pool, &packets[0], 1).is_none());
    assert!(push_packet(&mut peer, &mut pool, &packets[2], 2).is_none());
    assert!(push_packet(&mut peer, &mut pool, &packets[2], 3).is_none());
    assert_eq!(push_packet(&mut peer, &mut pool, &packets[1], 4), Some(payload));
}
