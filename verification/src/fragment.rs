//! Reassembly of chunked media frames on the client.
//!
//! Each datagram carries `StreamID || type || sequence || chunk_id ||
//! last || bytes`. Chunks of the current sequence collect in a per-peer
//! buffer keyed by chunk index; when the last-flagged chunk arrives and
//! the buffer is complete, the chunks concatenate in index order. A full
//! frame replaces the peer's cached frame; a delta applies to it; a
//! failed or timed-out frame marks the cache corrupted until the next
//! full frame.

use vstd::prelude::*;

use crate::byteops::{push_bytes, read_u32_be, spec_u32_from_be};
use crate::delta::{apply_delta_safe, deserialize_deltas, spec_apply, spec_deltas_in_bounds, spec_deserialize};
use vstd::slice::{slice_subrange, slice_to_vec};

verus! {

/// Largest chunk payload per datagram.
pub const CHUNK_SIZE: usize = 1350;

/// Age after which a partial frame is discarded, in milliseconds.
pub const CHUNK_TIMEOUT_MS: u64 = 50;

/// Bytes of media header after the stream identifier: type, sequence,
/// chunk index and the last flag.
pub const MEDIA_HEADER_LEN: usize = 10;

/// Buffers kept for reuse between frames.
pub const BUFFER_POOL_SIZE: usize = 10;

/// The kind of a media frame on the wire.
#[derive(Clone, Copy, Debug, PartialEq, Eq, Structural)]
pub enum FrameType {
    /// The whole encoded frame.
    Full,
    /// Byte-range replacements against the previous frame.
    Delta,
    /// No content; keeps the peer's state alive.
    Heartbeat,
}

/// The wire byte of each frame kind.
pub open spec fn spec_frame_type_byte(t: FrameType) -> u8 {
    match t {
        FrameType::Full => 0,
        FrameType::Delta => 1,
        FrameType::Heartbeat => 2,
    }
}

/// The frame kind a wire byte stands for.
pub open spec fn spec_frame_type_of(b: u8) -> Option<FrameType> {
    if b == 0 {
        Some(FrameType::Full)
    } else if b == 1 {
        Some(FrameType::Delta)
    } else if b == 2 {
        Some(FrameType::Heartbeat)
    } else {
        None
    }
}

/// The wire byte of this frame kind.
pub fn frame_type_byte(t: FrameType) -> (r: u8)
    ensures
        r == spec_frame_type_byte(t),
{
    match t {
        FrameType::Full => 0,
        FrameType::Delta => 1,
        FrameType::Heartbeat => 2,
    }
}

/// One parsed media datagram, after the relay stripped the room.
pub struct MediaChunk {
    pub sid: Vec<u8>,
    pub frame_type: FrameType,
    pub sequence: u32,
    pub chunk_id: u32,
    pub is_last: bool,
    pub data: Vec<u8>,
}

/// Parses `sid(4) || type(1) || seq(4) || chunk(4) || last(1) || bytes`.
/// `None` when the datagram has no media byte after the header or the
/// type byte is unknown.
pub fn parse_media_packet(buf: &[u8]) -> (r: Option<MediaChunk>)
    ensures
        buf@.len() <= crate::ID_LEN + MEDIA_HEADER_LEN ==> r is None,
        buf@.len() > crate::ID_LEN + MEDIA_HEADER_LEN ==> match spec_frame_type_of(
            buf@[crate::ID_LEN as int],
        ) {
            None => r is None,
            Some(t) => r matches Some(c) && c.sid@ == buf@.subrange(0, crate::ID_LEN as int)
                && c.frame_type == t && c.sequence == spec_u32_from_be(
                buf@.subrange(crate::ID_LEN + 1, crate::ID_LEN + 5),
            ) && c.chunk_id == spec_u32_from_be(
                buf@.subrange(crate::ID_LEN + 5, crate::ID_LEN + 9),
            ) && c.is_last == (buf@[crate::ID_LEN + 9] == 1) && c.data@ == buf@.skip(
                crate::ID_LEN + MEDIA_HEADER_LEN,
            ),
        },
{
    if buf.len() <= crate::ID_LEN + MEDIA_HEADER_LEN {
        return None;
    }
    let sid = slice_to_vec(slice_subrange(buf, 0, crate::ID_LEN));
    let frame_type = if buf[crate::ID_LEN] == 0 {
        FrameType::Full
    } else if buf[crate::ID_LEN] == 1 {
        FrameType::Delta
    } else if buf[crate::ID_LEN] == 2 {
        FrameType::Heartbeat
    } else {
        return None;
    };
    let sequence = read_u32_be(buf, crate::ID_LEN + 1);
    let chunk_id = read_u32_be(buf, crate::ID_LEN + 5);
    let is_last = buf[crate::ID_LEN + 9] == 1;
    let data = slice_to_vec(slice_subrange(buf, crate::ID_LEN + MEDIA_HEADER_LEN, buf.len()));
    proof {
        assert(buf@.subrange(
            crate::ID_LEN + MEDIA_HEADER_LEN,
            buf@.len() as int,
        ) =~= buf@.skip(crate::ID_LEN + MEDIA_HEADER_LEN));
    }
    Some(MediaChunk { sid, frame_type, sequence, chunk_id, is_last, data })
}

/// Chunk indices strictly ascend.
pub open spec fn spec_chunks_sorted(s: Seq<(u32, Vec<u8>)>) -> bool {
    forall|i: int, j: int| 0 <= i < j < s.len() ==> (#[trigger] s[i]).0 < (#[trigger] s[j]).0
}

/// The buffer as a mapping from chunk index to bytes.
pub open spec fn spec_chunk_map(s: Seq<(u32, Vec<u8>)>) -> Map<int, Seq<u8>>
    decreases s.len(),
{
    if s.len() == 0 {
        Map::empty()
    } else {
        spec_chunk_map(s.drop_last()).insert(s.last().0 as int, s.last().1@)
    }
}

/// The frame the buffered chunks spell, in index order.
pub open spec fn spec_concat_chunks(s: Seq<(u32, Vec<u8>)>) -> Seq<u8>
    decreases s.len(),
{
    if s.len() == 0 {
        Seq::empty()
    } else {
        spec_concat_chunks(s.drop_last()) + s.last().1@
    }
}

/// Every buffered index is in the map.
pub proof fn lemma_chunk_map_has(s: Seq<(u32, Vec<u8>)>, i: int)
    requires
        0 <= i < s.len(),
    ensures
        spec_chunk_map(s).dom().contains(s[i].0 as int),
    decreases s.len(),
{
    if i < s.len() - 1 {
        lemma_chunk_map_has(s.drop_last(), i);
    }
}

/// In a sorted buffer the map returns each entry's own bytes.
pub proof fn lemma_chunk_map_at(s: Seq<(u32, Vec<u8>)>, i: int)
    requires
        spec_chunks_sorted(s),
        0 <= i < s.len(),
    ensures
        spec_chunk_map(s)[s[i].0 as int] == s[i].1@,
    decreases s.len(),
{
    if i == s.len() - 1 {
    } else {
        assert(spec_chunks_sorted(s.drop_last()));
        lemma_chunk_map_at(s.drop_last(), i);
        assert(s[i].0 < s.last().0);
    }
}

/// A key of the map is some entry's index, no larger than the last's.
pub proof fn lemma_chunk_map_key_bound(s: Seq<(u32, Vec<u8>)>, key: int)
    requires
        spec_chunks_sorted(s),
        spec_chunk_map(s).dom().contains(key),
    ensures
        s.len() > 0,
        key <= s.last().0 as int,
        exists|i: int| 0 <= i < s.len() && (#[trigger] s[i]).0 as int == key,
    decreases s.len(),
{
    if s.len() == 0 {
        assert(spec_chunk_map(s).dom() =~= Set::<int>::empty());
    } else if key == s.last().0 as int {
        assert(s[s.len() - 1].0 as int == key);
    } else {
        assert(spec_chunk_map(s.drop_last()).dom().contains(key));
        assert(spec_chunks_sorted(s.drop_last()));
        lemma_chunk_map_key_bound(s.drop_last(), key);
        let i = choose|i: int|
            0 <= i < s.drop_last().len() && (#[trigger] s.drop_last()[i]).0 as int == key;
        assert(s[i].0 as int == key);
    }
}

/// Two sorted buffers holding the same chunks spell the same frame,
/// whatever order the chunks arrived in.
pub proof fn lemma_reassembly_canonical(s1: Seq<(u32, Vec<u8>)>, s2: Seq<(u32, Vec<u8>)>)
    requires
        spec_chunks_sorted(s1),
        spec_chunks_sorted(s2),
        spec_chunk_map(s1) == spec_chunk_map(s2),
    ensures
        s1.len() == s2.len(),
        spec_concat_chunks(s1) == spec_concat_chunks(s2),
    decreases s1.len(),
{
    if s1.len() == 0 && s2.len() == 0 {
    } else if s1.len() == 0 {
        lemma_chunk_map_has(s2, s2.len() - 1);
        assert(spec_chunk_map(s1).dom() =~= Set::<int>::empty());
        assert(spec_chunk_map(s2).dom().contains(s2.last().0 as int));
        assert(false);
    } else if s2.len() == 0 {
        lemma_chunk_map_has(s1, s1.len() - 1);
        assert(spec_chunk_map(s2).dom() =~= Set::<int>::empty());
        assert(spec_chunk_map(s1).dom().contains(s1.last().0 as int));
        assert(false);
    } else {
        let k1 = s1.last().0 as int;
        let k2 = s2.last().0 as int;
        lemma_chunk_map_has(s1, s1.len() - 1);
        lemma_chunk_map_has(s2, s2.len() - 1);
        lemma_chunk_map_key_bound(s2, k1);
        lemma_chunk_map_key_bound(s1, k2);
        assert(k1 == k2);
        lemma_chunk_map_at(s1, s1.len() - 1);
        lemma_chunk_map_at(s2, s2.len() - 1);
        assert(s1.last().1@ == s2.last().1@);
        let d1 = s1.drop_last();
        let d2 = s2.drop_last();
        assert(spec_chunks_sorted(d1));
        assert(spec_chunks_sorted(d2));
        assert(spec_chunk_map(d1) =~= spec_chunk_map(d2)) by {
            assert(spec_chunk_map(s1) == spec_chunk_map(d1).insert(k1, s1.last().1@));
            assert(spec_chunk_map(s2) == spec_chunk_map(d2).insert(k2, s2.last().1@));
            assert(!spec_chunk_map(d1).dom().contains(k1)) by {
                if spec_chunk_map(d1).dom().contains(k1) {
                    lemma_chunk_map_key_bound(d1, k1);
                    let i = choose|i: int|
                        0 <= i < d1.len() && (#[trigger] d1[i]).0 as int == k1;
                    assert(s1[i].0 < s1.last().0);
                }
            }
            assert(!spec_chunk_map(d2).dom().contains(k2)) by {
                if spec_chunk_map(d2).dom().contains(k2) {
                    lemma_chunk_map_key_bound(d2, k2);
                    let i = choose|i: int|
                        0 <= i < d2.len() && (#[trigger] d2[i]).0 as int == k2;
                    assert(s2[i].0 < s2.last().0);
                }
            }
            assert forall|key: int| #![auto]
                spec_chunk_map(d1).dom().contains(key)
                    == spec_chunk_map(d2).dom().contains(key) by {
                if spec_chunk_map(d1).dom().contains(key) {
                    assert(key != k1);
                    assert(spec_chunk_map(s1).dom().contains(key));
                    assert(spec_chunk_map(s2).dom().contains(key));
                }
                if spec_chunk_map(d2).dom().contains(key) {
                    assert(key != k2);
                    assert(spec_chunk_map(s2).dom().contains(key));
                    assert(spec_chunk_map(s1).dom().contains(key));
                }
            }
            assert forall|key: int| #![auto]
                spec_chunk_map(d1).dom().contains(key) implies spec_chunk_map(d1)[key]
                == spec_chunk_map(d2)[key] by {
                assert(key != k1);
                assert(spec_chunk_map(s1)[key] == spec_chunk_map(d1)[key]);
                assert(spec_chunk_map(s2)[key] == spec_chunk_map(d2)[key]);
            }
        }
        lemma_reassembly_canonical(d1, d2);
    }
}

/// The chunks of one partial frame, with its metadata.
pub struct FragmentBuffer {
    pub chunks: Vec<(u32, Vec<u8>)>,
    pub last_update_ms: u64,
    pub frame_type: FrameType,
    pub expected_chunks: u32,
    pub sequence: u32,
}

impl FragmentBuffer {
    /// An empty buffer for a frame first seen at `now_ms`.
    pub fn new(frame_type: FrameType, sequence: u32, now_ms: u64) -> (r: FragmentBuffer)
        ensures
            r.chunks@.len() == 0,
            r.frame_type == frame_type,
            r.sequence == sequence,
            r.last_update_ms == now_ms,
            r.expected_chunks == 0,
            spec_chunks_sorted(r.chunks@),
    {
        FragmentBuffer {
            chunks: Vec::new(),
            last_update_ms: now_ms,
            frame_type,
            expected_chunks: 0,
            sequence,
        }
    }

    /// Stores one chunk under its index, replacing any earlier bytes at
    /// the same index; the buffer stays sorted and its mapping gains
    /// exactly this entry.
    pub fn insert_chunk(&mut self, chunk_id: u32, data: Vec<u8>)
        requires
            spec_chunks_sorted(old(self).chunks@),
        ensures
            spec_chunks_sorted(final(self).chunks@),
            spec_chunk_map(final(self).chunks@) == spec_chunk_map(old(self).chunks@).insert(
                chunk_id as int,
                data@,
            ),
            final(self).last_update_ms == old(self).last_update_ms,
            final(self).frame_type == old(self).frame_type,
            final(self).expected_chunks == old(self).expected_chunks,
            final(self).sequence == old(self).sequence,
            final(self).chunks@.len() <= old(self).chunks@.len() + 1,
    {
        let ghost pre = self.chunks@;
        let mut i: usize = 0;
        while i < self.chunks.len() && self.chunks[i].0 < chunk_id
            invariant
                0 <= i <= self.chunks@.len(),
                self.chunks@ == pre,
                spec_chunks_sorted(pre),
                forall|j: int| 0 <= j < i ==> (#[trigger] pre[j]).0 < chunk_id,
            decreases self.chunks@.len() - i,
        {
            i = i + 1;
        }
        if i < self.chunks.len() && self.chunks[i].0 == chunk_id {
            // replace in place
            let ghost old_entry = pre[i as int];
            self.chunks[i] = (chunk_id, data);
            proof {
                assert(self.chunks@ == pre.update(i as int, (chunk_id, data)));
                lemma_map_of_update_same_key(pre, i as int, (chunk_id, data));
                assert(spec_chunks_sorted(self.chunks@)) by {
                    assert(forall|j: int|
                        0 <= j < pre.len() && j != i ==> #[trigger] self.chunks@[j] == pre[j]);
                }
            }
        } else {
            self.chunks.insert(i, (chunk_id, data));
            proof {
                assert(self.chunks@ == pre.insert(i as int, (chunk_id, data)));
                assert(spec_chunks_sorted(self.chunks@)) by {
                    assert(forall|j: int| 0 <= j < i ==> #[trigger] self.chunks@[j] == pre[j]);
                    assert(forall|j: int|
                        i < j < self.chunks@.len() ==> #[trigger] self.chunks@[j] == pre[j - 1]);
                    assert(self.chunks@[i as int] == (chunk_id, data));
                    assert(forall|j: int| i <= j < pre.len() ==> (#[trigger] pre[j]).0 > chunk_id
                        || pre[j].0 == chunk_id);
                    assert(forall|j: int| i <= j < pre.len() ==> (#[trigger] pre[j]).0 > chunk_id);
                }
                lemma_map_of_insert_fresh_key(pre, i as int, (chunk_id, data));
            }
        }
    }
}

/// Updating a sorted buffer's entry in place re-inserts its key.
proof fn lemma_map_of_update_same_key(s: Seq<(u32, Vec<u8>)>, i: int, e: (u32, Vec<u8>))
    requires
        spec_chunks_sorted(s),
        0 <= i < s.len(),
        s[i].0 == e.0,
    ensures
        spec_chunk_map(s.update(i, e)) == spec_chunk_map(s).insert(e.0 as int, e.1@),
    decreases s.len(),
{
    let su = s.update(i, e);
    if i == s.len() - 1 {
        assert(su.drop_last() =~= s.drop_last());
        assert(su.last() == e);
        assert(spec_chunk_map(su) == spec_chunk_map(s.drop_last()).insert(e.0 as int, e.1@));
        assert(spec_chunk_map(s) == spec_chunk_map(s.drop_last()).insert(e.0 as int, s[i].1@));
        assert(spec_chunk_map(s).insert(e.0 as int, e.1@) =~= spec_chunk_map(
            s.drop_last(),
        ).insert(e.0 as int, e.1@));
    } else {
        assert(su.drop_last() =~= s.drop_last().update(i, e));
        assert(spec_chunks_sorted(s.drop_last()));
        lemma_map_of_update_same_key(s.drop_last(), i, e);
        assert(su.last() == s.last());
        assert(spec_chunk_map(su) == spec_chunk_map(s.drop_last()).insert(e.0 as int, e.1@).insert(
            s.last().0 as int,
            s.last().1@,
        ));
        assert(e.0 as int != s.last().0 as int) by {
            assert(s[i].0 < s.last().0);
        }
        assert(spec_chunk_map(su) =~= spec_chunk_map(s).insert(e.0 as int, e.1@)) by {
            assert(spec_chunk_map(s) == spec_chunk_map(s.drop_last()).insert(
                s.last().0 as int,
                s.last().1@,
            ));
        }
    }
}

/// Inserting a new index into a sorted buffer adds its key to the map.
proof fn lemma_map_of_insert_fresh_key(s: Seq<(u32, Vec<u8>)>, i: int, e: (u32, Vec<u8>))
    requires
        spec_chunks_sorted(s),
        0 <= i <= s.len(),
        forall|j: int| 0 <= j < i ==> (#[trigger] s[j]).0 < e.0,
        forall|j: int| i <= j < s.len() ==> (#[trigger] s[j]).0 > e.0,
    ensures
        spec_chunk_map(s.insert(i, e)) == spec_chunk_map(s).insert(e.0 as int, e.1@),
    decreases s.len(),
{
    let si = s.insert(i, e);
    if i == s.len() {
        assert(si.drop_last() =~= s);
        assert(si.last() == e);
    } else {
        assert(si.last() == s.last());
        assert(si.drop_last() =~= s.drop_last().insert(i, e));
        assert(spec_chunks_sorted(s.drop_last()));
        lemma_map_of_insert_fresh_key(s.drop_last(), i, e);
        assert(spec_chunk_map(si) == spec_chunk_map(s.drop_last()).insert(
            e.0 as int,
            e.1@,
        ).insert(s.last().0 as int, s.last().1@));
        assert(e.0 as int != s.last().0 as int) by {
            assert(s.last().0 > e.0);
        }
        assert(spec_chunk_map(si) =~= spec_chunk_map(s).insert(e.0 as int, e.1@)) by {
            assert(spec_chunk_map(s) == spec_chunk_map(s.drop_last()).insert(
                s.last().0 as int,
                s.last().1@,
            ));
        }
    }
}

/// A peer's last fully reconstructed frame.
pub struct FrameCache {
    pub last_frame: Option<Vec<u8>>,
    pub reconstructed_frame: Option<Vec<u8>>,
    pub last_sequence: u32,
    pub corrupted: bool,
}

impl FrameCache {
    /// No frame yet.
    pub fn new() -> (r: FrameCache)
        ensures
            r == (FrameCache {
                last_frame: None,
                reconstructed_frame: None,
                last_sequence: 0,
                corrupted: false,
            }),
    {
        FrameCache {
            last_frame: None,
            reconstructed_frame: None,
            last_sequence: 0,
            corrupted: false,
        }
    }

    /// Remembers that the cached frame can no longer be trusted; only
    /// the next full frame clears this.
    pub fn mark_corrupted(&mut self)
        ensures
            *final(self) == (FrameCache { corrupted: true, ..*old(self) }),
    {
        self.corrupted = true;
    }

    /// Replaces the cache with a freshly received full frame.
    pub fn reset(&mut self, frame: Vec<u8>, sequence: u32)
        ensures
            final(self).last_frame matches Some(f) && f@ == frame@,
            final(self).reconstructed_frame matches Some(f) && f@ == frame@,
            final(self).last_sequence == sequence,
            !final(self).corrupted,
    {
        let copy = slice_to_vec(frame.as_slice());
        self.last_frame = Some(copy);
        self.reconstructed_frame = Some(frame);
        self.last_sequence = sequence;
        self.corrupted = false;
    }
}

/// Cleared byte buffers kept for reuse between frames.
pub struct BufferPool {
    pub buffers: Vec<Vec<u8>>,
}

impl BufferPool {
    /// Every pooled buffer is empty.
    pub open spec fn spec_wf(self) -> bool {
        forall|i: int| 0 <= i < self.buffers@.len() ==> (#[trigger] self.buffers@[i])@.len() == 0
    }

    /// A pool of empty buffers.
    pub fn new() -> (r: BufferPool)
        ensures
            r.spec_wf(),
            r.buffers@.len() == BUFFER_POOL_SIZE,
    {
        let mut buffers: Vec<Vec<u8>> = Vec::new();
        let mut i: usize = 0;
        while i < BUFFER_POOL_SIZE
            invariant
                0 <= i <= BUFFER_POOL_SIZE,
                buffers@.len() == i,
                forall|j: int| 0 <= j < i ==> (#[trigger] buffers@[j])@.len() == 0,
            decreases BUFFER_POOL_SIZE - i,
        {
            buffers.push(Vec::new());
            i = i + 1;
        }
        BufferPool { buffers }
    }

    /// Hands out an empty buffer, reusing a pooled one when possible.
    pub fn get_buffer(&mut self) -> (r: Vec<u8>)
        requires
            old(self).spec_wf(),
        ensures
            final(self).spec_wf(),
            r@.len() == 0,
            final(self).buffers@.len() == if old(self).buffers@.len() > 0 {
                (old(self).buffers@.len() - 1) as nat
            } else {
                0nat
            },
    {
        if self.buffers.len() > 0 {
            let ghost pre = self.buffers@;
            let b = self.buffers.remove(0);
            proof {
                assert(b == pre[0]);
                assert(forall|j: int|
                    0 <= j < self.buffers@.len() ==> #[trigger] self.buffers@[j] == pre[j + 1]);
            }
            b
        } else {
            Vec::new()
        }
    }

    /// Takes a buffer back, cleared, while the pool has room.
    pub fn return_buffer(&mut self, buffer: Vec<u8>)
        requires
            old(self).spec_wf(),
        ensures
            final(self).spec_wf(),
            final(self).buffers@.len() == if old(self).buffers@.len() < BUFFER_POOL_SIZE {
                old(self).buffers@.len() + 1
            } else {
                old(self).buffers@.len()
            },
    {
        if self.buffers.len() < BUFFER_POOL_SIZE {
            let mut buffer = buffer;
            buffer.clear();
            let ghost pre = self.buffers@;
            self.buffers.push(buffer);
            proof {
                assert(forall|j: int|
                    0 <= j < pre.len() ==> #[trigger] self.buffers@[j] == pre[j]);
            }
        }
    }
}


/// One sorted buffer holds as many chunks as its mapping has indices.
pub proof fn lemma_chunk_count(s: Seq<(u32, Vec<u8>)>)
    requires
        spec_chunks_sorted(s),
    ensures
        spec_chunk_map(s).dom().finite(),
        spec_chunk_map(s).dom().len() == s.len(),
    decreases s.len(),
{
    if s.len() == 0 {
        assert(spec_chunk_map(s).dom() =~= Set::<int>::empty());
    } else {
        assert(spec_chunks_sorted(s.drop_last()));
        lemma_chunk_count(s.drop_last());
        assert(!spec_chunk_map(s.drop_last()).dom().contains(s.last().0 as int)) by {
            if spec_chunk_map(s.drop_last()).dom().contains(s.last().0 as int) {
                lemma_chunk_map_key_bound(s.drop_last(), s.last().0 as int);
                let i = choose|i: int|
                    0 <= i < s.drop_last().len() && (#[trigger] s.drop_last()[i]).0 as int
                        == s.last().0 as int;
                assert(s[i].0 < s.last().0);
            }
        }
        assert(spec_chunk_map(s).dom() =~= spec_chunk_map(s.drop_last()).dom().insert(
            s.last().0 as int,
        ));
    }
}

/// One peer's reassembly state: the partial frame in flight, if any, and
/// the last whole frame.
pub struct PeerAssembly {
    pub buffer: Option<FragmentBuffer>,
    pub cache: FrameCache,
}

/// The chunks already gathered for this sequence: what the buffer holds
/// when it is on the same sequence, nothing otherwise.
pub open spec fn spec_start_map(b: Option<FragmentBuffer>, sequence: u32) -> Map<int, Seq<u8>> {
    match b {
        Some(fb) => if fb.sequence == sequence {
            spec_chunk_map(fb.chunks@)
        } else {
            Map::empty()
        },
        None => Map::empty(),
    }
}

/// The frame kind the buffer is committed to: a buffer already on this
/// sequence keeps its kind; a restart takes the incoming one.
pub open spec fn spec_start_type(
    b: Option<FragmentBuffer>,
    sequence: u32,
    incoming: FrameType,
) -> FrameType {
    match b {
        Some(fb) => if fb.sequence == sequence {
            fb.frame_type
        } else {
            incoming
        },
        None => incoming,
    }
}

/// How many chunks the frame is known to need: zero until a last-flagged
/// chunk of this sequence has said.
pub open spec fn spec_start_expected(b: Option<FragmentBuffer>, sequence: u32) -> u32 {
    match b {
        Some(fb) => if fb.sequence == sequence {
            fb.expected_chunks
        } else {
            0
        },
        None => 0,
    }
}

/// What finishing a frame does to the cache and what it publishes. A
/// full frame replaces the cache and is published -- whatever state the
/// cache was in, corrupted included, so a full frame always restores
/// operation. A delta against a clean cached frame is decoded and
/// applied; the rebuilt frame is cached and published; a corrupted or
/// absent cache, or a delta that does not decode or reaches outside the
/// frame, publishes nothing and (except when already corrupted) poisons
/// the cache.
pub open spec fn spec_dispatched(
    pre: FrameCache,
    post: FrameCache,
    kind: FrameType,
    frame: Seq<u8>,
    sequence: u32,
    published: Option<Vec<u8>>,
) -> bool {
    match kind {
        FrameType::Full => {
            &&& (post.last_frame matches Some(f) && f@ == frame)
            &&& (post.reconstructed_frame matches Some(f) && f@ == frame)
            &&& post.last_sequence == sequence
            &&& !post.corrupted
            &&& (published matches Some(p) && p@ == frame)
        },
        FrameType::Delta => {
            if pre.corrupted {
                post == pre && published is None
            } else {
                match pre.reconstructed_frame {
                    None => {
                        post == (FrameCache { corrupted: true, ..pre }) && published is None
                    },
                    Some(base) => {
                        match spec_deserialize(frame) {
                            None => {
                                post == (FrameCache { corrupted: true, ..pre }) && published
                                    is None
                            },
                            Some(ds) => {
                                if spec_deltas_in_bounds(ds, base@.len() as int) {
                                    &&& (post.reconstructed_frame matches Some(f) && f@
                                        == spec_apply(base@, ds))
                                    &&& post.last_frame == pre.last_frame
                                    &&& post.last_sequence == sequence
                                    &&& post.corrupted == false
                                    &&& (published matches Some(p) && p@ == spec_apply(base@, ds))
                                } else {
                                    post == (FrameCache { corrupted: true, ..pre }) && published
                                        is None
                                }
                            },
                        }
                    },
                }
            }
        },
        FrameType::Heartbeat => post == pre && published is None,
    }
}

/// The whole effect of one non-heartbeat chunk on a peer: the chunk
/// joins the gathered set (restarting on a new sequence); on the
/// last-flagged chunk, if exactly `chunk_id + 1` chunks are gathered,
/// they concatenate in index order, the result is dispatched by kind,
/// and the buffer is gone.
pub open spec fn spec_assemble_step(
    pre: PeerAssembly,
    post: PeerAssembly,
    frame_type: FrameType,
    sequence: u32,
    chunk_id: u32,
    is_last: bool,
    data: Seq<u8>,
    now_ms: u64,
    published: Option<Vec<u8>>,
) -> bool {
    let m = spec_start_map(pre.buffer, sequence).insert(chunk_id as int, data);
    let kind = spec_start_type(pre.buffer, sequence, frame_type);
    let expected: u32 = if is_last {
        if chunk_id < u32::MAX {
            (chunk_id + 1) as u32
        } else {
            0
        }
    } else {
        spec_start_expected(pre.buffer, sequence)
    };
    let complete = expected > 0 && m.dom().finite() && m.dom().len() == expected;
    if complete {
        &&& post.buffer is None
        &&& exists|chunks: Seq<(u32, Vec<u8>)>|
            {
                &&& #[trigger] spec_chunk_map(chunks) == m
                &&& spec_chunks_sorted(chunks)
                &&& spec_dispatched(
                    pre.cache,
                    post.cache,
                    kind,
                    spec_concat_chunks(chunks),
                    sequence,
                    published,
                )
            }
    } else {
        &&& (post.buffer matches Some(fb) && spec_chunk_map(fb.chunks@) == m && fb.sequence
            == sequence && fb.frame_type == kind && fb.expected_chunks == expected
            && fb.last_update_ms == now_ms && spec_chunks_sorted(fb.chunks@))
        &&& post.cache == pre.cache
        &&& published is None
    }
}

impl PeerAssembly {
    /// A peer never heard from.
    pub fn new() -> (r: PeerAssembly)
        ensures
            r == (PeerAssembly {
                buffer: None,
                cache: FrameCache {
                    last_frame: None,
                    reconstructed_frame: None,
                    last_sequence: 0,
                    corrupted: false,
                },
            }),
            r.spec_wf(),
    {
        PeerAssembly { buffer: None, cache: FrameCache::new() }
    }

    /// Any buffered chunks are sorted by index.
    pub open spec fn spec_wf(self) -> bool {
        self.buffer matches Some(fb) ==> spec_chunks_sorted(fb.chunks@)
    }

    /// Feeds one non-heartbeat chunk through the reassembly protocol.
    pub fn assemble_step(
        &mut self,
        pool: &mut BufferPool,
        frame_type: FrameType,
        sequence: u32,
        chunk_id: u32,
        is_last: bool,
        data: Vec<u8>,
        now_ms: u64,
    ) -> (published: Option<Vec<u8>>)
        requires
            old(self).spec_wf(),
            old(pool).spec_wf(),
            frame_type != FrameType::Heartbeat,
        ensures
            final(self).spec_wf(),
            final(pool).spec_wf(),
            spec_assemble_step(
                *old(self),
                *final(self),
                frame_type,
                sequence,
                chunk_id,
                is_last,
                data@,
                now_ms,
                published,
            ),
    {
        let mut taken: Option<FragmentBuffer> = None;
        core::mem::swap(&mut taken, &mut self.buffer);
        let mut fb = match taken {
            Some(b) => if b.sequence == sequence {
                b
            } else {
                FragmentBuffer::new(frame_type, sequence, now_ms)
            },
            None => FragmentBuffer::new(frame_type, sequence, now_ms),
        };
        let ghost kind = fb.frame_type;
        let ghost start = spec_chunk_map(fb.chunks@);
        fb.insert_chunk(chunk_id, data);
        fb.last_update_ms = now_ms;
        if is_last {
            fb.expected_chunks = match chunk_id.checked_add(1) {
                Some(n) => n,
                None => 0,
            };
        }
        proof {
            lemma_chunk_count(fb.chunks@);
        }
        let complete = fb.expected_chunks > 0 && fb.chunks.len() == fb.expected_chunks as usize;
        if !complete {
            self.buffer = Some(fb);
            return None;
        }
        // Concatenate the chunks in index order.
        let mut frame_data = pool.get_buffer();
        let mut i: usize = 0;
        while i < fb.chunks.len()
            invariant
                0 <= i <= fb.chunks@.len(),
                frame_data@ == spec_concat_chunks(fb.chunks@.take(i as int)),
            decreases fb.chunks@.len() - i,
        {
            push_bytes(&mut frame_data, fb.chunks[i].1.as_slice());
            proof {
                assert(fb.chunks@.take(i + 1).drop_last() =~= fb.chunks@.take(i as int));
                assert(fb.chunks@.take(i + 1).last() == fb.chunks@[i as int]);
            }
            i = i + 1;
        }
        proof {
            assert(fb.chunks@.take(fb.chunks@.len() as int) =~= fb.chunks@);
        }
        let ghost assembled = frame_data@;
        let ghost chunks_wit = fb.chunks@;
        self.buffer = None;
        let published = match fb.frame_type {
            FrameType::Full => {
                let out = slice_to_vec(frame_data.as_slice());
                self.cache.reset(out, sequence);
                let out2 = slice_to_vec(frame_data.as_slice());
                Some(out2)
            },
            FrameType::Delta => {
                if self.cache.corrupted {
                    None
                } else {
                    let has_base = match &self.cache.reconstructed_frame {
                        Some(_) => true,
                        None => false,
                    };
                    if !has_base {
                        self.cache.mark_corrupted();
                        None
                    } else {
                        match deserialize_deltas(frame_data.as_slice()) {
                            Err(_) => {
                                self.cache.mark_corrupted();
                                None
                            },
                            Ok(ds) => {
                                let mut new_frame = match &self.cache.reconstructed_frame {
                                    Some(b) => slice_to_vec(b.as_slice()),
                                    None => Vec::new(),
                                };
                                match apply_delta_safe(&mut new_frame, &ds) {
                                    Ok(_) => {
                                        let out = slice_to_vec(new_frame.as_slice());
                                        self.cache.reconstructed_frame = Some(new_frame);
                                        self.cache.last_sequence = sequence;
                                        self.cache.corrupted = false;
                                        Some(out)
                                    },
                                    Err(_) => {
                                        self.cache.mark_corrupted();
                                        None
                                    },
                                }
                            },
                        }
                    }
                }
            },
            FrameType::Heartbeat => None,
        };
        pool.return_buffer(frame_data);
        proof {
            lemma_chunk_count(chunks_wit);
            assert(spec_chunk_map(chunks_wit) == spec_start_map(old(self).buffer, sequence).insert(
                chunk_id as int,
                data@,
            )) by {
                assert(spec_chunk_map(chunks_wit) == start.insert(chunk_id as int, data@));
            }
        }
        published
    }

    /// Discards a partial frame older than the chunk timeout and, when
    /// one is discarded and a frame is cached, poisons the cache.
    pub fn evict_if_stale(&mut self, now_ms: u64) -> (evicted: bool)
        requires
            old(self).spec_wf(),
        ensures
            final(self).spec_wf(),
            spec_evicted(*old(self), *final(self), now_ms),
            evicted == spec_buffer_stale(*old(self), now_ms),
    {
        let stale = match &self.buffer {
            Some(fb) => fb.last_update_ms <= now_ms && now_ms - fb.last_update_ms
                >= CHUNK_TIMEOUT_MS,
            None => false,
        };
        if stale {
            self.buffer = None;
            let has_cache = match &self.cache.reconstructed_frame {
                Some(_) => true,
                None => false,
            };
            if has_cache {
                self.cache.mark_corrupted();
            }
            true
        } else {
            false
        }
    }
}


/// The peer's partial frame has not been fed for the chunk timeout.
pub open spec fn spec_buffer_stale(p: PeerAssembly, now_ms: u64) -> bool {
    p.buffer matches Some(fb) && now_ms - fb.last_update_ms >= CHUNK_TIMEOUT_MS
        && fb.last_update_ms <= now_ms
}

/// The timeout rule applied to one peer: a stale partial frame is gone
/// and a cache it was feeding is poisoned; a live or absent one leaves
/// the peer as it was.
pub open spec fn spec_evicted(pre: PeerAssembly, post: PeerAssembly, now_ms: u64) -> bool {
    if spec_buffer_stale(pre, now_ms) {
        &&& post.buffer is None
        &&& (pre.cache.reconstructed_frame is Some ==> post.cache == (FrameCache {
            corrupted: true,
            ..pre.cache
        }))
        &&& (pre.cache.reconstructed_frame is None ==> post.cache == pre.cache)
    } else {
        post == pre
    }
}

/// All peers' reassembly state, keyed by stream identifier, with the
/// shared buffer pool.
pub struct Reassembler {
    pub peers: Vec<(Vec<u8>, PeerAssembly)>,
    pub pool: BufferPool,
}

impl Reassembler {
    /// One entry per stream, each internally consistent.
    pub open spec fn spec_wf(self) -> bool {
        &&& forall|i: int, j: int|
            0 <= i < self.peers@.len() && 0 <= j < self.peers@.len()
                && (#[trigger] self.peers@[i]).0@ == (#[trigger] self.peers@[j]).0@ ==> i == j
        &&& forall|i: int| 0 <= i < self.peers@.len() ==> (#[trigger] self.peers@[i]).1.spec_wf()
        &&& self.pool.spec_wf()
    }

    /// No peers yet.
    pub fn new() -> (r: Reassembler)
        ensures
            r.spec_wf(),
            r.peers@.len() == 0,
    {
        Reassembler { peers: Vec::new(), pool: BufferPool::new() }
    }

    /// Feeds one datagram of `StreamID || header || bytes` through its
    /// peer's reassembly. Returns the stream and the rebuilt frame when
    /// one completes. Runts, unknown type bytes and heartbeats change
    /// no peer's state.
    pub fn handle_datagram(&mut self, buf: &[u8], now_ms: u64) -> (r: Option<(Vec<u8>, Vec<u8>)>)
        requires
            old(self).spec_wf(),
        ensures
            final(self).spec_wf(),
            final(self).peers@.len() >= old(self).peers@.len(),
            spec_datagram_handled(*old(self), *final(self), buf@, now_ms, r),
    {
        let chunk = match parse_media_packet(buf) {
            None => {
                return None;
            },
            Some(c) => c,
        };
        if matches!(chunk.frame_type, FrameType::Heartbeat) {
            return None;
        }
        let ghost pre = *self;
        let ghost sidv = chunk.sid@;
        let ghost ftv = chunk.frame_type;
        let ghost seqv = chunk.sequence;
        let ghost cidv = chunk.chunk_id;
        let ghost lastv = chunk.is_last;
        let ghost datav = chunk.data@;
        let mut i: usize = 0;
        let n = self.peers.len();
        while i < n
            invariant
                0 <= i <= n,
                n == self.peers@.len(),
                *self == pre,
                pre == *old(self),
                pre.spec_wf(),
                chunk.frame_type != FrameType::Heartbeat,
                chunk.sid@ == sidv,
                chunk.frame_type == ftv,
                chunk.sequence == seqv,
                chunk.chunk_id == cidv,
                chunk.is_last == lastv,
                chunk.data@ == datav,
                buf@.len() > crate::ID_LEN + MEDIA_HEADER_LEN,
                sidv == buf@.subrange(0, crate::ID_LEN as int),
                spec_frame_type_of(buf@[crate::ID_LEN as int]) == Some(ftv),
                seqv == spec_u32_from_be(buf@.subrange(crate::ID_LEN + 1, crate::ID_LEN + 5)),
                cidv == spec_u32_from_be(buf@.subrange(crate::ID_LEN + 5, crate::ID_LEN + 9)),
                lastv == spec_last_flag(buf@),
                datav == buf@.skip(crate::ID_LEN + MEDIA_HEADER_LEN),
                forall|j: int| 0 <= j < i ==> (#[trigger] self.peers@[j]).0@ != chunk.sid@,
            decreases n - i,
        {
            if crate::byteops::bytes_eq(self.peers[i].0.as_slice(), chunk.sid.as_slice()) {
                let entry = &mut self.peers[i].1;
                let published = entry.assemble_step(
                    &mut self.pool,
                    chunk.frame_type,
                    chunk.sequence,
                    chunk.chunk_id,
                    chunk.is_last,
                    chunk.data,
                    now_ms,
                );
                proof {
                    let iv = i as int;
                    assert(self.peers@.len() == pre.peers@.len());
                    assert(self.peers@[iv].0 == pre.peers@[iv].0);
                    assert(forall|j: int|
                        0 <= j < pre.peers@.len() && j != iv ==> #[trigger] self.peers@[j]
                            == pre.peers@[j]);
                    assert(self.spec_wf()) by {
                        assert forall|a: int, b: int|
                            0 <= a < self.peers@.len() && 0 <= b < self.peers@.len()
                                && (#[trigger] self.peers@[a]).0@ == (#[trigger] self.peers@[
                            b]).0@ implies a == b by {
                            assert(self.peers@[a].0@ == pre.peers@[a].0@);
                            assert(self.peers@[b].0@ == pre.peers@[b].0@);
                        }
                        assert forall|j: int|
                            0 <= j < self.peers@.len() implies (#[trigger] self.peers@[
                        j]).1.spec_wf() by {
                            if j != iv {
                                assert(self.peers@[j] == pre.peers@[j]);
                                assert(pre.peers@[j].1.spec_wf());
                            }
                        }
                    }
                    assert(spec_peer_before(pre, iv) == pre.peers@[iv].1);
                    assert(spec_assemble_step(
                        spec_peer_before(pre, iv),
                        self.peers@[iv].1,
                        ftv,
                        seqv,
                        cidv,
                        lastv,
                        datav,
                        now_ms,
                        published,
                    ));
                }
                return match published {
                    Some(frame) => Some((chunk.sid, frame)),
                    None => None,
                };
            }
            i = i + 1;
        }
        let mut fresh = PeerAssembly::new();
        let ghost fresh0 = fresh;
        let published = fresh.assemble_step(
            &mut self.pool,
            chunk.frame_type,
            chunk.sequence,
            chunk.chunk_id,
            chunk.is_last,
            chunk.data,
            now_ms,
        );
        let sid_key = vstd::slice::slice_to_vec(chunk.sid.as_slice());
        self.peers.push((sid_key, fresh));
        proof {
            assert(forall|j: int|
                0 <= j < pre.peers@.len() ==> #[trigger] self.peers@[j] == pre.peers@[j]);
            assert(self.peers@.last().0@ == chunk.sid@);
            let m = pre.peers@.len() as int;
            assert(spec_peer_before(pre, m) == fresh0);
            assert(spec_assemble_step(
                spec_peer_before(pre, m),
                self.peers@[m].1,
                ftv,
                seqv,
                cidv,
                lastv,
                datav,
                now_ms,
                published,
            ));
            assert(self.spec_wf()) by {
                assert forall|a: int, b: int|
                    0 <= a < self.peers@.len() && 0 <= b < self.peers@.len()
                        && (#[trigger] self.peers@[a]).0@ == (#[trigger] self.peers@[b]).0@ implies a
                    == b by {
                    let m = pre.peers@.len() as int;
                    if a < m && b == m {
                        assert(pre.peers@[a].0@ == chunk.sid@);
                    }
                    if b < m && a == m {
                        assert(pre.peers@[b].0@ == chunk.sid@);
                    }
                }
            }
        }
        match published {
            Some(frame) => Some((chunk.sid, frame)),
            None => None,
        }
    }

    /// Walks every peer, applying the timeout rule: a partial frame not
    /// fed for the chunk timeout is gone, and a cache it was feeding is
    /// poisoned; every other peer is untouched.
    pub fn evict_stale(&mut self, now_ms: u64)
        requires
            old(self).spec_wf(),
        ensures
            final(self).spec_wf(),
            final(self).peers@.len() == old(self).peers@.len(),
            forall|i: int|
                0 <= i < old(self).peers@.len() ==> (#[trigger] final(self).peers@[i]).0 == old(
                    self,
                ).peers@[i].0,
            forall|i: int|
                0 <= i < old(self).peers@.len() ==> spec_evicted(
                    (#[trigger] old(self).peers@[i]).1,
                    final(self).peers@[i].1,
                    now_ms,
                ),
    {
        let ghost pre = *self;
        let mut i: usize = 0;
        while i < self.peers.len()
            invariant
                0 <= i <= self.peers@.len(),
                pre == *old(self),
                self.peers@.len() == pre.peers@.len(),
                self.pool == pre.pool,
                pre.spec_wf(),
                forall|j: int| 0 <= j < pre.peers@.len() ==> (#[trigger] self.peers@[j]).0
                    == pre.peers@[j].0,
                forall|j: int| 0 <= j < pre.peers@.len() ==> (#[trigger] self.peers@[j]).1.spec_wf(),
                forall|j: int|
                    0 <= j < i ==> spec_evicted(
                        (#[trigger] pre.peers@[j]).1,
                        self.peers@[j].1,
                        now_ms,
                    ),
                forall|j: int|
                    i <= j < pre.peers@.len() ==> (#[trigger] self.peers@[j]).1
                        == pre.peers@[j].1,
            decreases self.peers@.len() - i,
        {
            let entry = &mut self.peers[i].1;
            entry.evict_if_stale(now_ms);
            proof {
                assert(self.peers@[i as int].0 == pre.peers@[i as int].0);
                assert(spec_evicted(pre.peers@[i as int].1, self.peers@[i as int].1, now_ms));
            }
            i = i + 1;
        }
        proof {
            assert(self.spec_wf()) by {
                assert forall|a: int, b: int|
                    0 <= a < self.peers@.len() && 0 <= b < self.peers@.len()
                        && (#[trigger] self.peers@[a]).0@ == (#[trigger] self.peers@[b]).0@ implies a
                    == b by {
                    assert(pre.peers@[a].0@ == pre.peers@[b].0@);
                }
            }
        }
    }
}

/// The last-chunk flag of a media datagram.
pub open spec fn spec_last_flag(buf: Seq<u8>) -> bool {
    buf[crate::ID_LEN + 9] == 1
}

/// The addressed peer's state before the step: its stored state, or a
/// peer never heard from.
pub open spec fn spec_peer_before(pre: Reassembler, i: int) -> PeerAssembly {
    if 0 <= i < pre.peers@.len() {
        pre.peers@[i].1
    } else {
        (PeerAssembly {
            buffer: None,
            cache: FrameCache {
                last_frame: None,
                reconstructed_frame: None,
                last_sequence: 0,
                corrupted: false,
            },
        })
    }
}

/// What one datagram did: nothing for a runt, an unknown type byte or a
/// heartbeat; otherwise exactly the addressed peer's state moved one
/// reassembly step (a first-heard stream starting fresh), and whatever
/// that step published is handed up under its stream identifier.
pub open spec fn spec_datagram_handled(
    pre: Reassembler,
    post: Reassembler,
    buf: Seq<u8>,
    now_ms: u64,
    r: Option<(Vec<u8>, Vec<u8>)>,
) -> bool {
    if buf.len() <= crate::ID_LEN + MEDIA_HEADER_LEN {
        post == pre && r is None
    } else {
        let sid = buf.subrange(0, crate::ID_LEN as int);
        match spec_frame_type_of(buf[crate::ID_LEN as int]) {
            None => post == pre && r is None,
            Some(t) => if t == FrameType::Heartbeat {
                post == pre && r is None
            } else {
                exists|i: int, published: Option<Vec<u8>>|
                    {
                        &&& 0 <= i < post.peers@.len()
                        &&& post.peers@[i].0@ == sid
                        &&& (forall|j: int|
                            0 <= j < pre.peers@.len() && j != i ==> #[trigger] post.peers@[j]
                                == pre.peers@[j])
                        &&& #[trigger] spec_assemble_step(
                            spec_peer_before(pre, i),
                            post.peers@[i].1,
                            t,
                            spec_u32_from_be(buf.subrange(crate::ID_LEN + 1, crate::ID_LEN + 5)),
                            spec_u32_from_be(buf.subrange(crate::ID_LEN + 5, crate::ID_LEN + 9)),
                            spec_last_flag(buf),
                            buf.skip(crate::ID_LEN + MEDIA_HEADER_LEN),
                            now_ms,
                            published,
                        )
                        &&& (match r {
                            Some(p) => published matches Some(f) && p.0@ == sid && p.1 == f,
                            None => published is None,
                        })
                    }
            },
        }
    }
}

} // verus!
