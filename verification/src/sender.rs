//! The client's datagram sender.
//!
//! Each new encoded frame is compared with the previous one: an equal
//! frame sends nothing (a heartbeat every thirtieth time), a similar one
//! sends a delta, anything else sends the full frame. The chosen payload
//! is cut into chunks of at most [`crate::fragment::CHUNK_SIZE`] bytes,
//! each prefixed with the identifiers and the media header.

use vstd::prelude::*;

use crate::byteops::{push_bytes, push_u32_be, spec_u32_be};
use crate::delta::{
    create_delta_optimized, serialize_deltas_optimized, spec_apply, spec_deltas_in_bounds,
    spec_entries_size, spec_runs, spec_serialize,
};
use crate::fragment::{frame_type_byte, spec_concat_chunks, spec_frame_type_byte, FrameType, CHUNK_SIZE};
use vstd::slice::{slice_subrange, slice_to_vec};

verus! {

/// Frame counter modulus.
pub const SEQUENCE_WRAP: u32 = 1000000;

/// Unchanged frames between two heartbeats.
pub const HEARTBEAT_INTERVAL: u32 = 30;

/// How many chunks a payload of `n` bytes cuts into.
pub open spec fn spec_chunk_count(n: int) -> int {
    (n + CHUNK_SIZE - 1) / CHUNK_SIZE as int
}

/// The `i`-th chunk of a payload.
pub open spec fn spec_chunk_at(p: Seq<u8>, i: int) -> Seq<u8> {
    p.subrange(
        i * CHUNK_SIZE,
        if (i + 1) * CHUNK_SIZE < p.len() {
            (i + 1) * CHUNK_SIZE
        } else {
            p.len() as int
        },
    )
}

/// One sent datagram: identifiers, media header, chunk bytes.
pub open spec fn spec_media_packet(
    prefix: Seq<u8>,
    t: FrameType,
    sequence: u32,
    chunk_id: u32,
    last: bool,
    data: Seq<u8>,
) -> Seq<u8> {
    prefix + seq![spec_frame_type_byte(t)] + spec_u32_be(sequence) + spec_u32_be(chunk_id) + seq![
        if last {
            1u8
        } else {
            0u8
        },
    ] + data
}

/// Cuts `payload` into chunks and wraps each in a datagram: the prefix
/// (the identifiers), the frame type, the sequence, the chunk index and
/// the last-chunk flag. An empty payload sends nothing.
pub fn build_media_packets(
    prefix: &[u8],
    frame_type: FrameType,
    sequence: u32,
    payload: &[u8],
) -> (r: Vec<Vec<u8>>)
    requires
        payload@.len() <= 0xffff_ffff,
    ensures
        r@.len() == spec_chunk_count(payload@.len() as int),
        forall|i: int|
            0 <= i < r@.len() ==> (#[trigger] r@[i])@ == spec_media_packet(
                prefix@,
                frame_type,
                sequence,
                i as u32,
                i == r@.len() - 1,
                spec_chunk_at(payload@, i),
            ),
{
    let mut out: Vec<Vec<u8>> = Vec::new();
    let total = payload.len();
    let n_chunks = if total == 0 {
        0
    } else {
        (total - 1) / CHUNK_SIZE + 1
    };
    proof {
        assert(n_chunks == spec_chunk_count(total as int));
    }
    let mut i: usize = 0;
    while i < n_chunks
        invariant
            0 <= i <= n_chunks,
            total == payload@.len() <= 0xffff_ffff,
            n_chunks == spec_chunk_count(total as int),
            n_chunks * CHUNK_SIZE >= total,
            (n_chunks - 1) * CHUNK_SIZE < total || n_chunks == 0,
            out@.len() == i,
            forall|j: int|
                0 <= j < i ==> (#[trigger] out@[j])@ == spec_media_packet(
                    prefix@,
                    frame_type,
                    sequence,
                    j as u32,
                    j == n_chunks - 1,
                    spec_chunk_at(payload@, j),
                ),
        decreases n_chunks - i,
    {
        proof {
            assert(i as int * CHUNK_SIZE < total) by (nonlinear_arith)
                requires
                    i as int <= n_chunks - 1,
                    (n_chunks - 1) * CHUNK_SIZE < total || n_chunks == 0,
                    i < n_chunks,
                    CHUNK_SIZE > 0,
            ;
        }
        let start = i * CHUNK_SIZE;
        let end = if total - start > CHUNK_SIZE {
            start + CHUNK_SIZE
        } else {
            total
        };
        let is_last = i + 1 == n_chunks;
        let mut pkt: Vec<u8> = Vec::new();
        push_bytes(&mut pkt, prefix);
        pkt.push(frame_type_byte(frame_type));
        push_u32_be(&mut pkt, sequence);
        push_u32_be(&mut pkt, i as u32);
        pkt.push(if is_last {
            1
        } else {
            0
        });
        push_bytes(&mut pkt, slice_subrange(payload, start, end));
        proof {
            assert(pkt@ =~= spec_media_packet(
                prefix@,
                frame_type,
                sequence,
                i as u32,
                i as int == n_chunks - 1,
                spec_chunk_at(payload@, i as int),
            )) by {
                assert(payload@.subrange(start as int, end as int) == spec_chunk_at(
                    payload@,
                    i as int,
                ));
            }
        }
        out.push(pkt);
        i = i + 1;
    }
    out
}

/// A heartbeat datagram: a single empty last chunk.
pub fn build_heartbeat_packet(prefix: &[u8], sequence: u32) -> (r: Vec<u8>)
    ensures
        r@ == spec_media_packet(
            prefix@,
            FrameType::Heartbeat,
            sequence,
            0,
            true,
            Seq::empty(),
        ),
{
    let mut pkt: Vec<u8> = Vec::new();
    push_bytes(&mut pkt, prefix);
    pkt.push(2);
    push_u32_be(&mut pkt, sequence);
    push_u32_be(&mut pkt, 0);
    pkt.push(1);
    proof {
        assert(pkt@ =~= spec_media_packet(
            prefix@,
            FrameType::Heartbeat,
            sequence,
            0,
            true,
            Seq::empty(),
        ));
    }
    pkt
}

/// The first `k` chunks of a payload, concatenated in order, spell the
/// payload's first `k * CHUNK_SIZE` bytes.
proof fn lemma_chunks_rebuild_to(p: Seq<u8>, s: Seq<(u32, Vec<u8>)>, k: int)
    requires
        s.len() == spec_chunk_count(p.len() as int),
        forall|i: int|
            0 <= i < s.len() ==> (#[trigger] s[i]).0 == i && s[i].1@ == spec_chunk_at(p, i),
        0 <= k <= s.len(),
    ensures
        spec_concat_chunks(s.take(k)) == p.take(
            if k * CHUNK_SIZE < p.len() {
                k * CHUNK_SIZE
            } else {
                p.len() as int
            },
        ),
    decreases k,
{
    if k == 0 {
        assert(spec_concat_chunks(s.take(0)) =~= p.take(0));
    } else {
        lemma_chunks_rebuild_to(p, s, k - 1);
        assert(s.take(k).drop_last() =~= s.take(k - 1));
        assert(s.take(k).last() == s[k - 1]);
        assert((k - 1) * CHUNK_SIZE < p.len()) by (nonlinear_arith)
            requires
                k <= s.len(),
                k >= 1,
                s.len() == (p.len() + CHUNK_SIZE - 1) / CHUNK_SIZE as int,
                CHUNK_SIZE > 0,
        ;
        assert(spec_concat_chunks(s.take(k)) == spec_concat_chunks(s.take(k - 1)) + spec_chunk_at(
            p,
            k - 1,
        ));
        assert(spec_concat_chunks(s.take(k)) =~= p.take(
            if k * CHUNK_SIZE < p.len() {
                k * CHUNK_SIZE
            } else {
                p.len() as int
            },
        ));
    }
}

/// Reassembly undoes chunking, whatever order the chunks arrived in:
/// a sorted buffer holding exactly the chunks that `build_media_packets`
/// cut a payload into spells back that payload.
pub proof fn lemma_chunks_reassemble(
    p: Seq<u8>,
    sent: Seq<(u32, Vec<u8>)>,
    received: Seq<(u32, Vec<u8>)>,
)
    requires
        sent.len() == spec_chunk_count(p.len() as int),
        forall|i: int|
            0 <= i < sent.len() ==> (#[trigger] sent[i]).0 == i && sent[i].1@ == spec_chunk_at(
                p,
                i,
            ),
        crate::fragment::spec_chunks_sorted(received),
        crate::fragment::spec_chunk_map(received) == crate::fragment::spec_chunk_map(sent),
    ensures
        spec_concat_chunks(received) == p,
{
    assert(crate::fragment::spec_chunks_sorted(sent));
    crate::fragment::lemma_reassembly_canonical(sent, received);
    lemma_chunks_rebuild_to(p, sent, sent.len() as int);
    assert(sent.take(sent.len() as int) =~= sent);
    assert(sent.len() * CHUNK_SIZE >= p.len()) by (nonlinear_arith)
        requires
            sent.len() == (p.len() + CHUNK_SIZE - 1) / CHUNK_SIZE as int,
            CHUNK_SIZE > 0,
    ;
    assert(p.take(p.len() as int) =~= p);
}

/// The chunk mapping after the listed arrivals land in order, each
/// stored under its index.
pub open spec fn spec_insert_all(
    m: Map<int, Seq<u8>>,
    arrivals: Seq<(u32, Vec<u8>)>,
) -> Map<int, Seq<u8>>
    decreases arrivals.len(),
{
    if arrivals.len() == 0 {
        m
    } else {
        spec_insert_all(
            m.insert(arrivals[0].0 as int, arrivals[0].1@),
            arrivals.drop_first(),
        )
    }
}

/// Arrivals drawn from one frame's chunks only extend the mapping with
/// indices of that frame, each holding its own chunk's bytes.
proof fn lemma_insert_all_props(
    m: Map<int, Seq<u8>>,
    arrivals: Seq<(u32, Vec<u8>)>,
    p: Seq<u8>,
)
    requires
        forall|k: int| #[trigger] m.dom().contains(k) ==> 0 <= k < spec_chunk_count(p.len() as int)
            && m[k] == spec_chunk_at(p, k),
        forall|t: int|
            0 <= t < arrivals.len() ==> 0 <= (#[trigger] arrivals[t]).0 < spec_chunk_count(
                p.len() as int,
            ) && arrivals[t].1@ == spec_chunk_at(p, arrivals[t].0 as int),
    ensures
        ({
            let r = spec_insert_all(m, arrivals);
            &&& forall|k: int| #[trigger] r.dom().contains(k) ==> 0 <= k < spec_chunk_count(
                p.len() as int,
            ) && r[k] == spec_chunk_at(p, k)
            &&& forall|k: int|
                #[trigger] r.dom().contains(k) <==> (m.dom().contains(k) || exists|t: int|
                    0 <= t < arrivals.len() && (#[trigger] arrivals[t]).0 as int == k)
        }),
    decreases arrivals.len(),
{
    if arrivals.len() > 0 {
        let m2 = m.insert(arrivals[0].0 as int, arrivals[0].1@);
        assert(forall|u: int|
            0 <= u < arrivals.len() - 1 ==> #[trigger] arrivals.drop_first()[u] == arrivals[u
                + 1]);
        lemma_insert_all_props(m2, arrivals.drop_first(), p);
        let r = spec_insert_all(m, arrivals);
        let rr = spec_insert_all(m2, arrivals.drop_first());
        assert(r == rr);
        assert forall|k: int|
            #[trigger] r.dom().contains(k) <==> (m.dom().contains(k) || exists|t: int|
                0 <= t < arrivals.len() && (#[trigger] arrivals[t]).0 as int == k) by {
            assert(rr.dom().contains(k) <==> (m2.dom().contains(k) || exists|t: int|
                0 <= t < arrivals.drop_first().len() && (#[trigger] arrivals.drop_first()[t]).0
                    as int == k));
            if r.dom().contains(k) {
                if m2.dom().contains(k) {
                    if k == arrivals[0].0 as int {
                        assert((arrivals[0]).0 as int == k);
                    } else {
                        assert(m.dom().contains(k));
                    }
                } else {
                    let t = choose|t: int|
                        0 <= t < arrivals.drop_first().len() && (#[trigger] arrivals.drop_first()[
                            t
                        ]).0 as int == k;
                    assert(arrivals.drop_first()[t] == arrivals[t + 1]);
                    assert((arrivals[t + 1]).0 as int == k);
                }
            }
            if m.dom().contains(k) {
                assert(m2.dom().contains(k));
                assert(rr.dom().contains(k));
            }
            if exists|t: int| 0 <= t < arrivals.len() && (#[trigger] arrivals[t]).0 as int == k {
                let t = choose|t: int|
                    0 <= t < arrivals.len() && (#[trigger] arrivals[t]).0 as int == k;
                if t == 0 {
                    assert(m2.dom().contains(k));
                } else {
                    assert(arrivals.drop_first()[t - 1] == arrivals[t]);
                    assert((arrivals.drop_first()[t - 1]).0 as int == k);
                }
                assert(rr.dom().contains(k));
            }
        }
    }
}

/// In a sorted buffer whose indices all lie below its own length, the
/// entry at each position carries exactly that position as its index.
proof fn lemma_sorted_dense(s: Seq<(u32, Vec<u8>)>, i: int)
    requires
        crate::fragment::spec_chunks_sorted(s),
        forall|k: int| 0 <= k < s.len() ==> (#[trigger] s[k]).0 < s.len(),
        0 <= i < s.len(),
    ensures
        s[i].0 as int == i,
    decreases s.len() - i,
{
    if i < s.len() - 1 {
        lemma_sorted_dense(s, i + 1);
        assert(s[i].0 < s[i + 1].0);
    }
    assert(i <= s[i].0 as int) by {
        lemma_sorted_lower(s, i);
    }
}

/// A strictly ascending index sequence grows at least one per step.
proof fn lemma_sorted_lower(s: Seq<(u32, Vec<u8>)>, i: int)
    requires
        crate::fragment::spec_chunks_sorted(s),
        0 <= i < s.len(),
    ensures
        i <= s[i].0 as int,
    decreases i,
{
    if i > 0 {
        lemma_sorted_lower(s, i - 1);
        assert(s[i - 1].0 < s[i].0);
    }
}

/// Some arrival carries chunk index `idx`.
pub open spec fn spec_index_arrives(arrivals: Seq<(u32, Vec<u8>)>, idx: int) -> bool {
    exists|t: int| 0 <= t < arrivals.len() && (#[trigger] arrivals[t]).0 as int == idx
}

/// Arrival order is irrelevant: whatever order the chunks of one frame
/// land in -- duplicates included -- a sorted buffer holding the
/// resulting mapping, once every chunk index has landed, spells back
/// exactly the frame that was cut up.
pub proof fn lemma_arrival_order_irrelevant(
    p: Seq<u8>,
    arrivals: Seq<(u32, Vec<u8>)>,
    received: Seq<(u32, Vec<u8>)>,
)
    requires
        forall|t: int|
            0 <= t < arrivals.len() ==> 0 <= (#[trigger] arrivals[t]).0 < spec_chunk_count(
                p.len() as int,
            ) && arrivals[t].1@ == spec_chunk_at(p, arrivals[t].0 as int),
        forall|idx: int|
            0 <= idx < spec_chunk_count(p.len() as int) ==> #[trigger] spec_index_arrives(
                arrivals,
                idx,
            ),
        crate::fragment::spec_chunks_sorted(received),
        crate::fragment::spec_chunk_map(received) == spec_insert_all(
            Map::empty(),
            arrivals,
        ),
    ensures
        spec_concat_chunks(received) == p,
{
    let count = spec_chunk_count(p.len() as int);
    let m = crate::fragment::spec_chunk_map(received);
    lemma_insert_all_props(Map::empty(), arrivals, p);
    assert(m.dom() =~= vstd::set_lib::set_int_range(0, count)) by {
        assert(forall|k: int| #[trigger] m.dom().contains(k) ==> 0 <= k < count);
        assert forall|k: int| 0 <= k < count implies m.dom().contains(k) by {
            assert(spec_index_arrives(arrivals, k));
        }
    }
    vstd::set_lib::lemma_int_range(0, count);
    crate::fragment::lemma_chunk_count(received);
    assert(received.len() == count);
    assert forall|k: int| 0 <= k < received.len() implies (#[trigger] received[k]).0
        < received.len() by {
        crate::fragment::lemma_chunk_map_has(received, k);
        assert(m.dom().contains(received[k].0 as int));
    }
    assert forall|i: int|
        0 <= i < received.len() implies (#[trigger] received[i]).0 == i && received[i].1@
        == spec_chunk_at(p, i) by {
        lemma_sorted_dense(received, i);
        crate::fragment::lemma_chunk_map_at(received, i);
        assert(m.dom().contains(i)) by {
            crate::fragment::lemma_chunk_map_has(received, i);
        }
        assert(m[i] == spec_chunk_at(p, i));
    }
    lemma_chunks_rebuild_to(p, received, count);
    assert(received.take(count) =~= received);
    assert(count * CHUNK_SIZE >= p.len()) by (nonlinear_arith)
        requires
            count == (p.len() + CHUNK_SIZE - 1) / CHUNK_SIZE as int,
            CHUNK_SIZE > 0,
    ;
    assert(p.take(p.len() as int) =~= p);
}

/// What the sender does with one newly produced frame.
pub enum FramePlan {
    /// The frame repeats the previous one; nothing is sent this time.
    Skip,
    /// The frame repeats the previous one for the thirtieth time; one
    /// heartbeat datagram goes out.
    Heartbeat,
    /// The whole encoded frame goes out.
    Full(Vec<u8>),
    /// A serialized delta against the previous frame goes out.
    Delta(Vec<u8>),
}

/// The sender's memory between frames: the last frame sent (or silently
/// kept), the frame counter, and how many unchanged frames have passed
/// since the last heartbeat.
pub struct FrameSender {
    pub last_frame: Option<Vec<u8>>,
    pub sequence: u32,
    pub heartbeat_counter: u32,
}

impl FrameSender {
    /// A sender that has sent nothing.
    pub fn new() -> (r: FrameSender)
        ensures
            r.last_frame is None,
            r.sequence == 0,
            r.heartbeat_counter == 0,
    {
        FrameSender { last_frame: None, sequence: 0, heartbeat_counter: 0 }
    }

    /// Decides what to send for one newly encoded frame, and the
    /// decision is forced both ways: the full frame exactly when there
    /// is no usable previous frame, the lengths differ, or the run
    /// decomposition's wire form reaches three tenths of the frame; the
    /// serialized decomposition exactly when the frames differ under
    /// that bound; and for a repeated frame nothing -- except one
    /// heartbeat every thirtieth repetition. Always advances the
    /// counter and remembers the frame.
    pub fn plan_frame(&mut self, frame: Vec<u8>) -> (plan: FramePlan)
        requires
            frame@.len() <= 0xffff_ffff,
        ensures
            final(self).sequence == ((old(self).sequence as int + 1) % (SEQUENCE_WRAP as int)) as u32,
            final(self).last_frame matches Some(f) && f@ == frame@,
            match plan {
                FramePlan::Full(p) => {
                    &&& p@ == frame@
                    &&& final(self).heartbeat_counter == 0
                    &&& match old(self).last_frame {
                        None => true,
                        Some(l) => l@.len() != frame@.len() || (l@ != frame@
                            && spec_entries_size(spec_runs(l@, frame@), 0) >= frame@.len() * 3
                            / 10),
                    }
                },
                FramePlan::Delta(bytes) => {
                    &&& old(self).last_frame matches Some(l) && l@.len() == frame@.len() && l@
                        != frame@ && ({
                        let ds = spec_runs(l@, frame@);
                        &&& spec_entries_size(ds, 0) < frame@.len() * 3 / 10
                        &&& bytes@ == spec_serialize(ds)
                        &&& ds.len() > 0
                        &&& spec_deltas_in_bounds(ds, frame@.len() as int)
                        &&& spec_apply(l@, ds) == frame@
                    })
                    &&& final(self).heartbeat_counter == 0
                },
                FramePlan::Heartbeat => {
                    &&& old(self).last_frame matches Some(l) && l@ == frame@
                    &&& old(self).heartbeat_counter + 1 >= HEARTBEAT_INTERVAL
                    &&& final(self).heartbeat_counter == 0
                },
                FramePlan::Skip => {
                    &&& old(self).last_frame matches Some(l) && l@ == frame@
                    &&& old(self).heartbeat_counter + 1 < HEARTBEAT_INTERVAL
                    &&& final(self).heartbeat_counter == old(self).heartbeat_counter + 1
                },
            },
    {
        let seq64 = self.sequence as u64;
        self.sequence = ((seq64 + 1) % (SEQUENCE_WRAP as u64)) as u32;
        let has_prev = match &self.last_frame {
            Some(_) => true,
            None => false,
        };
        let plan = if !has_prev {
            self.heartbeat_counter = 0;
            FramePlan::Full(slice_to_vec(frame.as_slice()))
        } else {
            let prev = match &self.last_frame {
                Some(l) => l,
                None => &frame,
            };
            match create_delta_optimized(prev.as_slice(), frame.as_slice()) {
                None => {
                    self.heartbeat_counter = 0;
                    FramePlan::Full(slice_to_vec(frame.as_slice()))
                },
                Some(deltas) => {
                    if deltas.len() == 0 {
                        if self.heartbeat_counter >= HEARTBEAT_INTERVAL - 1 {
                            self.heartbeat_counter = 0;
                            FramePlan::Heartbeat
                        } else {
                            self.heartbeat_counter = self.heartbeat_counter + 1;
                            FramePlan::Skip
                        }
                    } else {
                        self.heartbeat_counter = 0;
                        proof {
                            assert(forall|i: int|
                                0 <= i < deltas.deep_view().len()
                                    ==> (#[trigger] deltas.deep_view()[i]).offset
                                    + deltas.deep_view()[i].data.len() <= frame@.len());
                            assert(forall|i: int|
                                0 <= i < deltas@.len() ==> #[trigger] deltas@[i]@
                                    == deltas.deep_view()[i]);
                            crate::delta::lemma_entries_size_lower(deltas.deep_view(), 0);
                            assert(deltas.deep_view().len() == deltas@.len());
                            assert(crate::delta::spec_entries_size(deltas.deep_view(), 0)
                                < frame@.len() * 3 / 10);
                            assert(frame@.len() * 3 / 10 <= 0x4ccccccc) by (nonlinear_arith)
                                requires
                                    frame@.len() <= 0xffff_ffff,
                            ;
                            assert(8 * deltas@.len() <= crate::delta::spec_entries_size(
                                deltas.deep_view(),
                                0,
                            ));
                            assert(8 * deltas@.len() < 0x4ccccccd);
                            assert(deltas@.len() < 0x0999999a);
                            assert(deltas@.len() <= 0xffff_ffff);
                            assert forall|i: int|
                                0 <= i < deltas@.len() implies (#[trigger] deltas@[i]).data@.len()
                                <= 0xffff_ffff by {
                                assert(deltas@[i]@ == deltas.deep_view()[i]);
                                assert(0 <= deltas.deep_view()[i].offset);
                                assert(deltas.deep_view()[i].offset + deltas.deep_view()[
                                    i
                                ].data.len() <= frame@.len());
                            }
                        }
                        let bytes = serialize_deltas_optimized(&deltas);
                        FramePlan::Delta(bytes)
                    }
                },
            }
        };
        self.last_frame = Some(frame);
        plan
    }
}

} // verus!
