//! The datagram relay's per-packet fast path.
//!
//! A valid inbound datagram is `RoomID || StreamID || media`, with at
//! least one media byte. The relay rate-limits by source, finds the room
//! and the stream's table, learns the sender's address on the stream's
//! first packet, and forwards `StreamID || media` to every other stream
//! of the same table whose address is known. Small fan-outs are sent at
//! once; larger ones are batched.

use vstd::prelude::*;

use crate::rate_limit::{spec_rate_checked, RateLimiter};
use crate::room::StreamEntry;
use crate::server_state::{find_sid, ServerState};
use crate::ID_LEN;
use vstd::slice::{slice_subrange, slice_to_vec};

verus! {

/// Shortest accepted datagram: both identifiers and one media byte.
pub const MIN_PACKET_SIZE: usize = 9;

/// Fan-outs up to this many destinations are sent immediately.
pub const IMMEDIATE_FANOUT: usize = 3;

/// Packets per batch before an early flush.
pub const BATCH_SIZE: usize = 32;

/// Age of a non-empty batch that forces a flush, in milliseconds.
pub const BATCH_TIMEOUT_MS: u64 = 1;

/// Pending packets beyond which new ones are dropped.
pub const BACKPRESSURE_THRESHOLD: usize = 500;

/// The relay's observability counters.
pub struct ServerStats {
    pub packets_received: u64,
    pub packets_forwarded: u64,
    pub packets_dropped: u64,
}

/// `c` plus one, stopping at the counter's ceiling.
pub open spec fn spec_bump(c: u64) -> u64 {
    if c < u64::MAX {
        (c + 1) as u64
    } else {
        c
    }
}

fn bump(c: u64) -> (r: u64)
    ensures
        r == spec_bump(c),
{
    if c < u64::MAX {
        c + 1
    } else {
        c
    }
}

impl ServerStats {
    /// All three counters at zero.
    pub fn new() -> (r: ServerStats)
        ensures
            r.packets_received == 0,
            r.packets_forwarded == 0,
            r.packets_dropped == 0,
    {
        ServerStats { packets_received: 0, packets_forwarded: 0, packets_dropped: 0 }
    }
}

/// The addresses to forward to, in table order: every entry other than
/// the sender's own stream whose address is already known, from `i` on.
pub open spec fn spec_fanout_from(t: Seq<StreamEntry>, sid: Seq<u8>, i: int) -> Seq<u64>
    decreases t.len() - i,
{
    if i < 0 || i >= t.len() {
        Seq::empty()
    } else {
        let rest = spec_fanout_from(t, sid, i + 1);
        if t[i].sid@ != sid && t[i].addr is Some {
            seq![t[i].addr->0] + rest
        } else {
            rest
        }
    }
}

/// Collects the known addresses of every other stream in the table.
fn collect_fanout(t: &Vec<StreamEntry>, sid: &[u8]) -> (r: Vec<u64>)
    ensures
        r@ == spec_fanout_from(t@, sid@, 0),
{
    let mut dests: Vec<u64> = Vec::new();
    let mut i: usize = 0;
    while i < t.len()
        invariant
            0 <= i <= t@.len(),
            dests@ + spec_fanout_from(t@, sid@, i as int) == spec_fanout_from(t@, sid@, 0),
        decreases t@.len() - i,
    {
        let take_it = if crate::byteops::bytes_eq(t[i].sid.as_slice(), sid) {
            false
        } else {
            match t[i].addr {
                Some(_) => true,
                None => false,
            }
        };
        if take_it {
            let a = match t[i].addr {
                Some(a) => a,
                None => 0,
            };
            let ghost before = dests@;
            dests.push(a);
            proof {
                assert(spec_fanout_from(t@, sid@, i as int) == seq![a] + spec_fanout_from(
                    t@,
                    sid@,
                    i + 1,
                ));
                assert(dests@ + spec_fanout_from(t@, sid@, i + 1) =~= before + spec_fanout_from(
                    t@,
                    sid@,
                    i as int,
                ));
            }
        } else {
            proof {
                assert(spec_fanout_from(t@, sid@, i as int) == spec_fanout_from(t@, sid@, i + 1));
            }
        }
        i = i + 1;
    }
    proof {
        assert(dests@ + spec_fanout_from(t@, sid@, t@.len() as int) =~= dests@);
    }
    dests
}

/// What the relay decided to do with one inbound datagram.
pub enum RelayAction {
    /// Shorter than `RoomID || StreamID ||` one byte: ignored silently.
    DropShort,
    /// Beyond the source's window cap: dropped and counted.
    DropRate,
    /// No room with that identifier, or no table with that stream.
    DropUnknown,
    /// Forward the payload (the datagram with the room stripped) to each
    /// destination address.
    Forward { payload: Vec<u8>, dests: Vec<u64> },
}

/// One step of the relay: counts the packet, applies the rate limit,
/// looks the stream up, learns the sender's address on a stream's first
/// packet -- and never overwrites one already learned -- and yields the
/// forwarding decision. Sending, and the forwarded/dropped accounting of
/// the sends themselves, stay with the caller.
pub fn relay_packet(
    state: &mut ServerState,
    limiter: &mut RateLimiter,
    stats: &mut ServerStats,
    buf: &[u8],
    from: u64,
    now_ms: u64,
) -> (r: RelayAction)
    requires
        old(state).spec_wf(),
        old(limiter).spec_wf(now_ms as int),
    ensures
        final(state).spec_wf(),
        final(limiter).spec_wf(now_ms as int),
        final(state).users == old(state).users,
        final(stats).packets_received == spec_bump(old(stats).packets_received),
        final(stats).packets_forwarded == old(stats).packets_forwarded,
        buf@.len() < MIN_PACKET_SIZE ==> r is DropShort && *final(state) == *old(state) && *final(limiter) == *old(limiter) && final(stats).packets_dropped == old(stats).packets_dropped,
        buf@.len() >= MIN_PACKET_SIZE ==> exists|passed: bool|
            {
                &&& #[trigger] spec_rate_checked(*old(limiter), *final(limiter), from, now_ms, passed)
                &&& (!passed ==> r is DropRate && *final(state) == *old(state) && final(stats).packets_dropped == spec_bump(old(stats).packets_dropped))
                &&& (passed ==> final(stats).packets_dropped == old(stats).packets_dropped
                    && spec_looked_up(*old(state), *final(state), buf@, from, r))
            },
{
    stats.packets_received = bump(stats.packets_received);
    if buf.len() < MIN_PACKET_SIZE {
        return RelayAction::DropShort;
    }
    let passed = limiter.check_rate_limit(from, now_ms);
    if !passed {
        stats.packets_dropped = bump(stats.packets_dropped);
        return RelayAction::DropRate;
    }
    let rid = slice_subrange(buf, 0, ID_LEN);
    let sid = slice_subrange(buf, ID_LEN, 2 * ID_LEN);
    let k = match state.find_room_by_id(rid) {
        None => {
            return RelayAction::DropUnknown;
        },
        Some(k) => k,
    };
    let in_video = find_sid(&state.rooms[k].video_streams, sid);
    match in_video {
        Some(j) => {
            let dests = collect_fanout(&state.rooms[k].video_streams, sid);
            let needs_update = match state.rooms[k].video_streams[j].addr {
                None => true,
                Some(_) => false,
            };
            if needs_update {
                state.learn_video_addr(k, j, from);
            }
            let payload = slice_to_vec(slice_subrange(buf, ID_LEN, buf.len()));
            RelayAction::Forward { payload, dests }
        },
        None => {
            let in_audio = find_sid(&state.rooms[k].audio_streams, sid);
            match in_audio {
                Some(j) => {
                    let dests = collect_fanout(&state.rooms[k].audio_streams, sid);
                    let needs_update = match state.rooms[k].audio_streams[j].addr {
                        None => true,
                        Some(_) => false,
                    };
                    if needs_update {
                        state.learn_audio_addr(k, j, from);
                    }
                    let payload = slice_to_vec(slice_subrange(buf, ID_LEN, buf.len()));
                    RelayAction::Forward { payload, dests }
                },
                None => RelayAction::DropUnknown,
            }
        },
    }
}

/// The lookup, learning and fan-out of one admitted datagram against the
/// rooms: an unknown room or stream changes nothing; a known stream
/// forwards `StreamID || media` to the other streams of its table, and
/// binds the sender's address to the stream exactly when none was bound
/// before.
pub open spec fn spec_looked_up(
    pre: ServerState,
    post: ServerState,
    buf: Seq<u8>,
    from: u64,
    r: RelayAction,
) -> bool {
    let rid = buf.subrange(0, ID_LEN as int);
    let sid = buf.subrange(ID_LEN as int, 2 * ID_LEN as int);
    if !pre.spec_has_room_id(rid) {
        r is DropUnknown && post == pre
    } else {
        exists|k: int|
            {
                &&& 0 <= k < pre.rooms@.len()
                &&& #[trigger] pre.rooms@[k].id@ == rid
                &&& spec_room_relayed(pre, post, k, sid, buf, from, r)
            }
    }
}

/// The admitted datagram against its room's two tables.
pub open spec fn spec_room_relayed(
    pre: ServerState,
    post: ServerState,
    k: int,
    sid: Seq<u8>,
    buf: Seq<u8>,
    from: u64,
    r: RelayAction,
) -> bool {
    let pr = pre.rooms@[k];
    if crate::room::spec_table_has(pr.video_streams@, sid) {
        exists|j: int|
            {
                &&& 0 <= j < pr.video_streams@.len()
                &&& #[trigger] pr.video_streams@[j].sid@ == sid
                &&& (r matches RelayAction::Forward { payload, dests } && payload@ == buf.skip(
                    ID_LEN as int,
                ) && dests@ == spec_fanout_from(pr.video_streams@, sid, 0))
                &&& (pr.video_streams@[j].addr is None ==> spec_learned_video(pre, post, k, j, from))
                &&& (pr.video_streams@[j].addr is Some ==> post == pre)
            }
    } else if crate::room::spec_table_has(pr.audio_streams@, sid) {
        exists|j: int|
            {
                &&& 0 <= j < pr.audio_streams@.len()
                &&& #[trigger] pr.audio_streams@[j].sid@ == sid
                &&& (r matches RelayAction::Forward { payload, dests } && payload@ == buf.skip(
                    ID_LEN as int,
                ) && dests@ == spec_fanout_from(pr.audio_streams@, sid, 0))
                &&& (pr.audio_streams@[j].addr is None ==> spec_learned_audio(pre, post, k, j, from))
                &&& (pr.audio_streams@[j].addr is Some ==> post == pre)
            }
    } else {
        r is DropUnknown && post == pre
    }
}

/// The one-shot address binding of a video stream: only slot `j` of room
/// `k` changes, and only its address, from nothing to the sender.
pub open spec fn spec_learned_video(
    pre: ServerState,
    post: ServerState,
    k: int,
    j: int,
    from: u64,
) -> bool {
    let pr = pre.rooms@[k];
    let nr = post.rooms@[k];
    &&& post.users == pre.users
    &&& post.rooms@.len() == pre.rooms@.len()
    &&& (forall|x: int|
        0 <= x < pre.rooms@.len() && x != k ==> #[trigger] post.rooms@[x] == pre.rooms@[x])
    &&& nr.id == pr.id
    &&& nr.name == pr.name
    &&& nr.users == pr.users
    &&& nr.audio_streams == pr.audio_streams
    &&& nr.video_streams@.len() == pr.video_streams@.len()
    &&& (forall|m: int|
        0 <= m < pr.video_streams@.len() && m != j ==> #[trigger] nr.video_streams@[m]
            == pr.video_streams@[m])
    &&& nr.video_streams@[j].sid == pr.video_streams@[j].sid
    &&& nr.video_streams@[j].addr == Some(from)
}

/// The one-shot address binding of an audio stream.
pub open spec fn spec_learned_audio(
    pre: ServerState,
    post: ServerState,
    k: int,
    j: int,
    from: u64,
) -> bool {
    let pr = pre.rooms@[k];
    let nr = post.rooms@[k];
    &&& post.users == pre.users
    &&& post.rooms@.len() == pre.rooms@.len()
    &&& (forall|x: int|
        0 <= x < pre.rooms@.len() && x != k ==> #[trigger] post.rooms@[x] == pre.rooms@[x])
    &&& nr.id == pr.id
    &&& nr.name == pr.name
    &&& nr.users == pr.users
    &&& nr.video_streams == pr.video_streams
    &&& nr.audio_streams@.len() == pr.audio_streams@.len()
    &&& (forall|m: int|
        0 <= m < pr.audio_streams@.len() && m != j ==> #[trigger] nr.audio_streams@[m]
            == pr.audio_streams@[m])
    &&& nr.audio_streams@[j].sid == pr.audio_streams@[j].sid
    &&& nr.audio_streams@[j].addr == Some(from)
}

/// Pending forwarded packets awaiting one batched send.
pub struct PacketBatch {
    pub packets: Vec<(Vec<u8>, Vec<u64>)>,
    pub last_flush_ms: u64,
}

impl PacketBatch {
    /// An empty batch, flushed as of `now_ms`.
    pub fn new(now_ms: u64) -> (r: PacketBatch)
        ensures
            r.packets@.len() == 0,
            r.last_flush_ms == now_ms,
    {
        PacketBatch { packets: Vec::new(), last_flush_ms: now_ms }
    }

    /// A batch is flushed when full, or non-empty and older than the
    /// batch timeout.
    pub fn should_flush(&self, now_ms: u64) -> (r: bool)
        requires
            self.last_flush_ms <= now_ms,
        ensures
            r == (self.packets@.len() >= BATCH_SIZE || (self.packets@.len() > 0 && now_ms
                - self.last_flush_ms >= BATCH_TIMEOUT_MS)),
    {
        self.packets.len() >= BATCH_SIZE || (self.packets.len() > 0 && now_ms - self.last_flush_ms
            >= BATCH_TIMEOUT_MS)
    }

    /// Queues one payload with its destinations.
    pub fn add_packet(&mut self, payload: Vec<u8>, destinations: Vec<u64>)
        ensures
            final(self).packets@ == old(self).packets@.push((payload, destinations)),
            final(self).last_flush_ms == old(self).last_flush_ms,
    {
        self.packets.push((payload, destinations));
    }

    /// Empties the batch and restarts its age.
    pub fn clear(&mut self, now_ms: u64)
        ensures
            final(self).packets@.len() == 0,
            final(self).last_flush_ms == now_ms,
    {
        self.packets.clear();
        self.last_flush_ms = now_ms;
    }
}

/// Where one forwarded packet goes next.
pub enum RouteAction {
    /// The batch is over its threshold: the packet is dropped, counted.
    DropBackpressure,
    /// Few destinations: the caller sends it on the socket now.
    SendNow,
    /// Queued on the batch; when `flush` is set the caller must flush
    /// the whole batch now.
    Queued { flush: bool },
}

/// Routes one forwarded payload: drops it when the batch is saturated,
/// sends small fan-outs immediately, and otherwise queues it, asking for
/// a flush when the batch has filled or aged past its timeout.
pub fn route_forward(
    batch: &mut PacketBatch,
    stats: &mut ServerStats,
    payload: Vec<u8>,
    dests: Vec<u64>,
    now_ms: u64,
) -> (r: RouteAction)
    requires
        old(batch).last_flush_ms <= now_ms,
    ensures
        final(batch).last_flush_ms == old(batch).last_flush_ms,
        final(stats).packets_received == old(stats).packets_received,
        final(stats).packets_forwarded == old(stats).packets_forwarded,
        old(batch).packets@.len() >= BACKPRESSURE_THRESHOLD ==> r is DropBackpressure && *final(batch) == *old(batch) && final(stats).packets_dropped == spec_bump(old(stats).packets_dropped),
        old(batch).packets@.len() < BACKPRESSURE_THRESHOLD && dests@.len() <= IMMEDIATE_FANOUT
            ==> r is SendNow && *final(batch) == *old(batch) && final(stats).packets_dropped == old(stats).packets_dropped,
        old(batch).packets@.len() < BACKPRESSURE_THRESHOLD && dests@.len() > IMMEDIATE_FANOUT ==> {
            &&& final(batch).packets@ == old(batch).packets@.push((payload, dests))
            &&& final(stats).packets_dropped == old(stats).packets_dropped
            &&& (r matches RouteAction::Queued { flush } && flush == (final(batch).packets@.len()
                >= BATCH_SIZE || now_ms - final(batch).last_flush_ms >= BATCH_TIMEOUT_MS))
        },
{
    if batch.packets.len() >= BACKPRESSURE_THRESHOLD {
        stats.packets_dropped = bump(stats.packets_dropped);
        return RouteAction::DropBackpressure;
    }
    if dests.len() <= IMMEDIATE_FANOUT {
        return RouteAction::SendNow;
    }
    batch.add_packet(payload, dests);
    let flush = batch.should_flush(now_ms);
    RouteAction::Queued { flush }
}

} // verus!
