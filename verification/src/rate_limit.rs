//! Per-source rate limiting of the datagram channel.
//!
//! Each source address has a one-second window and a packet counter; the
//! counter resets lazily on the first packet after the window expires.
//! Sources idle for five minutes are dropped by a periodic cleanup.
//! Addresses and clock readings are plain numbers supplied by the caller.

use vstd::prelude::*;

verus! {

/// Length of one rate window, in milliseconds.
pub const RATE_LIMIT_WINDOW_MS: u64 = 1000;

/// Packets admitted per source per window.
pub const MAX_PACKETS_PER_SECOND: u64 = 5000;

/// Idle time after which a source's record is discarded, in milliseconds.
pub const CLIENT_IDLE_TIMEOUT_MS: u64 = 300000;

/// One source's record: its address handle, when it was last heard, and
/// its packet count within the current window.
pub struct ClientStats {
    pub addr: u64,
    pub last_seen_ms: u64,
    pub packet_count: u64,
    pub rate_window_start_ms: u64,
}

/// What one packet did to its source's record.
pub open spec fn spec_counted(e: ClientStats, post: ClientStats, now: u64) -> bool {
    let fresh_window = now - e.rate_window_start_ms >= RATE_LIMIT_WINDOW_MS;
    &&& post.addr == e.addr
    &&& post.last_seen_ms == now
    &&& post.rate_window_start_ms == (if fresh_window {
        now
    } else {
        e.rate_window_start_ms
    })
    &&& post.packet_count == (if fresh_window {
        1u64
    } else if e.packet_count == u64::MAX {
        u64::MAX
    } else {
        (e.packet_count + 1) as u64
    })
}

/// One packet from `addr` counted at `now`: a new or expired window
/// starts at one, an open window increments, and the packet passes
/// exactly while the window's count stays within the cap.
pub open spec fn spec_rate_checked(
    pre: RateLimiter,
    post: RateLimiter,
    addr: u64,
    now_ms: u64,
    passed: bool,
) -> bool {
    if !(exists|i: int| 0 <= i < pre.clients@.len() && #[trigger] pre.clients@[i].addr == addr) {
        &&& post.clients@.len() == pre.clients@.len() + 1
        &&& (forall|k: int|
            0 <= k < pre.clients@.len() ==> #[trigger] post.clients@[k] == pre.clients@[k])
        &&& post.clients@.last() == (ClientStats {
            addr,
            last_seen_ms: now_ms,
            packet_count: 1,
            rate_window_start_ms: now_ms,
        })
        &&& passed == true
    } else {
        exists|i: int|
            {
                &&& 0 <= i < pre.clients@.len()
                &&& #[trigger] pre.clients@[i].addr == addr
                &&& post.clients@.len() == pre.clients@.len()
                &&& (forall|k: int|
                    0 <= k < pre.clients@.len() && k != i ==> #[trigger] post.clients@[k]
                        == pre.clients@[k])
                &&& spec_counted(pre.clients@[i], post.clients@[i], now_ms)
                &&& passed == (post.clients@[i].packet_count <= MAX_PACKETS_PER_SECOND)
            }
    }
}

/// The record `e` occurs in the list `s`.
pub open spec fn spec_has_record(s: Seq<ClientStats>, e: ClientStats) -> bool {
    exists|j: int| 0 <= j < s.len() && #[trigger] s[j] == e
}

/// The per-source records, one per known address.
pub struct RateLimiter {
    pub clients: Vec<ClientStats>,
}

impl RateLimiter {
    /// At most one record per address, and no timestamp from the future.
    pub open spec fn spec_wf(self, now: int) -> bool {
        &&& forall|i: int, j: int|
            0 <= i < self.clients@.len() && 0 <= j < self.clients@.len()
                && #[trigger] self.clients@[i].addr == #[trigger] self.clients@[j].addr ==> i == j
        &&& forall|i: int|
            0 <= i < self.clients@.len() ==> #[trigger] self.clients@[i].rate_window_start_ms
                <= now && self.clients@[i].last_seen_ms <= now
    }

    /// A limiter that has heard from nobody.
    pub fn new() -> (r: RateLimiter)
        ensures
            r.clients@.len() == 0,
            forall|t: int| r.spec_wf(t),
    {
        RateLimiter { clients: Vec::new() }
    }

    /// Counts one packet from `addr` at time `now_ms` and says whether it
    /// passes: the first `MAX_PACKETS_PER_SECOND` packets of a window do,
    /// every further one in the same window does not. An unknown source,
    /// or a known one whose window has expired, starts a fresh window
    /// with this packet as its first.
    pub fn check_rate_limit(&mut self, addr: u64, now_ms: u64) -> (r: bool)
        requires
            old(self).spec_wf(now_ms as int),
        ensures
            final(self).spec_wf(now_ms as int),
            spec_rate_checked(*old(self), *final(self), addr, now_ms, r),
    {
        let mut i: usize = 0;
        while i < self.clients.len()
            invariant
                0 <= i <= self.clients@.len(),
                *self == *old(self),
                old(self).spec_wf(now_ms as int),
                forall|k: int| 0 <= k < i ==> (#[trigger] self.clients@[k]).addr != addr,
            decreases self.clients@.len() - i,
        {
            if self.clients[i].addr == addr {
                let ghost pre = *self;
                let e = &mut self.clients[i];
                let fresh_window = now_ms - e.rate_window_start_ms >= RATE_LIMIT_WINDOW_MS;
                if fresh_window {
                    e.packet_count = 0;
                    e.rate_window_start_ms = now_ms;
                }
                if e.packet_count < u64::MAX {
                    e.packet_count = e.packet_count + 1;
                }
                e.last_seen_ms = now_ms;
                let passed = e.packet_count <= MAX_PACKETS_PER_SECOND;
                proof {
                    assert(pre.clients@[i as int].addr == addr);
                    assert(spec_counted(pre.clients@[i as int], self.clients@[i as int], now_ms));
                    assert(forall|k: int|
                        0 <= k < pre.clients@.len() && k != i ==> #[trigger] self.clients@[k]
                            == pre.clients@[k]);
                    assert(self.spec_wf(now_ms as int)) by {
                        assert(forall|k: int|
                            0 <= k < self.clients@.len() ==> (#[trigger] self.clients@[k]).addr
                                == pre.clients@[k].addr);
                        assert(self.clients@[i as int].rate_window_start_ms <= now_ms as int);
                        assert(self.clients@[i as int].last_seen_ms <= now_ms as int);
                    }
                }
                return passed;
            }
            i = i + 1;
        }
        let ghost pre = *self;
        self.clients.push(
            ClientStats { addr, last_seen_ms: now_ms, packet_count: 1, rate_window_start_ms: now_ms },
        );
        proof {
            let n = pre.clients@.len() as int;
            assert(forall|k: int| 0 <= k < n ==> #[trigger] self.clients@[k] == pre.clients@[k]);
            assert(!(exists|j: int|
                0 <= j < pre.clients@.len() && #[trigger] pre.clients@[j].addr == addr));
            assert(self.spec_wf(now_ms as int)) by {
                assert forall|i1: int, j1: int|
                    0 <= i1 < self.clients@.len() && 0 <= j1 < self.clients@.len()
                        && #[trigger] self.clients@[i1].addr == #[trigger] self.clients@[j1].addr implies i1
                    == j1 by {
                    if i1 < n && j1 == n {
                        assert(pre.clients@[i1].addr == addr);
                    }
                    if j1 < n && i1 == n {
                        assert(pre.clients@[j1].addr == addr);
                    }
                }
            }
        }
        true
    }

    /// Discards every source not heard from for the idle timeout; the
    /// records that remain keep their order.
    pub fn cleanup(&mut self, now_ms: u64)
        requires
            old(self).spec_wf(now_ms as int),
        ensures
            final(self).spec_wf(now_ms as int),
            final(self).clients@.len() <= old(self).clients@.len(),
            forall|k: int|
                0 <= k < final(self).clients@.len()
                    ==> now_ms - (#[trigger] final(self).clients@[k]).last_seen_ms
                    < CLIENT_IDLE_TIMEOUT_MS,
            forall|k: int|
                0 <= k < final(self).clients@.len() ==> spec_has_record(
                    old(self).clients@,
                    #[trigger] final(self).clients@[k],
                ),
            forall|j: int|
                0 <= j < old(self).clients@.len() && now_ms - (#[trigger] old(
                    self,
                ).clients@[j]).last_seen_ms < CLIENT_IDLE_TIMEOUT_MS ==> spec_has_record(
                    final(self).clients@,
                    old(self).clients@[j],
                ),
    {
        let ghost pre = self.clients@;
        let mut kept: Vec<ClientStats> = Vec::new();
        let ghost mut map: Seq<int> = Seq::empty();
        let mut i: usize = 0;
        while i < self.clients.len()
            invariant
                0 <= i <= self.clients@.len(),
                self.clients@ == pre,
                old(self).spec_wf(now_ms as int),
                pre == old(self).clients@,
                kept@.len() == map.len(),
                kept@.len() <= i,
                forall|k: int|
                    0 <= k < kept@.len() ==> 0 <= #[trigger] map[k] < i && kept@[k] == pre[map[k]],
                forall|k1: int, k2: int| 0 <= k1 < k2 < map.len() ==> #[trigger] map[k1] < #[trigger] map[k2],
                forall|j: int|
                    0 <= j < i && now_ms - #[trigger] pre[j].last_seen_ms < CLIENT_IDLE_TIMEOUT_MS
                        ==> exists|k: int| 0 <= k < map.len() && #[trigger] map[k] == j,
                forall|k: int|
                    0 <= k < kept@.len() ==> now_ms - #[trigger] kept@[k].last_seen_ms
                        < CLIENT_IDLE_TIMEOUT_MS,
            decreases self.clients@.len() - i,
        {
            let e = &self.clients[i];
            let ghost map0 = map;
            proof {
                assert(pre[i as int].rate_window_start_ms <= now_ms as int);
            }
            let keep = now_ms - e.last_seen_ms < CLIENT_IDLE_TIMEOUT_MS;
            if keep {
                kept.push(
                    ClientStats {
                        addr: e.addr,
                        last_seen_ms: e.last_seen_ms,
                        packet_count: e.packet_count,
                        rate_window_start_ms: e.rate_window_start_ms,
                    },
                );
                proof {
                    map = map.push(i as int);
                    assert(map[map.len() - 1] == i as int);
                    assert(kept@.last() == pre[i as int]);
                }
            }
            proof {
                assert forall|j: int|
                    0 <= j < i + 1 && now_ms - (#[trigger] pre[j]).last_seen_ms
                        < CLIENT_IDLE_TIMEOUT_MS implies exists|k: int|
                    0 <= k < map.len() && #[trigger] map[k] == j by {
                    if j < i {
                        let k = choose|k: int| 0 <= k < map0.len() && #[trigger] map0[k] == j;
                        assert(map[k] == j);
                    } else {
                        assert(keep);
                        assert(map[map.len() - 1] == j);
                    }
                }
            }
            i = i + 1;
        }
        self.clients = kept;
        proof {
            assert forall|k: int| 0 <= k < self.clients@.len() implies spec_has_record(
                pre,
                #[trigger] self.clients@[k],
            ) by {
                assert(self.clients@[k] == pre[map[k]]);
            }
            assert forall|j: int|
                0 <= j < pre.len() && now_ms - (#[trigger] pre[j]).last_seen_ms
                    < CLIENT_IDLE_TIMEOUT_MS implies spec_has_record(self.clients@, pre[j]) by {
                let k = choose|k: int| 0 <= k < map.len() && #[trigger] map[k] == j;
                assert(self.clients@[k] == pre[j]);
            }
            assert(self.spec_wf(now_ms as int)) by {
                assert forall|i1: int, j1: int|
                    0 <= i1 < self.clients@.len() && 0 <= j1 < self.clients@.len()
                        && #[trigger] self.clients@[i1].addr == #[trigger] self.clients@[j1].addr implies i1
                    == j1 by {
                    assert(self.clients@[i1] == pre[map[i1]]);
                    assert(self.clients@[j1] == pre[map[j1]]);
                    assert(pre[map[i1]].addr == pre[map[j1]].addr);
                    assert(map[i1] == map[j1]);
                    if i1 < j1 {
                        assert(map[i1] < map[j1]);
                    }
                    if j1 < i1 {
                        assert(map[j1] < map[i1]);
                    }
                }
                assert forall|k: int|
                    0 <= k < self.clients@.len() implies (#[trigger] self.clients@[k]).rate_window_start_ms
                    <= now_ms as int && self.clients@[k].last_seen_ms <= now_ms as int by {
                    assert(self.clients@[k] == pre[map[k]]);
                }
            }
        }
    }
}

} // verus!
