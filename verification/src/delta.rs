//! Delta compression of media frames.
//!
//! A delta is a list of byte-range replacements against the previous frame
//! of the same length. On the wire it is a big-endian count followed by
//! `offset(4) || len(4) || bytes(len)` per entry. A sender falls back to a
//! full frame when the two frames differ in length or the delta would reach
//! three tenths of the frame size.

use vstd::prelude::*;

use crate::byteops::{push_bytes, push_u32_be, read_u32_be, spec_u32_be, spec_u32_from_be};
use vstd::slice::{slice_subrange, slice_to_vec};

verus! {

/// One run of replaced bytes: the frame offset and the new bytes.
#[derive(Debug, Clone, PartialEq)]
pub struct DeltaChunk {
    pub offset: u32,
    pub data: Vec<u8>,
}

/// The mathematical value of a [`DeltaChunk`].
pub struct DeltaChunkV {
    pub offset: int,
    pub data: Seq<u8>,
}

impl View for DeltaChunk {
    type V = DeltaChunkV;

    open spec fn view(&self) -> DeltaChunkV {
        DeltaChunkV { offset: self.offset as int, data: self.data@ }
    }
}

impl DeepView for DeltaChunk {
    type V = DeltaChunkV;

    open spec fn deep_view(&self) -> DeltaChunkV {
        self@
    }
}

/// Every entry replaces a range that lies inside a frame of `n` bytes.
pub open spec fn spec_deltas_in_bounds(ds: Seq<DeltaChunkV>, n: int) -> bool {
    forall|i: int|
        0 <= i < ds.len() ==> 0 <= #[trigger] ds[i].offset && ds[i].offset + ds[i].data.len() <= n
}

/// `base` with the range of one entry replaced by its bytes.
pub open spec fn spec_apply_one(base: Seq<u8>, d: DeltaChunkV) -> Seq<u8> {
    Seq::new(
        base.len(),
        |i: int|
            if d.offset <= i < d.offset + d.data.len() {
                d.data[i - d.offset]
            } else {
                base[i]
            },
    )
}

/// `base` with every entry applied, first to last.
pub open spec fn spec_apply(base: Seq<u8>, ds: Seq<DeltaChunkV>) -> Seq<u8>
    decreases ds.len(),
{
    if ds.len() == 0 {
        base
    } else {
        spec_apply(spec_apply_one(base, ds[0]), ds.drop_first())
    }
}

/// Applying one more entry after a list applies the list, then the entry.
pub proof fn lemma_apply_snoc(base: Seq<u8>, ds: Seq<DeltaChunkV>, d: DeltaChunkV)
    ensures
        spec_apply(base, ds.push(d)) == spec_apply_one(spec_apply(base, ds), d),
    decreases ds.len(),
{
    if ds.len() == 0 {
        assert(ds.push(d)[0] == d);
        assert(ds.push(d).drop_first() =~= Seq::<DeltaChunkV>::empty());
        assert(spec_apply(base, ds.push(d)) == spec_apply(spec_apply_one(base, d), Seq::empty()));
    } else {
        assert(ds.push(d)[0] == ds[0]);
        assert(ds.push(d).drop_first() =~= ds.drop_first().push(d));
        lemma_apply_snoc(spec_apply_one(base, ds[0]), ds.drop_first(), d);
    }
}

/// Bytes of equality between two runs of change below which the runs are
/// merged into one entry (a quarter of this block size).
pub const MIN_BLOCK_SIZE: usize = 64;

/// The wire size of the entries of `ds` from index `i` on: eight header
/// bytes plus the data of each.
pub open spec fn spec_entries_size(ds: Seq<DeltaChunkV>, i: int) -> int
    decreases ds.len() - i,
{
    if i < 0 || i >= ds.len() {
        0
    } else {
        8 + ds[i].data.len() + spec_entries_size(ds, i + 1)
    }
}

/// Appending an entry grows the wire size by its header and data.
pub proof fn lemma_entries_size_snoc(ds: Seq<DeltaChunkV>, d: DeltaChunkV)
    ensures
        spec_entries_size(ds.push(d), 0) == spec_entries_size(ds, 0) + 8 + d.data.len(),
{
    lemma_entries_size_snoc_from(ds, d, 0);
}

proof fn lemma_entries_size_snoc_from(ds: Seq<DeltaChunkV>, d: DeltaChunkV, i: int)
    requires
        0 <= i <= ds.len(),
    ensures
        spec_entries_size(ds.push(d), i) == spec_entries_size(ds, i) + 8 + d.data.len(),
    decreases ds.len() - i,
{
    if i == ds.len() {
        assert(spec_entries_size(ds.push(d), i) == 8 + d.data.len() + spec_entries_size(
            ds.push(d),
            i + 1,
        ));
    } else {
        lemma_entries_size_snoc_from(ds, d, i + 1);
        assert(ds.push(d)[i] == ds[i]);
    }
}

/// Every entry costs at least its eight header bytes.
pub proof fn lemma_entries_size_lower(ds: Seq<DeltaChunkV>, i: int)
    requires
        0 <= i <= ds.len(),
    ensures
        spec_entries_size(ds, i) >= 8 * (ds.len() - i),
    decreases ds.len() - i,
{
    if i < ds.len() {
        lemma_entries_size_lower(ds, i + 1);
    }
}

/// The first position at or after `i` where the frames differ, or the
/// end where none does.
pub open spec fn spec_skip_eq(o: Seq<u8>, n: Seq<u8>, i: int) -> int
    recommends
        o.len() == n.len(),
        0 <= i <= n.len(),
    decreases n.len() - i,
{
    if i < 0 || i >= n.len() {
        n.len() as int
    } else if o[i] == n[i] {
        spec_skip_eq(o, n, i + 1)
    } else {
        i
    }
}

/// The first position at or after `i` where the frames agree, or the
/// end where none does.
pub open spec fn spec_skip_neq(o: Seq<u8>, n: Seq<u8>, i: int) -> int
    recommends
        o.len() == n.len(),
        0 <= i <= n.len(),
    decreases n.len() - i,
{
    if i < 0 || i >= n.len() {
        n.len() as int
    } else if o[i] != n[i] {
        spec_skip_neq(o, n, i + 1)
    } else {
        i
    }
}

/// How many equal bytes follow position `i`, counted up to `cap` and
/// stopped at the first difference.
pub open spec fn spec_eq_count(o: Seq<u8>, n: Seq<u8>, i: int, cap: int) -> int
    recommends
        o.len() == n.len(),
        0 <= i,
        i + cap <= n.len(),
    decreases cap,
{
    if cap <= 0 || i < 0 || i >= n.len() || o[i] != n[i] {
        0
    } else {
        1 + spec_eq_count(o, n, i + 1, cap - 1)
    }
}

/// Where the run of change starting at the differing position `s` ends:
/// past every differing byte, and past a stretch of fewer than
/// `MIN_BLOCK_SIZE / 4` equal bytes (looking ahead at most
/// `MIN_BLOCK_SIZE`), which is absorbed rather than split off.
pub open spec fn spec_run_end(o: Seq<u8>, n: Seq<u8>, s: int) -> int
    recommends
        o.len() == n.len(),
        0 <= s < n.len(),
        o[s] != n[s],
{
    let d = spec_skip_neq(o, n, s + 1);
    let cap = if MIN_BLOCK_SIZE < n.len() - d {
        MIN_BLOCK_SIZE as int
    } else {
        n.len() - d
    };
    let c = spec_eq_count(o, n, d, cap);
    if c < MIN_BLOCK_SIZE as int / 4 {
        spec_skip_neq(o, n, d + c)
    } else {
        d
    }
}

/// The run decomposition of two equally long frames from position `i`
/// on: one entry per run of change, carrying the new frame's bytes over
/// the run's range.
pub open spec fn spec_runs_from(o: Seq<u8>, n: Seq<u8>, i: int) -> Seq<DeltaChunkV>
    recommends
        o.len() == n.len(),
        0 <= i <= n.len(),
    decreases n.len() - i,
    when o.len() == n.len() && 0 <= i <= n.len()
    via spec_runs_from_decreases
{
    let s = spec_skip_eq(o, n, i);
    if s >= n.len() {
        Seq::empty()
    } else {
        let e = spec_run_end(o, n, s);
        seq![DeltaChunkV { offset: s, data: n.subrange(s, e) }] + spec_runs_from(o, n, e)
    }
}

#[via_fn]
proof fn spec_runs_from_decreases(o: Seq<u8>, n: Seq<u8>, i: int) {
    lemma_skip_eq_bounds(o, n, i);
    let s = spec_skip_eq(o, n, i);
    if s < n.len() {
        lemma_run_end_bounds(o, n, s);
    }
}

/// The whole run decomposition of two equally long frames.
pub open spec fn spec_runs(o: Seq<u8>, n: Seq<u8>) -> Seq<DeltaChunkV> {
    spec_runs_from(o, n, 0)
}

/// The skipped stretch is equal byte for byte and ends at a difference
/// or at the end of the frames.
pub proof fn lemma_skip_eq_bounds(o: Seq<u8>, n: Seq<u8>, i: int)
    requires
        o.len() == n.len(),
        0 <= i <= n.len(),
    ensures
        i <= spec_skip_eq(o, n, i) <= n.len(),
        forall|j: int| i <= j < spec_skip_eq(o, n, i) ==> o[j] == #[trigger] n[j],
        spec_skip_eq(o, n, i) < n.len() ==> o[spec_skip_eq(o, n, i)] != n[spec_skip_eq(o, n, i)],
    decreases n.len() - i,
{
    if i < n.len() && o[i] == n[i] {
        lemma_skip_eq_bounds(o, n, i + 1);
    }
}

/// The skipped stretch differs byte for byte and ends at an agreement
/// or at the end of the frames.
pub proof fn lemma_skip_neq_bounds(o: Seq<u8>, n: Seq<u8>, i: int)
    requires
        o.len() == n.len(),
        0 <= i <= n.len(),
    ensures
        i <= spec_skip_neq(o, n, i) <= n.len(),
        forall|j: int| i <= j < spec_skip_neq(o, n, i) ==> o[j] != #[trigger] n[j],
        spec_skip_neq(o, n, i) < n.len() ==> o[spec_skip_neq(o, n, i)] == n[spec_skip_neq(
            o,
            n,
            i,
        )],
    decreases n.len() - i,
{
    if i < n.len() && o[i] != n[i] {
        lemma_skip_neq_bounds(o, n, i + 1);
    }
}

/// The count stays within its cap, covers equal bytes only, and stops
/// short of the cap only at a difference.
pub proof fn lemma_eq_count_bounds(o: Seq<u8>, n: Seq<u8>, i: int, cap: int)
    requires
        o.len() == n.len(),
        0 <= i,
        0 <= cap,
        i + cap <= n.len(),
    ensures
        0 <= spec_eq_count(o, n, i, cap) <= cap,
        forall|j: int| i <= j < i + spec_eq_count(o, n, i, cap) ==> o[j] == #[trigger] n[j],
        spec_eq_count(o, n, i, cap) < cap ==> o[i + spec_eq_count(o, n, i, cap)] != n[i
            + spec_eq_count(o, n, i, cap)],
    decreases cap,
{
    if !(cap <= 0 || i >= n.len() || o[i] != n[i]) {
        lemma_eq_count_bounds(o, n, i + 1, cap - 1);
    }
}

/// A run ends strictly past where it starts, within the frames, and --
/// unless it reaches the end -- on an equal byte.
pub proof fn lemma_run_end_bounds(o: Seq<u8>, n: Seq<u8>, s: int)
    requires
        o.len() == n.len(),
        0 <= s < n.len(),
    ensures
        s < spec_run_end(o, n, s) <= n.len(),
        spec_run_end(o, n, s) < n.len() ==> o[spec_run_end(o, n, s)] == n[spec_run_end(o, n, s)],
{
    lemma_skip_neq_bounds(o, n, s + 1);
    let d = spec_skip_neq(o, n, s + 1);
    let cap = if MIN_BLOCK_SIZE < n.len() - d {
        MIN_BLOCK_SIZE as int
    } else {
        n.len() - d
    };
    lemma_eq_count_bounds(o, n, d, cap);
    let c = spec_eq_count(o, n, d, cap);
    if c < MIN_BLOCK_SIZE as int / 4 {
        lemma_skip_neq_bounds(o, n, d + c);
    }
}

/// Position `j` falls inside some entry of the list.
pub open spec fn spec_covered(ds: Seq<DeltaChunkV>, j: int) -> bool {
    exists|k: int|
        0 <= k < ds.len() && (#[trigger] ds[k]).offset <= j < ds[k].offset + ds[k].data.len()
}

/// The shape of the run decomposition: every entry starts at a
/// differing byte at or after `i`, carries at least one byte of the new
/// frame over its own range, entries sit strictly apart in ascending
/// order, and every differing byte from `i` on falls inside one.
pub proof fn lemma_runs_from_structure(o: Seq<u8>, n: Seq<u8>, i: int)
    requires
        o.len() == n.len(),
        0 <= i <= n.len(),
    ensures
        ({
            let ds = spec_runs_from(o, n, i);
            &&& forall|k: int|
                0 <= k < ds.len() ==> i <= (#[trigger] ds[k]).offset && ds[k].offset
                    + ds[k].data.len() <= n.len() && ds[k].data.len() >= 1 && ds[k].data
                    == n.subrange(ds[k].offset, ds[k].offset + ds[k].data.len()) && o[ds[k].offset]
                    != n[ds[k].offset]
            &&& forall|k: int|
                0 <= k < ds.len() - 1 ==> (#[trigger] ds[k]).offset + ds[k].data.len() < ds[k
                    + 1].offset
            &&& forall|j: int| i <= j < n.len() && o[j] != #[trigger] n[j] ==> spec_covered(ds, j)
        }),
    decreases n.len() - i,
{
    lemma_skip_eq_bounds(o, n, i);
    let s = spec_skip_eq(o, n, i);
    let ds = spec_runs_from(o, n, i);
    if s >= n.len() {
        assert(ds =~= Seq::<DeltaChunkV>::empty());
        assert forall|j: int| i <= j < n.len() && o[j] != #[trigger] n[j] implies spec_covered(
            ds,
            j,
        ) by {
            assert(o[j] == n[j]);
        }
    } else {
        lemma_run_end_bounds(o, n, s);
        let e = spec_run_end(o, n, s);
        let head = DeltaChunkV { offset: s, data: n.subrange(s, e) };
        let tail = spec_runs_from(o, n, e);
        lemma_runs_from_structure(o, n, e);
        assert(ds == seq![head] + tail);
        assert(ds[0] == head);
        assert(forall|k: int| 1 <= k < ds.len() ==> #[trigger] ds[k] == tail[k - 1]);
        // The head ends on an equal byte (or the end), so the next run,
        // which starts on a differing one, sits strictly past it.
        assert forall|k: int|
            0 <= k < ds.len() - 1 implies (#[trigger] ds[k]).offset + ds[k].data.len() < ds[k
            + 1].offset by {
            if k == 0 {
                assert(ds[1] == tail[0]);
                assert(e <= tail[0].offset);
                assert(o[tail[0].offset] != n[tail[0].offset]);
                assert(tail[0].offset != e);
            } else {
                assert(ds[k] == tail[k - 1]);
                assert(ds[k + 1] == tail[k]);
            }
        }
        assert forall|j: int| i <= j < n.len() && o[j] != #[trigger] n[j] implies spec_covered(
            ds,
            j,
        ) by {
            if j < s {
                assert(o[j] == n[j]);
            } else if j < e {
                assert(ds[0].offset <= j < ds[0].offset + ds[0].data.len());
            } else {
                assert(spec_covered(tail, j));
                let k = choose|k: int|
                    0 <= k < tail.len() && (#[trigger] tail[k]).offset <= j < tail[k].offset
                        + tail[k].data.len();
                assert(ds[k + 1] == tail[k]);
                assert((ds[k + 1]).offset <= j < ds[k + 1].offset + ds[k + 1].data.len());
            }
        }
    }
}

/// The shape of the whole run decomposition of two equally long frames.
pub proof fn lemma_runs_structure(o: Seq<u8>, n: Seq<u8>)
    requires
        o.len() == n.len(),
    ensures
        ({
            let ds = spec_runs(o, n);
            &&& forall|k: int|
                0 <= k < ds.len() ==> 0 <= (#[trigger] ds[k]).offset && ds[k].offset
                    + ds[k].data.len() <= n.len() && ds[k].data.len() >= 1 && ds[k].data
                    == n.subrange(ds[k].offset, ds[k].offset + ds[k].data.len()) && o[ds[k].offset]
                    != n[ds[k].offset]
            &&& forall|k: int|
                0 <= k < ds.len() - 1 ==> (#[trigger] ds[k]).offset + ds[k].data.len() < ds[k
                    + 1].offset
            &&& forall|j: int| 0 <= j < n.len() && o[j] != #[trigger] n[j] ==> spec_covered(ds, j)
        }),
{
    lemma_runs_from_structure(o, n, 0);
}

/// The wire size of concatenated entry lists adds up.
pub proof fn lemma_entries_size_concat(a: Seq<DeltaChunkV>, b: Seq<DeltaChunkV>, i: int)
    requires
        0 <= i <= a.len(),
    ensures
        spec_entries_size(a + b, i) == spec_entries_size(a, i) + spec_entries_size(b, 0),
    decreases a.len() - i,
{
    if i == a.len() {
        lemma_entries_size_offset(a, b, 0);
    } else {
        assert((a + b)[i] == a[i]);
        lemma_entries_size_concat(a, b, i + 1);
    }
}

proof fn lemma_entries_size_offset(a: Seq<DeltaChunkV>, b: Seq<DeltaChunkV>, k: int)
    requires
        0 <= k <= b.len(),
    ensures
        spec_entries_size(a + b, a.len() + k) == spec_entries_size(b, k),
    decreases b.len() - k,
{
    if k < b.len() {
        assert((a + b)[a.len() + k] == b[k]);
        lemma_entries_size_offset(a, b, k + 1);
    }
}

/// The frame as rebuilt up to position `i`: the new bytes before `i`, the
/// old bytes from `i` on.
pub open spec fn spec_hybrid(o: Seq<u8>, n: Seq<u8>, i: int) -> Seq<u8> {
    Seq::new(
        o.len(),
        |k: int|
            if k < i {
                n[k]
            } else {
                o[k]
            },
    )
}

/// Computes the list of differing runs between two equally long frames.
/// `None` when the lengths differ, or when the runs' wire form would reach
/// three tenths of the frame size and a full frame is cheaper. An empty
/// list means the frames are equal; applying the list to the old frame
/// always rebuilds the new one.
#[verifier::loop_isolation(false)]
#[verifier::rlimit(80)]
pub fn create_delta_optimized(old_frame: &[u8], new_frame: &[u8]) -> (r: Option<Vec<DeltaChunk>>)
    requires
        new_frame@.len() <= 0xffff_ffff,
    ensures
        r is None <==> (old_frame@.len() != new_frame@.len() || (old_frame@ != new_frame@
            && spec_entries_size(spec_runs(old_frame@, new_frame@), 0) >= new_frame@.len() * 3
            / 10)),
        r matches Some(ds) ==> ds.deep_view() == spec_runs(old_frame@, new_frame@),
        old_frame@ == new_frame@ ==> (r matches Some(ds) && ds@.len() == 0),
        r matches Some(ds) ==> {
            &&& spec_deltas_in_bounds(ds.deep_view(), new_frame@.len() as int)
            &&& spec_apply(old_frame@, ds.deep_view()) == new_frame@
            &&& (ds@.len() == 0 <==> old_frame@ == new_frame@)
            &&& 4 + spec_entries_size(ds.deep_view(), 0) < 4 + new_frame@.len() * 3 / 10 || ds@.len()
                == 0
        },
{
    let len = new_frame.len();
    if old_frame.len() != len {
        return None;
    }
    let threshold_size: u64 = (len as u64) * 3 / 10;
    let mut deltas: Vec<DeltaChunk> = Vec::new();
    let mut total_delta_size: u64 = 0;
    let mut i: usize = 0;
    let ghost mut diff_wit: int = 0;
    proof {
        assert(deltas.deep_view() =~= Seq::<DeltaChunkV>::empty());
        assert(spec_hybrid(old_frame@, new_frame@, 0) =~= old_frame@);
        assert(Seq::<DeltaChunkV>::empty() + spec_runs_from(old_frame@, new_frame@, 0)
            =~= spec_runs(old_frame@, new_frame@));
    }
    while i < len
        invariant
            0 <= i <= len,
            deltas.deep_view().len() == deltas@.len(),
            forall|k: int| 0 <= k < deltas@.len() ==> #[trigger] deltas.deep_view()[k]
                == deltas@[k]@,
            spec_deltas_in_bounds(deltas.deep_view(), len as int),
            spec_apply(old_frame@, deltas.deep_view()) == spec_hybrid(
                old_frame@,
                new_frame@,
                i as int,
            ),
            deltas.deep_view() + spec_runs_from(old_frame@, new_frame@, i as int) == spec_runs(
                old_frame@,
                new_frame@,
            ),
            deltas@.len() > 0 ==> 0 <= diff_wit < len && old_frame@[diff_wit]
                != new_frame@[diff_wit],
            total_delta_size as int == spec_entries_size(deltas.deep_view(), 0),
            total_delta_size < threshold_size || deltas@.len() == 0,
        decreases len - i,
    {
        let ghost iter_start = i as int;
        while i < len && old_frame[i] == new_frame[i]
            invariant
                iter_start <= i <= len,
                spec_apply(old_frame@, deltas.deep_view()) == spec_hybrid(
                    old_frame@,
                    new_frame@,
                    i as int,
                ),
                spec_runs_from(old_frame@, new_frame@, i as int) == spec_runs_from(
                    old_frame@,
                    new_frame@,
                    iter_start,
                ),
            decreases len - i,
        {
            proof {
                assert(spec_hybrid(old_frame@, new_frame@, i + 1) =~= spec_hybrid(
                    old_frame@,
                    new_frame@,
                    i as int,
                ));
                assert(spec_skip_eq(old_frame@, new_frame@, i as int) == spec_skip_eq(
                    old_frame@,
                    new_frame@,
                    i + 1,
                ));
                assert(spec_runs_from(old_frame@, new_frame@, i as int) == spec_runs_from(
                    old_frame@,
                    new_frame@,
                    i + 1,
                ));
            }
            i = i + 1;
        }
        if i >= len {
            break ;
        }
        let start = i;
        proof {
            diff_wit = start as int;
            assert(spec_skip_eq(old_frame@, new_frame@, start as int) == start);
            assert(deltas.deep_view() + spec_runs_from(old_frame@, new_frame@, start as int)
                == spec_runs(old_frame@, new_frame@));
        }
        i = i + 1;
        while i < len && old_frame[i] != new_frame[i]
            invariant
                start < i <= len,
                spec_skip_neq(old_frame@, new_frame@, i as int) == spec_skip_neq(
                    old_frame@,
                    new_frame@,
                    start + 1,
                ),
            decreases len - i,
        {
            proof {
                assert(spec_skip_neq(old_frame@, new_frame@, i as int) == spec_skip_neq(
                    old_frame@,
                    new_frame@,
                    i + 1,
                ));
            }
            i = i + 1;
        }
        let ghost dpos = i as int;
        proof {
            assert(spec_skip_neq(old_frame@, new_frame@, i as int) == i);
            assert(dpos == spec_skip_neq(old_frame@, new_frame@, start + 1));
        }
        let lookahead = if MIN_BLOCK_SIZE < len - i {
            MIN_BLOCK_SIZE
        } else {
            len - i
        };
        let mut identical_count: usize = 0;
        while i + identical_count < len && identical_count < lookahead && old_frame[i
            + identical_count] == new_frame[i + identical_count]
            invariant
                0 <= identical_count <= lookahead,
                lookahead <= len - i,
                spec_eq_count(old_frame@, new_frame@, dpos, lookahead as int) == identical_count
                    + spec_eq_count(
                    old_frame@,
                    new_frame@,
                    dpos + identical_count,
                    lookahead - identical_count,
                ),
            decreases lookahead - identical_count,
        {
            proof {
                assert(spec_eq_count(
                    old_frame@,
                    new_frame@,
                    dpos + identical_count,
                    lookahead - identical_count,
                ) == 1 + spec_eq_count(
                    old_frame@,
                    new_frame@,
                    dpos + identical_count + 1,
                    lookahead - identical_count - 1,
                ));
            }
            identical_count = identical_count + 1;
        }
        let ghost cnt = identical_count as int;
        proof {
            assert(spec_eq_count(old_frame@, new_frame@, dpos + cnt, lookahead - cnt) == 0);
            assert(cnt == spec_eq_count(old_frame@, new_frame@, dpos, lookahead as int));
        }
        if identical_count < MIN_BLOCK_SIZE / 4 {
            i = i + identical_count;
            while i < len && old_frame[i] != new_frame[i]
                invariant
                    start < i <= len,
                    spec_skip_neq(old_frame@, new_frame@, i as int) == spec_skip_neq(
                        old_frame@,
                        new_frame@,
                        dpos + cnt,
                    ),
                decreases len - i,
            {
                proof {
                    assert(spec_skip_neq(old_frame@, new_frame@, i as int) == spec_skip_neq(
                        old_frame@,
                        new_frame@,
                        i + 1,
                    ));
                }
                i = i + 1;
            }
            proof {
                assert(spec_skip_neq(old_frame@, new_frame@, i as int) == i);
            }
        }
        proof {
            assert(i as int == spec_run_end(old_frame@, new_frame@, start as int));
        }
        let ghost d = DeltaChunkV {
            offset: start as int,
            data: new_frame@.subrange(start as int, i as int),
        };
        proof {
            assert(spec_runs_from(old_frame@, new_frame@, start as int) == seq![d]
                + spec_runs_from(old_frame@, new_frame@, i as int));
        }
        let chunk_size = i - start;
        total_delta_size = total_delta_size + (chunk_size as u64 + 8);
        if total_delta_size >= threshold_size {
            proof {
                let rest = spec_runs_from(old_frame@, new_frame@, i as int);
                lemma_entries_size_concat(deltas.deep_view(), seq![d] + rest, 0);
                lemma_entries_size_concat(seq![d], rest, 0);
                assert(seq![d][0] == d);
                assert(spec_entries_size(seq![d], 1) == 0);
                assert(spec_entries_size(seq![d], 0) == 8 + d.data.len());
                lemma_entries_size_lower(rest, 0);
                assert(spec_runs(old_frame@, new_frame@) == deltas.deep_view() + (seq![d]
                    + rest));
                assert(spec_entries_size(spec_runs(old_frame@, new_frame@), 0)
                    >= total_delta_size as int);
                assert(old_frame@ != new_frame@);
            }
            return None;
        }
        let data = vstd::slice::slice_to_vec(vstd::slice::slice_subrange(new_frame, start, i));
        let ghost before = deltas.deep_view();
        deltas.push(DeltaChunk { offset: start as u32, data });
        proof {
            assert(deltas.deep_view() =~= before.push(d)) by {
                assert(deltas.deep_view().len() == before.len() + 1);
                assert(forall|k: int|
                    0 <= k < before.len() ==> #[trigger] deltas.deep_view()[k] == deltas@[k]@);
                assert(deltas.deep_view()[before.len() as int] == deltas@[before.len() as int]@);
            }
            lemma_apply_snoc(old_frame@, before, d);
            assert(spec_apply_one(
                spec_hybrid(old_frame@, new_frame@, start as int),
                d,
            ) =~= spec_hybrid(old_frame@, new_frame@, i as int));
            lemma_entries_size_snoc(before, d);
            assert(deltas.deep_view() + spec_runs_from(old_frame@, new_frame@, i as int)
                =~= before + (seq![d] + spec_runs_from(old_frame@, new_frame@, i as int)));
        }
    }
    proof {
        assert(spec_hybrid(old_frame@, new_frame@, len as int) =~= new_frame@);
        assert(spec_skip_eq(old_frame@, new_frame@, len as int) == len);
        assert(spec_runs_from(old_frame@, new_frame@, len as int) =~= Seq::<DeltaChunkV>::empty());
        assert(deltas.deep_view() + Seq::<DeltaChunkV>::empty() =~= deltas.deep_view());
        assert(deltas.deep_view() == spec_runs(old_frame@, new_frame@));
        if deltas.deep_view().len() == 0 {
            assert(spec_apply(old_frame@, deltas.deep_view()) == old_frame@);
            // An empty decomposition means the frames never differed.
            lemma_skip_eq_bounds(old_frame@, new_frame@, 0);
            assert(spec_skip_eq(old_frame@, new_frame@, 0) >= len) by {
                if spec_skip_eq(old_frame@, new_frame@, 0) < len {
                    assert(spec_runs(old_frame@, new_frame@).len() > 0);
                }
            }
            assert(old_frame@ =~= new_frame@);
        }
        if old_frame@ == new_frame@ && deltas@.len() > 0 {
            assert(old_frame@[diff_wit] == new_frame@[diff_wit]);
            assert(false);
        }
        if old_frame@ != new_frame@ {
            assert(spec_entries_size(spec_runs(old_frame@, new_frame@), 0)
                < new_frame@.len() * 3 / 10);
        }
    }
    Some(deltas)
}

/// The wire bytes of the entries of `ds` from index `i` on, appended to `acc`.
pub open spec fn spec_serialize_entries(acc: Seq<u8>, ds: Seq<DeltaChunkV>, i: int) -> Seq<u8>
    decreases ds.len() - i,
{
    if i < 0 || i >= ds.len() {
        acc
    } else {
        spec_serialize_entries(
            acc + spec_u32_be(ds[i].offset as u32) + spec_u32_be(ds[i].data.len() as u32)
                + ds[i].data,
            ds,
            i + 1,
        )
    }
}

/// The wire form of a delta list: a big-endian count, then each entry as
/// `offset(4) || len(4) || bytes`.
pub open spec fn spec_serialize(ds: Seq<DeltaChunkV>) -> Seq<u8> {
    spec_serialize_entries(spec_u32_be(ds.len() as u32), ds, 0)
}

/// Serializes a delta list for one datagram frame body.
pub fn serialize_deltas_optimized(deltas: &Vec<DeltaChunk>) -> (r: Vec<u8>)
    requires
        deltas@.len() <= 0xffff_ffff,
        forall|i: int| 0 <= i < deltas@.len() ==> #[trigger] deltas@[i].data@.len() <= 0xffff_ffff,
    ensures
        r@ == spec_serialize(deltas.deep_view()),
{
    let ghost ds = deltas.deep_view();
    proof {
        assert(ds.len() == deltas@.len());
        assert(forall|i: int| 0 <= i < ds.len() ==> #[trigger] ds[i] == deltas@[i]@);
    }
    let mut out: Vec<u8> = Vec::new();
    push_u32_be(&mut out, deltas.len() as u32);
    let mut i: usize = 0;
    while i < deltas.len()
        invariant
            0 <= i <= deltas@.len(),
            ds == deltas.deep_view(),
            ds.len() == deltas@.len() <= 0xffff_ffff,
            forall|k: int| 0 <= k < ds.len() ==> #[trigger] ds[k] == deltas@[k]@,
            forall|k: int| 0 <= k < deltas@.len() ==> #[trigger] deltas@[k].data@.len()
                <= 0xffff_ffff,
            spec_serialize_entries(out@, ds, i as int) == spec_serialize(ds),
        decreases deltas@.len() - i,
    {
        let d = &deltas[i];
        let ghost before = out@;
        push_u32_be(&mut out, d.offset);
        push_u32_be(&mut out, d.data.len() as u32);
        push_bytes(&mut out, d.data.as_slice());
        proof {
            assert(out@ == before + spec_u32_be(ds[i as int].offset as u32) + spec_u32_be(
                ds[i as int].data.len() as u32,
            ) + ds[i as int].data);
        }
        i = i + 1;
    }
    out
}

/// Parses `count` wire entries starting at `pos`, extending `acc`; `None`
/// when the bytes run out first.
pub open spec fn spec_parse_entries(
    s: Seq<u8>,
    pos: int,
    count: nat,
    acc: Seq<DeltaChunkV>,
) -> Option<(Seq<DeltaChunkV>, int)>
    decreases count,
{
    if count == 0 {
        Some((acc, pos))
    } else if pos + 8 > s.len() {
        None
    } else {
        let off = spec_u32_from_be(s.subrange(pos, pos + 4)) as int;
        let n = spec_u32_from_be(s.subrange(pos + 4, pos + 8)) as int;
        if pos + 8 + n > s.len() {
            None
        } else {
            spec_parse_entries(
                s,
                pos + 8 + n,
                (count - 1) as nat,
                acc.push(DeltaChunkV { offset: off, data: s.subrange(pos + 8, pos + 8 + n) }),
            )
        }
    }
}

/// Parses a whole wire delta list; `None` when the bytes are malformed.
pub open spec fn spec_deserialize(s: Seq<u8>) -> Option<Seq<DeltaChunkV>> {
    if s.len() < 4 {
        None
    } else {
        match spec_parse_entries(s, 4, spec_u32_from_be(s.subrange(0, 4)) as nat, Seq::empty()) {
            None => None,
            Some((ds, end)) => Some(ds),
        }
    }
}

/// The accumulator factors out of the wire form of a list's entries.
proof fn lemma_serialize_entries_acc(acc: Seq<u8>, ds: Seq<DeltaChunkV>, i: int)
    requires
        0 <= i <= ds.len(),
    ensures
        spec_serialize_entries(acc, ds, i) == acc + spec_serialize_entries(Seq::empty(), ds, i),
    decreases ds.len() - i,
{
    if i == ds.len() {
        assert(spec_serialize_entries(acc, ds, i) == acc);
        assert(acc + spec_serialize_entries(Seq::empty(), ds, i) =~= acc);
    } else {
        let be1 = spec_u32_be(ds[i].offset as u32);
        let be2 = spec_u32_be(ds[i].data.len() as u32);
        let acc2 = acc + be1 + be2 + ds[i].data;
        let empty2 = Seq::<u8>::empty() + be1 + be2 + ds[i].data;
        let rest = spec_serialize_entries(Seq::<u8>::empty(), ds, i + 1);
        lemma_serialize_entries_acc(acc2, ds, i + 1);
        lemma_serialize_entries_acc(empty2, ds, i + 1);
        assert(spec_serialize_entries(acc, ds, i) == acc2 + rest);
        assert(spec_serialize_entries(Seq::empty(), ds, i) == empty2 + rest);
        assert(acc2 + rest =~= acc + (empty2 + rest));
    }
}

/// Every offset fits four bytes, every run its four-byte length.
pub open spec fn spec_deltas_encodable(ds: Seq<DeltaChunkV>) -> bool {
    forall|i: int|
        0 <= i < ds.len() ==> 0 <= #[trigger] ds[i].offset <= 0xffff_ffff && ds[i].data.len()
            <= 0xffff_ffff
}

/// Parsing finds the entries that were serialized: given the wire bytes
/// of the entries from `i` on at position `pos`, the parse returns the
/// gathered entries followed by exactly those of `ds` from `i` on.
#[verifier::rlimit(30)]
proof fn lemma_parse_of_serialized(
    s: Seq<u8>,
    ds: Seq<DeltaChunkV>,
    i: int,
    pos: int,
    acc: Seq<DeltaChunkV>,
)
    requires
        spec_deltas_encodable(ds),
        0 <= i <= ds.len(),
        0 <= pos,
        pos + spec_serialize_entries(Seq::empty(), ds, i).len() == s.len(),
        s.subrange(pos, s.len() as int) == spec_serialize_entries(Seq::empty(), ds, i),
    ensures
        spec_parse_entries(s, pos, (ds.len() - i) as nat, acc) == Some(
            (acc + ds.skip(i), s.len() as int),
        ),
    decreases ds.len() - i,
{
    if i == ds.len() {
        assert(pos == s.len());
        assert(acc + ds.skip(i) =~= acc);
    } else {
        let off32 = ds[i].offset as u32;
        let len32 = ds[i].data.len() as u32;
        let n = ds[i].data.len() as int;
        let be1 = spec_u32_be(off32);
        let be2 = spec_u32_be(len32);
        let blk = be1 + be2 + ds[i].data;
        let tail = spec_serialize_entries(Seq::<u8>::empty(), ds, i + 1);
        assert(spec_serialize_entries(Seq::<u8>::empty(), ds, i) == blk + tail) by {
            let empty2 = Seq::<u8>::empty() + be1 + be2 + ds[i].data;
            lemma_serialize_entries_acc(empty2, ds, i + 1);
            assert(spec_serialize_entries(Seq::<u8>::empty(), ds, i) == empty2 + tail);
            assert(empty2 + tail =~= blk + tail);
        }
        let whole = s.subrange(pos, s.len() as int);
        assert(whole == blk + tail);
        assert(blk.len() == 8 + n);
        assert forall|j: int| 0 <= j < blk.len() + tail.len() implies #[trigger] s[pos + j] == (blk
            + tail)[j] by {
            assert(whole[j] == s[pos + j]);
        }
        assert(s.subrange(pos, pos + 4) =~= be1) by {
            assert forall|j: int| 0 <= j < 4 implies #[trigger] s.subrange(pos, pos + 4)[j]
                == be1[j] by {
                assert(s.subrange(pos, pos + 4)[j] == s[pos + j]);
                assert(s[pos + j] == (blk + tail)[j]);
                assert((blk + tail)[j] == blk[j]);
                assert(blk[j] == (be1 + be2)[j]);
                assert((be1 + be2)[j] == be1[j]);
            }
        }
        assert(s.subrange(pos + 4, pos + 8) =~= be2) by {
            assert forall|j: int| 0 <= j < 4 implies #[trigger] s.subrange(pos + 4, pos + 8)[j]
                == be2[j] by {
                assert(s.subrange(pos + 4, pos + 8)[j] == s[pos + 4 + j]);
                assert(s[pos + 4 + j] == (blk + tail)[4 + j]);
                assert((blk + tail)[4 + j] == blk[4 + j]);
                assert(blk[4 + j] == (be1 + be2)[4 + j]);
                assert((be1 + be2)[4 + j] == be2[j]);
            }
        }
        crate::byteops::lemma_u32_be_roundtrip(off32);
        crate::byteops::lemma_u32_be_roundtrip(len32);
        assert(spec_u32_from_be(s.subrange(pos, pos + 4)) == off32);
        assert(spec_u32_from_be(s.subrange(pos + 4, pos + 8)) == len32);
        assert(s.subrange(pos + 8, pos + 8 + n) =~= ds[i].data) by {
            assert forall|j: int| 0 <= j < n implies #[trigger] s.subrange(pos + 8, pos + 8 + n)[j]
                == ds[i].data[j] by {
                assert(s.subrange(pos + 8, pos + 8 + n)[j] == s[pos + 8 + j]);
                assert(s[pos + 8 + j] == (blk + tail)[8 + j]);
                assert((blk + tail)[8 + j] == blk[8 + j]);
                assert(blk[8 + j] == ds[i].data[j]);
            }
        }
        let entry = DeltaChunkV { offset: off32 as int, data: s.subrange(pos + 8, pos + 8 + n) };
        assert(entry == ds[i]);
        assert(s.subrange(pos + 8 + n, s.len() as int) =~= tail) by {
            assert forall|j: int|
                0 <= j < tail.len() implies #[trigger] s.subrange(pos + 8 + n, s.len() as int)[j]
                == tail[j] by {
                assert(s.subrange(pos + 8 + n, s.len() as int)[j] == s[pos + 8 + n + j]);
                assert(s[pos + 8 + n + j] == (blk + tail)[8 + n + j]);
                assert((blk + tail)[8 + n + j] == tail[j]);
            }
        }
        lemma_parse_of_serialized(s, ds, i + 1, pos + 8 + n, acc.push(entry));
        assert(spec_parse_entries(s, pos, (ds.len() - i) as nat, acc) == spec_parse_entries(
            s,
            pos + 8 + n,
            (ds.len() - i - 1) as nat,
            acc.push(entry),
        ));
        assert(acc.push(entry) + ds.skip(i + 1) =~= acc + ds.skip(i));
    }
}

/// Deserializing undoes serializing: the wire form of any list of
/// entries whose offsets and lengths fit their four bytes parses back to
/// exactly that list.
pub proof fn lemma_delta_wire_roundtrip(ds: Seq<DeltaChunkV>)
    requires
        ds.len() <= 0xffff_ffff,
        spec_deltas_encodable(ds),
    ensures
        spec_deserialize(spec_serialize(ds)) == Some(ds),
{
    let count32 = ds.len() as u32;
    let s = spec_serialize(ds);
    let tail = spec_serialize_entries(Seq::<u8>::empty(), ds, 0);
    lemma_serialize_entries_acc(spec_u32_be(count32), ds, 0);
    assert(s == spec_u32_be(count32) + tail);
    assert(s.subrange(0, 4) =~= spec_u32_be(count32)) by {
        assert(forall|j: int| 0 <= j < 4 ==> #[trigger] s.subrange(0, 4)[j] == s[j]);
    }
    crate::byteops::lemma_u32_be_roundtrip(count32);
    assert(spec_u32_from_be(s.subrange(0, 4)) == count32);
    assert(s.subrange(4, s.len() as int) =~= tail) by {
        assert(forall|j: int|
            0 <= j < tail.len() ==> #[trigger] s.subrange(4, s.len() as int)[j] == s[4 + j]);
    }
    lemma_parse_of_serialized(s, ds, 0, 4, Seq::empty());
    assert(Seq::<DeltaChunkV>::empty() + ds.skip(0) =~= ds);
}

/// A wire delta list that is cut short or shorter than its count promises.
#[derive(Debug, Clone, Copy, PartialEq, Eq, Structural)]
pub struct DeltaFormatError;

/// Parses the wire form of a delta list.
pub fn deserialize_deltas(data: &[u8]) -> (r: Result<Vec<DeltaChunk>, DeltaFormatError>)
    ensures
        match r {
            Ok(ds) => spec_deserialize(data@) == Some(ds.deep_view()),
            Err(_) => spec_deserialize(data@) is None,
        },
{
    if data.len() < 4 {
        return Err(DeltaFormatError);
    }
    let count = read_u32_be(data, 0);
    let ghost total = count as nat;
    let mut deltas: Vec<DeltaChunk> = Vec::new();
    let mut pos: usize = 4;
    let mut remaining: u32 = count;
    proof {
        assert(deltas.deep_view() =~= Seq::<DeltaChunkV>::empty());
    }
    while remaining > 0
        invariant
            4 <= pos <= data@.len(),
            remaining <= count,
            total == spec_u32_from_be(data@.subrange(0, 4)) as nat,
            spec_parse_entries(data@, 4, total, Seq::empty()) == spec_parse_entries(
                data@,
                pos as int,
                remaining as nat,
                deltas.deep_view(),
            ),
        decreases remaining,
    {
        if data.len() - pos < 8 {
            return Err(DeltaFormatError);
        }
        let off = read_u32_be(data, pos);
        let n = read_u32_be(data, pos + 4) as usize;
        if n > data.len() - pos - 8 {
            return Err(DeltaFormatError);
        }
        let bytes = slice_to_vec(slice_subrange(data, pos + 8, pos + 8 + n));
        let ghost before = deltas.deep_view();
        deltas.push(DeltaChunk { offset: off, data: bytes });
        proof {
            assert(deltas.deep_view() =~= before.push(
                DeltaChunkV {
                    offset: off as int,
                    data: data@.subrange(pos as int + 8, pos as int + 8 + n as int),
                },
            )) by {
                assert(deltas.deep_view().len() == before.len() + 1);
                assert(forall|k: int|
                    0 <= k < before.len() ==> #[trigger] deltas.deep_view()[k] == deltas@[k]@);
                assert(forall|k: int| 0 <= k < before.len() ==> #[trigger] before[k] == deltas@[k]@);
                assert(deltas.deep_view()[before.len() as int] == deltas@[before.len() as int]@);
            }
        }
        pos = pos + 8 + n;
        remaining = remaining - 1;
    }
    proof {
        assert(spec_parse_entries(data@, pos as int, 0, deltas.deep_view()) == Some(
            (deltas.deep_view(), pos as int),
        ));
    }
    Ok(deltas)
}

/// Applies a delta list to `base_frame` in place. Fails, leaving the frame
/// unchanged, exactly when some entry reaches past the end of the frame.
pub fn apply_delta_safe(base_frame: &mut Vec<u8>, deltas: &Vec<DeltaChunk>) -> (r: Result<
    (),
    DeltaFormatError,
>)
    ensures
        r is Ok <==> spec_deltas_in_bounds(deltas.deep_view(), old(base_frame)@.len() as int),
        r is Ok ==> final(base_frame)@ == spec_apply(old(base_frame)@, deltas.deep_view()),
        r is Err ==> final(base_frame)@ == old(base_frame)@,
{
    let ghost ds = deltas.deep_view();
    proof {
        assert(ds.len() == deltas@.len());
        assert(forall|k: int| 0 <= k < ds.len() ==> #[trigger] ds[k] == deltas@[k]@);
    }
    let n = base_frame.len();
    let mut i: usize = 0;
    while i < deltas.len()
        invariant
            0 <= i <= deltas@.len(),
            ds == deltas.deep_view(),
            ds.len() == deltas@.len(),
            forall|k: int| 0 <= k < ds.len() ==> #[trigger] ds[k] == deltas@[k]@,
            n == base_frame@.len(),
            forall|k: int|
                0 <= k < i ==> 0 <= #[trigger] ds[k].offset && ds[k].offset + ds[k].data.len()
                    <= n,
        decreases deltas@.len() - i,
    {
        let d = &deltas[i];
        let start = d.offset as usize;
        if d.data.len() > n || start > n - d.data.len() {
            proof {
                assert(ds[i as int].offset + ds[i as int].data.len() > n);
            }
            return Err(DeltaFormatError);
        }
        i = i + 1;
    }
    let mut j: usize = 0;
    while j < deltas.len()
        invariant
            0 <= j <= deltas@.len(),
            ds == deltas.deep_view(),
            ds.len() == deltas@.len(),
            forall|k: int| 0 <= k < ds.len() ==> #[trigger] ds[k] == deltas@[k]@,
            spec_deltas_in_bounds(ds, old(base_frame)@.len() as int),
            base_frame@.len() == old(base_frame)@.len(),
            old(base_frame)@.len() <= usize::MAX,
            base_frame@ == spec_apply(old(base_frame)@, ds.take(j as int)),
        decreases deltas@.len() - j,
    {
        let d = &deltas[j];
        let start = d.offset as usize;
        let ghost before = base_frame@;
        proof {
            assert(ds[j as int] == deltas@[j as int]@);
            assert(0 <= ds[j as int].offset && ds[j as int].offset + ds[j as int].data.len()
                <= old(base_frame)@.len());
            assert(start as int == ds[j as int].offset);
            assert(start + d.data@.len() <= base_frame@.len());
        }
        let mut k: usize = 0;
        while k < d.data.len()
            invariant
                0 <= k <= d.data@.len(),
                start + d.data@.len() <= base_frame@.len(),
                base_frame@.len() <= usize::MAX,
                base_frame@.len() == before.len(),
                forall|m: int|
                    0 <= m < base_frame@.len() ==> #[trigger] base_frame@[m] == if start <= m
                        < start + k {
                        d.data@[m - start]
                    } else {
                        before[m]
                    },
            decreases d.data@.len() - k,
        {
            let b = d.data[k];
            base_frame.set(start + k, b);
            k = k + 1;
        }
        proof {
            assert(base_frame@ =~= spec_apply_one(before, ds[j as int]));
            lemma_apply_snoc(old(base_frame)@, ds.take(j as int), ds[j as int]);
            assert(ds.take(j as int).push(ds[j as int]) =~= ds.take(j + 1));
        }
        j = j + 1;
    }
    proof {
        assert(ds.take(ds.len() as int) =~= ds);
    }
    Ok(())
}

} // verus!
