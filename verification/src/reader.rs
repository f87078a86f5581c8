//! Per-round scheduling: the buffer pool, the per-drive reader task, the
//! round orchestrator, and the overlap validator.
//!
//! The reader owns the decisions of a round: which plot to prepare, which
//! bytes to fetch next, where each filled buffer is routed, and when the
//! one `finished` reply and the GPU markers go out. The caller performs the
//! blocking work those decisions ask for (channel receives, file seeks and
//! reads, channel sends) and feeds the outcome back in.

use crate::plot::{Meta, Plot, ReadStep, SCOOPS_IN_NONCE};
use vstd::prelude::*;

verus! {

/// A reusable byte buffer tagged with the consumer channel it is routed to:
/// id 0 is the CPU channel, id `i >= 1` is GPU channel `i - 1`.
pub struct Buffer {
    pub data: Vec<u8>,
    pub id: usize,
}

/// The fixed set of buffers the pool starts with: one buffer for the CPU
/// channel and one per GPU channel, all of the same capacity.
pub fn new_buffer_pool(num_gpu: usize, capacity: usize) -> (r: Vec<Buffer>)
    requires
        num_gpu < usize::MAX,
    ensures
        r@.len() == 1 + num_gpu,
        forall|k: int|
            0 <= k < r@.len() ==> (#[trigger] r@[k]).id == k && r@[k].data@.len() == capacity,
{
    let mut pool: Vec<Buffer> = Vec::new();
    let mut k: usize = 0;
    while k < 1 + num_gpu
        invariant
            num_gpu < usize::MAX,
            0 <= k <= 1 + num_gpu,
            pool@.len() == k,
            forall|i: int|
                0 <= i < k ==> (#[trigger] pool@[i]).id == i && pool@[i].data@.len() == capacity,
        decreases 1 + num_gpu - k,
    {
        let data: Vec<u8> = vec![0u8; capacity];
        pool.push(Buffer { data, id: k });
        k = k + 1;
    }
    pool
}

/// What a reader task attaches to every buffer it dispatches.
/// `gpu_signal` is 0 for data, 1 for the round-start marker, 2 for the
/// drive-finished marker.
#[derive(Clone, Copy)]
pub struct BufferInfo {
    pub len: u64,
    pub height: u64,
    pub block: u64,
    pub base_target: u64,
    pub gensig: [u8; 32],
    pub start_nonce: u64,
    pub finished: bool,
    pub account_id: u64,
    pub gpu_signal: u64,
}

/// A filled buffer on its way to a consumer channel.
pub struct ReadReply {
    pub buffer: Buffer,
    pub info: BufferInfo,
}

/// One drive's ordered plots, keyed by the opaque drive id the host
/// services report. Plots of one drive are always visited serially, in this
/// order.
pub struct DriveEntry {
    pub drive_id: String,
    pub plots: Vec<Plot>,
}

/// An overlap found between two plots of the same account: their names and
/// the number of nonces they share.
pub struct OverlapWarning {
    pub name_a: String,
    pub name_b: String,
    pub shared_nonces: u64,
}

pub open spec fn drive_metas(e: DriveEntry) -> Seq<Meta> {
    e.plots@.map_values(|p: Plot| p.meta)
}

/// All plots of a drive table, flattened in table order.
pub open spec fn table_metas(t: Seq<DriveEntry>) -> Seq<Meta>
    decreases t.len(),
{
    if t.len() == 0 {
        Seq::empty()
    } else {
        table_metas(t.drop_last()) + drive_metas(t.last())
    }
}

/// `w` reports the overlap of the plot pair `p` (indices into `ms`): it
/// names both plots and carries the shared nonce count.
pub open spec fn warning_reports(ms: Seq<Meta>, w: OverlapWarning, p: (int, int)) -> bool {
    &&& 0 <= p.0 < p.1 < ms.len()
    &&& w.name_a@ == ms[p.0].name@
    &&& w.name_b@ == ms[p.1].name@
    &&& w.shared_nonces == ms[p.0].spec_overlap_count(ms[p.1])
}

/// `ws` reports exactly the pairs `ps`, in order: one warning per pair.
pub open spec fn warnings_report(ms: Seq<Meta>, ps: Seq<(int, int)>, ws: Seq<OverlapWarning>) -> bool {
    &&& ws.len() == ps.len()
    &&& forall|k: int| 0 <= k < ws.len() ==> warning_reports(ms, #[trigger] ws[k], ps[k])
}

/// The overlapping same-account pairs of `ms` at or after scan position
/// `(i, j)`, in the order a scan over `i < j` visits them.
pub open spec fn pairs_from(ms: Seq<Meta>, i: int, j: int) -> Seq<(int, int)>
    decreases ms.len() - i, ms.len() - j,
{
    if !(0 <= i && i < ms.len() && i < j) {
        Seq::empty()
    } else if j >= ms.len() {
        pairs_from(ms, i + 1, i + 2)
    } else if ms[i].account_id == ms[j].account_id && ms[i].spec_overlaps(ms[j]) {
        seq![(i, j)] + pairs_from(ms, i, j + 1)
    } else {
        pairs_from(ms, i, j + 1)
    }
}

/// All overlapping same-account pairs of `ms`, each exactly once.
pub open spec fn overlapping_pairs(ms: Seq<Meta>) -> Seq<(int, int)> {
    pairs_from(ms, 0, 1)
}

/// `p` is an overlapping same-account pair lying at or after scan position
/// `(i, j)`.
pub open spec fn pair_at_or_after(ms: Seq<Meta>, i: int, j: int, p: (int, int)) -> bool {
    &&& i <= p.0 < p.1 < ms.len()
    &&& (p.0 == i ==> j <= p.1)
    &&& ms[p.0].account_id == ms[p.1].account_id
    &&& ms[p.0].spec_overlaps(ms[p.1])
}

/// Soundness of the enumeration: every listed pair overlaps, shares its
/// account, and lies at or after the scan position.
proof fn lemma_pairs_from_sound(ms: Seq<Meta>, i: int, j: int)
    ensures
        forall|k: int|
            0 <= k < pairs_from(ms, i, j).len() ==> pair_at_or_after(
                ms,
                i,
                j,
                #[trigger] pairs_from(ms, i, j)[k],
            ),
    decreases ms.len() - i, ms.len() - j,
{
    if !(0 <= i && i < ms.len() && i < j) {
    } else if j >= ms.len() {
        lemma_pairs_from_sound(ms, i + 1, i + 2);
        assert forall|k: int| 0 <= k < pairs_from(ms, i, j).len() implies pair_at_or_after(
            ms,
            i,
            j,
            #[trigger] pairs_from(ms, i, j)[k],
        ) by {
            assert(pairs_from(ms, i, j)[k] == pairs_from(ms, i + 1, i + 2)[k]);
        }
    } else if ms[i].account_id == ms[j].account_id && ms[i].spec_overlaps(ms[j]) {
        lemma_pairs_from_sound(ms, i, j + 1);
        let rest = pairs_from(ms, i, j + 1);
        assert forall|k: int| 0 <= k < pairs_from(ms, i, j).len() implies pair_at_or_after(
            ms,
            i,
            j,
            #[trigger] pairs_from(ms, i, j)[k],
        ) by {
            if k == 0 {
                assert(pairs_from(ms, i, j)[0] == (i, j));
            } else {
                assert(pairs_from(ms, i, j)[k] == rest[k - 1]);
                assert(pair_at_or_after(ms, i, j + 1, rest[k - 1]));
            }
        }
    } else {
        lemma_pairs_from_sound(ms, i, j + 1);
        let rest = pairs_from(ms, i, j + 1);
        assert forall|k: int| 0 <= k < pairs_from(ms, i, j).len() implies pair_at_or_after(
            ms,
            i,
            j,
            #[trigger] pairs_from(ms, i, j)[k],
        ) by {
            assert(pairs_from(ms, i, j)[k] == rest[k]);
            assert(pair_at_or_after(ms, i, j + 1, rest[k]));
        }
    }
}

/// Completeness of the enumeration: every overlapping same-account pair at
/// or after the scan position is listed.
proof fn lemma_pairs_from_complete(ms: Seq<Meta>, i: int, j: int, a: int, b: int)
    requires
        0 <= i < j,
        pair_at_or_after(ms, i, j, (a, b)),
    ensures
        pairs_from(ms, i, j).contains((a, b)),
    decreases ms.len() - i, ms.len() - j,
{
    if j >= ms.len() {
        // (a, b) cannot sit on row i: its column would be past the end
        assert(a > i);
        lemma_pairs_from_complete(ms, i + 1, i + 2, a, b);
    } else if i == a && j == b {
        assert(pairs_from(ms, i, j)[0] == (a, b));
    } else {
        lemma_pairs_from_complete(ms, i, j + 1, a, b);
        let rest = pairs_from(ms, i, j + 1);
        let idx = choose|idx: int| 0 <= idx < rest.len() && rest[idx] == (a, b);
        if ms[i].account_id == ms[j].account_id && ms[i].spec_overlaps(ms[j]) {
            assert(pairs_from(ms, i, j)[idx + 1] == (a, b));
        }
    }
}

/// Uniqueness of the enumeration: no pair is listed twice.
proof fn lemma_pairs_from_distinct(ms: Seq<Meta>, i: int, j: int)
    ensures
        forall|k1: int, k2: int|
            0 <= k1 < k2 < pairs_from(ms, i, j).len() ==> #[trigger] pairs_from(ms, i, j)[k1]
                != #[trigger] pairs_from(ms, i, j)[k2],
    decreases ms.len() - i, ms.len() - j,
{
    if !(0 <= i && i < ms.len() && i < j) {
    } else if j >= ms.len() {
        lemma_pairs_from_distinct(ms, i + 1, i + 2);
        assert forall|k1: int, k2: int|
            0 <= k1 < k2 < pairs_from(ms, i, j).len() implies #[trigger] pairs_from(ms, i, j)[k1]
            != #[trigger] pairs_from(ms, i, j)[k2] by {
            assert(pairs_from(ms, i, j)[k1] == pairs_from(ms, i + 1, i + 2)[k1]);
            assert(pairs_from(ms, i, j)[k2] == pairs_from(ms, i + 1, i + 2)[k2]);
        }
    } else {
        lemma_pairs_from_distinct(ms, i, j + 1);
        lemma_pairs_from_sound(ms, i, j + 1);
        let rest = pairs_from(ms, i, j + 1);
        if ms[i].account_id == ms[j].account_id && ms[i].spec_overlaps(ms[j]) {
            assert forall|k1: int, k2: int|
                0 <= k1 < k2 < pairs_from(ms, i, j).len() implies #[trigger] pairs_from(
                ms,
                i,
                j,
            )[k1] != #[trigger] pairs_from(ms, i, j)[k2] by {
                if k1 == 0 {
                    // every later element lies past (i, j) in the scan
                    assert(pairs_from(ms, i, j)[0] == (i, j));
                    assert(pairs_from(ms, i, j)[k2] == rest[k2 - 1]);
                    assert(pair_at_or_after(ms, i, j + 1, rest[k2 - 1]));
                } else {
                    assert(pairs_from(ms, i, j)[k1] == rest[k1 - 1]);
                    assert(pairs_from(ms, i, j)[k2] == rest[k2 - 1]);
                }
            }
        } else {
            assert forall|k1: int, k2: int|
                0 <= k1 < k2 < pairs_from(ms, i, j).len() implies #[trigger] pairs_from(
                ms,
                i,
                j,
            )[k1] != #[trigger] pairs_from(ms, i, j)[k2] by {
                assert(pairs_from(ms, i, j)[k1] == rest[k1]);
                assert(pairs_from(ms, i, j)[k2] == rest[k2]);
            }
        }
    }
}

/// Law: `overlapping_pairs` is the exact overlap report of a plot list —
/// every listed pair is a same-account pair with intersecting nonce
/// intervals, every such pair is listed, and none is listed twice.
pub proof fn lemma_overlapping_pairs_exact(ms: Seq<Meta>)
    ensures
        forall|k: int|
            0 <= k < overlapping_pairs(ms).len() ==> pair_at_or_after(
                ms,
                0,
                1,
                #[trigger] overlapping_pairs(ms)[k],
            ),
        forall|a: int, b: int|
            0 <= a < b < ms.len() && ms[a].account_id == ms[b].account_id && (#[trigger] ms[
                a
            ].spec_overlaps(ms[b])) ==> overlapping_pairs(ms).contains((a, b)),
        forall|k1: int, k2: int|
            0 <= k1 < k2 < overlapping_pairs(ms).len() ==> #[trigger] overlapping_pairs(ms)[k1]
                != #[trigger] overlapping_pairs(ms)[k2],
{
    lemma_pairs_from_sound(ms, 0, 1);
    lemma_pairs_from_distinct(ms, 0, 1);
    assert forall|a: int, b: int|
        0 <= a < b < ms.len() && ms[a].account_id == ms[b].account_id && (#[trigger] ms[
            a
        ].spec_overlaps(ms[b])) implies overlapping_pairs(ms).contains((a, b)) by {
        lemma_pairs_from_complete(ms, 0, 1, a, b);
    }
}

/// Some two plots of one account cover intersecting nonce intervals.
pub open spec fn has_overlap(ms: Seq<Meta>) -> bool {
    exists|i: int, j: int|
        0 <= i < j < ms.len() && ms[i].account_id == ms[j].account_id && ms[i].spec_overlaps(
            ms[j],
        )
}

/// Clone the metadata of every plot in the table, flattened in table order.
fn collect_metas(table: &Vec<DriveEntry>) -> (r: Vec<Meta>)
    ensures
        r@ =~= table_metas(table@),
{
    let mut metas: Vec<Meta> = Vec::new();
    let mut i: usize = 0;
    while i < table.len()
        invariant
            0 <= i <= table@.len(),
            metas@ =~= table_metas(table@.take(i as int)),
        decreases table@.len() - i,
    {
        let entry = &table[i];
        let mut j: usize = 0;
        while j < entry.plots.len()
            invariant
                0 <= i < table@.len(),
                0 <= j <= entry.plots@.len(),
                *entry == table@[i as int],
                metas@ =~= table_metas(table@.take(i as int)) + entry.plots@.take(
                    j as int,
                ).map_values(|p: Plot| p.meta),
            decreases entry.plots@.len() - j,
        {
            metas.push(entry.plots[j].meta.clone());
            proof {
                assert(entry.plots@.take(j + 1).drop_last() =~= entry.plots@.take(j as int));
                assert(entry.plots@.take(j + 1).map_values(|p: Plot| p.meta) =~= entry.plots@.take(
                    j as int,
                ).map_values(|p: Plot| p.meta).push(entry.plots@[j as int].meta));
            }
            j = j + 1;
        }
        proof {
            assert(table@.take(i + 1).drop_last() =~= table@.take(i as int));
            assert(table@.take(i + 1).last() == table@[i as int]);
            assert(entry.plots@.take(entry.plots@.len() as int) =~= entry.plots@);
        }
        i = i + 1;
    }
    proof {
        assert(table@.take(table@.len() as int) =~= table@);
    }
    metas
}

/// Whether any two plots of the same account overlap, across all drives.
pub fn check_overlap(table: &Vec<DriveEntry>) -> (r: bool)
    ensures
        r == has_overlap(table_metas(table@)),
{
    let metas = collect_metas(table);
    let ghost ms = table_metas(table@);
    let mut i: usize = 0;
    while i < metas.len()
        invariant
            ms == table_metas(table@),
            metas@ =~= ms,
            0 <= i <= ms.len(),
            forall|a: int, b: int|
                0 <= a < i && a < b < ms.len() ==> !(ms[a].account_id == ms[b].account_id
                    && (#[trigger] ms[a].spec_overlaps(ms[b]))),
        decreases ms.len() - i,
    {
        let mut j: usize = i + 1;
        while j < metas.len()
            invariant
                ms == table_metas(table@),
                metas@ =~= ms,
                0 <= i < ms.len(),
                i < j <= ms.len(),
                forall|a: int, b: int|
                    0 <= a < i && a < b < ms.len() ==> !(ms[a].account_id == ms[b].account_id
                        && (#[trigger] ms[a].spec_overlaps(ms[b]))),
                forall|b: int|
                    i < b < j ==> !(ms[i as int].account_id == ms[b].account_id && (
                    #[trigger] ms[i as int].spec_overlaps(ms[b]))),
            decreases ms.len() - j,
        {
            if metas[i].account_id == metas[j].account_id && metas[j].overlaps_with(&metas[i]) {
                proof {
                    assert(ms[j as int].spec_overlaps(ms[i as int]));
                    assert(ms[i as int].spec_overlaps(ms[j as int]));
                    assert(has_overlap(ms));
                }
                return true;
            }
            proof {
                if ms[i as int].spec_overlaps(ms[j as int]) {
                    assert(ms[j as int].spec_overlaps(ms[i as int]));
                }
            }
            j = j + 1;
        }
        i = i + 1;
    }
    false
}

/// Every overlapping same-account pair across the table, each reported
/// exactly once, in scan order, with the two plot names and the shared
/// nonce count; empty exactly when no overlap exists.
/// (`lemma_overlapping_pairs_exact` states what `overlapping_pairs` holds.)
pub fn overlap_pairs(table: &Vec<DriveEntry>) -> (r: Vec<OverlapWarning>)
    ensures
        warnings_report(table_metas(table@), overlapping_pairs(table_metas(table@)), r@),
        (r@.len() == 0) == !has_overlap(table_metas(table@)),
{
    let metas = collect_metas(table);
    let ghost ms = table_metas(table@);
    let ghost mut done: Seq<(int, int)> = Seq::empty();
    let mut warnings: Vec<OverlapWarning> = Vec::new();
    let mut i: usize = 0;
    proof {
        assert(overlapping_pairs(ms) =~= done + pairs_from(ms, 0, 1));
    }
    while i < metas.len()
        invariant
            ms == table_metas(table@),
            metas@ =~= ms,
            0 <= i <= ms.len(),
            overlapping_pairs(ms) =~= done + pairs_from(ms, i as int, i + 1),
            warnings_report(ms, done, warnings@),
        decreases ms.len() - i,
    {
        let mut j: usize = i + 1;
        while j < metas.len()
            invariant
                ms == table_metas(table@),
                metas@ =~= ms,
                0 <= i < ms.len(),
                i < j <= ms.len(),
                overlapping_pairs(ms) =~= done + pairs_from(ms, i as int, j as int),
                warnings_report(ms, done, warnings@),
            decreases ms.len() - j,
        {
            if metas[i].account_id == metas[j].account_id && metas[i].overlaps_with(&metas[j]) {
                let shared = metas[i].overlap_count(&metas[j]);
                let w = OverlapWarning {
                    name_a: metas[i].name.clone(),
                    name_b: metas[j].name.clone(),
                    shared_nonces: shared,
                };
                proof {
                    let ii = i as int;
                    let jj = j as int;
                    assert(pairs_from(ms, ii, jj) =~= seq![(ii, jj)] + pairs_from(ms, ii, jj + 1));
                    assert(overlapping_pairs(ms) =~= done.push((ii, jj)) + pairs_from(
                        ms,
                        ii,
                        jj + 1,
                    ));
                    let done1 = done.push((ii, jj));
                    let ws1 = warnings@.push(w);
                    assert forall|k: int| 0 <= k < ws1.len() implies warning_reports(
                        ms,
                        #[trigger] ws1[k],
                        done1[k],
                    ) by {
                        if k < warnings@.len() {
                            assert(ws1[k] == warnings@[k]);
                            assert(done1[k] == done[k]);
                        } else {
                            assert(ws1[k] == w);
                            assert(done1[k] == (ii, jj));
                        }
                    }
                    done = done1;
                }
                warnings.push(w);
            } else {
                proof {
                    assert(pairs_from(ms, i as int, j as int) =~= pairs_from(
                        ms,
                        i as int,
                        j + 1,
                    ));
                }
            }
            j = j + 1;
        }
        proof {
            assert(pairs_from(ms, i as int, ms.len() as int) =~= pairs_from(ms, i + 1, i + 2));
        }
        i = i + 1;
    }
    proof {
        assert(pairs_from(ms, ms.len() as int, ms.len() as int + 1) =~= Seq::<(int, int)>::empty());
        assert(overlapping_pairs(ms) =~= done);
        if has_overlap(ms) {
            let (a, b) = choose|a: int, b: int|
                0 <= a < b < ms.len() && ms[a].account_id == ms[b].account_id && ms[
                    a
                ].spec_overlaps(ms[b]);
            lemma_pairs_from_complete(ms, 0, 1, a, b);
            assert(overlapping_pairs(ms).len() > 0);
        }
        if overlapping_pairs(ms).len() > 0 {
            lemma_pairs_from_sound(ms, 0, 1);
            let p = overlapping_pairs(ms)[0];
            assert(pair_at_or_after(ms, 0, 1, p));
            assert(has_overlap(ms));
        }
    }
    warnings
}


/// Where a drive task stands between two interactions with its caller.
#[derive(Clone, Copy, PartialEq, Eq, Structural, Debug)]
pub enum TaskPhase {
    /// The current plot must be prepared (file reopened and seeked).
    Prepare,
    /// Waiting for an empty buffer from the pool.
    Fetch,
    /// A read was planned into the buffer in hand; its outcome is awaited.
    Pending,
    /// The task has ended: all plots visited, or interrupted.
    Done,
}

/// The read the task planned into the buffer it holds.
#[derive(Clone, Copy)]
pub struct PendingRead {
    pub cap: u64,
    pub id: usize,
    pub step: ReadStep,
}

/// Ghost record of one message a drive task dispatched: a data reply
/// (`gpu_signal` 0) or the drive-finished marker (`gpu_signal` 2).
pub struct Emit {
    pub gpu_signal: u64,
    pub plot: int,
    pub start_nonce: u64,
    pub len: u64,
    pub finished: bool,
    pub route: int,
}

/// No emit of `t` closes the drive: only plain data replies.
pub open spec fn all_plain(t: Seq<Emit>) -> bool {
    forall|i: int| 0 <= i < t.len() ==> (#[trigger] t[i]).gpu_signal == 0 && !t[i].finished
}

/// What the caller must do after one step of a drive task.
pub struct StepOutcome {
    /// A reply to send on consumer channel `route` with the buffer in hand.
    pub reply: Option<BufferInfo>,
    pub route: usize,
    /// The buffer in hand goes back to the empty-buffer pool instead.
    pub return_buffer: bool,
    /// A drive-finished marker to send to every GPU channel.
    pub gpu_marker: Option<BufferInfo>,
    /// The task has ended.
    pub done: bool,
}

/// The info attached to a GPU control marker: no data, no account, the
/// round's identifiers, and the given signal code (1 for round-start, 2 for
/// drive-finished).
pub open spec fn marker_info(
    height: u64,
    block: u64,
    base_target: u64,
    gensig: [u8; 32],
    signal: u64,
) -> BufferInfo {
    BufferInfo {
        len: 1,
        height,
        block,
        base_target,
        gensig,
        start_nonce: 0,
        finished: false,
        account_id: 0,
        gpu_signal: signal,
    }
}

/// One round's sequential sweep over the plots of one drive.
///
/// The task is a state machine: the caller performs the blocking work (take
/// a buffer from the pool, seek and read the plot file, poll the interrupt
/// channel, send replies) and drives the machine with the outcomes. The
/// machine decides everything else and its decisions are verified: chunk
/// sizes and nonce accounting (through `Plot`), routing, the single
/// `finished` reply, the GPU markers, and that every buffer taken is either
/// dispatched or returned.
pub struct DriveTask {
    pub drive_id: String,
    pub plots: Vec<Plot>,
    /// Index of the plot being visited.
    pub i_p: usize,
    pub phase: TaskPhase,
    pub height: u64,
    pub block: u64,
    pub base_target: u64,
    pub scoop: u32,
    pub gensig: [u8; 32],
    /// How many GPU consumer channels exist.
    pub num_gpu: usize,
    pub pending: Option<PendingRead>,
    pub buffers_taken: u64,
    pub buffers_returned: u64,
    pub replies_sent: u64,
    /// Whether the one `finished` reply of this drive has gone out.
    pub finished_sent: bool,
    /// Every message dispatched so far, in order.
    pub trace: Ghost<Seq<Emit>>,
}

impl DriveTask {
    pub open spec fn plots_ok(self) -> bool {
        forall|k: int|
            0 <= k < self.plots@.len() ==> (#[trigger] self.plots@[k]).wf() && self.plots@[
                k
            ].spec_base_nonce(self.scoop) + self.plots@[k].meta.nonces <= u64::MAX
    }

    /// The dispatch discipline of one drive and round: nothing follows the
    /// `finished` reply but the GPU marker, and before it only plain data
    /// replies go out.
    pub open spec fn trace_ok(self) -> bool {
        if !self.finished_sent {
            all_plain(self.trace@)
        } else {
            let fin_at = self.trace@.len() - (if self.num_gpu > 0 { 2int } else { 1int });
            &&& fin_at >= 0
            &&& all_plain(self.trace@.take(fin_at))
            &&& self.trace@[fin_at].gpu_signal == 0
            &&& self.trace@[fin_at].finished
            &&& (self.num_gpu > 0 ==> self.trace@[fin_at + 1].gpu_signal == 2)
        }
    }

    pub open spec fn wf(self) -> bool {
        &&& self.scoop < SCOOPS_IN_NONCE
        &&& self.plots_ok()
        &&& self.i_p <= self.plots@.len()
        &&& (self.phase != TaskPhase::Done ==> self.i_p < self.plots@.len())
        &&& ((self.phase == TaskPhase::Fetch || self.phase == TaskPhase::Pending)
            ==> self.plots@[self.i_p as int].prepared@ == Some(self.scoop))
        &&& (self.phase == TaskPhase::Pending <==> self.pending is Some)
        &&& self.buffers_taken == self.replies_sent + self.buffers_returned + (
        if self.phase == TaskPhase::Pending {
            1int
        } else {
            0
        })
        &&& (self.finished_sent ==> self.phase == TaskPhase::Done)
        &&& self.trace_ok()
    }

    /// The round-stamped GPU marker of the task, for the given signal code.
    pub open spec fn spec_marker_info(self, signal: u64) -> BufferInfo {
        marker_info(self.height, self.block, self.base_target, self.gensig, signal)
    }

    /// Prepare the current plot for this round's scoop. Returns the plot
    /// index and the file offset the caller must seek the re-opened handle
    /// to; the caller reports back with `on_prepare_result`.
    pub fn prepare_plot(&mut self) -> (r: (usize, u64))
        requires
            old(self).wf(),
            old(self).phase == TaskPhase::Prepare,
        ensures
            final(self).wf(),
            final(self).phase == TaskPhase::Prepare,
            final(self).i_p == old(self).i_p,
            r.0 == old(self).i_p,
            final(self).plots@.len() == old(self).plots@.len(),
            old(self).plots@[r.0 as int].spec_prepare(
                old(self).scoop,
                final(self).plots@[r.0 as int],
                r.1,
            ),
            forall|k: int|
                0 <= k < old(self).plots@.len() && k != r.0 ==> final(self).plots@[k] == old(
                    self,
                ).plots@[k],
            final(self).drive_id == old(self).drive_id,
            final(self).phase == old(self).phase,
            final(self).height == old(self).height,
            final(self).block == old(self).block,
            final(self).base_target == old(self).base_target,
            final(self).scoop == old(self).scoop,
            final(self).gensig == old(self).gensig,
            final(self).num_gpu == old(self).num_gpu,
            final(self).pending == old(self).pending,
            final(self).buffers_taken == old(self).buffers_taken,
            final(self).buffers_returned == old(self).buffers_returned,
            final(self).replies_sent == old(self).replies_sent,
            final(self).finished_sent == old(self).finished_sent,
            final(self).trace == old(self).trace,
    {
        let i = self.i_p;
        let mut p = self.plots.remove(i);
        let seek_addr = p.prepare(self.scoop);
        self.plots.insert(i, p);
        (i, seek_addr)
    }

    /// Report whether re-opening and seeking the current plot worked. On
    /// failure the plot is skipped for this round and the task moves to the
    /// next plot, or ends if it was the last; no reply is owed for it.
    pub fn on_prepare_result(&mut self, ok: bool)
        requires
            old(self).wf(),
            old(self).phase == TaskPhase::Prepare,
            ok ==> old(self).plots@[old(self).i_p as int].prepared@ == Some(old(self).scoop),
        ensures
            final(self).wf(),
            ok ==> final(self).phase == TaskPhase::Fetch && final(self).i_p == old(self).i_p,
            !ok ==> final(self).i_p == old(self).i_p + 1 && final(self).phase == (
            if old(self).i_p + 1 == old(self).plots@.len() {
                TaskPhase::Done
            } else {
                TaskPhase::Prepare
            }),
            final(self).plots == old(self).plots,
            final(self).drive_id == old(self).drive_id,
            final(self).height == old(self).height,
            final(self).block == old(self).block,
            final(self).base_target == old(self).base_target,
            final(self).scoop == old(self).scoop,
            final(self).gensig == old(self).gensig,
            final(self).num_gpu == old(self).num_gpu,
            final(self).pending == old(self).pending,
            final(self).buffers_taken == old(self).buffers_taken,
            final(self).buffers_returned == old(self).buffers_returned,
            final(self).replies_sent == old(self).replies_sent,
            final(self).finished_sent == old(self).finished_sent,
            final(self).trace == old(self).trace,
    {
        if ok {
            self.phase = TaskPhase::Fetch;
        } else {
            let n = self.plots.len();
            self.i_p = self.i_p + 1;
            if self.i_p == n {
                self.phase = TaskPhase::Done;
            }
        }
    }

    /// An empty buffer of capacity `cap`, tagged for consumer `id`, was
    /// taken from the pool. Plans the next read of the current plot: the
    /// caller seeks the plot file to `step.offset` and reads
    /// `step.bytes_to_read` bytes into the buffer (skipping the I/O when the
    /// plot is a dummy), polls its interrupt channel, and reports back with
    /// `on_read_result`.
    pub fn on_buffer(&mut self, cap: u64, id: usize) -> (step: ReadStep)
        requires
            old(self).wf(),
            old(self).phase == TaskPhase::Fetch,
            old(self).buffers_taken < u64::MAX,
        ensures
            final(self).wf(),
            final(self).phase == TaskPhase::Pending,
            final(self).pending == (Some(PendingRead { cap, id, step })),
            final(self).buffers_taken == old(self).buffers_taken + 1,
            final(self).i_p == old(self).i_p,
            final(self).plots@.len() == old(self).plots@.len(),
            old(self).plots@[old(self).i_p as int].spec_read(
                cap,
                old(self).scoop,
                step,
                final(self).plots@[old(self).i_p as int],
            ),
            forall|k: int|
                0 <= k < old(self).plots@.len() && k != old(self).i_p ==> final(self).plots@[k]
                    == old(self).plots@[k],
            final(self).drive_id == old(self).drive_id,
            final(self).height == old(self).height,
            final(self).block == old(self).block,
            final(self).base_target == old(self).base_target,
            final(self).scoop == old(self).scoop,
            final(self).gensig == old(self).gensig,
            final(self).num_gpu == old(self).num_gpu,
            final(self).buffers_returned == old(self).buffers_returned,
            final(self).replies_sent == old(self).replies_sent,
            final(self).finished_sent == old(self).finished_sent,
            final(self).trace == old(self).trace,
    {
        let i = self.i_p;
        let mut p = self.plots.remove(i);
        let step = p.read(cap, self.scoop);
        self.plots.insert(i, p);
        self.pending = Some(PendingRead { cap, id, step });
        self.buffers_taken = self.buffers_taken + 1;
        self.phase = TaskPhase::Pending;
        step
    }

    /// Report the outcome of the planned read and of the interrupt poll.
    ///
    /// On interrupt the buffer in hand goes back to the pool and the task
    /// ends: nothing is dispatched, and the next plots stay untouched. On a
    /// failed read the rest of the plot is skipped this round and a reply of
    /// zero bytes goes out in its place. Otherwise the planned chunk is
    /// dispatched to the channel the buffer is tagged for; the reply closing
    /// the last plot carries `finished` and is followed by one drive-finished
    /// marker for the GPU channels.
    pub fn on_read_result(&mut self, ok: bool, interrupted: bool) -> (out: StepOutcome)
        requires
            old(self).wf(),
            old(self).phase == TaskPhase::Pending,
            old(self).replies_sent < u64::MAX,
            old(self).buffers_returned < u64::MAX,
        ensures
            final(self).wf(),
            final(self).pending is None,
            out.done == (final(self).phase == TaskPhase::Done),
            final(self).plots == old(self).plots,
            final(self).drive_id == old(self).drive_id,
            final(self).height == old(self).height,
            final(self).block == old(self).block,
            final(self).base_target == old(self).base_target,
            final(self).scoop == old(self).scoop,
            final(self).gensig == old(self).gensig,
            final(self).num_gpu == old(self).num_gpu,
            final(self).buffers_taken == old(self).buffers_taken,
            interrupted ==> {
                &&& out.reply is None
                &&& out.gpu_marker is None
                &&& out.return_buffer
                &&& out.done
                &&& final(self).phase == TaskPhase::Done
                &&& final(self).buffers_returned == old(self).buffers_returned + 1
                &&& final(self).replies_sent == old(self).replies_sent
                &&& final(self).finished_sent == old(self).finished_sent
                &&& final(self).trace == old(self).trace
                &&& final(self).i_p == old(self).i_p
            },
            !interrupted ==> match old(self).pending {
                Some(pend) => {
                    let bytes = if ok { pend.step.bytes_to_read } else { 0 };
                    let sn = if ok { pend.step.start_nonce } else { 0 };
                    let next_plot = if ok { pend.step.finished } else { true };
                    let was_last = old(self).i_p + 1 == old(self).plots@.len();
                    let fin = was_last && next_plot;
                    &&& out.reply == (Some(BufferInfo {
                        len: bytes,
                        height: old(self).height,
                        block: old(self).block,
                        base_target: old(self).base_target,
                        gensig: old(self).gensig,
                        start_nonce: sn,
                        finished: fin,
                        account_id: old(self).plots@[old(self).i_p as int].meta.account_id,
                        gpu_signal: 0,
                    }))
                    &&& out.route == pend.id
                    &&& !out.return_buffer
                    &&& out.gpu_marker == (if fin && old(self).num_gpu > 0 {
                        Some(old(self).spec_marker_info(2))
                    } else {
                        None::<BufferInfo>
                    })
                    &&& final(self).replies_sent == old(self).replies_sent + 1
                    &&& final(self).buffers_returned == old(self).buffers_returned
                    &&& final(self).finished_sent == fin
                    &&& (next_plot ==> final(self).i_p == old(self).i_p + 1 && final(self).phase
                        == (if fin {
                        TaskPhase::Done
                    } else {
                        TaskPhase::Prepare
                    }))
                    &&& (!next_plot ==> final(self).i_p == old(self).i_p && final(self).phase
                        == TaskPhase::Fetch)
                    &&& final(self).trace@ == {
                        let t1 = old(self).trace@.push(Emit {
                            gpu_signal: 0,
                            plot: old(self).i_p as int,
                            start_nonce: sn,
                            len: bytes,
                            finished: fin,
                            route: pend.id as int,
                        });
                        if fin && old(self).num_gpu > 0 {
                            t1.push(Emit {
                                gpu_signal: 2,
                                plot: old(self).i_p as int,
                                start_nonce: 0,
                                len: 1,
                                finished: false,
                                route: 0,
                            })
                        } else {
                            t1
                        }
                    }
                },
                None => false,
            },
    {
        let pend = self.pending.unwrap();
        self.pending = None;
        if interrupted {
            self.buffers_returned = self.buffers_returned + 1;
            self.phase = TaskPhase::Done;
            return StepOutcome {
                reply: None,
                route: 0,
                return_buffer: true,
                gpu_marker: None,
                done: true,
            };
        }
        let (bytes, sn, next_plot): (u64, u64, bool) = if ok {
            (pend.step.bytes_to_read, pend.step.start_nonce, pend.step.finished)
        } else {
            (0, 0, true)
        };
        let n = self.plots.len();
        let was_last = self.i_p + 1 == n;
        let fin = was_last && next_plot;
        let info = BufferInfo {
            len: bytes,
            height: self.height,
            block: self.block,
            base_target: self.base_target,
            gensig: self.gensig,
            start_nonce: sn,
            finished: fin,
            account_id: self.plots[self.i_p].meta.account_id,
            gpu_signal: 0,
        };
        self.replies_sent = self.replies_sent + 1;
        let ghost data_emit = Emit {
            gpu_signal: 0,
            plot: self.i_p as int,
            start_nonce: sn,
            len: bytes,
            finished: fin,
            route: pend.id as int,
        };
        proof {
            let t1 = self.trace@.push(data_emit);
            assert(t1.take(self.trace@.len() as int) =~= self.trace@);
        }
        self.trace = Ghost(self.trace@.push(data_emit));
        let gpu_marker: Option<BufferInfo> = if fin && self.num_gpu > 0 {
            let marker = BufferInfo {
                len: 1,
                height: self.height,
                block: self.block,
                base_target: self.base_target,
                gensig: self.gensig,
                start_nonce: 0,
                finished: false,
                account_id: 0,
                gpu_signal: 2,
            };
            proof {
                let t2 = self.trace@.push(Emit {
                    gpu_signal: 2,
                    plot: self.i_p as int,
                    start_nonce: 0,
                    len: 1,
                    finished: false,
                    route: 0,
                });
                assert(t2.take(t2.len() - 2) =~= self.trace@.take(self.trace@.len() - 1));
            }
            self.trace = Ghost(self.trace@.push(Emit {
                gpu_signal: 2,
                plot: self.i_p as int,
                start_nonce: 0,
                len: 1,
                finished: false,
                route: 0,
            }));
            Some(marker)
        } else {
            None
        };
        self.finished_sent = fin;
        if next_plot {
            self.i_p = self.i_p + 1;
            if fin {
                self.phase = TaskPhase::Done;
            } else if self.i_p == n {
                self.phase = TaskPhase::Done;
            } else {
                self.phase = TaskPhase::Prepare;
            }
        } else {
            self.phase = TaskPhase::Fetch;
        }
        let done = match self.phase {
            TaskPhase::Done => true,
            _ => false,
        };
        StepOutcome { reply: Some(info), route: pend.id, return_buffer: false, gpu_marker, done }
    }
}

/// Law (P-style, per drive and round): at most one reply of a drive task
/// carries `finished`; once it has gone out it is the last data reply,
/// everything before it is a plain data reply, and the one GPU
/// drive-finished marker follows it immediately.
pub proof fn lemma_finished_reply_last(t: DriveTask)
    requires
        t.wf(),
        t.finished_sent,
    ensures
        ({
            let fin_at = t.trace@.len() - (if t.num_gpu > 0 { 2int } else { 1int });
            &&& 0 <= fin_at
            &&& t.trace@[fin_at].finished
            &&& t.trace@[fin_at].gpu_signal == 0
            &&& forall|i: int|
                0 <= i < fin_at ==> !(#[trigger] t.trace@[i]).finished && t.trace@[i].gpu_signal
                    == 0
            &&& (t.num_gpu > 0 ==> fin_at + 2 == t.trace@.len() && t.trace@[fin_at + 1].gpu_signal
                == 2)
            &&& (t.num_gpu == 0 ==> fin_at + 1 == t.trace@.len())
        }),
{
    let fin_at = t.trace@.len() - (if t.num_gpu > 0 { 2int } else { 1int });
    assert forall|i: int| 0 <= i < fin_at implies !(#[trigger] t.trace@[i]).finished && t.trace@[
        i
    ].gpu_signal == 0 by {
        assert(t.trace@.take(fin_at)[i] == t.trace@[i]);
    }
}

/// Law: a drive task never leaks a buffer. Between steps, every buffer it
/// has taken from the pool was either dispatched in a reply or returned;
/// while a read is pending exactly one buffer is in its hand.
pub proof fn lemma_buffer_conservation(t: DriveTask)
    requires
        t.wf(),
    ensures
        t.phase != TaskPhase::Pending ==> t.buffers_taken == t.replies_sent + t.buffers_returned,
        t.phase == TaskPhase::Pending ==> t.buffers_taken == t.replies_sent + t.buffers_returned
            + 1,
{
}

/// What `Reader::start_reading` hands back for one round: the round-start
/// marker for the GPU channels (sent before any task runs) and one fresh
/// task per drive, to be run concurrently, one thread per drive.
pub struct RoundPlan {
    pub gpu_start: Option<BufferInfo>,
    pub tasks: Vec<DriveTask>,
}

/// One keep-alive seek: which drive, the file to seek, and the offset.
pub struct WakeupSeek {
    pub drive_index: usize,
    pub path: String,
    pub seek_addr: u64,
}

pub open spec fn entry_wf(e: DriveEntry) -> bool {
    &&& e.plots@.len() > 0
    &&& forall|k: int| 0 <= k < e.plots@.len() ==> (#[trigger] e.plots@[k]).wf()
}

/// Every drive holds at least one well-formed plot, and drive ids are
/// distinct.
pub open spec fn table_wf(t: Seq<DriveEntry>) -> bool {
    &&& forall|i: int| 0 <= i < t.len() ==> entry_wf(#[trigger] t[i])
    &&& forall|i: int, j: int|
        0 <= i < j < t.len() ==> (#[trigger] t[i]).drive_id@ != (#[trigger] t[j]).drive_id@
}

pub open spec fn entry_fits(e: DriveEntry, scoop: u32) -> bool {
    forall|k: int|
        0 <= k < e.plots@.len() ==> (#[trigger] e.plots@[k]).spec_base_nonce(scoop) + e.plots@[
            k
        ].meta.nonces <= u64::MAX
}

/// The nonce addressing term `start_nonce + scoop * nonces + nonce index`
/// stays within `u64` for every plot of the table, for this round's scoop.
pub open spec fn table_fits(t: Seq<DriveEntry>, scoop: u32) -> bool {
    forall|i: int| 0 <= i < t.len() ==> entry_fits(#[trigger] t[i], scoop)
}

/// Exec check of `table_fits`, so a caller can reject a round whose scoop
/// would overflow the nonce addressing of some plot before starting it.
pub fn round_fits(table: &Vec<DriveEntry>, scoop: u32) -> (r: bool)
    ensures
        r == table_fits(table@, scoop),
{
    let mut i: usize = 0;
    while i < table.len()
        invariant
            0 <= i <= table@.len(),
            forall|a: int| 0 <= a < i ==> entry_fits(#[trigger] table@[a], scoop),
        decreases table@.len() - i,
    {
        let entry = &table[i];
        let mut k: usize = 0;
        while k < entry.plots.len()
            invariant
                0 <= i < table@.len(),
                0 <= k <= entry.plots@.len(),
                *entry == table@[i as int],
                forall|a: int| 0 <= a < i ==> entry_fits(#[trigger] table@[a], scoop),
                forall|b: int|
                    0 <= b < k ==> (#[trigger] entry.plots@[b]).spec_base_nonce(scoop)
                        + entry.plots@[b].meta.nonces <= u64::MAX,
            decreases entry.plots@.len() - k,
        {
            let p = &entry.plots[k];
            proof {
                assert((scoop as u128) * (p.meta.nonces as u128) <= (u32::MAX as u128) * (
                u64::MAX as u128)) by (nonlinear_arith)
                    requires
                        scoop <= u32::MAX,
                        p.meta.nonces <= u64::MAX,
                ;
            }
            let base = p.meta.start_nonce as u128 + (scoop as u128) * (p.meta.nonces as u128);
            if base + p.meta.nonces as u128 > u64::MAX as u128 {
                return false;
            }
            k = k + 1;
        }
        i = i + 1;
    }
    true
}

/// Element-for-element copy of a drive's plots for this round's tasks.
fn clone_plots(v: &Vec<Plot>) -> (r: Vec<Plot>)
    ensures
        r@ =~= v@,
{
    let mut r: Vec<Plot> = Vec::new();
    let mut k: usize = 0;
    while k < v.len()
        invariant
            0 <= k <= v@.len(),
            r@ =~= v@.take(k as int),
        decreases v@.len() - k,
    {
        r.push(v[k].clone());
        proof {
            assert(v@.take(k + 1).drop_last() =~= v@.take(k as int));
        }
        k = k + 1;
    }
    proof {
        assert(v@.take(v@.len() as int) =~= v@);
    }
    r
}

/// The task `Reader::start_reading` builds for drive entry `e`.
pub open spec fn task_initialized(
    t: DriveTask,
    e: DriveEntry,
    height: u64,
    block: u64,
    base_target: u64,
    scoop: u32,
    gensig: [u8; 32],
    num_gpu: usize,
) -> bool {
    &&& t.drive_id@ == e.drive_id@
    &&& t.plots@ == e.plots@
    &&& t.i_p == 0
    &&& t.phase == TaskPhase::Prepare
    &&& t.height == height
    &&& t.block == block
    &&& t.base_target == base_target
    &&& t.scoop == scoop
    &&& t.gensig == gensig
    &&& t.num_gpu == num_gpu
    &&& t.pending is None
    &&& t.buffers_taken == 0
    &&& t.buffers_returned == 0
    &&& t.replies_sent == 0
    &&& !t.finished_sent
    &&& t.trace@ == Seq::<Emit>::empty()
    &&& t.wf()
}

/// Each entry of a wakeup plan seeks the first plot of its drive to the
/// start of some scoop's region.
pub open spec fn wakeup_ok(table: Seq<DriveEntry>, r: Seq<WakeupSeek>) -> bool
    decreases r.len(),
{
    if r.len() == 0 {
        true
    } else {
        let k = r.len() - 1;
        &&& wakeup_ok(table, r.drop_last())
        &&& k < table.len()
        &&& r.last().drive_index == k
        &&& r.last().path@ == table[k as int].plots@[0].path@
        &&& exists|scoop: u32|
            table[k as int].plots@[0].spec_wakeup_addr(scoop, r.last().seek_addr)
    }
}

/// Each single entry of a sound wakeup plan targets its own drive's first
/// plot.
pub proof fn lemma_wakeup_ok_index(table: Seq<DriveEntry>, r: Seq<WakeupSeek>, k: int)
    requires
        wakeup_ok(table, r),
        r.len() <= table.len(),
        0 <= k < r.len(),
    ensures
        r[k].drive_index == k,
        r[k].path@ == table[k].plots@[0].path@,
        exists|scoop: u32| table[k].plots@[0].spec_wakeup_addr(scoop, r[k].seek_addr),
    decreases r.len(),
{
    if k == r.len() - 1 {
        assert(r.last() == r[k]);
    } else {
        lemma_wakeup_ok_index(table, r.drop_last(), k);
        assert(r.drop_last()[k] == r[k]);
    }
}

/// The round orchestrator: holds the drive table between rounds, validates
/// updates for overlaps, and fans each round out into one task per drive.
/// The thread pool, the channels and the interrupt senders that carry its
/// decisions live with the caller.
pub struct Reader {
    pub drive_table: Vec<DriveEntry>,
    pub total_size: u64,
    /// How many GPU consumer channels the pipeline has.
    pub num_gpu: usize,
}

impl Reader {
    pub open spec fn wf(self) -> bool {
        table_wf(self.drive_table@)
    }

    /// Build the orchestrator over a drive table. Unless `benchmark` is
    /// set, the table is validated and every overlap of two same-account
    /// plots is returned, to be warned about; overlaps do not reject the
    /// table.
    pub fn new(drive_table: Vec<DriveEntry>, total_size: u64, num_gpu: usize, benchmark: bool) -> (r: (
        Reader,
        Vec<OverlapWarning>,
    ))
        requires
            table_wf(drive_table@),
        ensures
            r.0.wf(),
            r.0.drive_table == drive_table,
            r.0.total_size == total_size,
            r.0.num_gpu == num_gpu,
            benchmark ==> r.1@.len() == 0,
            !benchmark ==> warnings_report(
                table_metas(drive_table@),
                overlapping_pairs(table_metas(drive_table@)),
                r.1@,
            ) && ((r.1@.len() == 0) == !has_overlap(table_metas(drive_table@))),
    {
        let warnings: Vec<OverlapWarning> = if benchmark {
            Vec::new()
        } else {
            overlap_pairs(&drive_table)
        };
        (Reader { drive_table, total_size, num_gpu }, warnings)
    }

    /// Replace the drive table between rounds. Unless `benchmark` is set,
    /// the new table's overlaps are returned, as in `new`.
    pub fn update_plots(
        &mut self,
        drive_table: Vec<DriveEntry>,
        total_size: u64,
        benchmark: bool,
    ) -> (warnings: Vec<OverlapWarning>)
        requires
            table_wf(drive_table@),
        ensures
            final(self).wf(),
            final(self).drive_table == drive_table,
            final(self).total_size == total_size,
            final(self).num_gpu == old(self).num_gpu,
            benchmark ==> warnings@.len() == 0,
            !benchmark ==> warnings_report(
                table_metas(drive_table@),
                overlapping_pairs(table_metas(drive_table@)),
                warnings@,
            ) && ((warnings@.len() == 0) == !has_overlap(table_metas(drive_table@))),
    {
        let warnings: Vec<OverlapWarning> = if benchmark {
            Vec::new()
        } else {
            overlap_pairs(&drive_table)
        };
        self.drive_table = drive_table;
        self.total_size = total_size;
        warnings
    }

    /// Fan a round out: one fresh task per drive, and — when GPU channels
    /// exist — the round-start marker (`gpu_signal` 1) to send to each of
    /// them before any task is spawned, so that every GPU consumer observes
    /// the round's start before its first data. The caller interrupts the
    /// previous round's tasks first, then sends the marker, then runs each
    /// task.
    pub fn start_reading(
        &self,
        height: u64,
        block: u64,
        base_target: u64,
        scoop: u32,
        gensig: &[u8; 32],
    ) -> (plan: RoundPlan)
        requires
            self.wf(),
            scoop < SCOOPS_IN_NONCE,
            table_fits(self.drive_table@, scoop),
        ensures
            plan.tasks@.len() == self.drive_table@.len(),
            forall|k: int|
                0 <= k < plan.tasks@.len() ==> task_initialized(
                    #[trigger] plan.tasks@[k],
                    self.drive_table@[k],
                    height,
                    block,
                    base_target,
                    scoop,
                    *gensig,
                    self.num_gpu,
                ),
            plan.gpu_start == (if self.num_gpu > 0 {
                Some(marker_info(height, block, base_target, *gensig, 1))
            } else {
                None::<BufferInfo>
            }),
    {
        let mut tasks: Vec<DriveTask> = Vec::new();
        let mut i: usize = 0;
        while i < self.drive_table.len()
            invariant
                self.wf(),
                scoop < SCOOPS_IN_NONCE,
                table_fits(self.drive_table@, scoop),
                0 <= i <= self.drive_table@.len(),
                tasks@.len() == i,
                forall|k: int|
                    0 <= k < i ==> task_initialized(
                        #[trigger] tasks@[k],
                        self.drive_table@[k],
                        height,
                        block,
                        base_target,
                        scoop,
                        *gensig,
                        self.num_gpu,
                    ),
            decreases self.drive_table@.len() - i,
        {
            let entry = &self.drive_table[i];
            let task = DriveTask {
                drive_id: entry.drive_id.clone(),
                plots: clone_plots(&entry.plots),
                i_p: 0,
                phase: TaskPhase::Prepare,
                height,
                block,
                base_target,
                scoop,
                gensig: *gensig,
                num_gpu: self.num_gpu,
                pending: None,
                buffers_taken: 0,
                buffers_returned: 0,
                replies_sent: 0,
                finished_sent: false,
                trace: Ghost(Seq::empty()),
            };
            proof {
                assert(entry_wf(self.drive_table@[i as int]));
                assert(entry_fits(self.drive_table@[i as int], scoop));
                assert(task.wf());
            }
            tasks.push(task);
            i = i + 1;
        }
        let gpu_start: Option<BufferInfo> = if self.num_gpu > 0 {
            Some(
                BufferInfo {
                    len: 1,
                    height,
                    block,
                    base_target,
                    gensig: *gensig,
                    start_nonce: 0,
                    finished: false,
                    account_id: 0,
                    gpu_signal: 1,
                },
            )
        } else {
            None
        };
        RoundPlan { gpu_start, tasks }
    }

    /// One keep-alive seek per drive, to be performed between rounds: each
    /// seeks the drive's first plot to the region of a random scoop and
    /// discards the result, keeping the drives spun up.
    pub fn wakeup(&self) -> (r: Vec<WakeupSeek>)
        requires
            self.wf(),
        ensures
            r@.len() == self.drive_table@.len(),
            wakeup_ok(self.drive_table@, r@),
    {
        let mut r: Vec<WakeupSeek> = Vec::new();
        let mut i: usize = 0;
        while i < self.drive_table.len()
            invariant
                self.wf(),
                0 <= i <= self.drive_table@.len(),
                r@.len() == i,
                wakeup_ok(self.drive_table@, r@),
            decreases self.drive_table@.len() - i,
        {
            let entry = &self.drive_table[i];
            proof {
                assert(entry_wf(self.drive_table@[i as int]));
            }
            let first = &entry.plots[0];
            let seek_addr = first.seek_random();
            let ws = WakeupSeek { drive_index: i, path: first.path.clone(), seek_addr };
            proof {
                let r1 = r@.push(ws);
                assert(r1.drop_last() =~= r@);
                assert(r1.last() == ws);
                let s = choose|s: u32| first.spec_wakeup_addr(s, seek_addr);
                assert(self.drive_table@[i as int].plots@[0].spec_wakeup_addr(s, ws.seek_addr));
                assert(wakeup_ok(self.drive_table@, r1));
            }
            r.push(ws);
            i = i + 1;
        }
        r
    }
}


} // verus!
