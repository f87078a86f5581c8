//! Plot files and their metadata.
//!
//! A plot is a regular file named `ACCOUNT_STARTNONCE_NONCES` whose length is
//! exactly `NONCES * NONCE_SIZE` bytes, laid out in scoop-major order: the
//! file is `SCOOPS_IN_NONCE` contiguous regions, region `s` holding scoop `s`
//! of every nonce and starting at byte offset `s * NONCES * SCOOP_SIZE`.

use vstd::arithmetic::div_mod::{
    lemma_div_is_ordered, lemma_fundamental_div_mod, lemma_mod_bound, lemma_mod_decreases,
    lemma_mod_multiples_basic,
};
use vstd::prelude::*;

verus! {

pub const SHABAL256_HASH_SIZE: u64 = 32;
pub const SCOOP_SIZE: u64 = SHABAL256_HASH_SIZE * 2;
pub const SCOOPS_IN_NONCE: u64 = 4096;
pub const NONCE_SIZE: u64 = SCOOP_SIZE * SCOOPS_IN_NONCE;

/// Metadata parsed from a plot file's name. Immutable once parsed.
pub struct Meta {
    pub account_id: u64,
    pub start_nonce: u64,
    pub nonces: u64,
    pub name: String,
}

impl Meta {
    /// The nonce interval covered by this plot is `[start_nonce, end_nonce())`.
    pub open spec fn end_nonce(self) -> int {
        self.start_nonce + self.nonces
    }

    /// Two plots overlap when their nonce intervals intersect.
    pub open spec fn spec_overlaps(self, other: Meta) -> bool {
        self.start_nonce < other.end_nonce() && other.start_nonce < self.end_nonce()
    }

    /// How many nonces the two intervals share.
    pub open spec fn spec_overlap_count(self, other: Meta) -> int {
        if self.spec_overlaps(other) {
            (if self.end_nonce() <= other.end_nonce() {
                self.end_nonce()
            } else {
                other.end_nonce()
            }) - (if self.start_nonce >= other.start_nonce {
                self.start_nonce
            } else {
                other.start_nonce
            })
        } else {
            0
        }
    }

    /// Whether this plot's nonce interval intersects `other`'s. The caller is
    /// expected to compare only plots of the same account; this check itself
    /// looks at the intervals alone.
    pub fn overlaps_with(&self, other: &Meta) -> (r: bool)
        ensures
            r == self.spec_overlaps(*other),
    {
        (self.start_nonce as u128) < (other.start_nonce as u128) + (other.nonces as u128)
            && (other.start_nonce as u128) < (self.start_nonce as u128) + (self.nonces as u128)
    }

    /// The number of nonces shared by the two plots; 0 when they do not
    /// overlap.
    pub fn overlap_count(&self, other: &Meta) -> (n: u64)
        ensures
            n == self.spec_overlap_count(*other),
    {
        if self.overlaps_with(other) {
            let self_end: u128 = self.start_nonce as u128 + self.nonces as u128;
            let other_end: u128 = other.start_nonce as u128 + other.nonces as u128;
            let hi: u128 = if self_end <= other_end {
                self_end
            } else {
                other_end
            };
            let lo: u128 = if self.start_nonce >= other.start_nonce {
                self.start_nonce as u128
            } else {
                other.start_nonce as u128
            };
            (hi - lo) as u64
        } else {
            0
        }
    }
}

impl Clone for Meta {
    fn clone(&self) -> (res: Self)
        ensures
            res == *self,
    {
        Meta {
            account_id: self.account_id,
            start_nonce: self.start_nonce,
            nonces: self.nonces,
            name: self.name.clone(),
        }
    }
}

/// Why a plot file was rejected at startup.
#[derive(Clone, Copy, PartialEq, Eq, Structural, Debug)]
pub enum PlotError {
    /// The file name is not three underscore-delimited decimal fields.
    WrongFormat,
    /// The file's length is not `nonces * NONCE_SIZE`.
    SizeMismatch,
}

/// One chunk handed out by `Plot::read`: where to seek, how many bytes to
/// fetch, the nonce index of the chunk's first scoop, and whether the scoop
/// region is exhausted after this chunk.
#[derive(Clone, Copy)]
pub struct ReadStep {
    pub offset: u64,
    pub bytes_to_read: u64,
    pub start_nonce: u64,
    pub finished: bool,
}

/// Sum of the chunk lengths of a read trace.
pub open spec fn trace_bytes(t: Seq<(u64, u64)>) -> int
    decreases t.len(),
{
    if t.len() == 0 {
        0
    } else {
        trace_bytes(t.drop_last()) + t.last().1
    }
}

/// A plot file's open-handle bookkeeping for the current round. The file
/// itself is owned by the caller; this type plans every seek and read over
/// the scoop region and accounts for sector alignment under direct I/O.
pub struct Plot {
    pub meta: Meta,
    pub path: String,
    pub read_offset: u64,
    pub align_offset: u64,
    pub seek_base: u64,
    pub use_direct_io: bool,
    pub sector_size: u64,
    pub dummy: bool,
    /// Which scoop the plot is prepared for this round.
    pub prepared: Ghost<Option<u32>>,
    /// The `(start_nonce, len)` of every chunk handed out since `prepare`.
    pub emitted: Ghost<Seq<(u64, u64)>>,
}

impl Plot {
    /// Size in bytes of one scoop region: every nonce contributes one scoop.
    pub open spec fn region_size(self) -> int {
        self.meta.nonces * SCOOP_SIZE
    }

    /// Nonce index reported for the first byte of the region of `scoop`.
    pub open spec fn spec_base_nonce(self, scoop: u32) -> int {
        self.meta.start_nonce + scoop * self.meta.nonces
    }

    /// Byte offset at which the region of `scoop` starts in the file.
    pub open spec fn spec_region_start(self, scoop: u32) -> int {
        scoop * self.meta.nonces * SCOOP_SIZE
    }

    pub open spec fn wf(self) -> bool {
        &&& self.meta.nonces <= u64::MAX as int / NONCE_SIZE as int
        &&& self.sector_size >= 1
        &&& match self.prepared@ {
            None => true,
            Some(scoop) => {
                &&& scoop < SCOOPS_IN_NONCE
                &&& self.seek_base + self.align_offset == self.spec_region_start(scoop)
                &&& self.align_offset < self.sector_size
                &&& (self.use_direct_io ==> self.seek_base as int % self.sector_size as int == 0)
                &&& (!self.use_direct_io ==> self.align_offset == 0)
                &&& self.read_offset <= self.region_size()
                &&& trace_bytes(self.emitted@) == self.read_offset
                &&& forall|i: int|
                    0 <= i < self.emitted@.len() ==> (#[trigger] self.emitted@[i]).0
                        == self.spec_base_nonce(scoop) + trace_bytes(self.emitted@.take(i)) / 64
            },
        }
    }

    /// What `Plot::prepare` does from state `self` for `scoop`: bookkeeping
    /// reset, the region start aligned down under direct I/O, and the seek
    /// address handed to the caller.
    pub open spec fn spec_prepare(self, scoop: u32, after: Plot, seek_addr: u64) -> bool {
        &&& after.meta == self.meta
        &&& after.path == self.path
        &&& after.use_direct_io == self.use_direct_io
        &&& after.sector_size == self.sector_size
        &&& after.dummy == self.dummy
        &&& after.read_offset == 0
        &&& after.prepared@ == Some(scoop)
        &&& after.emitted@ == Seq::<(u64, u64)>::empty()
        &&& after.seek_base + after.align_offset == self.spec_region_start(scoop)
        &&& seek_addr == after.seek_base
        &&& (self.use_direct_io ==> after.align_offset == self.spec_region_start(scoop)
            % self.sector_size as int && after.seek_base as int % self.sector_size as int == 0)
        &&& (!self.use_direct_io ==> after.align_offset == 0)
    }

    /// What one call of `Plot::read` does from state `self` with a buffer of
    /// capacity `cap`: the chunk it hands out and the state it leaves.
    pub open spec fn spec_read(self, cap: u64, scoop: u32, step: ReadStep, after: Plot) -> bool {
        let remaining = self.region_size() - self.read_offset;
        &&& step.start_nonce == self.spec_base_nonce(scoop) + self.read_offset as int / 64
        &&& step.offset == self.seek_base + self.align_offset + self.read_offset
        &&& (if cap >= remaining {
            step.finished && step.bytes_to_read == (if self.use_direct_io {
                remaining - remaining % self.sector_size as int
            } else {
                remaining
            })
        } else {
            !step.finished && step.bytes_to_read == cap
        })
        &&& step.bytes_to_read <= cap
        &&& after.read_offset == self.read_offset + step.bytes_to_read
        &&& after.emitted@ == self.emitted@.push((step.start_nonce, step.bytes_to_read))
        &&& after.meta == self.meta
        &&& after.path == self.path
        &&& after.align_offset == self.align_offset
        &&& after.seek_base == self.seek_base
        &&& after.use_direct_io == self.use_direct_io
        &&& after.sector_size == self.sector_size
        &&& after.dummy == self.dummy
        &&& after.prepared == self.prepared
        &&& (step.finished ==> after.spec_done_reading())
    }

    /// The region has been read to its end for this round: all that remains
    /// is the direct-I/O tail, shorter than one sector (no tail at all under
    /// buffered I/O).
    pub open spec fn spec_done_reading(self) -> bool {
        &&& self.read_offset <= self.region_size()
        &&& self.region_size() - self.read_offset < if self.use_direct_io {
            self.sector_size as int
        } else {
            1
        }
    }

    /// Validate a plot file against its name and build the bookkeeping for
    /// it. `name` is the file's name, `path` the full path the caller opened
    /// it under, and `file_size` its length as stat reported it. When direct
    /// I/O is requested but one sector spans more nonces than the plot holds,
    /// the request is silently downgraded to buffered I/O.
    pub fn new(
        name: &str,
        path: &str,
        file_size: u64,
        use_direct_io: bool,
        dummy: bool,
        sector_size: u64,
    ) -> (r: Result<Plot, PlotError>)
        requires
            sector_size >= 1,
        ensures
            match r {
                Ok(p) => {
                    &&& crate::text::name_parses_to(
                        name@,
                        p.meta.account_id,
                        p.meta.start_nonce,
                        p.meta.nonces,
                    )
                    &&& file_size as int == p.meta.nonces * NONCE_SIZE
                    &&& p.meta.name@ == name@
                    &&& p.path@ == path@
                    &&& p.wf()
                    &&& p.read_offset == 0
                    &&& p.align_offset == 0
                    &&& p.seek_base == 0
                    &&& p.prepared@ is None
                    &&& p.sector_size == sector_size
                    &&& p.dummy == dummy
                    &&& p.use_direct_io == (use_direct_io && !(sector_size as int / 64
                        > p.meta.nonces))
                },
                Err(PlotError::WrongFormat) => !crate::text::name_valid(name@),
                Err(PlotError::SizeMismatch) => crate::text::name_valid(name@) && forall|
                    a: u64,
                    sn: u64,
                    n: u64,
                |
                    crate::text::name_parses_to(name@, a, sn, n) ==> file_size as int != n
                        * NONCE_SIZE,
            },
    {
        let parsed = crate::text::parse_plot_name(name);
        match parsed {
            None => Err(PlotError::WrongFormat),
            Some((account_id, start_nonce, nonces)) => {
                if nonces > u64::MAX / NONCE_SIZE {
                    proof {
                        assert forall|a: u64, sn: u64, n: u64|
                            crate::text::name_parses_to(name@, a, sn, n) implies file_size as int
                            != n * NONCE_SIZE by {
                            assert(n == nonces);
                            assert(n * NONCE_SIZE > u64::MAX) by (nonlinear_arith)
                                requires
                                    n > u64::MAX as int / NONCE_SIZE as int,
                            ;
                        }
                    }
                    return Err(PlotError::SizeMismatch);
                }
                let expected_size: u64 = nonces * NONCE_SIZE;
                if file_size != expected_size {
                    proof {
                        assert forall|a: u64, sn: u64, n: u64|
                            crate::text::name_parses_to(name@, a, sn, n) implies file_size as int
                            != n * NONCE_SIZE by {
                            assert(n == nonces);
                        }
                    }
                    return Err(PlotError::SizeMismatch);
                }
                let mut direct = use_direct_io;
                if direct && sector_size / 64 > nonces {
                    direct = false;
                }
                Ok(
                    Plot {
                        meta: Meta { account_id, start_nonce, nonces, name: name.to_owned() },
                        path: path.to_owned(),
                        read_offset: 0,
                        align_offset: 0,
                        seek_base: 0,
                        use_direct_io: direct,
                        sector_size,
                        dummy,
                        prepared: Ghost(None),
                        emitted: Ghost(Seq::empty()),
                    },
                )
            },
        }
    }

    /// Reset the per-round bookkeeping for `scoop` and return the byte offset
    /// the caller must seek the (re-opened) file handle to. Under direct I/O
    /// the region start is aligned *downward* to the sector size, so that the
    /// leading `align_offset` bytes of the first read are sector padding and
    /// no scoop byte is skipped.
    pub fn prepare(&mut self, scoop: u32) -> (seek_addr: u64)
        requires
            old(self).wf(),
            scoop < SCOOPS_IN_NONCE,
        ensures
            final(self).wf(),
            old(self).spec_prepare(scoop, *final(self), seek_addr),
    {
        self.read_offset = 0;
        self.align_offset = 0;
        proof {
            lemma_region_start_fits(*self, scoop);
        }
        let mut seek_addr: u64 = (scoop as u64) * self.meta.nonces * SCOOP_SIZE;
        if self.use_direct_io {
            let (aligned, rem) = round_seek_addr(seek_addr, self.sector_size);
            seek_addr = aligned;
            self.align_offset = rem;
        }
        self.seek_base = seek_addr;
        self.prepared = Ghost(Some(scoop));
        self.emitted = Ghost(Seq::empty());
        seek_addr
    }

    /// Plan the next read of the current round: decide how many bytes come
    /// next, which nonce index they start at, and whether the region is done
    /// with this chunk. Advances `read_offset` as if the read had happened;
    /// the caller performs the actual seek and read (or skips them when
    /// `dummy` is set).
    ///
    /// When the rest of the region fits the buffer this is the final chunk;
    /// under direct I/O its length is truncated down to a multiple of the
    /// sector size, dropping a tail of fewer than `sector_size` bytes.
    pub fn read(&mut self, buffer_cap: u64, scoop: u32) -> (step: ReadStep)
        requires
            old(self).wf(),
            old(self).prepared@ == Some(scoop),
            old(self).spec_base_nonce(scoop) + old(self).meta.nonces <= u64::MAX,
        ensures
            final(self).wf(),
            old(self).spec_read(buffer_cap, scoop, step, *final(self)),
    {
        proof {
            lemma_region_start_fits(*self, scoop);
            assert(self.region_size() <= u64::MAX) by (nonlinear_arith)
                requires
                    self.meta.nonces <= u64::MAX as int / NONCE_SIZE as int,
                    self.region_size() == self.meta.nonces * SCOOP_SIZE,
            ;
        }
        let region_size: u64 = self.meta.nonces * SCOOP_SIZE;
        let remaining: u64 = region_size - self.read_offset;
        proof {
            lemma_div_is_ordered(self.read_offset as int, region_size as int, 64);
            assert(self.spec_base_nonce(scoop) + self.read_offset as int / 64 <= u64::MAX) by {
                assert(region_size as int / 64 == self.meta.nonces) by (nonlinear_arith)
                    requires
                        region_size == self.meta.nonces * SCOOP_SIZE,
                ;
            }
        }
        let start_nonce: u64 = self.meta.start_nonce + (scoop as u64) * self.meta.nonces
            + self.read_offset / 64;
        let (bytes_to_read, finished): (u64, bool) = if buffer_cap >= remaining {
            let mut bytes: u64 = remaining;
            if self.use_direct_io {
                proof {
                    lemma_mod_bound(bytes as int, self.sector_size as int);
                    lemma_mod_decreases(bytes as nat, self.sector_size as nat);
                }
                let r: u64 = bytes % self.sector_size;
                if r != 0 {
                    bytes = bytes - r;
                }
            }
            (bytes, true)
        } else {
            (buffer_cap, false)
        };
        let offset: u64 = self.seek_base + self.align_offset + self.read_offset;
        self.read_offset = self.read_offset + bytes_to_read;
        proof {
            let t0 = self.emitted@;
            let t1 = t0.push((start_nonce, bytes_to_read));
            assert(t1.drop_last() =~= t0);
            assert(trace_bytes(t1) == self.read_offset);
            assert forall|i: int| 0 <= i < t1.len() implies (#[trigger] t1[i]).0
                == self.spec_base_nonce(scoop) + trace_bytes(t1.take(i)) / 64 by {
                if i < t0.len() {
                    assert(t1.take(i) =~= t0.take(i));
                    assert(t1[i] == t0[i]);
                } else {
                    assert(t1.take(i) =~= t0);
                }
            }
        }
        self.emitted = Ghost(self.emitted@.push((start_nonce, bytes_to_read)));
        ReadStep { offset, bytes_to_read, start_nonce, finished }
    }

    /// `addr` is where the region of `scoop` starts, aligned down to the
    /// sector size when the plot uses direct I/O.
    pub open spec fn spec_wakeup_addr(self, scoop: u32, addr: u64) -> bool {
        &&& scoop < SCOOPS_IN_NONCE
        &&& addr == (if self.use_direct_io {
            self.spec_region_start(scoop) - self.spec_region_start(scoop)
                % self.sector_size as int
        } else {
            self.spec_region_start(scoop)
        })
    }

    /// Pick a uniformly random scoop and return the (aligned) byte offset of
    /// its region, for a keep-alive seek between rounds. The caller issues
    /// the seek and discards the data.
    pub fn seek_random(&self) -> (seek_addr: u64)
        requires
            self.wf(),
        ensures
            exists|scoop: u32| self.spec_wakeup_addr(scoop, seek_addr),
    {
        let rand_scoop: u64 = crate::rng::random_scoop();
        proof {
            lemma_region_start_fits(*self, rand_scoop as u32);
        }
        let mut seek_addr: u64 = rand_scoop * self.meta.nonces * SCOOP_SIZE;
        if self.use_direct_io {
            let (aligned, _rem) = round_seek_addr(seek_addr, self.sector_size);
            seek_addr = aligned;
        }
        proof {
            let s = rand_scoop as u32;
            assert(self.spec_wakeup_addr(s, seek_addr));
        }
        seek_addr
    }
}

impl Clone for Plot {
    fn clone(&self) -> (res: Self)
        ensures
            res == *self,
    {
        Plot {
            meta: self.meta.clone(),
            path: self.path.clone(),
            read_offset: self.read_offset,
            align_offset: self.align_offset,
            seek_base: self.seek_base,
            use_direct_io: self.use_direct_io,
            sector_size: self.sector_size,
            dummy: self.dummy,
            prepared: self.prepared,
            emitted: self.emitted,
        }
    }
}

/// Align `seek_addr` downward to a multiple of `sector_size`; returns the
/// aligned address and the number of bytes subtracted.
fn round_seek_addr(seek_addr: u64, sector_size: u64) -> (r: (u64, u64))
    requires
        sector_size >= 1,
    ensures
        r.1 == seek_addr as int % sector_size as int,
        r.0 == seek_addr - r.1,
        r.0 as int % sector_size as int == 0,
{
    proof {
        lemma_mod_bound(seek_addr as int, sector_size as int);
        lemma_mod_decreases(seek_addr as nat, sector_size as nat);
    }
    let r: u64 = seek_addr % sector_size;
    let aligned: u64 = seek_addr - r;
    proof {
        lemma_fundamental_div_mod(seek_addr as int, sector_size as int);
        let q = seek_addr as int / sector_size as int;
        assert(aligned == sector_size as int * q);
        lemma_mod_multiples_basic(q, sector_size as int);
        assert(sector_size as int * q == q * sector_size as int) by (nonlinear_arith);
    }
    (aligned, r)
}

proof fn lemma_trace_bytes_nonneg(t: Seq<(u64, u64)>)
    ensures
        trace_bytes(t) >= 0,
    decreases t.len(),
{
    if t.len() > 0 {
        lemma_trace_bytes_nonneg(t.drop_last());
    }
}

/// `trace_bytes` over a prefix one element longer grows by that element.
proof fn lemma_trace_bytes_take_succ(t: Seq<(u64, u64)>, i: int)
    requires
        0 <= i < t.len(),
    ensures
        trace_bytes(t.take(i + 1)) == trace_bytes(t.take(i)) + t[i].1,
{
    assert(t.take(i + 1).drop_last() =~= t.take(i));
    assert(t.take(i + 1).last() == t[i]);
}

proof fn lemma_trace_bytes_mod64(t: Seq<(u64, u64)>)
    requires
        forall|i: int| 0 <= i < t.len() ==> (#[trigger] t[i]).1 as int % 64 == 0,
    ensures
        trace_bytes(t) % 64 == 0,
    decreases t.len(),
{
    if t.len() > 0 {
        assert(t.drop_last() =~= t.take(t.len() - 1));
        assert(forall|i: int|
            0 <= i < t.drop_last().len() ==> (#[trigger] t.drop_last()[i]).1 as int % 64 == 0);
        lemma_trace_bytes_mod64(t.drop_last());
        let s = trace_bytes(t.drop_last());
        let l = t.last().1 as int;
        lemma_fundamental_div_mod(s, 64);
        lemma_fundamental_div_mod(l, 64);
        assert(s + l == 64 * (s / 64 + l / 64));
        lemma_mod_multiples_basic(s / 64 + l / 64, 64);
    }
}

/// The quotient of a sum of two multiples of 64 splits over the summands.
proof fn lemma_div64_split(s: int, l: int)
    requires
        s >= 0,
        l >= 0,
        s % 64 == 0,
        l % 64 == 0,
    ensures
        (s + l) / 64 == s / 64 + l / 64,
{
    lemma_fundamental_div_mod(s, 64);
    lemma_fundamental_div_mod(l, 64);
    let q = s / 64 + l / 64;
    assert(s + l == 64 * q);
    vstd::arithmetic::div_mod::lemma_div_pos_is_pos(s, 64);
    vstd::arithmetic::div_mod::lemma_div_pos_is_pos(l, 64);
    vstd::arithmetic::div_mod::lemma_div_by_multiple(q, 64);
    assert(q * 64 == 64 * q);
}

/// Law: the chunks a plot hands out in one round cover its scoop region
/// gaplessly and without duplicates. Whenever every chunk's length is a
/// whole number of scoops (buffer capacities and the sector size are
/// multiples of 64 in practice), the first chunk starts at the plot's base
/// nonce for the round's scoop, each later chunk starts exactly where the
/// one before it ended, and no two chunks share a nonce.
pub proof fn lemma_chunks_cover_region(p: Plot, scoop: u32)
    requires
        p.wf(),
        p.prepared@ == Some(scoop),
        forall|i: int| 0 <= i < p.emitted@.len() ==> (#[trigger] p.emitted@[i]).1 as int % 64 == 0,
    ensures
        p.emitted@.len() > 0 ==> p.emitted@[0].0 == p.spec_base_nonce(scoop),
        forall|i: int|
            0 < i < p.emitted@.len() ==> (#[trigger] p.emitted@[i]).0 == p.emitted@[i - 1].0
                + p.emitted@[i - 1].1 as int / 64,
        forall|i: int|
            0 <= i < p.emitted@.len() ==> (#[trigger] p.emitted@[i]).0 + p.emitted@[i].1 as int
                / 64 == p.spec_base_nonce(scoop) + trace_bytes(p.emitted@.take(i + 1)) / 64,
        p.emitted@.len() > 0 ==> p.emitted@.last().0 + p.emitted@.last().1 as int / 64
            == p.spec_base_nonce(scoop) + p.read_offset as int / 64,
{
    let t = p.emitted@;
    let base = p.spec_base_nonce(scoop);
    if t.len() > 0 {
        assert(t.take(0) =~= Seq::<(u64, u64)>::empty());
        assert(t[0].0 == base + trace_bytes(t.take(0)) / 64);
    }
    assert forall|i: int| 0 <= i < t.len() implies (#[trigger] t[i]).0 + t[i].1 as int / 64 == base
        + trace_bytes(t.take(i + 1)) / 64 by {
        assert(forall|k: int|
            0 <= k < t.take(i).len() ==> (#[trigger] t.take(i)[k]).1 as int % 64 == 0);
        lemma_trace_bytes_mod64(t.take(i));
        lemma_trace_bytes_nonneg(t.take(i));
        lemma_trace_bytes_take_succ(t, i);
        lemma_div64_split(trace_bytes(t.take(i)), t[i].1 as int);
    }
    assert forall|i: int| 0 < i < t.len() implies (#[trigger] t[i]).0 == t[i - 1].0 + t[i
        - 1].1 as int / 64 by {
        assert(t[i - 1].0 + t[i - 1].1 as int / 64 == base + trace_bytes(t.take(i)) / 64);
    }
    if t.len() > 0 {
        let n = t.len() as int;
        assert(t.take(n) =~= t);
        assert(t.last() == t[n - 1]);
        assert(t[n - 1].0 + t[n - 1].1 as int / 64 == base + trace_bytes(t.take(n)) / 64);
    }
}

/// Law: once a plot's round is done, the bytes handed out total the scoop
/// region's size minus the tail: zero bytes under buffered I/O, fewer than
/// one sector under direct I/O.
pub proof fn lemma_emitted_bytes_total(p: Plot, scoop: u32)
    requires
        p.wf(),
        p.prepared@ == Some(scoop),
        p.spec_done_reading(),
    ensures
        trace_bytes(p.emitted@) == p.region_size() - (p.region_size() - p.read_offset as int),
        0 <= p.region_size() - p.read_offset as int,
        p.region_size() - (p.read_offset as int) < (if p.use_direct_io {
            p.sector_size as int
        } else {
            1
        }),
{
}

/// Every scoop region of a well-formed plot starts within `u64` range, and
/// the nonce addressing term `scoop * nonces` stays within range too.
proof fn lemma_region_start_fits(p: Plot, scoop: u32)
    requires
        p.meta.nonces <= u64::MAX as int / NONCE_SIZE as int,
        scoop < SCOOPS_IN_NONCE,
    ensures
        0 <= p.spec_region_start(scoop),
        p.spec_region_start(scoop) + p.region_size() <= u64::MAX,
        scoop * p.meta.nonces <= u64::MAX as int / 64,
{
    assert(p.spec_region_start(scoop) + p.region_size() <= u64::MAX && scoop * p.meta.nonces
        <= u64::MAX as int / 64 && p.spec_region_start(scoop) >= 0) by (nonlinear_arith)
        requires
            p.meta.nonces <= u64::MAX as int / NONCE_SIZE as int,
            0 <= scoop < SCOOPS_IN_NONCE,
            p.spec_region_start(scoop) == scoop * p.meta.nonces * SCOOP_SIZE,
            p.region_size() == p.meta.nonces * SCOOP_SIZE,
    ;
}


} // verus!
