//! The miner's metrics counters and health rules.
//!
//! Counters are exact integers. Rates that the miner displays as
//! percentages are compared against their thresholds by cross
//! multiplication, so the health tiers below are decided exactly. Times are
//! counted by the caller and handed in as plain values: round durations in
//! milliseconds, uptime in seconds.

use std::collections::HashMap;
use vstd::prelude::*;

verus! {

broadcast use vstd::std_specs::hash::group_hash_axioms;

/// Three-tier health verdict.
#[derive(Debug, Clone, Copy, PartialEq, Eq, Structural)]
pub enum HealthStatus {
    Healthy,
    Warning,
    Critical,
}

/// I/O errors attributed to one drive.
pub struct DriveErrorCount {
    pub drive_id: String,
    pub errors: u64,
}

/// Counters for the whole miner. `last_submission` holds the index (1-based,
/// in submission order) of the last successful submission;
/// `avg_round_time_ms` is an exponentially-weighted moving average of round
/// durations with weight 1/10 on the newest round.
pub struct MinerMetrics {
    pub total_submissions: u64,
    pub successful_submissions: u64,
    pub failed_submissions: u64,
    /// Per-account best (lowest) deadline observed.
    pub best_deadlines: HashMap<u64, u64>,
    pub rounds_completed: u64,
    pub rounds_failed: u64,
    pub io_errors_by_drive: Vec<DriveErrorCount>,
    pub total_io_errors: u64,
    pub config_errors: u64,
    pub network_errors: u64,
    pub last_submission: Option<u64>,
    pub avg_round_time_ms: u64,
    pub total_bytes_read: u64,
}

/// Index of the drive's counter, if it exists.
fn find_drive(v: &Vec<DriveErrorCount>, id: &String) -> (r: Option<usize>)
    ensures
        match r {
            Some(k) => 0 <= k < v@.len() && v@[k as int].drive_id@ == id@,
            None => forall|a: int| 0 <= a < v@.len() ==> (#[trigger] v@[a]).drive_id@ != id@,
        },
{
    let mut k: usize = 0;
    while k < v.len()
        invariant
            0 <= k <= v@.len(),
            forall|a: int| 0 <= a < k ==> (#[trigger] v@[a]).drive_id@ != id@,
        decreases v@.len() - k,
    {
        if v[k].drive_id == *id {
            return Some(k);
        }
        k = k + 1;
    }
    None
}

impl MinerMetrics {
    pub open spec fn wf(self) -> bool {
        &&& self.total_submissions == self.successful_submissions + self.failed_submissions
        &&& forall|i: int, j: int|
            0 <= i < j < self.io_errors_by_drive@.len() ==> (#[trigger] self.io_errors_by_drive@[
                i
            ]).drive_id@ != (#[trigger] self.io_errors_by_drive@[j]).drive_id@
        &&& forall|i: int|
            0 <= i < self.io_errors_by_drive@.len() ==> (#[trigger] self.io_errors_by_drive@[
                i
            ]).errors <= self.total_io_errors
    }

    pub fn new() -> (m: MinerMetrics)
        ensures
            m.wf(),
            m.total_submissions == 0,
            m.successful_submissions == 0,
            m.failed_submissions == 0,
            m.best_deadlines@ == Map::<u64, u64>::empty(),
            m.rounds_completed == 0,
            m.rounds_failed == 0,
            m.io_errors_by_drive@.len() == 0,
            m.total_io_errors == 0,
            m.config_errors == 0,
            m.network_errors == 0,
            m.last_submission is None,
            m.avg_round_time_ms == 0,
            m.total_bytes_read == 0,
    {
        MinerMetrics {
            total_submissions: 0,
            successful_submissions: 0,
            failed_submissions: 0,
            best_deadlines: HashMap::new(),
            rounds_completed: 0,
            rounds_failed: 0,
            io_errors_by_drive: Vec::new(),
            total_io_errors: 0,
            config_errors: 0,
            network_errors: 0,
            last_submission: None,
            avg_round_time_ms: 0,
            total_bytes_read: 0,
        }
    }

    /// The best deadline an account would hold after seeing `deadline`.
    pub open spec fn spec_new_best(self, account_id: u64, deadline: u64) -> u64 {
        let current = if self.best_deadlines@.contains_key(account_id) {
            self.best_deadlines@[account_id]
        } else {
            u64::MAX
        };
        if deadline < current {
            deadline
        } else {
            current
        }
    }

    /// Count a successful submission and keep the account's best (minimum)
    /// deadline.
    pub fn record_submission_success(&mut self, account_id: u64, deadline: u64)
        requires
            old(self).wf(),
            old(self).total_submissions < u64::MAX,
        ensures
            final(self).wf(),
            final(self).total_submissions == old(self).total_submissions + 1,
            final(self).successful_submissions == old(self).successful_submissions + 1,
            final(self).failed_submissions == old(self).failed_submissions,
            final(self).last_submission == Some(final(self).total_submissions),
            final(self).best_deadlines@ == old(self).best_deadlines@.insert(
                account_id,
                old(self).spec_new_best(account_id, deadline),
            ),
            final(self).rounds_completed == old(self).rounds_completed,
            final(self).rounds_failed == old(self).rounds_failed,
            final(self).io_errors_by_drive == old(self).io_errors_by_drive,
            final(self).total_io_errors == old(self).total_io_errors,
            final(self).config_errors == old(self).config_errors,
            final(self).network_errors == old(self).network_errors,
            final(self).avg_round_time_ms == old(self).avg_round_time_ms,
            final(self).total_bytes_read == old(self).total_bytes_read,
    {
        self.total_submissions = self.total_submissions + 1;
        self.successful_submissions = self.successful_submissions + 1;
        self.last_submission = Some(self.total_submissions);
        let current: u64 = match self.best_deadlines.get(&account_id) {
            Some(v) => *v,
            None => u64::MAX,
        };
        let best: u64 = if deadline < current {
            deadline
        } else {
            current
        };
        self.best_deadlines.insert(account_id, best);
    }

    /// Count a submission that failed.
    pub fn record_submission_failure(&mut self)
        requires
            old(self).wf(),
            old(self).total_submissions < u64::MAX,
        ensures
            final(self).wf(),
            final(self).total_submissions == old(self).total_submissions + 1,
            final(self).failed_submissions == old(self).failed_submissions + 1,
            final(self).successful_submissions == old(self).successful_submissions,
            *final(self) == (MinerMetrics {
                total_submissions: final(self).total_submissions,
                failed_submissions: final(self).failed_submissions,
                ..*old(self)
            }),
    {
        self.total_submissions = self.total_submissions + 1;
        self.failed_submissions = self.failed_submissions + 1;
    }

    /// Count a completed round and fold its duration into the moving
    /// average: one tenth of the new duration, nine tenths of the old
    /// average.
    pub fn record_round_complete(&mut self, duration_ms: u64)
        requires
            old(self).wf(),
            old(self).rounds_completed < u64::MAX,
        ensures
            final(self).wf(),
            final(self).rounds_completed == old(self).rounds_completed + 1,
            final(self).avg_round_time_ms == (duration_ms + 9 * old(self).avg_round_time_ms as int)
                / 10,
            *final(self) == (MinerMetrics {
                rounds_completed: final(self).rounds_completed,
                avg_round_time_ms: final(self).avg_round_time_ms,
                ..*old(self)
            }),
    {
        self.rounds_completed = self.rounds_completed + 1;
        let wide: u128 = (duration_ms as u128 + 9 * self.avg_round_time_ms as u128) / 10;
        proof {
            assert(wide <= u64::MAX) by (nonlinear_arith)
                requires
                    wide == (duration_ms as u128 + 9 * self.avg_round_time_ms as u128) / 10,
                    duration_ms <= u64::MAX,
                    self.avg_round_time_ms <= u64::MAX,
            ;
        }
        self.avg_round_time_ms = wide as u64;
    }

    /// Count a round that failed.
    pub fn record_round_failure(&mut self)
        requires
            old(self).wf(),
            old(self).rounds_failed < u64::MAX,
        ensures
            final(self).wf(),
            final(self).rounds_failed == old(self).rounds_failed + 1,
            *final(self) == (MinerMetrics { rounds_failed: final(self).rounds_failed, ..*old(self) }),
    {
        self.rounds_failed = self.rounds_failed + 1;
    }

    /// Count an I/O error against `drive_id`, creating the drive's counter
    /// on first sight.
    pub fn record_io_error(&mut self, drive_id: &str)
        requires
            old(self).wf(),
            old(self).total_io_errors < u64::MAX,
        ensures
            final(self).wf(),
            final(self).total_io_errors == old(self).total_io_errors + 1,
            ({
                let t = old(self).io_errors_by_drive@;
                let t1 = final(self).io_errors_by_drive@;
                if exists|k: int| 0 <= k < t.len() && (#[trigger] t[k]).drive_id@ == drive_id@ {
                    exists|k: int|
                        {
                            &&& 0 <= k < t.len()
                            &&& (#[trigger] t[k]).drive_id@ == drive_id@
                            &&& t1 =~= t.update(
                                k,
                                DriveErrorCount { drive_id: t1[k].drive_id, errors: (t[k].errors
                                    + 1) as u64 },
                            )
                            &&& t1[k].drive_id@ == drive_id@
                        }
                } else {
                    &&& t1.len() == t.len() + 1
                    &&& t1.take(t.len() as int) =~= t
                    &&& t1.last().drive_id@ == drive_id@
                    &&& t1.last().errors == 1
                }
            }),
            *final(self) == (MinerMetrics {
                total_io_errors: final(self).total_io_errors,
                io_errors_by_drive: final(self).io_errors_by_drive,
                ..*old(self)
            }),
    {
        self.total_io_errors = self.total_io_errors + 1;
        let owned: String = drive_id.to_owned();
        match find_drive(&self.io_errors_by_drive, &owned) {
            Some(k) => {
                let mut entry = self.io_errors_by_drive.remove(k);
                proof {
                    assert(entry.errors < u64::MAX);
                }
                entry.errors = entry.errors + 1;
                self.io_errors_by_drive.insert(k, entry);
                proof {
                    let t = old(self).io_errors_by_drive@;
                    let t1 = self.io_errors_by_drive@;
                    assert(0 <= k < t.len() && t[k as int].drive_id@ == drive_id@);
                    assert(t1 =~= t.update(
                        k as int,
                        DriveErrorCount {
                            drive_id: t1[k as int].drive_id,
                            errors: (t[k as int].errors + 1) as u64,
                        },
                    ));
                }
            },
            None => {
                self.io_errors_by_drive.push(DriveErrorCount { drive_id: owned, errors: 1 });
                proof {
                    let t = old(self).io_errors_by_drive@;
                    let t1 = self.io_errors_by_drive@;
                    assert(t1.take(t.len() as int) =~= t);
                }
            },
        }
    }

    /// Count a network error.
    pub fn record_network_error(&mut self)
        requires
            old(self).wf(),
            old(self).network_errors < u64::MAX,
        ensures
            final(self).wf(),
            final(self).network_errors == old(self).network_errors + 1,
            *final(self) == (MinerMetrics {
                network_errors: final(self).network_errors,
                ..*old(self)
            }),
    {
        self.network_errors = self.network_errors + 1;
    }

    /// Count a configuration error.
    pub fn record_config_error(&mut self)
        requires
            old(self).wf(),
            old(self).config_errors < u64::MAX,
        ensures
            final(self).wf(),
            final(self).config_errors == old(self).config_errors + 1,
            *final(self) == (MinerMetrics { config_errors: final(self).config_errors, ..*old(self) }),
    {
        self.config_errors = self.config_errors + 1;
    }

    /// Count bytes read from the plots.
    pub fn record_bytes_read(&mut self, bytes: u64)
        requires
            old(self).wf(),
            old(self).total_bytes_read + bytes <= u64::MAX,
        ensures
            final(self).wf(),
            final(self).total_bytes_read == old(self).total_bytes_read + bytes,
            *final(self) == (MinerMetrics {
                total_bytes_read: final(self).total_bytes_read,
                ..*old(self)
            }),
    {
        self.total_bytes_read = self.total_bytes_read + bytes;
    }

    /// The I/O error rate exceeds `pct` percent of a MiB read. While
    /// nothing was read the rate counts as zero; with reads but not yet a
    /// whole MiB, any error at all exceeds every percentage.
    pub open spec fn spec_io_rate_exceeds(self, pct: int) -> bool {
        if self.total_bytes_read == 0 {
            false
        } else {
            self.total_io_errors * 100 > pct * (self.total_bytes_read as int / (1024 * 1024) as int)
        }
    }

    /// The share of failed rounds exceeds `pct` percent. While no round has
    /// ended the success rate counts as zero, so the failure share exceeds
    /// any threshold below one hundred.
    pub open spec fn spec_round_failure_exceeds(self, pct: int) -> bool {
        let total = self.rounds_completed + self.rounds_failed;
        if total == 0 {
            100 > pct
        } else {
            self.rounds_failed * 100 > pct * total
        }
    }

    pub open spec fn spec_critical(self) -> bool {
        self.spec_io_rate_exceeds(5) || self.spec_round_failure_exceeds(20)
            || self.network_errors > 100
    }

    pub open spec fn spec_warning(self) -> bool {
        self.spec_io_rate_exceeds(1) || self.spec_round_failure_exceeds(10)
            || self.network_errors > 50
    }

    /// The miner's health tier: critical above 5% I/O errors per MiB, 20%
    /// failed rounds or 100 network errors; warning above 1%, 10% or 50.
    pub fn health_status(&self) -> (r: HealthStatus)
        ensures
            r == (if self.spec_critical() {
                HealthStatus::Critical
            } else if self.spec_warning() {
                HealthStatus::Warning
            } else {
                HealthStatus::Healthy
            }),
    {
        let mib: u64 = self.total_bytes_read / 1024 / 1024;
        let io_exceeds_5: bool = self.total_bytes_read != 0 && (self.total_io_errors as u128) * 100
            > 5 * (mib as u128);
        let io_exceeds_1: bool = self.total_bytes_read != 0 && (self.total_io_errors as u128) * 100
            > 1 * (mib as u128);
        let total_rounds: u128 = self.rounds_completed as u128 + self.rounds_failed as u128;
        let round_exceeds_20: bool = if total_rounds == 0 {
            true
        } else {
            (self.rounds_failed as u128) * 100 > 20 * total_rounds
        };
        let round_exceeds_10: bool = if total_rounds == 0 {
            true
        } else {
            (self.rounds_failed as u128) * 100 > 10 * total_rounds
        };
        proof {
            assert(self.total_bytes_read as int / (1024 * 1024) as int == self.total_bytes_read as int
                / 1024 / 1024) by (nonlinear_arith);
        }
        if io_exceeds_5 || round_exceeds_20 || self.network_errors > 100 {
            HealthStatus::Critical
        } else if io_exceeds_1 || round_exceeds_10 || self.network_errors > 50 {
            HealthStatus::Warning
        } else {
            HealthStatus::Healthy
        }
    }
}

/// Read statistics for one drive. `last_error` holds the read count at
/// which the last failure happened, a logical timestamp within this
/// counter's own history.
pub struct DiskHealthInfo {
    pub drive_id: String,
    pub total_reads: u64,
    pub failed_reads: u64,
    pub last_error: Option<u64>,
    pub consecutive_errors: u32,
}

impl DiskHealthInfo {
    pub open spec fn wf(self) -> bool {
        &&& self.failed_reads <= self.total_reads
        &&& self.consecutive_errors <= self.failed_reads
    }

    pub fn new(drive_id: String) -> (info: DiskHealthInfo)
        ensures
            info.wf(),
            info.drive_id == drive_id,
            info.total_reads == 0,
            info.failed_reads == 0,
            info.last_error is None,
            info.consecutive_errors == 0,
    {
        DiskHealthInfo {
            drive_id,
            total_reads: 0,
            failed_reads: 0,
            last_error: None,
            consecutive_errors: 0,
        }
    }

    /// Count a read that worked; the run of consecutive errors ends.
    pub fn record_success(&mut self)
        requires
            old(self).wf(),
            old(self).total_reads < u64::MAX,
        ensures
            final(self).wf(),
            final(self).total_reads == old(self).total_reads + 1,
            final(self).consecutive_errors == 0,
            final(self).failed_reads == old(self).failed_reads,
            final(self).last_error == old(self).last_error,
            final(self).drive_id == old(self).drive_id,
    {
        self.total_reads = self.total_reads + 1;
        self.consecutive_errors = 0;
    }

    /// Count a read that failed and remember when.
    pub fn record_failure(&mut self)
        requires
            old(self).wf(),
            old(self).total_reads < u64::MAX,
            old(self).consecutive_errors < u32::MAX,
        ensures
            final(self).wf(),
            final(self).total_reads == old(self).total_reads + 1,
            final(self).failed_reads == old(self).failed_reads + 1,
            final(self).consecutive_errors == old(self).consecutive_errors + 1,
            final(self).last_error == Some(final(self).total_reads),
            final(self).drive_id == old(self).drive_id,
    {
        self.total_reads = self.total_reads + 1;
        self.failed_reads = self.failed_reads + 1;
        self.last_error = Some(self.total_reads);
        self.consecutive_errors = self.consecutive_errors + 1;
    }

    /// The failed share of reads exceeds `pct` percent. With no reads yet
    /// the rate counts as zero.
    pub open spec fn spec_error_rate_exceeds(self, pct: int) -> bool {
        self.failed_reads * 100 > pct * self.total_reads
    }

    /// Healthy asks for a rate strictly below one percent; a drive at
    /// exactly one percent is already unhealthy. With no reads yet the rate
    /// counts as zero.
    pub open spec fn spec_is_healthy(self) -> bool {
        (self.total_reads == 0 || self.failed_reads * 100 < self.total_reads)
            && self.consecutive_errors < 5
    }

    /// Healthy while the error rate stays strictly below one percent and
    /// fewer than five errors came in a row.
    pub fn is_healthy(&self) -> (r: bool)
        requires
            self.wf(),
        ensures
            r == self.spec_is_healthy(),
    {
        let rate_low: bool = self.total_reads == 0 || (self.failed_reads as u128) * 100 < (
        self.total_reads as u128);
        rate_low && self.consecutive_errors < 5
    }

    /// The drive's health tier: critical from ten consecutive errors or a
    /// rate above five percent, warning from five consecutive errors or a
    /// rate above one percent.
    pub fn health_status(&self) -> (r: HealthStatus)
        requires
            self.wf(),
        ensures
            r == (if self.consecutive_errors >= 10 || self.spec_error_rate_exceeds(5) {
                HealthStatus::Critical
            } else if self.consecutive_errors >= 5 || self.spec_error_rate_exceeds(1) {
                HealthStatus::Warning
            } else {
                HealthStatus::Healthy
            }),
    {
        let rate_above_5: bool = (self.failed_reads as u128) * 100 > 5 * (self.total_reads as u128);
        let rate_above_1: bool = (self.failed_reads as u128) * 100 > (self.total_reads as u128);
        if self.consecutive_errors >= 10 || rate_above_5 {
            HealthStatus::Critical
        } else if self.consecutive_errors >= 5 || rate_above_1 {
            HealthStatus::Warning
        } else {
            HealthStatus::Healthy
        }
    }
}

/// Health bookkeeping for every drive, keyed by drive id.
pub struct DiskHealthMonitor {
    pub drives: Vec<DiskHealthInfo>,
}

impl DiskHealthMonitor {
    pub open spec fn wf(self) -> bool {
        &&& forall|i: int, j: int|
            0 <= i < j < self.drives@.len() ==> (#[trigger] self.drives@[i]).drive_id@ != (
            #[trigger] self.drives@[j]).drive_id@
        &&& forall|i: int| 0 <= i < self.drives@.len() ==> (#[trigger] self.drives@[i]).wf()
    }

    pub fn new() -> (m: DiskHealthMonitor)
        ensures
            m.wf(),
            m.drives@.len() == 0,
    {
        DiskHealthMonitor { drives: Vec::new() }
    }

    /// The index of the drive's health record, created fresh on first
    /// sight. Record updates go through `record_success_at` and
    /// `record_failure_at` with this index.
    pub fn get_or_create(&mut self, drive_id: &str) -> (idx: usize)
        requires
            old(self).wf(),
        ensures
            final(self).wf(),
            idx < final(self).drives@.len(),
            final(self).drives@[idx as int].drive_id@ == drive_id@,
            (exists|k: int|
                0 <= k < old(self).drives@.len() && (#[trigger] old(self).drives@[k]).drive_id@
                    == drive_id@) ==> *final(self) == *old(self),
            !(exists|k: int|
                0 <= k < old(self).drives@.len() && (#[trigger] old(self).drives@[k]).drive_id@
                    == drive_id@) ==> {
                &&& idx == old(self).drives@.len()
                &&& final(self).drives@.take(idx as int) =~= old(self).drives@
                &&& final(self).drives@[idx as int].total_reads == 0
                &&& final(self).drives@[idx as int].failed_reads == 0
                &&& final(self).drives@[idx as int].last_error is None
                &&& final(self).drives@[idx as int].consecutive_errors == 0
            },
    {
        let owned: String = drive_id.to_owned();
        let mut k: usize = 0;
        while k < self.drives.len()
            invariant
                *self == *old(self),
                self.wf(),
                0 <= k <= self.drives@.len(),
                owned@ == drive_id@,
                forall|a: int| 0 <= a < k ==> (#[trigger] self.drives@[a]).drive_id@ != owned@,
        decreases self.drives@.len() - k,
        {
            if self.drives[k].drive_id == owned {
                return k;
            }
            k = k + 1;
        }
        let idx = self.drives.len();
        self.drives.push(DiskHealthInfo::new(owned));
        proof {
            assert(self.drives@.take(idx as int) =~= old(self).drives@);
        }
        idx
    }

    /// Count a successful read for the drive at `idx`.
    pub fn record_success_at(&mut self, idx: usize)
        requires
            old(self).wf(),
            idx < old(self).drives@.len(),
            old(self).drives@[idx as int].total_reads < u64::MAX,
        ensures
            final(self).wf(),
            final(self).drives@.len() == old(self).drives@.len(),
            final(self).drives@[idx as int].total_reads == old(self).drives@[
                idx as int
            ].total_reads + 1,
            final(self).drives@[idx as int].consecutive_errors == 0,
            final(self).drives@[idx as int].failed_reads == old(self).drives@[
                idx as int
            ].failed_reads,
            final(self).drives@[idx as int].drive_id@ == old(self).drives@[idx as int].drive_id@,
            forall|a: int|
                0 <= a < old(self).drives@.len() && a != idx ==> final(self).drives@[a] == old(
                    self,
                ).drives@[a],
    {
        let mut info = self.drives.remove(idx);
        info.record_success();
        self.drives.insert(idx, info);
    }

    /// Count a failed read for the drive at `idx`.
    pub fn record_failure_at(&mut self, idx: usize)
        requires
            old(self).wf(),
            idx < old(self).drives@.len(),
            old(self).drives@[idx as int].total_reads < u64::MAX,
            old(self).drives@[idx as int].consecutive_errors < u32::MAX,
        ensures
            final(self).wf(),
            final(self).drives@.len() == old(self).drives@.len(),
            final(self).drives@[idx as int].total_reads == old(self).drives@[
                idx as int
            ].total_reads + 1,
            final(self).drives@[idx as int].failed_reads == old(self).drives@[
                idx as int
            ].failed_reads + 1,
            final(self).drives@[idx as int].consecutive_errors == old(self).drives@[
                idx as int
            ].consecutive_errors + 1,
            final(self).drives@[idx as int].last_error == Some(
                final(self).drives@[idx as int].total_reads,
            ),
            final(self).drives@[idx as int].drive_id@ == old(self).drives@[idx as int].drive_id@,
            forall|a: int|
                0 <= a < old(self).drives@.len() && a != idx ==> final(self).drives@[a] == old(
                    self,
                ).drives@[a],
    {
        let mut info = self.drives.remove(idx);
        info.record_failure();
        self.drives.insert(idx, info);
    }

    /// Whether some drive has fallen out of the healthy tier.
    pub fn has_unhealthy_drives(&self) -> (r: bool)
        requires
            self.wf(),
        ensures
            r == exists|k: int|
                0 <= k < self.drives@.len() && !(#[trigger] self.drives@[k]).spec_is_healthy(),
    {
        let mut k: usize = 0;
        while k < self.drives.len()
            invariant
                self.wf(),
                0 <= k <= self.drives@.len(),
                forall|a: int| 0 <= a < k ==> (#[trigger] self.drives@[a]).spec_is_healthy(),
            decreases self.drives@.len() - k,
        {
            if !self.drives[k].is_healthy() {
                return true;
            }
            k = k + 1;
        }
        false
    }
}

/// Split a duration in seconds into whole hours, minutes and seconds.
pub fn uptime_split(secs: u64) -> (r: (u64, u64, u64))
    ensures
        r.0 == secs as int / 3600,
        r.1 == (secs as int % 3600) / 60,
        r.2 == secs as int % 60,
        r.1 < 60,
        r.2 < 60,
{
    let hours = secs / 3600;
    let minutes = (secs % 3600) / 60;
    let seconds = secs % 60;
    (hours, minutes, seconds)
}

} // verus!
