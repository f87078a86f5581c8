use plot_reader::metrics::{
    uptime_split, DiskHealthInfo, DiskHealthMonitor, HealthStatus, MinerMetrics,
};

#[test]
fn new_metrics_start_at_zero() {
    let m = MinerMetrics::new();
    assert_eq!(m.total_submissions, 0);
    assert_eq!(m.successful_submissions, 0);
    assert_eq!(m.failed_submissions, 0);
    assert_eq!(m.rounds_completed, 0);
    assert_eq!(m.rounds_failed, 0);
    assert_eq!(m.total_io_errors, 0);
    assert_eq!(m.network_errors, 0);
    assert_eq!(m.config_errors, 0);
    assert_eq!(m.total_bytes_read, 0);
    assert_eq!(m.avg_round_time_ms, 0);
    assert!(m.last_submission.is_none());
    assert!(m.best_deadlines.is_empty());
}

#[test]
fn best_deadline_keeps_minimum() {
    let mut m = MinerMetrics::new();
    m.record_submission_success(1, 100);
    assert_eq!(m.best_deadlines.get(&1), Some(&100));
    m.record_submission_success(1, 50);
    assert_eq!(m.best_deadlines.get(&1), Some(&50));
    m.record_submission_success(1, 200);
    assert_eq!(m.best_deadlines.get(&1), Some(&50));
    m.record_submission_success(2, 7);
    assert_eq!(m.best_deadlines.get(&2), Some(&7));
    assert_eq!(m.total_submissions, 4);
    assert_eq!(m.successful_submissions, 4);
    assert_eq!(m.last_submission, Some(4));
}

#[test]
fn submission_failure_counts() {
    let mut m = MinerMetrics::new();
    m.record_submission_success(1, 10);
    m.record_submission_failure();
    m.record_submission_failure();
    assert_eq!(m.total_submissions, 3);
    assert_eq!(m.successful_submissions, 1);
    assert_eq!(m.failed_submissions, 2);
}

#[test]
fn round_time_moving_average() {
    // one tenth of the new duration, nine tenths of the old average
    let mut m = MinerMetrics::new();
    m.record_round_complete(1000);
    assert_eq!(m.avg_round_time_ms, 100);
    m.record_round_complete(1000);
    assert_eq!(m.avg_round_time_ms, 190);
    m.record_round_complete(0);
    assert_eq!(m.avg_round_time_ms, 171);
    assert_eq!(m.rounds_completed, 3);
}

#[test]
fn io_errors_tracked_per_drive() {
    let mut m = MinerMetrics::new();
    m.record_io_error("sda");
    m.record_io_error("sdb");
    m.record_io_error("sda");
    assert_eq!(m.total_io_errors, 3);
    assert_eq!(m.io_errors_by_drive.len(), 2);
    assert_eq!(m.io_errors_by_drive[0].drive_id, "sda");
    assert_eq!(m.io_errors_by_drive[0].errors, 2);
    assert_eq!(m.io_errors_by_drive[1].drive_id, "sdb");
    assert_eq!(m.io_errors_by_drive[1].errors, 1);
}

#[test]
fn health_is_critical_before_any_round() {
    // with no round ended the success rate counts as zero, so the failure
    // share exceeds the critical threshold
    let m = MinerMetrics::new();
    assert_eq!(m.health_status(), HealthStatus::Critical);
}

#[test]
fn health_healthy_after_clean_round() {
    let mut m = MinerMetrics::new();
    m.record_round_complete(500);
    assert_eq!(m.health_status(), HealthStatus::Healthy);
}

#[test]
fn health_io_error_rate_tiers() {
    // 10 MiB read, 1 I/O error: 10% errors per MiB, above the 5% critical bar
    let mut m = MinerMetrics::new();
    m.record_round_complete(500);
    m.record_bytes_read(10 * 1024 * 1024);
    m.record_io_error("sda");
    assert_eq!(m.health_status(), HealthStatus::Critical);

    // 100 MiB read, 1 error: 1% is not above the 1% warning bar
    let mut m2 = MinerMetrics::new();
    m2.record_round_complete(500);
    m2.record_bytes_read(100 * 1024 * 1024);
    m2.record_io_error("sda");
    assert_eq!(m2.health_status(), HealthStatus::Healthy);

    // 50 MiB read, 1 error: 2% sits between warning and critical
    let mut m3 = MinerMetrics::new();
    m3.record_round_complete(500);
    m3.record_bytes_read(50 * 1024 * 1024);
    m3.record_io_error("sda");
    assert_eq!(m3.health_status(), HealthStatus::Warning);
}

#[test]
fn health_network_error_tiers() {
    let mut m = MinerMetrics::new();
    m.record_round_complete(500);
    for _ in 0..51 {
        m.record_network_error();
    }
    assert_eq!(m.health_status(), HealthStatus::Warning);
    for _ in 0..50 {
        m.record_network_error();
    }
    assert_eq!(m.health_status(), HealthStatus::Critical);
}

#[test]
fn health_round_failure_tiers() {
    // 1 failure in 8 rounds: 12.5% is above the 10% warning bar
    let mut m = MinerMetrics::new();
    for _ in 0..7 {
        m.record_round_complete(100);
    }
    m.record_round_failure();
    assert_eq!(m.health_status(), HealthStatus::Warning);
    // 3 failures in 10 rounds: 30% is above the 20% critical bar
    m.record_round_failure();
    m.record_round_failure();
    assert_eq!(m.health_status(), HealthStatus::Critical);
}

#[test]
fn disk_health_consecutive_error_tiers() {
    let mut d = DiskHealthInfo::new("sda".to_string());
    assert!(d.is_healthy());
    assert_eq!(d.health_status(), HealthStatus::Healthy);
    // plenty of good reads keep the error rate low; only the run of
    // consecutive errors trips the tiers
    for _ in 0..10000 {
        d.record_success();
    }
    for _ in 0..5 {
        d.record_failure();
    }
    assert!(!d.is_healthy());
    assert_eq!(d.health_status(), HealthStatus::Warning);
    for _ in 0..5 {
        d.record_failure();
    }
    assert_eq!(d.health_status(), HealthStatus::Critical);
    assert_eq!(d.consecutive_errors, 10);
    // one success ends the run
    d.record_success();
    assert_eq!(d.consecutive_errors, 0);
    assert_eq!(d.health_status(), HealthStatus::Healthy);
}

#[test]
fn disk_health_error_rate_tiers() {
    // 2 failures over 100 reads: 2% is above the 1% warning bar
    let mut d = DiskHealthInfo::new("sdb".to_string());
    for _ in 0..98 {
        d.record_success();
    }
    d.record_failure();
    d.record_success();
    d.record_failure();
    d.record_success();
    assert_eq!(d.total_reads, 102);
    assert_eq!(d.failed_reads, 2);
    assert!(!d.is_healthy());
    assert_eq!(d.health_status(), HealthStatus::Warning);
}

#[test]
fn disk_health_unhealthy_at_exactly_one_percent() {
    // 1 failure in 100 reads is exactly 1%: already unhealthy, though the
    // warning tier asks for strictly more than 1%
    let mut d = DiskHealthInfo::new("sdd".to_string());
    for _ in 0..99 {
        d.record_success();
    }
    d.record_failure();
    assert_eq!(d.total_reads, 100);
    assert_eq!(d.failed_reads, 1);
    assert!(!d.is_healthy());
    assert_eq!(d.health_status(), HealthStatus::Healthy);
    // one more good read pushes the rate below 1% again
    d.record_success();
    d.record_success();
    assert!(d.is_healthy());
}

#[test]
fn disk_health_last_error_index() {
    let mut d = DiskHealthInfo::new("sdc".to_string());
    assert!(d.last_error.is_none());
    d.record_success();
    d.record_failure();
    assert_eq!(d.last_error, Some(2));
    d.record_success();
    assert_eq!(d.last_error, Some(2));
}

#[test]
fn monitor_get_or_create_reuses_entries() {
    let mut mon = DiskHealthMonitor::new();
    let a = mon.get_or_create("sda");
    let b = mon.get_or_create("sdb");
    let a2 = mon.get_or_create("sda");
    assert_eq!(a, a2);
    assert_ne!(a, b);
    assert_eq!(mon.drives.len(), 2);
    assert_eq!(mon.drives[a].drive_id, "sda");
    assert_eq!(mon.drives[b].drive_id, "sdb");
}

#[test]
fn monitor_flags_unhealthy_drives() {
    let mut mon = DiskHealthMonitor::new();
    let a = mon.get_or_create("sda");
    mon.record_success_at(a);
    assert!(!mon.has_unhealthy_drives());
    let b = mon.get_or_create("sdb");
    for _ in 0..5 {
        mon.record_failure_at(b);
    }
    assert!(mon.has_unhealthy_drives());
    assert_eq!(mon.drives[b].failed_reads, 5);
    assert_eq!(mon.drives[a].failed_reads, 0);
}

#[test]
fn uptime_splits_into_parts() {
    assert_eq!(uptime_split(0), (0, 0, 0));
    assert_eq!(uptime_split(59), (0, 0, 59));
    assert_eq!(uptime_split(3600), (1, 0, 0));
    assert_eq!(uptime_split(3661), (1, 1, 1));
    assert_eq!(uptime_split(86399), (23, 59, 59));
}
