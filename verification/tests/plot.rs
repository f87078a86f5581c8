use plot_reader::plot::{Meta, Plot, PlotError, NONCE_SIZE, SCOOPS_IN_NONCE, SCOOP_SIZE};

fn meta(account_id: u64, start_nonce: u64, nonces: u64) -> Meta {
    Meta {
        account_id,
        start_nonce,
        nonces,
        name: format!("{}_{}_{}", account_id, start_nonce, nonces),
    }
}

#[test]
fn constants_match_format() {
    assert_eq!(SCOOP_SIZE, 64);
    assert_eq!(SCOOPS_IN_NONCE, 4096);
    assert_eq!(NONCE_SIZE, 262144);
}

#[test]
fn small_plot_buffered_io() {
    // S1: plot 123_0_10 (2,621,440 bytes), scoop 0, one buffer of 640 bytes.
    let mut p = Plot::new("123_0_10", "/plots/123_0_10", 2_621_440, false, true, 4096).unwrap();
    assert_eq!(p.meta.account_id, 123);
    assert_eq!(p.meta.start_nonce, 0);
    assert_eq!(p.meta.nonces, 10);
    let seek = p.prepare(0);
    assert_eq!(seek, 0);
    // the whole scoop region (10 nonces x 64 bytes) fits one buffer
    let step = p.read(640, 0);
    assert_eq!(step.bytes_to_read, 640);
    assert_eq!(step.start_nonce, 0);
    assert!(step.finished);
}

#[test]
fn direct_io_downgrade_small_plot() {
    // S2: plot 7_0_3 (786,432 bytes), sector 4096: 4096/64 = 64 > 3 nonces,
    // so direct I/O silently downgrades and the full region is emitted.
    let mut p = Plot::new("7_0_3", "/plots/7_0_3", 786_432, true, true, 4096).unwrap();
    assert!(!p.use_direct_io);
    p.prepare(1);
    let step = p.read(8192, 1);
    assert_eq!(step.bytes_to_read, 192);
    assert!(step.finished);
}

#[test]
fn alignment_already_aligned() {
    // S3a: sector 4096, scoop 1, 1,000,000 nonces: seek address 64,000,000
    // is already aligned.
    let size = 1_000_000u64 * NONCE_SIZE;
    let mut p = Plot::new("1_0_1000000", "/plots/1_0_1000000", size, true, true, 4096).unwrap();
    assert!(p.use_direct_io);
    let seek = p.prepare(1);
    assert_eq!(seek, 64_000_000);
    assert_eq!(p.align_offset, 0);
}

#[test]
fn alignment_downward_preserves_nonce_index() {
    // S3b: sector 512, scoop 1, 63 nonces: the region starts at 4032, which
    // aligns down to 3584 with 448 padding bytes; the first reply still
    // reports nonce 63 (start_nonce + scoop * nonces), not an index shifted
    // by the padding.
    let size = 63u64 * NONCE_SIZE;
    let mut p = Plot::new("1_0_63", "/plots/1_0_63", size, true, true, 512).unwrap();
    assert!(p.use_direct_io);
    let seek = p.prepare(1);
    assert_eq!(seek, 3584);
    assert_eq!(p.align_offset, 448);
    let step = p.read(8192, 1);
    assert_eq!(step.start_nonce, 63);
    // reads resume after the alignment padding
    assert_eq!(step.offset, 4032);
    // the trailing non-sector tail (448 bytes) is dropped
    assert_eq!(step.bytes_to_read, 3584);
    assert!(step.finished);
}

#[test]
fn chunked_read_covers_region_without_gaps() {
    // 100 nonces, 640-byte buffers: ten chunks of ten nonces each.
    let size = 100u64 * NONCE_SIZE;
    let mut p = Plot::new("123_0_100", "/plots/123_0_100", size, false, true, 4096).unwrap();
    p.prepare(0);
    let mut total: u64 = 0;
    let mut expected_nonce: u64 = 0;
    let mut chunks = 0;
    loop {
        let step = p.read(640, 0);
        assert_eq!(step.start_nonce, expected_nonce);
        total += step.bytes_to_read;
        expected_nonce += step.bytes_to_read / 64;
        chunks += 1;
        if step.finished {
            break;
        }
    }
    assert_eq!(chunks, 10);
    assert_eq!(total, 6400);
    assert_eq!(expected_nonce, 100);
}

#[test]
fn rejects_wrong_format() {
    assert!(matches!(
        Plot::new("abc", "/plots/abc", 0, false, false, 4096),
        Err(PlotError::WrongFormat)
    ));
    assert!(matches!(
        Plot::new("1_2", "/plots/1_2", 0, false, false, 4096),
        Err(PlotError::WrongFormat)
    ));
    assert!(matches!(
        Plot::new("1_2_3_4", "/plots/1_2_3_4", 0, false, false, 4096),
        Err(PlotError::WrongFormat)
    ));
    assert!(matches!(
        Plot::new("1_a_3", "/plots/1_a_3", 0, false, false, 4096),
        Err(PlotError::WrongFormat)
    ));
    assert!(matches!(
        Plot::new("1__3", "/plots/1__3", 0, false, false, 4096),
        Err(PlotError::WrongFormat)
    ));
    // a field beyond u64 range
    assert!(matches!(
        Plot::new("18446744073709551616_0_1", "/x", 262144, false, false, 4096),
        Err(PlotError::WrongFormat)
    ));
}

#[test]
fn accepts_max_u64_account() {
    let p = Plot::new("18446744073709551615_0_1", "/x", 262144, false, false, 4096).unwrap();
    assert_eq!(p.meta.account_id, u64::MAX);
}

#[test]
fn rejects_size_mismatch() {
    assert!(matches!(
        Plot::new("123_0_10", "/plots/123_0_10", 2_621_441, false, false, 4096),
        Err(PlotError::SizeMismatch)
    ));
    assert!(matches!(
        Plot::new("123_0_10", "/plots/123_0_10", 0, false, false, 4096),
        Err(PlotError::SizeMismatch)
    ));
}

#[test]
fn overlap_same_account() {
    // S5 arithmetic: plots 99_0_100 and 99_50_100 share 50 nonces.
    let a = meta(99, 0, 100);
    let b = meta(99, 50, 100);
    assert!(a.overlaps_with(&b));
    assert!(b.overlaps_with(&a));
    assert_eq!(a.overlap_count(&b), 50);
    assert_eq!(b.overlap_count(&a), 50);
}

#[test]
fn no_overlap_adjacent_intervals() {
    let a = meta(99, 0, 100);
    let b = meta(99, 100, 100);
    assert!(!a.overlaps_with(&b));
    assert!(!b.overlaps_with(&a));
    assert_eq!(a.overlap_count(&b), 0);
}

#[test]
fn overlap_containment() {
    let a = meta(7, 0, 1000);
    let b = meta(7, 400, 10);
    assert!(a.overlaps_with(&b));
    assert_eq!(a.overlap_count(&b), 10);
}

#[test]
fn overlap_near_u64_max() {
    let a = meta(1, u64::MAX - 10, 10);
    let b = meta(1, u64::MAX - 5, 5);
    assert!(a.overlaps_with(&b));
    assert_eq!(a.overlap_count(&b), 5);
}

#[test]
fn seek_random_lands_on_a_scoop_region() {
    // buffered: the returned offset must be the exact start of one of the
    // 4096 scoop regions (region size 640 for 10 nonces)
    let size = 10u64 * NONCE_SIZE;
    let p = Plot::new("1_0_10", "/plots/1_0_10", size, false, true, 4096).unwrap();
    for _ in 0..50 {
        let addr = p.seek_random();
        assert_eq!(addr % 640, 0);
        assert!(addr / 640 < SCOOPS_IN_NONCE);
    }
}

#[test]
fn seek_random_aligned_under_direct_io() {
    let size = 63u64 * NONCE_SIZE;
    let p = Plot::new("1_0_63", "/plots/1_0_63", size, true, true, 512).unwrap();
    assert!(p.use_direct_io);
    for _ in 0..50 {
        let addr = p.seek_random();
        assert_eq!(addr % 512, 0);
        assert!(addr <= 4095 * 63 * 64);
    }
}
