use plot_reader::plot::{Plot, NONCE_SIZE};
use plot_reader::reader::{
    check_overlap, new_buffer_pool, overlap_pairs, round_fits, BufferInfo, DriveEntry, DriveTask,
    Reader, StepOutcome, TaskPhase,
};

fn plot(name: &str, nonces: u64) -> Plot {
    let size = nonces * NONCE_SIZE;
    Plot::new(name, &format!("/plots/{}", name), size, false, true, 4096).unwrap()
}

fn entry(drive_id: &str, plots: Vec<Plot>) -> DriveEntry {
    DriveEntry {
        drive_id: drive_id.to_string(),
        plots,
    }
}

/// Drive one task to its end with buffers of capacity `cap` for consumer
/// `id`, collecting every dispatched reply and GPU marker.
fn run_task(task: &mut DriveTask, cap: u64, id: usize) -> (Vec<BufferInfo>, Vec<BufferInfo>) {
    let mut replies = Vec::new();
    let mut markers = Vec::new();
    loop {
        match task.phase {
            TaskPhase::Prepare => {
                let (_idx, _seek) = task.prepare_plot();
                task.on_prepare_result(true);
            }
            TaskPhase::Fetch => {
                let _step = task.on_buffer(cap, id);
                let out: StepOutcome = task.on_read_result(true, false);
                if let Some(info) = out.reply {
                    replies.push(info);
                }
                if let Some(m) = out.gpu_marker {
                    markers.push(m);
                }
            }
            TaskPhase::Pending => unreachable!("read results are reported in the same arm"),
            TaskPhase::Done => break,
        }
    }
    (replies, markers)
}

#[test]
fn single_drive_round_emits_one_finished_reply() {
    // two plots of 10 nonces each, buffers of one region
    let table = vec![entry("d1", vec![plot("5_0_10", 10), plot("5_100_10", 10)])];
    let (reader, warnings) = Reader::new(table, 2 * 10 * NONCE_SIZE, 0, false);
    assert!(warnings.is_empty());
    assert!(round_fits(&reader.drive_table, 0));
    let gensig = [7u8; 32];
    let mut plan = reader.start_reading(42, 9000, 17, 0, &gensig);
    assert!(plan.gpu_start.is_none());
    assert_eq!(plan.tasks.len(), 1);
    let mut task = plan.tasks.remove(0);
    let (replies, markers) = run_task(&mut task, 640, 0);
    assert_eq!(replies.len(), 2);
    assert!(!replies[0].finished);
    assert!(replies[1].finished);
    assert_eq!(replies[0].start_nonce, 0);
    assert_eq!(replies[1].start_nonce, 100);
    assert_eq!(replies[0].account_id, 5);
    assert_eq!(replies[0].height, 42);
    assert_eq!(replies[0].block, 9000);
    assert_eq!(replies[0].base_target, 17);
    assert_eq!(replies[0].gensig, gensig);
    assert_eq!(replies[0].gpu_signal, 0);
    assert!(markers.is_empty());
    assert_eq!(task.buffers_taken, task.replies_sent + task.buffers_returned);
}

#[test]
fn interrupt_between_plots_returns_buffer_and_stops() {
    // S4: after the first plot's last (finished=false) reply, an interrupt
    // arrives; the task exits, the buffer in hand goes back, the second
    // plot emits nothing and no finished reply is produced.
    let table = vec![entry("d1", vec![plot("5_0_1", 1), plot("5_100_1", 1)])];
    let (reader, _) = Reader::new(table, 2 * NONCE_SIZE, 0, true);
    let gensig = [0u8; 32];
    let mut plan = reader.start_reading(1, 1, 1, 0, &gensig);
    let mut task = plan.tasks.remove(0);

    // first plot: one chunk, not the last plot, so finished=false
    task.prepare_plot();
    task.on_prepare_result(true);
    task.on_buffer(64, 0);
    let out = task.on_read_result(true, false);
    let info = out.reply.unwrap();
    assert!(!info.finished);
    assert!(!out.done);

    // second plot: the read happens, then the interrupt is observed
    task.prepare_plot();
    task.on_prepare_result(true);
    task.on_buffer(64, 0);
    let out = task.on_read_result(true, true);
    assert!(out.reply.is_none());
    assert!(out.return_buffer);
    assert!(out.done);
    assert!(matches!(task.phase, TaskPhase::Done));
    assert!(!task.finished_sent);
    assert_eq!(task.buffers_taken, 2);
    assert_eq!(task.replies_sent, 1);
    assert_eq!(task.buffers_returned, 1);
}

#[test]
fn dual_drive_round_with_gpu_markers() {
    // S6: two drives, one plot each, one GPU channel: one task per drive,
    // each emits its own finished reply and one drive-finished marker; the
    // round-start marker goes out before any task runs.
    let table = vec![
        entry("d1", vec![plot("1_0_1", 1)]),
        entry("d2", vec![plot("2_0_1", 1)]),
    ];
    let (reader, _) = Reader::new(table, 2 * NONCE_SIZE, 1, true);
    let gensig = [1u8; 32];
    let mut plan = reader.start_reading(5, 6, 7, 3, &gensig);
    assert_eq!(plan.tasks.len(), 2);
    let start = plan.gpu_start.unwrap();
    assert_eq!(start.gpu_signal, 1);
    assert_eq!(start.height, 5);
    assert_eq!(start.len, 1);

    let mut total_markers = 0;
    for mut task in plan.tasks.drain(..) {
        let (replies, markers) = run_task(&mut task, 64, 1);
        assert_eq!(replies.iter().filter(|r| r.finished).count(), 1);
        assert!(replies.last().unwrap().finished);
        assert_eq!(markers.len(), 1);
        assert_eq!(markers[0].gpu_signal, 2);
        total_markers += markers.len();
    }
    assert_eq!(total_markers, 2);
}

#[test]
fn failed_prepare_skips_plot_without_finished_reply() {
    // a prepare failure on the last plot ends the task with no reply owed
    let table = vec![entry("d1", vec![plot("1_0_1", 1), plot("1_5_1", 1)])];
    let (reader, _) = Reader::new(table, 2 * NONCE_SIZE, 0, true);
    let gensig = [0u8; 32];
    let mut plan = reader.start_reading(1, 1, 1, 0, &gensig);
    let mut task = plan.tasks.remove(0);
    task.prepare_plot();
    task.on_prepare_result(true);
    task.on_buffer(64, 0);
    let out = task.on_read_result(true, false);
    assert!(!out.reply.unwrap().finished);
    // the second (last) plot fails to open
    task.prepare_plot();
    task.on_prepare_result(false);
    assert!(matches!(task.phase, TaskPhase::Done));
    assert!(!task.finished_sent);
}

#[test]
fn failed_read_sends_empty_skip_reply() {
    // a read error on the last plot still closes the drive: a zero-byte
    // reply carrying finished=true goes out
    let table = vec![entry("d1", vec![plot("1_0_10", 10)])];
    let (reader, _) = Reader::new(table, 10 * NONCE_SIZE, 0, true);
    let gensig = [0u8; 32];
    let mut plan = reader.start_reading(1, 1, 1, 0, &gensig);
    let mut task = plan.tasks.remove(0);
    task.prepare_plot();
    task.on_prepare_result(true);
    task.on_buffer(64, 0);
    let out = task.on_read_result(false, false);
    let info = out.reply.unwrap();
    assert_eq!(info.len, 0);
    assert_eq!(info.start_nonce, 0);
    assert!(info.finished);
    assert!(out.done);
}

#[test]
fn overlap_detected_across_table() {
    // S5: same-account plots 99_0_100 and 99_50_100 overlap by 50 nonces;
    // the table still mines, with a warning.
    let table = vec![entry("d1", vec![plot("99_0_100", 100), plot("99_50_100", 100)])];
    assert!(check_overlap(&table));
    let warnings = overlap_pairs(&table);
    assert_eq!(warnings.len(), 1);
    assert_eq!(warnings[0].name_a, "99_0_100");
    assert_eq!(warnings[0].name_b, "99_50_100");
    assert_eq!(warnings[0].shared_nonces, 50);
    let (reader, new_warnings) = Reader::new(table, 200 * NONCE_SIZE, 0, false);
    assert_eq!(new_warnings.len(), 1);
    let gensig = [0u8; 32];
    let plan = reader.start_reading(1, 1, 1, 0, &gensig);
    assert_eq!(plan.tasks.len(), 1);
}

#[test]
fn every_overlapping_pair_reported_once() {
    // three same-account plots: (first, second) share 50 nonces, (second,
    // third) share 30, (first, third) none; each overlap appears exactly
    // once, in scan order
    let table = vec![entry(
        "d1",
        vec![
            plot("99_0_100", 100),
            plot("99_50_100", 100),
            plot("99_120_100", 100),
        ],
    )];
    let warnings = overlap_pairs(&table);
    assert_eq!(warnings.len(), 2);
    assert_eq!(warnings[0].name_a, "99_0_100");
    assert_eq!(warnings[0].name_b, "99_50_100");
    assert_eq!(warnings[0].shared_nonces, 50);
    assert_eq!(warnings[1].name_a, "99_50_100");
    assert_eq!(warnings[1].name_b, "99_120_100");
    assert_eq!(warnings[1].shared_nonces, 30);
}

#[test]
fn no_overlap_across_accounts() {
    // the same intervals under different accounts do not overlap
    let table = vec![entry("d1", vec![plot("98_0_100", 100), plot("99_50_100", 100)])];
    assert!(!check_overlap(&table));
    assert!(overlap_pairs(&table).is_empty());
}

#[test]
fn benchmark_skips_overlap_check() {
    let table = vec![entry("d1", vec![plot("99_0_100", 100), plot("99_50_100", 100)])];
    let (_, warnings) = Reader::new(table, 200 * NONCE_SIZE, 0, true);
    assert!(warnings.is_empty());
}

#[test]
fn update_plots_replaces_table() {
    let table = vec![entry("d1", vec![plot("1_0_1", 1)])];
    let (mut reader, _) = Reader::new(table, NONCE_SIZE, 0, true);
    let table2 = vec![
        entry("d1", vec![plot("1_0_1", 1)]),
        entry("d2", vec![plot("2_0_1", 1)]),
    ];
    let warnings = reader.update_plots(table2, 2 * NONCE_SIZE, false);
    assert!(warnings.is_empty());
    assert_eq!(reader.drive_table.len(), 2);
    assert_eq!(reader.total_size, 2 * NONCE_SIZE);
}

#[test]
fn buffer_pool_distribution() {
    let pool = new_buffer_pool(2, 640);
    assert_eq!(pool.len(), 3);
    for (k, b) in pool.iter().enumerate() {
        assert_eq!(b.id, k);
        assert_eq!(b.data.len(), 640);
    }
}

#[test]
fn wakeup_targets_first_plot_of_each_drive() {
    let table = vec![
        entry("d1", vec![plot("1_0_10", 10), plot("1_50_10", 10)]),
        entry("d2", vec![plot("2_0_10", 10)]),
    ];
    let (reader, _) = Reader::new(table, 30 * NONCE_SIZE, 0, true);
    let seeks = reader.wakeup();
    assert_eq!(seeks.len(), 2);
    assert_eq!(seeks[0].drive_index, 0);
    assert_eq!(seeks[0].path, "/plots/1_0_10");
    assert_eq!(seeks[1].drive_index, 1);
    assert_eq!(seeks[1].path, "/plots/2_0_10");
    // a 10-nonce buffered plot: every region starts at a multiple of 640
    assert_eq!(seeks[0].seek_addr % 640, 0);
}

#[test]
fn round_fits_rejects_nonce_overflow() {
    let table = vec![entry(
        "d1",
        vec![Plot::new(
            &format!("1_{}_1", u64::MAX - 10),
            "/plots/x",
            NONCE_SIZE,
            false,
            true,
            4096,
        )
        .unwrap()],
    )];
    assert!(round_fits(&table, 0));
    assert!(!round_fits(&table, 4095));
}
