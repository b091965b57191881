use matrixcode::bench::{
    contains_bytes, memory_kb, order_statistic, parse_kb_line, process_ticks, process_times,
    runs_argument,
    session_delta, MarkerScanner, ReadOutcome, ReadStep, RunAction, RunStage, WriteOutcome,
    WriteProgress, WriteStep,
};
use matrixcode::io::{IoError, IoErrorKind};

#[test]
fn bytes_are_found() {
    assert!(contains_bytes(b"abcabd", b"abd"));
    assert!(contains_bytes(b"abc", b"abc"));
    assert!(contains_bytes(b"", b""));
    assert!(contains_bytes(b"x", b""));
    assert!(!contains_bytes(b"ab", b"abc"));
    assert!(!contains_bytes(b"abcabc", b"abd"));
}

#[test]
fn markers_are_found_across_reads() {
    let mut scanner = MarkerScanner::new(b"MatrixCode");
    assert!(matches!(scanner.step(ReadOutcome::Bytes(b"..Matr".to_vec())), ReadStep::Again));
    assert!(matches!(scanner.step(ReadOutcome::Nothing), ReadStep::Wait));
    assert!(matches!(scanner.step(ReadOutcome::Bytes(Vec::new())), ReadStep::Wait));
    assert!(matches!(scanner.step(ReadOutcome::Bytes(b"ixCode".to_vec())), ReadStep::Found));
}

#[test]
fn markers_are_found_after_the_window_was_cut() {
    let mut scanner = MarkerScanner::new(b"needle");
    let mut last = vec![b'.'; 70_000];
    last.extend_from_slice(b"need");
    assert!(!scanner.feed(&last));
    assert!(!scanner.feed(&vec![b'.'; 70_000]));
    assert!(!scanner.feed(b"..need"));
    assert!(scanner.feed(b"le"));
    let mut long = MarkerScanner::new(&vec![b'm'; 6000]);
    let mut start = vec![b'.'; 66_000];
    start.extend_from_slice(&vec![b'm'; 5999]);
    assert!(!long.feed(&start));
    assert!(long.feed(b"m"));
}

#[test]
fn a_failed_read_is_passed_on() {
    let mut scanner = MarkerScanner::new(b"x");
    match scanner.step(ReadOutcome::Failed(IoError::new(IoErrorKind::Other, "gone"))) {
        ReadStep::Fail(e) => assert_eq!(e.message, "gone"),
        _ => panic!("expected a failure"),
    }
}

#[test]
fn writes_go_on_until_all_is_written() {
    let mut progress = WriteProgress::new(5);
    assert!(matches!(progress.step(WriteOutcome::Wrote(2)), WriteStep::Again));
    assert!(matches!(progress.step(WriteOutcome::Wrote(0)), WriteStep::Wait));
    assert!(matches!(progress.step(WriteOutcome::Blocked), WriteStep::Wait));
    assert!(!progress.is_complete());
    let error = progress.finish().expect_err("not all is written");
    assert_eq!(error.kind, IoErrorKind::TimedOut);
    assert_eq!(error.message, "PTY write timed out");
    let failed = WriteOutcome::Failed(IoError::new(IoErrorKind::Other, "e"));
    assert!(matches!(progress.step(failed), WriteStep::Fail(_)));
    assert!(matches!(progress.step(WriteOutcome::Wrote(3)), WriteStep::Again));
    assert!(progress.is_complete());
    assert!(progress.finish().is_ok());
}

#[test]
fn kilobytes_are_read_off_a_line() {
    assert_eq!(parse_kb_line("Rss:                1234 kB", "Rss:"), Some(1234));
    assert_eq!(parse_kb_line("Rss:\t7", "Rss:"), Some(7));
    assert_eq!(parse_kb_line("Pss:                1234 kB", "Rss:"), None);
    assert_eq!(parse_kb_line("Rss:", "Rss:"), None);
    assert_eq!(parse_kb_line("Rss: many kB", "Rss:"), None);
    assert_eq!(parse_kb_line("Rs", "Rss:"), None);
}

#[test]
fn memory_is_read_off_the_summary() {
    let text = "55d0-7ffc ---p 00000000 [rollup]\nRss:  10 kB\nPss:  7 kB\nPss_Anon:  3 kB\n";
    assert_eq!(memory_kb(text), Ok((10, 7)));
    assert_eq!(memory_kb("Rss: 1\r\nPss: 2\r\nRss: 3\r\n"), Ok((3, 2)));
    let error = memory_kb("Pss: 1 kB\n").expect_err("no resident memory");
    assert_eq!(error.kind, IoErrorKind::Other);
    assert_eq!(error.message, "Rss missing from smaps_rollup");
    let error = memory_kb("Rss: 1 kB\nPss_Dirty: 4 kB\n").expect_err("no proportional memory");
    assert_eq!(error.message, "Pss missing from smaps_rollup");
}

#[test]
fn ticks_are_read_off_the_status_line() {
    let stat = "42 (a) b) c) S 1 2 3 4 5 6 7 8 9 10 110 12 13 14\n";
    assert_eq!(process_times(stat), Ok((110, 12)));
    assert_eq!(process_ticks(stat), Ok(122));
    let message = |s: &str| process_ticks(s).expect_err("refused").message;
    assert_eq!(message("no bracket"), "malformed /proc stat");
    assert_eq!(message("1 (x) S 1 2 3"), "utime missing");
    assert_eq!(message("1 (x) S 1 2 3 4 5 6 7 8 9 10 u 12"), "invalid utime");
    assert_eq!(message("1 (x) S 1 2 3 4 5 6 7 8 9 10 11"), "stime missing");
    assert_eq!(message("1 (x) S 1 2 3 4 5 6 7 8 9 10 11 -1"), "invalid stime");
}

#[test]
fn an_empty_marker_comes_with_the_first_bytes() {
    let mut scanner = MarkerScanner::new(b"");
    assert!(matches!(scanner.step(ReadOutcome::Nothing), ReadStep::Wait));
    assert!(matches!(scanner.step(ReadOutcome::Bytes(Vec::new())), ReadStep::Wait));
    assert!(matches!(scanner.step(ReadOutcome::Bytes(b"x".to_vec())), ReadStep::Found));
}

#[test]
fn samples_are_picked_in_order() {
    let values = vec![5, -3, 9, 5, 0];
    assert_eq!(order_statistic(&values, 0), -3);
    assert_eq!(order_statistic(&values, 1), 0);
    assert_eq!(order_statistic(&values, 2), 5);
    assert_eq!(order_statistic(&values, 3), 5);
    assert_eq!(order_statistic(&values, 4), 9);
}

#[test]
fn a_session_can_take_more_or_less_memory() {
    assert_eq!(session_delta(100, 130), 30);
    assert_eq!(session_delta(130, 100), -30);
}

#[test]
fn ten_runs_are_made_by_default() {
    assert_eq!(runs_argument(None), Some(10));
    assert_eq!(runs_argument(Some("few")), Some(10));
    assert_eq!(runs_argument(Some("3")), Some(3));
    assert_eq!(runs_argument(Some("+4")), Some(4));
    assert_eq!(runs_argument(Some("0")), None);
}

#[test]
fn a_run_goes_through_its_stages() {
    let mut stage = RunStage::FirstFrame;
    let mut actions = Vec::new();
    let mut endings = 0;
    while let Some(action) = stage.action() {
        actions.push(action);
        if stage.failure_ends_program() {
            endings += 1;
        }
        stage = stage.advance();
    }
    assert_eq!(
        actions,
        vec![
            RunAction::Expect("MatrixCode"),
            RunAction::Send("§"),
            RunAction::Expect("§"),
            RunAction::Send("\u{7f}"),
            RunAction::Pause(100),
            RunAction::MeasureMemory,
            RunAction::MeasureIdle,
            RunAction::Send("/new\r"),
            RunAction::Expect("Started a new session."),
            RunAction::Pause(100),
            RunAction::MeasureMemory,
            RunAction::Send("\u{3}"),
            RunAction::AwaitExit,
        ]
    );
    assert_eq!(endings, 3);
    assert_eq!(stage, RunStage::Over);
    assert_eq!(stage.advance(), RunStage::Over);
}
