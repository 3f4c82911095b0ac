use uart_lab::frame::{build_frame, parse_frame};
use uart_lab::outcome::TestOutcome;
use uart_lab::stats::{GapTracker, Stats};

fn rx(ok: u64, bad: u64, lost: u64) -> Stats {
    Stats { ok, bad, lost, total: ok + bad + lost, bytes: 1000, bpb: 10, duration_micros: 0 }
}

#[test]
fn gap_accounting_over_a_jump() {
    let mut stats = Stats::new(10);
    let mut gaps = GapTracker::new();
    for seq in [0u64, 1, 2, 5, 6] {
        gaps.on_frame(&mut stats, seq);
    }
    // Frames 3 and 4 are missing: the rule `lost += seq - expected` counts two.
    assert_eq!(stats.lost, 2);
    assert_eq!(stats.ok, 5);
    assert_eq!(stats.total, 7);
}

#[test]
fn step_back_counts_one() {
    let mut stats = Stats::new(10);
    let mut gaps = GapTracker::new();
    for seq in [4u64, 5, 3, 4] {
        gaps.on_frame(&mut stats, seq);
    }
    assert_eq!(stats.lost, 1);
    assert_eq!(gaps.expect, Some(5));
}

#[test]
fn counters_move_together() {
    let mut s = Stats::new(11);
    s.inc_ok();
    s.inc_bad();
    s.add_lost(4);
    s.add_bytes(70);
    assert_eq!(s, Stats { ok: 1, bad: 1, lost: 4, total: 6, bytes: 70, bpb: 11, duration_micros: 0 });
}

#[test]
fn outcome_no_frames() {
    let o = TestOutcome::from_test_stats(Stats::new(10), rx(0, 0, 0));
    assert!(!o.pass);
    assert_eq!(o.reason.as_deref(), Some("no frames received"));
}

#[test]
fn outcome_crc_errors() {
    let o = TestOutcome::from_test_stats(Stats::new(10), rx(5, 2, 0));
    assert!(!o.pass);
    assert_eq!(o.reason.as_deref(), Some("crc errors"));
    assert_eq!(o.errors, 2);
}

#[test]
fn outcome_pass() {
    let o = TestOutcome::from_test_stats(Stats::new(10), rx(5, 0, 0));
    assert!(o.pass);
    assert!(o.reason.is_none());
    assert_eq!(o.rx_frames, 5);
}

#[test]
fn outcome_gaps_and_rate() {
    let mut tx = Stats::new(10);
    tx.duration_micros = 2_000_000;
    let o = TestOutcome::from_test_stats(tx, rx(5, 0, 3));
    assert_eq!(o.reason.as_deref(), Some("sequence gaps"));
    assert_eq!(o.seq_gaps, 3);
    assert_eq!(o.rate_bps, 5000);
    assert_eq!(o.bad_crc, 0);
    let quick = TestOutcome::from_test_stats(Stats::new(8), rx(1, 0, 0));
    assert_eq!(quick.rate_bps, 8_000_000);
}

#[test]
fn outcome_constructors() {
    let p = TestOutcome::pass(3, 4, 5);
    assert!(p.pass && p.rx_frames == 3 && p.rx_bytes == 4 && p.rate_bps == 5 && p.reason.is_none());
    let f = TestOutcome::fail("timeout");
    assert!(!f.pass);
    assert_eq!(f.reason.as_deref(), Some("timeout"));
}

#[test]
fn recording_lines() {
    let mut stats = Stats::new(10);
    let mut gaps = GapTracker::new();
    for seq in [0u64, 1, 4] {
        let line = build_frame(seq, 2);
        gaps.record(&mut stats, &parse_frame(&line), line.len() + 2);
    }
    gaps.record(&mut stats, &parse_frame("garbage"), 9);
    assert_eq!((stats.ok, stats.bad, stats.lost, stats.total), (3, 1, 2, 6));
    assert_eq!(stats.bytes, 3 * 35 + 9);
    assert_eq!(gaps.expect, Some(5));
}
