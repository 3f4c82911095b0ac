use uart_lab::command::{CtrlCommand, Direction, FlowControl, Parity, TestName, TestResultFlag};
use uart_lab::outcome::TestOutcome;
use uart_lab::session::{
    build_test_result, done_ack_for, is_test_done_ack_mode, outcome_for_master, peer_direction,
    phase_done, stats_from_done_ack, Backoff, DoneRetry, DoneStep, SlaveAction, SlaveSession,
    TestConfig,
};
use uart_lab::stats::Stats;

#[test]
fn discovery_backoff_doubles_to_the_cap() {
    let mut b = Backoff::new(500, 4000);
    let got: Vec<u64> = (0..6).map(|_| b.next_delay()).collect();
    assert_eq!(got, vec![500, 1000, 2000, 4000, 4000, 4000]);
}

#[test]
fn backoff_floor() {
    let mut b = Backoff::new(50, 1000);
    assert_eq!(b.next_delay(), 200);
    assert_eq!(b.next_delay(), 400);
}

#[test]
fn directions_and_ack_roles() {
    assert_eq!(peer_direction(Direction::Tx), Direction::Rx);
    assert_eq!(peer_direction(Direction::Rx), Direction::Tx);
    assert_eq!(peer_direction(Direction::Both), Direction::Both);
    assert!(!is_test_done_ack_mode(Direction::Tx, true));
    assert!(!is_test_done_ack_mode(Direction::Tx, false));
    assert!(is_test_done_ack_mode(Direction::Rx, true));
    assert!(is_test_done_ack_mode(Direction::Rx, false));
    assert!(!is_test_done_ack_mode(Direction::Both, true));
    assert!(is_test_done_ack_mode(Direction::Both, false));
}

#[test]
fn half_duplex_done_handshake() {
    // The receiver of an Rx test only acknowledges; the transmitter retries until its deadline.
    assert!(is_test_done_ack_mode(Direction::Rx, false));
    assert!(!is_test_done_ack_mode(Direction::Tx, true));
    let mut r = DoneRetry::new(200, 1000, 3000);
    assert_eq!(r.step(0), DoneStep::Send { wait_ms: 200 });
    assert_eq!(r.step(200), DoneStep::Send { wait_ms: 400 });
    assert_eq!(r.step(600), DoneStep::Send { wait_ms: 800 });
    assert_eq!(r.step(1400), DoneStep::Send { wait_ms: 1000 });
    assert_eq!(r.step(2400), DoneStep::Send { wait_ms: 1000 });
    assert_eq!(r.step(3000), DoneStep::Proceed);
}

#[test]
fn counters_travel_in_done_ack() {
    let s = Stats { ok: 9, bad: 1, lost: 2, total: 12, bytes: 500, bpb: 10, duration_micros: 77 };
    let ack = done_ack_for("me", &s);
    let back = stats_from_done_ack(&ack, 10).unwrap();
    assert_eq!(back, s);
    assert!(stats_from_done_ack(&CtrlCommand::TestDone { id: "me".into() }, 10).is_none());
}

#[test]
fn master_outcome_uses_receiver_counters() {
    let own = Stats { ok: 4, bad: 0, lost: 0, total: 4, bytes: 40, bpb: 10, duration_micros: 1_000_000 };
    let peer = Stats { ok: 3, bad: 0, lost: 1, total: 4, bytes: 30, bpb: 10, duration_micros: 1_000_000 };
    let o = outcome_for_master(Direction::Tx, own, Some(peer)).unwrap();
    assert_eq!(o.rx_frames, 3);
    assert_eq!(o.rate_bps, 300);
    assert!(!o.pass);
    assert_eq!((o.bad_crc, o.overruns), (0, 0));
    assert!(outcome_for_master(Direction::Tx, own, None).is_none());
    assert!(outcome_for_master(Direction::Both, own, None).is_none());
    let o = outcome_for_master(Direction::Rx, own, None).unwrap();
    assert_eq!(o.rx_frames, 4);
    assert_eq!(o.rate_bps, 400);
    assert!(o.pass);
}

#[test]
fn test_result_message() {
    let o = TestOutcome::fail("crc errors");
    match build_test_result("m", Some(&o), "none") {
        CtrlCommand::TestResult { id, result, reason, .. } => {
            assert_eq!(id, "m");
            assert!(matches!(result, TestResultFlag::Fail));
            assert_eq!(reason.as_deref(), Some("crc errors"));
        }
        _ => panic!("wrong variant"),
    }
    match build_test_result("m", None, "timeout") {
        CtrlCommand::TestResult { result, rx_frames, reason, .. } => {
            assert!(matches!(result, TestResultFlag::Fail));
            assert_eq!(rx_frames, 0);
            assert_eq!(reason.as_deref(), Some("timeout"));
        }
        _ => panic!("wrong variant"),
    }
}

#[test]
fn phase_bounds() {
    let conf = TestConfig { name: TestName::MaxRate, frames: Some(10), duration_ms: None, payload: 8, dir: Direction::Tx };
    assert!(!phase_done(9, 100, &conf));
    assert!(phase_done(10, 100, &conf));
    assert!(phase_done(0, 20_000, &conf));
    let timed = TestConfig { frames: None, duration_ms: Some(50), ..conf };
    assert!(!phase_done(1_000_000, 49, &timed));
    assert!(phase_done(0, 50, &timed));
}

#[test]
fn slave_session_flow() {
    let mut s = SlaveSession::new("slave".into());
    let ack = s.on_discovery(&CtrlCommand::Hello { id: "master".into() }).unwrap();
    assert!(matches!(ack, CtrlCommand::Ack { ref id } if id == "slave"));
    let cfg = CtrlCommand::ConfigSet { id: "master".into(), baud: 57600, parity: Parity::Odd, bits: 7, flow: FlowControl::RtsCts };
    match s.on_command(&cfg) {
        SlaveAction::Configure { ack, baud, parity, bits, flow } => {
            assert!(matches!(ack, CtrlCommand::ConfigSetAck { baud: 57600, .. }));
            assert_eq!((baud, parity, bits, flow), (57600, Parity::Odd, 7, FlowControl::RtsCts));
        }
        _ => panic!("expected configure"),
    }
    let stranger = CtrlCommand::TestBegin { id: "other".into(), name: TestName::MaxRate, frames: Some(1), duration_ms: None, payload: 4, dir: Direction::Rx };
    assert!(matches!(s.on_command(&stranger), SlaveAction::Ignore));
    let begin = CtrlCommand::TestBegin { id: "master".into(), name: TestName::MaxRate, frames: Some(1), duration_ms: None, payload: 4, dir: Direction::Rx };
    match s.on_command(&begin) {
        SlaveAction::StartTest { conf, .. } => assert_eq!(conf.dir, Direction::Rx),
        _ => panic!("expected a test start"),
    }
    match s.on_command(&CtrlCommand::Terminate { id: "master".into() }) {
        SlaveAction::EndSession { ack } => assert!(matches!(ack, CtrlCommand::TerminateAck { .. })),
        _ => panic!("expected the end of the session"),
    }
    assert!(s.peer.is_none());
}
