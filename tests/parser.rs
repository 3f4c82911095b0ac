use uart_lab::command::{CtrlCommand, Direction, FlowControl, Parity, TestName, TestResultFlag};
use uart_lab::parser::{escape_reason, format_command, parse_command, unescape_reason, ParseError};

#[test]
fn roundtrip_config_set() {
    let cmd = CtrlCommand::ConfigSet {
        id: "m1".into(),
        baud: 115200,
        parity: Parity::Off,
        bits: 8,
        flow: FlowControl::Off,
    };
    let line = format_command(&cmd);
    assert!(line.ends_with("\r\n"));
    let parsed = parse_command(&line).unwrap();
    match parsed {
        CtrlCommand::ConfigSet { id, baud, parity, bits, flow } => {
            assert_eq!(id, "m1");
            assert_eq!(baud, 115200);
            assert!(matches!(parity, Parity::Off));
            assert_eq!(bits, 8);
            assert!(matches!(flow, FlowControl::Off));
        }
        _ => panic!("wrong variant"),
    }
}

#[test]
fn parse_test_begin_frames() {
    let line = "TEST BEGIN id=aa name=max-rate frames=100 payload=128 dir=rx\r\n";
    let cmd = parse_command(line).unwrap();
    match cmd {
        CtrlCommand::TestBegin { id, name, frames, duration_ms, payload, .. } => {
            assert_eq!(id, "aa");
            assert!(matches!(name, TestName::MaxRate));
            assert_eq!(frames, Some(100));
            assert_eq!(duration_ms, None);
            assert_eq!(payload, 128);
        }
        _ => panic!("wrong variant"),
    }
}

#[test]
fn parse_test_result() {
    let line = "TEST RESULT id=s1 result=fail rx_frames=99 rx_bytes=1000 bad_crc=1 seq_gaps=0 overruns=0 errors=0 rate_bps=123456 reason=timeout\r\n";
    let cmd = parse_command(line).unwrap();
    match cmd {
        CtrlCommand::TestResult { id, result, rx_frames, bad_crc, reason, .. } => {
            assert_eq!(id, "s1");
            assert!(matches!(result, TestResultFlag::Fail));
            assert_eq!(rx_frames, 99);
            assert_eq!(bad_crc, 1);
            assert_eq!(reason.unwrap(), "timeout");
        }
        _ => panic!("wrong variant"),
    }
}

#[test]
fn roundtrip_hello() {
    let cmd = CtrlCommand::Hello { id: "device1".into() };
    let line = format_command(&cmd);
    let parsed = parse_command(&line).unwrap();
    match parsed {
        CtrlCommand::Hello { id } => {
            assert_eq!(id, "device1");
        }
        _ => panic!("wrong variant"),
    }
}

#[test]
fn roundtrip_ack() {
    let cmd = CtrlCommand::Ack { id: "host2".into() };
    let line = format_command(&cmd);
    let parsed = parse_command(&line).unwrap();
    match parsed {
        CtrlCommand::Ack { id } => {
            assert_eq!(id, "host2");
        }
        _ => panic!("wrong variant"),
    }
}

#[test]
fn parse_test_begin_duration() {
    let line = "TEST BEGIN id=bb name=fifo-residue duration_ms=5000 payload=64 dir=tx\r\n";
    let cmd = parse_command(line).unwrap();
    match cmd {
        CtrlCommand::TestBegin { id, name, frames, duration_ms, payload, .. } => {
            assert_eq!(id, "bb");
            assert!(matches!(name, TestName::FifoResidue));
            assert_eq!(frames, None);
            assert_eq!(duration_ms, Some(5000));
            assert_eq!(payload, 64);
        }
        _ => panic!("wrong variant"),
    }
}

#[test]
fn roundtrip_test_done() {
    let cmd = CtrlCommand::TestDone { id: "test3".into() };
    let line = format_command(&cmd);
    let parsed = parse_command(&line).unwrap();
    match parsed {
        CtrlCommand::TestDone { id } => {
            assert_eq!(id, "test3");
        }
        _ => panic!("wrong variant"),
    }
}

#[test]
fn roundtrip_terminate() {
    let cmd = CtrlCommand::Terminate { id: "sess4".into() };
    let line = format_command(&cmd);
    let parsed = parse_command(&line).unwrap();
    match parsed {
        CtrlCommand::Terminate { id } => {
            assert_eq!(id, "sess4");
        }
        _ => panic!("wrong variant"),
    }
}

#[test]
fn test_reason_escaping() {
    let text = "Error with\r\nnewlines and spaces";
    let escaped = escape_reason(text);
    assert_eq!(escaped, "Error_with\\r\\nnewlines_and_spaces");
    let unescaped = unescape_reason(&escaped);
    assert_eq!(unescaped, text);
}

#[test]
fn test_error_cases() {
    assert!(matches!(parse_command(""), Err(ParseError::Empty)));
    assert!(matches!(parse_command("UNKNOWN id=123"), Err(ParseError::UnknownTag(_))));
    assert!(matches!(parse_command("HELLO"), Err(ParseError::MissingField(_))));
    assert!(matches!(
        parse_command("CONFIG SET id=x1 baud=invalid parity=none bits=8 dir=both flow=none"),
        Err(ParseError::BadInt(_, _))
    ));
    assert!(matches!(
        parse_command("CONFIG SET id=x1 baud=9600 parity=invalid bits=8 dir=both flow=none"),
        Err(ParseError::BadEnum(_, _))
    ));
    assert!(matches!(
        parse_command("TEST BEGIN id=x1 name=max-rate payload=128"),
        Err(ParseError::Semantic(_))
    ));
}

#[test]
fn config_set_line_is_exact() {
    let cmd = CtrlCommand::ConfigSet {
        id: "m1".into(),
        baud: 115200,
        parity: Parity::Off,
        bits: 8,
        flow: FlowControl::Off,
    };
    assert_eq!(
        format_command(&cmd),
        "CONFIG SET id=m1 baud=115200 parity=none bits=8 flow=none\r\n"
    );
}

#[test]
fn test_begin_round_trip_keeps_direction() {
    let cmd = CtrlCommand::TestBegin {
        id: "x".into(),
        name: TestName::FifoResidue,
        frames: Some(7),
        duration_ms: Some(900),
        payload: 16,
        dir: Direction::Rx,
    };
    let line = format_command(&cmd);
    assert_eq!(
        line,
        "TEST BEGIN id=x name=fifo-residue frames=7 duration_ms=900 payload=16 dir=rx\r\n"
    );
    match parse_command(&line).unwrap() {
        CtrlCommand::TestBegin { id, name, frames, duration_ms, payload, dir } => {
            assert_eq!(id, "x");
            assert!(matches!(name, TestName::FifoResidue));
            assert_eq!(frames, Some(7));
            assert_eq!(duration_ms, Some(900));
            assert_eq!(payload, 16);
            assert!(matches!(dir, Direction::Rx));
        }
        _ => panic!("wrong variant"),
    }
}

#[test]
fn test_begin_without_dir_is_missing_a_field() {
    match parse_command("TEST BEGIN id=a name=max-rate frames=1 payload=4") {
        Err(ParseError::MissingField(k)) => assert_eq!(k, "dir"),
        _ => panic!("expected a missing field"),
    }
}

#[test]
fn done_ack_and_result_round_trip() {
    let ack = CtrlCommand::TestDoneAck {
        id: "s".into(),
        ok: 5,
        bad: 1,
        lost: 2,
        total: 8,
        duration_micros: 123456,
        bytes: 999,
    };
    match parse_command(&format_command(&ack)).unwrap() {
        CtrlCommand::TestDoneAck { id, ok, bad, lost, total, duration_micros, bytes } => {
            assert_eq!((id.as_str(), ok, bad, lost, total, duration_micros, bytes), ("s", 5, 1, 2, 8, 123456, 999));
        }
        _ => panic!("wrong variant"),
    }
    let res = CtrlCommand::TestResult {
        id: "m".into(),
        result: TestResultFlag::Pass,
        rx_frames: 1,
        rx_bytes: 2,
        bad_crc: 3,
        seq_gaps: 4,
        overruns: 5,
        errors: 6,
        rate_bps: 7,
        reason: Some("a b\nc".into()),
    };
    let line = format_command(&res);
    assert!(line.contains(" reason=a_b\\nc"));
    match parse_command(&line).unwrap() {
        CtrlCommand::TestResult { result, errors, rate_bps, reason, .. } => {
            assert!(matches!(result, TestResultFlag::Pass));
            assert_eq!(errors, 6);
            assert_eq!(rate_bps, 7);
            assert_eq!(reason.as_deref(), Some("a b\nc"));
        }
        _ => panic!("wrong variant"),
    }
}

#[test]
fn empty_reason_is_left_out() {
    let res = CtrlCommand::TestResult {
        id: "m".into(),
        result: TestResultFlag::Fail,
        rx_frames: 0,
        rx_bytes: 0,
        bad_crc: 0,
        seq_gaps: 0,
        overruns: 0,
        errors: 0,
        rate_bps: 0,
        reason: Some(String::new()),
    };
    let line = format_command(&res);
    assert!(!line.contains("reason"));
    match parse_command(&line).unwrap() {
        CtrlCommand::TestResult { reason, .. } => assert!(reason.is_none()),
        _ => panic!("wrong variant"),
    }
}

#[test]
fn parse_error_variants() {
    assert!(matches!(parse_command("\r\n  "), Err(ParseError::Empty)));
    assert!(matches!(parse_command("\t"), Err(ParseError::Empty)));
    assert!(matches!(parse_command(" \t\u{a0}\r\n"), Err(ParseError::Empty)));
    match parse_command("HELLO id=a junk") {
        Err(ParseError::BadPair(t)) => assert_eq!(t, "junk"),
        _ => panic!("expected a bad pair"),
    }
    match parse_command("HELLO") {
        Err(ParseError::MissingField(k)) => assert_eq!(k, "id"),
        _ => panic!("expected a missing field"),
    }
    match parse_command("CONFIG SET id=a baud=70000000000 parity=none bits=8 flow=none") {
        Err(ParseError::BadInt(k, v)) => {
            assert_eq!(k, "baud");
            assert_eq!(v, "70000000000");
        }
        _ => panic!("expected a bad integer"),
    }
    match parse_command("WHAT IS id=1") {
        Err(ParseError::UnknownTag(t)) => assert_eq!(t, "WHAT IS"),
        _ => panic!("expected an unknown tag"),
    }
}

#[test]
fn enum_values_ignore_case_and_last_key_wins() {
    match parse_command("CONFIG SET id=a id=b baud=+9600 parity=EVEN bits=7 flow=RtsCts").unwrap() {
        CtrlCommand::ConfigSet { id, baud, parity, bits, flow } => {
            assert_eq!(id, "b");
            assert_eq!(baud, 9600);
            assert!(matches!(parity, Parity::Even));
            assert_eq!(bits, 7);
            assert!(matches!(flow, FlowControl::RtsCts));
        }
        _ => panic!("wrong variant"),
    }
}
