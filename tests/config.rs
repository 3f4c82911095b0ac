use uart_lab::command::{Direction, FlowControl, Parity, TestName};
use uart_lab::config::{data_bits_supported, default_config, PortConfig, TestOpts};

fn opts(tests: &str, bauds: &str, parity: &str, bits: &str, dir: &str, flow: &str) -> TestOpts {
    TestOpts {
        dev: "/dev/null".into(),
        tests: tests.into(),
        bauds: bauds.into(),
        parity: parity.into(),
        bits: bits.into(),
        dir: dir.into(),
        flow: flow.into(),
        payload: 32,
        frames: 200,
        duration_ms: None,
        hello_ms: 500,
        hello_backoff_max_ms: 4000,
        repeat_timeout_ms: 10_000,
        repeat_hz: 2,
        debug: false,
    }
}

#[test]
fn lists_parse_with_defaults() {
    let o = opts("max-rate, bogus", "115_200, 9600,x", "even,odd", " 7 ,8,300", "rx,both", "rtscts");
    assert_eq!(o.get_test_names(), vec![TestName::MaxRate]);
    assert_eq!(o.get_baud_rates(), vec![115200, 9600]);
    assert_eq!(o.get_parities(), vec![Parity::Even, Parity::Odd]);
    assert_eq!(o.get_bits(), vec![7, 8]);
    assert_eq!(o.get_dirs(), vec![Direction::Rx, Direction::Both]);
    assert_eq!(o.get_flow_controls(), vec![FlowControl::RtsCts]);
    let e = opts("", "", "", "", "", "");
    assert!(e.get_test_names().is_empty());
    assert_eq!(e.get_baud_rates(), vec![115200]);
    assert_eq!(e.get_parities(), vec![Parity::Off]);
    assert_eq!(e.get_bits(), vec![8]);
    assert_eq!(e.get_dirs(), vec![Direction::Tx]);
    assert_eq!(e.get_flow_controls(), vec![FlowControl::Off]);
    let star = opts(" * ", "*", "none", "8", "tx", "none");
    assert_eq!(star.get_test_names(), vec![TestName::MaxRate, TestName::FifoResidue]);
    assert_eq!(star.get_baud_rates().len(), 11);
}

#[test]
fn bits_per_byte_counts_framing() {
    let c = default_config();
    assert_eq!(c.bits_per_byte(), 10);
    let p = PortConfig { baud: 9600, parity: Parity::Even, bits: 7, flow: FlowControl::Off, stop_bits: 1 };
    assert_eq!(p.bits_per_byte(), 10);
    let q = PortConfig { parity: Parity::Odd, bits: 8, ..p };
    assert_eq!(q.bits_per_byte(), 11);
}

#[test]
fn only_seven_or_eight_data_bits() {
    assert!(data_bits_supported(7));
    assert!(data_bits_supported(8));
    assert!(!data_bits_supported(5));
    assert!(!data_bits_supported(9));
}

#[test]
fn enum_tokens_parse_ignoring_case() {
    assert_eq!("EVEN".parse::<Parity>(), Ok(Parity::Even));
    assert_eq!("None".parse::<FlowControl>(), Ok(FlowControl::Off));
    assert_eq!("both".parse::<Direction>(), Ok(Direction::Both));
    assert_eq!("Fifo-Residue".parse::<TestName>(), Ok(TestName::FifoResidue));
    assert!("maybe".parse::<Parity>().is_err());
}
