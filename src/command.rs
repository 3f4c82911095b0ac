//! Control-channel commands and their enum-valued fields.
use vstd::prelude::*;

verus! {

#[derive(Debug, Clone, Copy, PartialEq, Eq, Structural)]
pub enum TestName {
    MaxRate,
    FifoResidue,
}

#[derive(Debug, Clone, Copy, PartialEq, Eq, Structural)]
pub enum Direction {
    Tx,
    Rx,
    Both,
}

#[derive(Debug, Clone, Copy, PartialEq, Eq, Structural)]
pub enum Parity {
    /// No parity bit (`none` on the wire).
    Off,
    Even,
    Odd,
}

#[derive(Debug, Clone, Copy, PartialEq, Eq, Structural)]
pub enum FlowControl {
    /// No flow control (`none` on the wire).
    Off,
    RtsCts,
}

#[derive(Debug, Clone, Copy, PartialEq, Eq, Structural)]
pub enum TestResultFlag {
    Pass,
    Fail,
}

/// One control-channel message.
#[derive(Debug, Clone)]
pub enum CtrlCommand {
    Hello { id: String },
    Ack { id: String },
    ConfigSet { id: String, baud: u32, parity: Parity, bits: u8, flow: FlowControl },
    ConfigSetAck { id: String, baud: u32, parity: Parity, bits: u8, flow: FlowControl },
    /// At least one of `frames` and `duration_ms` bounds the test.
    TestBegin {
        id: String,
        name: TestName,
        frames: Option<u64>,
        duration_ms: Option<u64>,
        payload: usize,
        dir: Direction,
    },
    TestBeginAck {
        id: String,
        name: TestName,
        frames: Option<u64>,
        duration_ms: Option<u64>,
        payload: usize,
        dir: Direction,
    },
    TestDone { id: String },
    /// Carries the acknowledging side's counters for the test just run.
    TestDoneAck {
        id: String,
        ok: u64,
        bad: u64,
        lost: u64,
        total: u64,
        duration_micros: u64,
        bytes: u64,
    },
    TestResult {
        id: String,
        result: TestResultFlag,
        rx_frames: u64,
        rx_bytes: u64,
        bad_crc: u64,
        seq_gaps: u64,
        overruns: u64,
        errors: u32,
        rate_bps: u64,
        reason: Option<String>,
    },
    Terminate { id: String },
    TerminateAck { id: String },
}

/// A command with its strings as character sequences.
pub enum CommandView {
    Hello { id: Seq<char> },
    Ack { id: Seq<char> },
    ConfigSet { id: Seq<char>, baud: u32, parity: Parity, bits: u8, flow: FlowControl },
    ConfigSetAck { id: Seq<char>, baud: u32, parity: Parity, bits: u8, flow: FlowControl },
    TestBegin {
        id: Seq<char>,
        name: TestName,
        frames: Option<u64>,
        duration_ms: Option<u64>,
        payload: usize,
        dir: Direction,
    },
    TestBeginAck {
        id: Seq<char>,
        name: TestName,
        frames: Option<u64>,
        duration_ms: Option<u64>,
        payload: usize,
        dir: Direction,
    },
    TestDone { id: Seq<char> },
    TestDoneAck {
        id: Seq<char>,
        ok: u64,
        bad: u64,
        lost: u64,
        total: u64,
        duration_micros: u64,
        bytes: u64,
    },
    TestResult {
        id: Seq<char>,
        result: TestResultFlag,
        rx_frames: u64,
        rx_bytes: u64,
        bad_crc: u64,
        seq_gaps: u64,
        overruns: u64,
        errors: u32,
        rate_bps: u64,
        reason: Option<Seq<char>>,
    },
    Terminate { id: Seq<char> },
    TerminateAck { id: Seq<char> },
}

pub open spec fn opt_view(s: Option<String>) -> Option<Seq<char>> {
    match s {
        Some(x) => Some(x@),
        None => None,
    }
}

impl View for CtrlCommand {
    type V = CommandView;

    open spec fn view(&self) -> CommandView {
        match self {
            CtrlCommand::Hello { id } => CommandView::Hello { id: id@ },
            CtrlCommand::Ack { id } => CommandView::Ack { id: id@ },
            CtrlCommand::ConfigSet { id, baud, parity, bits, flow } => CommandView::ConfigSet {
                id: id@,
                baud: *baud,
                parity: *parity,
                bits: *bits,
                flow: *flow,
            },
            CtrlCommand::ConfigSetAck { id, baud, parity, bits, flow } => CommandView::ConfigSetAck {
                id: id@,
                baud: *baud,
                parity: *parity,
                bits: *bits,
                flow: *flow,
            },
            CtrlCommand::TestBegin { id, name, frames, duration_ms, payload, dir } =>
                CommandView::TestBegin {
                id: id@,
                name: *name,
                frames: *frames,
                duration_ms: *duration_ms,
                payload: *payload,
                dir: *dir,
            },
            CtrlCommand::TestBeginAck { id, name, frames, duration_ms, payload, dir } =>
                CommandView::TestBeginAck {
                id: id@,
                name: *name,
                frames: *frames,
                duration_ms: *duration_ms,
                payload: *payload,
                dir: *dir,
            },
            CtrlCommand::TestDone { id } => CommandView::TestDone { id: id@ },
            CtrlCommand::TestDoneAck { id, ok, bad, lost, total, duration_micros, bytes } =>
                CommandView::TestDoneAck {
                id: id@,
                ok: *ok,
                bad: *bad,
                lost: *lost,
                total: *total,
                duration_micros: *duration_micros,
                bytes: *bytes,
            },
            CtrlCommand::TestResult {
                id,
                result,
                rx_frames,
                rx_bytes,
                bad_crc,
                seq_gaps,
                overruns,
                errors,
                rate_bps,
                reason,
            } => CommandView::TestResult {
                id: id@,
                result: *result,
                rx_frames: *rx_frames,
                rx_bytes: *rx_bytes,
                bad_crc: *bad_crc,
                seq_gaps: *seq_gaps,
                overruns: *overruns,
                errors: *errors,
                rate_bps: *rate_bps,
                reason: opt_view(*reason),
            },
            CtrlCommand::Terminate { id } => CommandView::Terminate { id: id@ },
            CtrlCommand::TerminateAck { id } => CommandView::TerminateAck { id: id@ },
        }
    }
}

} // verus!
