//! Decisions of the orchestration protocol: retry pacing, who acknowledges the
//! end of a test, how counters travel, and how the slave reacts to commands.
//! The loops that wait on the transport call these and carry out their answers.
use vstd::prelude::*;

use crate::command::{CommandView, CtrlCommand, Direction, FlowControl, Parity, TestName, TestResultFlag};
use crate::outcome::{is_outcome_of, reason_view, TestOutcome};
use crate::stats::Stats;
use crate::text::push_str;

verus! {

/// Negotiated parameters of one test phase.
#[derive(Debug, Clone, Copy, PartialEq, Eq, Structural)]
pub struct TestConfig {
    pub name: TestName,
    pub frames: Option<u64>,
    pub duration_ms: Option<u64>,
    /// Payload bytes per frame.
    pub payload: usize,
    pub dir: Direction,
}

/// Shortest retry delay.
pub const MIN_BACKOFF_MS: u64 = 200;

/// Longest data phase when no duration is given.
pub const MAX_TEST_DURATION_MS: u64 = 20_000;

// ---------------------------------------------------------------------------
// Backoff
// ---------------------------------------------------------------------------

/// Retry delays that double up to a cap.
#[derive(Debug, Clone, Copy, PartialEq, Eq, Structural)]
pub struct Backoff {
    pub current: u64,
    pub cap: u64,
}

/// First delay: the configured one, but not under the floor.
pub open spec fn first_delay(initial: u64) -> u64 {
    if initial < MIN_BACKOFF_MS {
        MIN_BACKOFF_MS
    } else {
        initial
    }
}

/// The delay after `d`: doubled (saturating), at most `cap`.
pub open spec fn next_after(d: u64, cap: u64) -> u64 {
    let twice: nat = if 2 * d > u64::MAX {
        u64::MAX as nat
    } else {
        2 * d as nat
    };
    if twice > cap {
        cap
    } else {
        twice as u64
    }
}

/// The `k`-th delay (from 0) of a backoff that starts at `initial` and is capped at `max_ms`.
pub open spec fn delay_at(initial: u64, max_ms: u64, k: nat) -> u64
    decreases k,
{
    if k == 0 {
        first_delay(initial)
    } else {
        next_after(delay_at(initial, max_ms, (k - 1) as nat), cap_of(initial, max_ms))
    }
}

/// The cap never falls below the configured start.
pub open spec fn cap_of(initial: u64, max_ms: u64) -> u64 {
    if max_ms < initial {
        initial
    } else {
        max_ms
    }
}

impl Backoff {
    pub fn new(initial_ms: u64, max_ms: u64) -> (b: Self)
        ensures
            b.current == first_delay(initial_ms),
            b.cap == cap_of(initial_ms, max_ms),
    {
        let current = if initial_ms < MIN_BACKOFF_MS {
            MIN_BACKOFF_MS
        } else {
            initial_ms
        };
        let cap = if max_ms < initial_ms {
            initial_ms
        } else {
            max_ms
        };
        Backoff { current, cap }
    }

    /// Hands out the current delay and moves to the next one.
    pub fn next_delay(&mut self) -> (d: u64)
        ensures
            d == old(self).current,
            final(self).current == next_after(old(self).current, old(self).cap),
            final(self).current <= final(self).cap,
            final(self).cap == old(self).cap,
    {
        let d = self.current;
        let twice = if self.current > u64::MAX / 2 {
            u64::MAX
        } else {
            self.current * 2
        };
        self.current = if twice > self.cap {
            self.cap
        } else {
            twice
        };
        d
    }
}

/// After the first delay, delays never exceed the cap and never shrink.
pub proof fn lemma_backoff_capped(initial: u64, max_ms: u64, k: nat)
    requires
        k > 0,
    ensures
        delay_at(initial, max_ms, k) <= cap_of(initial, max_ms),
        delay_at(initial, max_ms, k + 1) >= delay_at(initial, max_ms, k),
{
}

// ---------------------------------------------------------------------------
// Directions and end-of-test roles
// ---------------------------------------------------------------------------

/// The direction the peer runs when this side runs `dir`.
pub open spec fn peer_dir(dir: Direction) -> Direction {
    match dir {
        Direction::Tx => Direction::Rx,
        Direction::Rx => Direction::Tx,
        Direction::Both => Direction::Both,
    }
}

/// How the peer must behave when this side runs `dir`.
pub fn peer_direction(dir: Direction) -> (r: Direction)
    ensures
        r == peer_dir(dir),
{
    match dir {
        Direction::Tx => Direction::Rx,
        Direction::Both => Direction::Both,
        Direction::Rx => Direction::Tx,
    }
}

/// The side that only acknowledges `TEST DONE`: the receiver of a one-way test,
/// the slave of a two-way one.
pub open spec fn acks_done(dir: Direction, is_master: bool) -> bool {
    match dir {
        Direction::Tx => false,
        Direction::Rx => true,
        Direction::Both => !is_master,
    }
}

/// Whether the side that ran `dir` waits for `TEST DONE` rather than sending it.
pub fn is_test_done_ack_mode(dir: Direction, is_master: bool) -> (r: bool)
    ensures
        r == acks_done(dir, is_master),
{
    match dir {
        Direction::Tx => false,
        Direction::Both if is_master => false,
        _ => true,
    }
}

/// In every test exactly one side originates `TEST DONE`: the master running
/// `dir` and the slave running the peer direction never both wait, nor both send.
pub proof fn lemma_one_originator(dir: Direction)
    ensures
        acks_done(dir, true) != acks_done(peer_dir(dir), false),
{
}

/// What the side that originates `TEST DONE` does next.
#[derive(Debug, Clone, Copy, PartialEq, Eq, Structural)]
pub enum DoneStep {
    /// Send `TEST DONE` and wait this long for the acknowledgment.
    Send { wait_ms: u64 },
    /// The overall deadline has passed: go on without the peer's counters.
    Proceed,
}

/// The originator's retry loop for `TEST DONE`: bounded by an overall deadline.
#[derive(Debug, Clone, Copy, PartialEq, Eq, Structural)]
pub struct DoneRetry {
    pub backoff: Backoff,
    pub deadline_ms: u64,
}

impl DoneRetry {
    pub fn new(initial_ms: u64, max_ms: u64, deadline_ms: u64) -> (r: Self)
        ensures
            r.backoff.current == first_delay(initial_ms),
            r.backoff.cap == cap_of(initial_ms, max_ms),
            r.deadline_ms == deadline_ms,
    {
        DoneRetry { backoff: Backoff::new(initial_ms, max_ms), deadline_ms }
    }

    /// Called with the time spent so far, before each attempt; no acknowledgment has come yet.
    pub fn step(&mut self, elapsed_ms: u64) -> (s: DoneStep)
        ensures
            elapsed_ms >= old(self).deadline_ms ==> s == DoneStep::Proceed,
            elapsed_ms < old(self).deadline_ms ==> s == (DoneStep::Send {
                wait_ms: old(self).backoff.current,
            }),
            elapsed_ms < old(self).deadline_ms ==> final(self).backoff.current == next_after(
                old(self).backoff.current,
                old(self).backoff.cap,
            ),
            final(self).deadline_ms == old(self).deadline_ms,
    {
        if elapsed_ms >= self.deadline_ms {
            return DoneStep::Proceed;
        }
        let d = self.backoff.next_delay();
        DoneStep::Send { wait_ms: d }
    }
}

// ---------------------------------------------------------------------------
// Counters on the wire
// ---------------------------------------------------------------------------

/// The acknowledgment that carries this side's counters.
pub fn done_ack_for(my_id: &str, stats: &Stats) -> (c: CtrlCommand)
    ensures
        c@ == (CommandView::TestDoneAck {
            id: my_id@,
            ok: stats.ok,
            bad: stats.bad,
            lost: stats.lost,
            total: stats.total,
            duration_micros: stats.duration_micros,
            bytes: stats.bytes,
        }),
{
    let mut id = String::new();
    push_str(&mut id, my_id);
    assert(id@ =~= my_id@);
    CtrlCommand::TestDoneAck {
        id,
        ok: stats.ok,
        bad: stats.bad,
        lost: stats.lost,
        total: stats.total,
        duration_micros: stats.duration_micros,
        bytes: stats.bytes,
    }
}

/// The peer's counters from its acknowledgment; `bpb` is this side's.
pub fn stats_from_done_ack(cmd: &CtrlCommand, bpb: u32) -> (r: Option<Stats>)
    ensures
        match cmd@ {
            CommandView::TestDoneAck { ok, bad, lost, total, duration_micros, bytes, .. } => r
                == Some(Stats { ok, bad, lost, total, bytes, bpb, duration_micros }),
            _ => r is None,
        },
{
    match cmd {
        CtrlCommand::TestDoneAck { ok, bad, lost, total, duration_micros, bytes, .. } => Some(
            Stats {
                ok: *ok,
                bad: *bad,
                lost: *lost,
                total: *total,
                bytes: *bytes,
                bpb,
                duration_micros: *duration_micros,
            },
        ),
        _ => None,
    }
}

/// The transmitting and receiving sides' counters of a test that the master ran
/// in direction `dir`. When the master received, it acknowledged `TEST DONE`
/// and got no counters back: its own count and clock stand for both sides.
/// Otherwise the peer received, and its counters are needed.
pub open spec fn master_pair(dir: Direction, own: Stats, peer: Option<Stats>) -> Option<
    (Stats, Stats),
> {
    if acks_done(dir, true) {
        Some((own, own))
    } else {
        match peer {
            Some(p) => Some((own, p)),
            None => None,
        }
    }
}

/// The master's outcome of a test, or none when the receiving peer's counters never came.
pub fn outcome_for_master(dir: Direction, own: Stats, peer: Option<Stats>) -> (o: Option<
    TestOutcome,
>)
    ensures
        match master_pair(dir, own, peer) {
            Some((tx, rx)) => o is Some && is_outcome_of(o->0, tx, rx),
            None => o is None,
        },
{
    if is_test_done_ack_mode(dir, true) {
        Some(TestOutcome::from_test_stats(own, own))
    } else {
        match peer {
            Some(p) => Some(TestOutcome::from_test_stats(own, p)),
            None => None,
        }
    }
}

/// The `TEST RESULT` message for an outcome, or a failure with `default_reason` when there is none.
pub fn build_test_result(id: &str, outcome: Option<&TestOutcome>, default_reason: &str) -> (c:
    CtrlCommand)
    ensures
        match outcome {
            Some(o) => c@ == (CommandView::TestResult {
                id: id@,
                result: if o.pass {
                    TestResultFlag::Pass
                } else {
                    TestResultFlag::Fail
                },
                rx_frames: o.rx_frames,
                rx_bytes: o.rx_bytes,
                bad_crc: o.bad_crc,
                seq_gaps: o.seq_gaps,
                overruns: o.overruns,
                errors: o.errors,
                rate_bps: o.rate_bps,
                reason: reason_view(o.reason),
            }),
            None => c@ == (CommandView::TestResult {
                id: id@,
                result: TestResultFlag::Fail,
                rx_frames: 0,
                rx_bytes: 0,
                bad_crc: 0,
                seq_gaps: 0,
                overruns: 0,
                errors: 0,
                rate_bps: 0,
                reason: Some(default_reason@),
            }),
        },
{
    let mut ids = String::new();
    push_str(&mut ids, id);
    assert(ids@ =~= id@);
    match outcome {
        Some(o) => {
            let reason = match &o.reason {
                Some(r) => {
                    let mut s = String::new();
                    push_str(&mut s, r.as_str());
                    assert(s@ =~= r@);
                    Some(s)
                },
                None => None,
            };
            CtrlCommand::TestResult {
                id: ids,
                result: if o.pass {
                    TestResultFlag::Pass
                } else {
                    TestResultFlag::Fail
                },
                rx_frames: o.rx_frames,
                rx_bytes: o.rx_bytes,
                bad_crc: o.bad_crc,
                seq_gaps: o.seq_gaps,
                overruns: o.overruns,
                errors: o.errors,
                rate_bps: o.rate_bps,
                reason,
            }
        },
        None => {
            let mut s = String::new();
            push_str(&mut s, default_reason);
            assert(s@ =~= default_reason@);
            CtrlCommand::TestResult {
                id: ids,
                result: TestResultFlag::Fail,
                rx_frames: 0,
                rx_bytes: 0,
                bad_crc: 0,
                seq_gaps: 0,
                overruns: 0,
                errors: 0,
                rate_bps: 0,
                reason: Some(s),
            }
        },
    }
}

/// Whether a data phase has reached its bound: the frame count, if any, or the
/// duration (`MAX_TEST_DURATION_MS` when none is given), whichever comes first.
pub fn phase_done(count: u64, elapsed_ms: u64, conf: &TestConfig) -> (r: bool)
    ensures
        r == (elapsed_ms >= (match conf.duration_ms {
            Some(d) => d,
            None => MAX_TEST_DURATION_MS,
        }) || (match conf.frames {
            Some(f) => count >= f,
            None => false,
        })),
{
    let limit = match conf.duration_ms {
        Some(d) => d,
        None => MAX_TEST_DURATION_MS,
    };
    if elapsed_ms >= limit {
        return true;
    }
    match conf.frames {
        Some(f) => count >= f,
        None => false,
    }
}

// ---------------------------------------------------------------------------
// Slave
// ---------------------------------------------------------------------------

/// What the slave does in answer to a command.
#[derive(Debug)]
pub enum SlaveAction {
    /// Send the acknowledgment, then switch the port to the new settings.
    Configure { ack: CtrlCommand, baud: u32, parity: Parity, bits: u8, flow: FlowControl },
    /// Send the acknowledgment, then run the data phase.
    StartTest { ack: CtrlCommand, conf: TestConfig },
    /// Send the acknowledgment and go back to discovery.
    EndSession { ack: CtrlCommand },
    /// Nothing to do.
    Ignore,
}

/// The slave's session: its own id and the master it answers to.
pub struct SlaveSession {
    pub my_id: String,
    pub peer: Option<String>,
}

fn copy_string(s: &String) -> (r: String)
    ensures
        r@ == s@,
{
    let mut r = String::new();
    push_str(&mut r, s.as_str());
    assert(r@ =~= s@);
    r
}

impl SlaveSession {
    pub fn new(my_id: String) -> (s: Self)
        ensures
            s.my_id@ == my_id@,
            s.peer is None,
    {
        SlaveSession { my_id, peer: None }
    }

    /// Discovery: a `HELLO` records its sender as the peer and is answered with `ACK`.
    pub fn on_discovery(&mut self, cmd: &CtrlCommand) -> (r: Option<CtrlCommand>)
        ensures
            final(self).my_id@ == old(self).my_id@,
            match cmd@ {
                CommandView::Hello { id } => r is Some && r->0@ == (CommandView::Ack {
                    id: old(self).my_id@,
                }) && final(self).peer is Some && final(self).peer->0@ == id,
                _ => r is None && final(self).peer == old(self).peer,
            },
    {
        match cmd {
            CtrlCommand::Hello { id } => {
                self.peer = Some(copy_string(id));
                Some(CtrlCommand::Ack { id: copy_string(&self.my_id) })
            },
            _ => None,
        }
    }

    /// No command came within the inactivity timeout: forget the peer.
    pub fn on_inactive(&mut self)
        ensures
            final(self).my_id@ == old(self).my_id@,
            final(self).peer is None,
    {
        self.peer = None;
    }

    fn from_peer(&self, id: &String) -> (r: bool)
        ensures
            r == (self.peer is Some && self.peer->0@ == id@),
    {
        match &self.peer {
            Some(p) => p.eq(id),
            None => false,
        }
    }

    /// The main loop's answer to a command from the master.
    pub fn on_command(&mut self, cmd: &CtrlCommand) -> (a: SlaveAction)
        ensures
            final(self).my_id@ == old(self).my_id@,
            match cmd@ {
                CommandView::ConfigSet { baud, parity, bits, flow, .. } => final(self).peer
                    == old(self).peer && (a matches SlaveAction::Configure {
                    ack,
                    baud: b,
                    parity: p,
                    bits: n,
                    flow: f,
                } && ack@ == (CommandView::ConfigSetAck {
                    id: old(self).my_id@,
                    baud,
                    parity,
                    bits,
                    flow,
                }) && b == baud && p == parity && n == bits && f == flow),
                CommandView::TestBegin { id, name, frames, duration_ms, payload, dir } => {
                    final(self).peer == old(self).peer && if old(self).peer is Some
                        && old(self).peer->0@ == id {
                        a matches SlaveAction::StartTest { ack, conf } && ack@
                            == (CommandView::TestBeginAck {
                            id: old(self).my_id@,
                            name,
                            frames,
                            duration_ms,
                            payload,
                            dir,
                        }) && conf == (TestConfig { name, frames, duration_ms, payload, dir })
                    } else {
                        a is Ignore
                    }
                },
                CommandView::Terminate { id } => if old(self).peer is Some && old(self).peer->0@
                    == id {
                    final(self).peer is None && (a matches SlaveAction::EndSession { ack } && ack@
                        == (CommandView::TerminateAck { id: old(self).my_id@ }))
                } else {
                    final(self).peer == old(self).peer && a is Ignore
                },
                _ => final(self).peer == old(self).peer && a is Ignore,
            },
    {
        match cmd {
            CtrlCommand::ConfigSet { baud, parity, bits, flow, .. } => {
                let ack = CtrlCommand::ConfigSetAck {
                    id: copy_string(&self.my_id),
                    baud: *baud,
                    parity: *parity,
                    bits: *bits,
                    flow: *flow,
                };
                SlaveAction::Configure { ack, baud: *baud, parity: *parity, bits: *bits, flow: *flow }
            },
            CtrlCommand::TestBegin { id, name, frames, duration_ms, payload, dir } => {
                if !self.from_peer(id) {
                    return SlaveAction::Ignore;
                }
                let ack = CtrlCommand::TestBeginAck {
                    id: copy_string(&self.my_id),
                    name: *name,
                    frames: *frames,
                    duration_ms: *duration_ms,
                    payload: *payload,
                    dir: *dir,
                };
                SlaveAction::StartTest {
                    ack,
                    conf: TestConfig {
                        name: *name,
                        frames: *frames,
                        duration_ms: *duration_ms,
                        payload: *payload,
                        dir: *dir,
                    },
                }
            },
            CtrlCommand::Terminate { id } => {
                if !self.from_peer(id) {
                    return SlaveAction::Ignore;
                }
                self.peer = None;
                SlaveAction::EndSession {
                    ack: CtrlCommand::TerminateAck { id: copy_string(&self.my_id) },
                }
            },
            _ => SlaveAction::Ignore,
        }
    }
}

} // verus!
