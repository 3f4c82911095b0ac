//! The verdict of one test, computed from the two sides' counters.
use vstd::prelude::*;

use crate::stats::Stats;
use crate::text::push_str;

verus! {

/// Result of running one test.
#[derive(Debug, Clone)]
pub struct TestOutcome {
    pub pass: bool,
    /// Frames received intact.
    pub rx_frames: u64,
    pub rx_bytes: u64,
    /// Not tracked separately: always 0.
    pub bad_crc: u64,
    pub seq_gaps: u64,
    pub overruns: u64,
    /// The receiving side's bad-frame count.
    pub errors: u32,
    /// Receive rate in bits per second.
    pub rate_bps: u64,
    pub reason: Option<String>,
}

/// A pass needs frames, and no bad or lost ones.
pub open spec fn passes(rx: Stats) -> bool {
    rx.ok > 0 && rx.bad == 0 && rx.lost == 0
}

/// Why a test failed, by priority.
pub open spec fn fail_reason(rx: Stats) -> Seq<char> {
    if rx.ok == 0 && rx.bad == 0 {
        "no frames received"@
    } else if rx.bad > 0 {
        "crc errors"@
    } else if rx.lost > 0 {
        "sequence gaps"@
    } else {
        "unknown"@
    }
}

/// Received bytes over the sending side's elapsed time (at least a millisecond),
/// times bits per byte, truncated and capped at `u64::MAX`.
pub open spec fn rate_of(tx: Stats, rx: Stats) -> nat {
    let micros: nat = if tx.duration_micros < 1000 {
        1000
    } else {
        tx.duration_micros as nat
    };
    let r = (rx.bytes as nat) * (tx.bpb as nat) * 1_000_000 / micros;
    if r > u64::MAX {
        u64::MAX as nat
    } else {
        r
    }
}

/// Every field of `o` is what `from_test_stats(tx, rx)` gives.
pub open spec fn is_outcome_of(o: TestOutcome, tx: Stats, rx: Stats) -> bool {
    &&& o.pass == passes(rx)
    &&& o.rx_frames == rx.ok
    &&& o.rx_bytes == rx.bytes
    &&& o.bad_crc == 0
    &&& o.seq_gaps == rx.lost
    &&& o.overruns == 0
    &&& o.errors == rx.bad % 0x1_0000_0000
    &&& o.rate_bps == rate_of(tx, rx)
    &&& reason_view(o.reason) == if passes(rx) {
        None
    } else {
        Some(fail_reason(rx))
    }
}

pub open spec fn reason_view(r: Option<String>) -> Option<Seq<char>> {
    match r {
        Some(s) => Some(s@),
        None => None,
    }
}

fn string_from(s: &str) -> (r: String)
    ensures
        r@ == s@,
{
    let mut r = String::new();
    push_str(&mut r, s);
    assert(r@ =~= s@);
    r
}

fn rate_bps(tx: &Stats, rx: &Stats) -> (r: u64)
    ensures
        r == rate_of(*tx, *rx),
{
    let micros: u128 = if tx.duration_micros < 1000 {
        1000
    } else {
        tx.duration_micros as u128
    };
    assert((rx.bytes as nat) * (tx.bpb as nat) * 1_000_000 <= 0xffff_ffff_ffff_ffff * 0xffff_ffff
        * 1_000_000) by (nonlinear_arith)
        requires
            rx.bytes <= 0xffff_ffff_ffff_ffffu64,
            tx.bpb <= 0xffff_ffffu32,
    ;
    let num: u128 = (rx.bytes as u128) * (tx.bpb as u128) * 1_000_000;
    let q = num / micros;
    if q > u64::MAX as u128 {
        u64::MAX
    } else {
        q as u64
    }
}

impl TestOutcome {
    /// A clean pass.
    pub fn pass(rx_frames: u64, rx_bytes: u64, rate_bps: u64) -> (o: Self)
        ensures
            o.pass,
            o.rx_frames == rx_frames,
            o.rx_bytes == rx_bytes,
            o.bad_crc == 0 && o.seq_gaps == 0 && o.overruns == 0 && o.errors == 0,
            o.rate_bps == rate_bps,
            o.reason is None,
    {
        TestOutcome {
            pass: true,
            rx_frames,
            rx_bytes,
            bad_crc: 0,
            seq_gaps: 0,
            overruns: 0,
            errors: 0,
            rate_bps,
            reason: None,
        }
    }

    /// A failure with a reason and no counts.
    pub fn fail(reason: &str) -> (o: Self)
        ensures
            !o.pass,
            o.rx_frames == 0 && o.rx_bytes == 0 && o.bad_crc == 0 && o.seq_gaps == 0,
            o.overruns == 0 && o.errors == 0 && o.rate_bps == 0,
            reason_view(o.reason) == Some(reason@),
    {
        TestOutcome {
            pass: false,
            rx_frames: 0,
            rx_bytes: 0,
            bad_crc: 0,
            seq_gaps: 0,
            overruns: 0,
            errors: 0,
            rate_bps: 0,
            reason: Some(string_from(reason)),
        }
    }

    /// The verdict from the transmitting side's and the receiving side's counters.
    pub fn from_test_stats(tx_stats: Stats, rx_stats: Stats) -> (o: Self)
        ensures
            o.pass == passes(rx_stats),
            o.rx_frames == rx_stats.ok,
            o.rx_bytes == rx_stats.bytes,
            o.bad_crc == 0,
            o.seq_gaps == rx_stats.lost,
            o.overruns == 0,
            o.errors == rx_stats.bad % 0x1_0000_0000,
            o.rate_bps == rate_of(tx_stats, rx_stats),
            reason_view(o.reason) == (if passes(rx_stats) {
                None
            } else {
                Some(fail_reason(rx_stats))
            }),
    {
        let pass = rx_stats.ok > 0 && rx_stats.bad == 0 && rx_stats.lost == 0;
        let reason = if pass {
            None
        } else if rx_stats.ok == 0 && rx_stats.bad == 0 {
            Some(string_from("no frames received"))
        } else if rx_stats.bad > 0 {
            Some(string_from("crc errors"))
        } else if rx_stats.lost > 0 {
            Some(string_from("sequence gaps"))
        } else {
            Some(string_from("unknown"))
        };
        TestOutcome {
            pass,
            rx_frames: rx_stats.ok,
            rx_bytes: rx_stats.bytes,
            bad_crc: 0,
            seq_gaps: rx_stats.lost,
            overruns: 0,
            errors: (rx_stats.bad % 0x1_0000_0000) as u32,
            rate_bps: rate_bps(&tx_stats, &rx_stats),
            reason,
        }
    }
}

} // verus!
