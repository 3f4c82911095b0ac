//! Per-phase counters and sequence-gap accounting.
use vstd::prelude::*;

use crate::frame::{Frame, FrameError};

verus! {

/// Counters of one side of one test phase.
#[derive(Debug, Clone, Copy, PartialEq, Eq, Structural)]
pub struct Stats {
    pub ok: u64,
    pub bad: u64,
    pub lost: u64,
    pub total: u64,
    pub bytes: u64,
    /// Bits on the wire per byte, for rate figures.
    pub bpb: u32,
    pub duration_micros: u64,
}

impl Stats {
    pub fn new(bpb: u32) -> (s: Self)
        ensures
            s == (Stats { ok: 0, bad: 0, lost: 0, total: 0, bytes: 0, bpb, duration_micros: 0 }),
    {
        Stats { ok: 0, bad: 0, lost: 0, total: 0, bytes: 0, bpb, duration_micros: 0 }
    }

    pub fn add_bytes(&mut self, n: usize)
        requires
            old(self).bytes + n <= u64::MAX,
        ensures
            *final(self) == (Stats { bytes: (old(self).bytes + n) as u64, ..*old(self) }),
    {
        self.bytes = self.bytes + n as u64;
    }

    pub fn inc_ok(&mut self)
        requires
            old(self).ok < u64::MAX,
            old(self).total < u64::MAX,
        ensures
            *final(self) == (Stats {
                ok: (old(self).ok + 1) as u64,
                total: (old(self).total + 1) as u64,
                ..*old(self)
            }),
    {
        self.ok = self.ok + 1;
        self.total = self.total + 1;
    }

    pub fn inc_bad(&mut self)
        requires
            old(self).bad < u64::MAX,
            old(self).total < u64::MAX,
        ensures
            *final(self) == (Stats {
                bad: (old(self).bad + 1) as u64,
                total: (old(self).total + 1) as u64,
                ..*old(self)
            }),
    {
        self.bad = self.bad + 1;
        self.total = self.total + 1;
    }

    pub fn add_lost(&mut self, n: u64)
        requires
            old(self).lost + n <= u64::MAX,
            old(self).total + n <= u64::MAX,
        ensures
            *final(self) == (Stats {
                lost: (old(self).lost + n) as u64,
                total: (old(self).total + n) as u64,
                ..*old(self)
            }),
    {
        self.lost = self.lost + n;
        self.total = self.total + n;
    }
}

/// Frames missing before `seq` when `expect` was due next: none for the first
/// frame or the expected one, the distance for a jump ahead, one for a step back.
pub open spec fn gap_of(expect: Option<u64>, seq: u64) -> nat {
    match expect {
        None => 0,
        Some(e) => if seq == e {
            0
        } else if seq > e {
            (seq - e) as nat
        } else {
            1
        },
    }
}

/// The sequence number expected after `seq`.
pub open spec fn next_expected(seq: u64) -> u64 {
    if seq == u64::MAX {
        0
    } else {
        (seq + 1) as u64
    }
}

/// Tracks the next expected sequence number on the receiving side.
#[derive(Debug, Clone, Copy, PartialEq, Eq, Structural)]
pub struct GapTracker {
    pub expect: Option<u64>,
}

impl GapTracker {
    pub fn new() -> (t: Self)
        ensures
            t.expect is None,
    {
        GapTracker { expect: None }
    }

    /// Frames that a valid frame with sequence `seq` reveals as lost.
    pub fn gap(&self, seq: u64) -> (n: u64)
        ensures
            n == gap_of(self.expect, seq),
    {
        match self.expect {
            None => 0,
            Some(e) => {
                if seq == e {
                    0
                } else if seq > e {
                    seq - e
                } else {
                    1
                }
            },
        }
    }

    /// Records a valid frame: it counts as ok, its gap as lost, and `seq + 1` is due next.
    pub fn on_frame(&mut self, stats: &mut Stats, seq: u64)
        requires
            old(stats).ok < u64::MAX,
            old(stats).lost + gap_of(old(self).expect, seq) <= u64::MAX,
            old(stats).total + 1 + gap_of(old(self).expect, seq) <= u64::MAX,
        ensures
            final(self).expect == Some(next_expected(seq)),
            final(stats).ok == old(stats).ok + 1,
            final(stats).bad == old(stats).bad,
            final(stats).lost == old(stats).lost + gap_of(old(self).expect, seq),
            final(stats).total == old(stats).total + 1 + gap_of(old(self).expect, seq),
            final(stats).bytes == old(stats).bytes,
            final(stats).bpb == old(stats).bpb,
            final(stats).duration_micros == old(stats).duration_micros,
    {
        stats.inc_ok();
        let n = self.gap(seq);
        if n > 0 {
            stats.add_lost(n);
        }
        self.expect = Some(seq.wrapping_add(1));
    }

    /// Counts one received line of `n` bytes: a valid frame goes through `on_frame`,
    /// anything else is a bad frame.
    pub fn record(&mut self, stats: &mut Stats, parsed: &Result<Frame, FrameError>, n: usize)
        requires
            old(stats).bytes + n <= u64::MAX,
            match parsed {
                Ok(f) => old(stats).ok < u64::MAX && old(stats).lost + gap_of(old(self).expect, f.seq)
                    <= u64::MAX && old(stats).total + 1 + gap_of(old(self).expect, f.seq) <= u64::MAX,
                Err(_) => old(stats).bad < u64::MAX && old(stats).total < u64::MAX,
            },
        ensures
            final(stats).bytes == old(stats).bytes + n,
            final(stats).bpb == old(stats).bpb,
            final(stats).duration_micros == old(stats).duration_micros,
            match parsed {
                Ok(f) => {
                    &&& final(self).expect == Some(next_expected(f.seq))
                    &&& final(stats).ok == old(stats).ok + 1
                    &&& final(stats).bad == old(stats).bad
                    &&& final(stats).lost == old(stats).lost + gap_of(old(self).expect, f.seq)
                    &&& final(stats).total == old(stats).total + 1 + gap_of(old(self).expect, f.seq)
                },
                Err(_) => {
                    &&& final(self).expect == old(self).expect
                    &&& final(stats).ok == old(stats).ok
                    &&& final(stats).bad == old(stats).bad + 1
                    &&& final(stats).lost == old(stats).lost
                    &&& final(stats).total == old(stats).total + 1
                },
            },
    {
        stats.add_bytes(n);
        match parsed {
            Ok(f) => self.on_frame(stats, f.seq),
            Err(_) => stats.inc_bad(),
        }
    }
}

} // verus!
