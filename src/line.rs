//! Assembles CRLF-terminated lines from bytes read one at a time.
use vstd::prelude::*;

verus! {

/// Bytes received since the last complete line.
pub struct LineBuffer {
    pub pending: Vec<u8>,
}

/// `s` ends in CR LF.
pub open spec fn ends_crlf(s: Seq<u8>) -> bool {
    s.len() >= 2 && s[s.len() - 2] == 13 && s[s.len() - 1] == 10
}

impl LineBuffer {
    pub fn new() -> (b: Self)
        ensures
            b.pending@.len() == 0,
    {
        LineBuffer { pending: Vec::new() }
    }

    /// Takes one byte; when it completes a line, hands the line back without
    /// its CR LF and starts afresh.
    pub fn push(&mut self, byte: u8) -> (r: Option<Vec<u8>>)
        ensures
            ({
                let all = old(self).pending@.push(byte);
                if ends_crlf(all) {
                    r is Some && r->0@ == all.take(all.len() - 2) && final(self).pending@.len() == 0
                } else {
                    r is None && final(self).pending@ == all
                }
            }),
    {
        self.pending.push(byte);
        let n = self.pending.len();
        if n >= 2 && self.pending[n - 2] == 13 && self.pending[n - 1] == 10 {
            let mut line = Vec::new();
            let mut i: usize = 0;
            while i < n - 2
                invariant
                    n == self.pending@.len(),
                    n >= 2,
                    i <= n - 2,
                    line@ == self.pending@.take(i as int),
                decreases n - 2 - i,
            {
                line.push(self.pending[i]);
                i = i + 1;
                assert(line@ =~= self.pending@.take(i as int));
            }
            self.pending = Vec::new();
            Some(line)
        } else {
            None
        }
    }
}

} // verus!
