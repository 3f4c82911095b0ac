//! Data-plane test frames: `@@ SEQ=<seq> LEN=<len> PAY=<hex> SUM=<hex2> ##`.
use vstd::prelude::*;

use vstd::arithmetic::div_mod::lemma_add_mod_noop;

use crate::text::{
    all_digits, all_ws, chars_of, dec, digit_val, hex2, is_digit, join_sp,
    lemma_dec, lemma_hex2, lemma_tokens_join, no_ws, parse_uint, parse_uint_span, push_dec,
    push_hex2, push_span, push_str, span_starts_with, span_text, spans_in, token_spans, tokens,
};

verus! {

/// A frame that passed validation.
#[derive(Debug, Clone)]
pub struct Frame {
    pub seq: u64,
    pub len: usize,
    pub pay_hex: String,
    pub sum: u8,
}

/// The four fields of a frame line.
#[derive(Debug, Clone, Copy, PartialEq, Eq, Structural)]
pub enum FrameField {
    Sequence,
    Length,
    Payload,
    Checksum,
}

/// Why a line is not a valid frame.
#[derive(Debug, Clone, Copy, PartialEq, Eq, Structural)]
pub enum FrameError {
    /// A field is absent from the line.
    Missing(FrameField),
    /// A `SEQ`, `LEN` or `SUM` value is not a number of the right size.
    BadNumber(FrameField),
    /// `PAY` does not hold exactly two hex digits per `LEN` byte.
    LengthMismatch,
    /// The payload has an odd number of hex digits.
    OddHexLength,
    /// A payload byte is not a hex number.
    BadHex,
    /// The payload bytes do not add up to `SUM`.
    ChecksumMismatch { computed: u8, received: u8 },
}

// ---------------------------------------------------------------------------
// Model
// ---------------------------------------------------------------------------

/// Byte `i` of the payload of frame `seq`.
pub open spec fn payload_byte(seq: u64, i: int) -> u8 {
    ((i + seq) % 256) as u8
}

/// Hex text of the first `n` payload bytes of frame `seq`.
pub open spec fn payload_hex(seq: u64, n: nat) -> Seq<char>
    decreases n,
{
    if n == 0 {
        seq![]
    } else {
        payload_hex(seq, (n - 1) as nat) + hex2(payload_byte(seq, n - 1))
    }
}

/// Sum of the first `n` payload bytes of frame `seq`.
pub open spec fn payload_sum(seq: u64, n: nat) -> nat
    decreases n,
{
    if n == 0 {
        0
    } else {
        payload_sum(seq, (n - 1) as nat) + payload_byte(seq, n - 1) as nat
    }
}

/// The 8-bit wrapping checksum of a built frame.
pub open spec fn frame_sum(seq: u64, n: nat) -> u8 {
    (payload_sum(seq, n) % 256) as u8
}

/// A frame line with the given field texts.
pub open spec fn frame_text(seq: u64, len: usize, pay: Seq<char>, sum: u8) -> Seq<char> {
    "@@ SEQ="@ + dec(seq as nat) + " LEN="@ + dec(len as nat) + " PAY="@ + pay + " SUM="@ + hex2(
        sum,
    ) + " ##"@
}

/// The line that `build_frame(seq, len)` produces.
pub open spec fn frame_line(seq: u64, len: usize) -> Seq<char> {
    frame_text(seq, len, payload_hex(seq, len as nat), frame_sum(seq, len as nat))
}

/// The byte that exactly two hex digits (either case, no sign) spell.
pub open spec fn hex_byte(s: Seq<char>) -> Option<nat> {
    if s.len() == 2 && is_digit(s[0], 16) && is_digit(s[1], 16) {
        Some((16 * digit_val(s[0]) + digit_val(s[1])) as nat)
    } else {
        None
    }
}

/// Sum of the bytes of the hex pairs of `h`, if every pair is two hex digits.
pub open spec fn pairs_sum(h: Seq<char>) -> Option<nat>
    decreases h.len(),
{
    if h.len() < 2 {
        Some(0)
    } else {
        match (pairs_sum(h.take(h.len() - 2)), hex_byte(h.skip(h.len() - 2))) {
            (Some(a), Some(b)) => Some(a + b),
            _ => None,
        }
    }
}

/// The checksum of a hex payload, or why there is none.
pub open spec fn hexsum_of(h: Seq<char>) -> Result<u8, FrameError> {
    if h.len() % 2 != 0 {
        Err(FrameError::OddHexLength)
    } else {
        match pairs_sum(h) {
            Some(t) => Ok((t % 256) as u8),
            None => Err(FrameError::BadHex),
        }
    }
}

/// Fields seen so far while scanning a line: `SEQ`, `LEN`, `PAY`, `SUM`.
pub type Seen = (Option<u64>, Option<usize>, Option<Seq<char>>, Option<u8>);

/// The effect of one token on the fields seen so far.
pub open spec fn scan_token(st: Seen, tok: Seq<char>) -> Result<Seen, FrameError> {
    if tok.len() >= 4 && tok.take(4) == "SEQ="@ {
        match parse_uint(tok.skip(4), 10, u64::MAX as nat) {
            Some(n) => Ok((Some(n as u64), st.1, st.2, st.3)),
            None => Err(FrameError::BadNumber(FrameField::Sequence)),
        }
    } else if tok.len() >= 4 && tok.take(4) == "LEN="@ {
        match parse_uint(tok.skip(4), 10, usize::MAX as nat) {
            Some(n) => Ok((st.0, Some(n as usize), st.2, st.3)),
            None => Err(FrameError::BadNumber(FrameField::Length)),
        }
    } else if tok.len() >= 4 && tok.take(4) == "PAY="@ {
        Ok((st.0, st.1, Some(tok.skip(4)), st.3))
    } else if tok.len() >= 4 && tok.take(4) == "SUM="@ {
        match hex_byte(tok.skip(4)) {
            Some(n) => Ok((st.0, st.1, st.2, Some(n as u8))),
            None => Err(FrameError::BadNumber(FrameField::Checksum)),
        }
    } else {
        Ok(st)
    }
}

/// Scans the tokens in order; the first bad number ends the scan.
pub open spec fn scan_tokens(toks: Seq<Seq<char>>) -> Result<Seen, FrameError>
    decreases toks.len(),
{
    if toks.len() == 0 {
        Ok((None, None, None, None))
    } else {
        match scan_tokens(toks.drop_last()) {
            Ok(st) => scan_token(st, toks.last()),
            Err(e) => Err(e),
        }
    }
}

/// What `parse_frame` makes of a line: `(seq, len, payload hex, checksum)`.
pub open spec fn parse_frame_spec(line: Seq<char>) -> Result<
    (u64, usize, Seq<char>, u8),
    FrameError,
> {
    match scan_tokens(tokens(line)) {
        Err(e) => Err(e),
        Ok(st) => {
            if st.0 is None {
                Err(FrameError::Missing(FrameField::Sequence))
            } else if st.1 is None {
                Err(FrameError::Missing(FrameField::Length))
            } else if st.2 is None {
                Err(FrameError::Missing(FrameField::Payload))
            } else if st.3 is None {
                Err(FrameError::Missing(FrameField::Checksum))
            } else {
                let (seq, len, pay, sum) = (st.0->0, st.1->0, st.2->0, st.3->0);
                if pay.len() != 2 * len {
                    Err(FrameError::LengthMismatch)
                } else {
                    match hexsum_of(pay) {
                        Err(e) => Err(e),
                        Ok(calc) => if calc != sum {
                            Err(FrameError::ChecksumMismatch { computed: calc, received: sum })
                        } else {
                            Ok((seq, len, pay, sum))
                        },
                    }
                }
            }
        },
    }
}

// ---------------------------------------------------------------------------
// Laws
// ---------------------------------------------------------------------------

proof fn lemma_payload(seq: u64, n: nat)
    ensures
        payload_hex(seq, n).len() == 2 * n,
        no_ws(payload_hex(seq, n)),
        all_digits(payload_hex(seq, n), 16),
        pairs_sum(payload_hex(seq, n)) == Some(payload_sum(seq, n)),
    decreases n,
{
    if n > 0 {
        lemma_payload(seq, (n - 1) as nat);
        let p = payload_hex(seq, (n - 1) as nat);
        let b = payload_byte(seq, n - 1);
        let h = payload_hex(seq, n);
        lemma_hex_byte(b);
        assert(h == p + hex2(b));
        assert(h.take(h.len() - 2) =~= p);
        assert(h.skip(h.len() - 2) =~= hex2(b));
        assert forall|i: int| 0 <= i < h.len() implies !crate::text::is_ws(#[trigger] h[i])
            && is_digit(h[i], 16) by {
            if i < p.len() {
                assert(h[i] == p[i]);
            } else {
                assert(h[i] == hex2(b)[i - p.len()]);
            }
        }
    }
}

/// The tokens of a frame line.
pub open spec fn frame_words(seq: u64, len: usize, pay: Seq<char>, sum: u8) -> Seq<Seq<char>> {
    seq![
        "@@"@,
        "SEQ="@ + dec(seq as nat),
        "LEN="@ + dec(len as nat),
        "PAY="@ + pay,
        "SUM="@ + hex2(sum),
        "##"@,
    ]
}

#[verifier::rlimit(60)]
proof fn lemma_frame_tokens(seq: u64, len: usize, pay: Seq<char>, sum: u8)
    requires
        no_ws(pay),
    ensures
        tokens(frame_text(seq, len, pay, sum)) == frame_words(seq, len, pay, sum),
{
    reveal_strlit("@@ SEQ=");
    reveal_strlit(" LEN=");
    reveal_strlit(" PAY=");
    reveal_strlit(" SUM=");
    reveal_strlit(" ##");
    reveal_strlit("@@");
    reveal_strlit("SEQ=");
    reveal_strlit("LEN=");
    reveal_strlit("PAY=");
    reveal_strlit("SUM=");
    reveal_strlit("##");
    let ws = frame_words(seq, len, pay, sum);
    lemma_dec(seq as nat);
    lemma_dec(len as nat);
    lemma_hex_byte(sum);
    let w1 = seq![ws[0]];
    let w2 = w1.push(ws[1]);
    let w3 = w2.push(ws[2]);
    let w4 = w3.push(ws[3]);
    let w5 = w4.push(ws[4]);
    let w6 = w5.push(ws[5]);
    crate::text::lemma_join_push(w1, ws[1]);
    crate::text::lemma_join_push(w2, ws[2]);
    crate::text::lemma_join_push(w3, ws[3]);
    crate::text::lemma_join_push(w4, ws[4]);
    crate::text::lemma_join_push(w5, ws[5]);
    assert(w6 =~= ws);
    assert(join_sp(w1) == ws[0]);
    assert(frame_text(seq, len, pay, sum) =~= join_sp(ws) + Seq::<char>::empty());
    assert forall|i: int| 0 <= i < ws.len() implies #[trigger] ws[i].len() > 0 && no_ws(ws[i]) by {
        let w = ws[i];
        assert forall|j: int| 0 <= j < w.len() implies !crate::text::is_ws(#[trigger] w[j]) by {
            if i == 1 && j >= 4 {
                assert(w[j] == dec(seq as nat)[j - 4]);
            } else if i == 2 && j >= 4 {
                assert(w[j] == dec(len as nat)[j - 4]);
            } else if i == 3 && j >= 4 {
                assert(w[j] == pay[j - 4]);
            } else if i == 4 && j >= 4 {
                assert(w[j] == hex2(sum)[j - 4]);
            }
        }
    }
    assert(all_ws(Seq::<char>::empty()));
    lemma_tokens_join(ws, Seq::<char>::empty());
}

/// What `parse_frame` makes of a frame line whose payload text holds no whitespace.
proof fn lemma_parse_frame_text(seq: u64, len: usize, pay: Seq<char>, sum: u8)
    requires
        no_ws(pay),
    ensures
        parse_frame_spec(frame_text(seq, len, pay, sum)) == (if pay.len() != 2 * len {
            Err(FrameError::LengthMismatch)
        } else {
            match hexsum_of(pay) {
                Err(e) => Err(e),
                Ok(calc) => if calc != sum {
                    Err(FrameError::ChecksumMismatch { computed: calc, received: sum })
                } else {
                    Ok((seq, len, pay, sum))
                },
            }
        }),
{
    reveal_strlit("@@");
    reveal_strlit("SEQ=");
    reveal_strlit("LEN=");
    reveal_strlit("PAY=");
    reveal_strlit("SUM=");
    reveal_strlit("##");
    lemma_frame_tokens(seq, len, pay, sum);
    let ws = frame_words(seq, len, pay, sum);
    lemma_dec(seq as nat);
    lemma_dec(len as nat);
    lemma_hex_byte(sum);
    crate::text::lemma_parse_dec(seq as nat, u64::MAX as nat);
    crate::text::lemma_parse_dec(len as nat, usize::MAX as nat);
    assert(ws[1].take(4) =~= "SEQ="@ && ws[1].skip(4) =~= dec(seq as nat));
    assert(ws[2].take(4) =~= "LEN="@ && ws[2].skip(4) =~= dec(len as nat));
    assert(ws[3].take(4) =~= "PAY="@ && ws[3].skip(4) =~= pay);
    assert(ws[4].take(4) =~= "SUM="@ && ws[4].skip(4) =~= hex2(sum));
    assert(ws[2].take(4) != "SEQ="@) by {
        assert(ws[2].take(4)[0] != "SEQ="@[0]);
    }
    assert(ws[3].take(4) != "SEQ="@) by {
        assert(ws[3].take(4)[0] != "SEQ="@[0]);
    }
    assert(ws[3].take(4) != "LEN="@) by {
        assert(ws[3].take(4)[0] != "LEN="@[0]);
    }
    assert(ws[4].take(4) != "SEQ="@) by {
        assert(ws[4].take(4)[1] != "SEQ="@[1]);
    }
    assert(ws[4].take(4) != "LEN="@) by {
        assert(ws[4].take(4)[0] != "LEN="@[0]);
    }
    assert(ws[4].take(4) != "PAY="@) by {
        assert(ws[4].take(4)[0] != "PAY="@[0]);
    }
    let s0: Seen = (None, None, None, None);
    let s2: Seen = (Some(seq), None, None, None);
    let s3: Seen = (Some(seq), Some(len), None, None);
    let s4: Seen = (Some(seq), Some(len), Some(pay), None);
    let s5: Seen = (Some(seq), Some(len), Some(pay), Some(sum));
    assert(ws.take(0) =~= Seq::<Seq<char>>::empty());
    assert(ws.take(1).drop_last() =~= ws.take(0));
    assert(ws.take(2).drop_last() =~= ws.take(1));
    assert(ws.take(3).drop_last() =~= ws.take(2));
    assert(ws.take(4).drop_last() =~= ws.take(3));
    assert(ws.take(5).drop_last() =~= ws.take(4));
    assert(ws.drop_last() =~= ws.take(5));
    assert(ws.take(1).last() == ws[0]);
    assert(ws.take(2).last() == ws[1]);
    assert(ws.take(3).last() == ws[2]);
    assert(ws.take(4).last() == ws[3]);
    assert(ws.take(5).last() == ws[4]);
    assert(ws[0].len() == 2 && ws[5].len() == 2);
    assert(scan_tokens(ws.take(0)) == Ok::<Seen, FrameError>(s0));
    assert(scan_token(s0, ws[0]) == Ok::<Seen, FrameError>(s0));
    assert(scan_tokens(ws.take(1)) == Ok::<Seen, FrameError>(s0));
    assert(scan_tokens(ws.take(2)) == Ok::<Seen, FrameError>(s2));
    assert(scan_tokens(ws.take(3)) == Ok::<Seen, FrameError>(s3));
    assert(scan_tokens(ws.take(4)) == Ok::<Seen, FrameError>(s4));
    assert(scan_tokens(ws.take(5)) == Ok::<Seen, FrameError>(s5));
    assert(scan_tokens(ws) == Ok::<Seen, FrameError>(s5));
}

/// Parsing a built frame gives back its sequence number, length, payload and checksum.
pub proof fn lemma_frame_round_trip(seq: u64, len: usize)
    ensures
        parse_frame_spec(frame_line(seq, len)) == Ok::<
            (u64, usize, Seq<char>, u8),
            FrameError,
        >((seq, len, payload_hex(seq, len as nat), frame_sum(seq, len as nat))),
{
    lemma_payload(seq, len as nat);
    lemma_parse_frame_text(seq, len, payload_hex(seq, len as nat), frame_sum(seq, len as nat));
}

/// How much changing digit `j` of the hex text `h` to `d` changes the byte sum.
pub open spec fn flip_delta(h: Seq<char>, j: int, d: char) -> int {
    (digit_val(d) - digit_val(h[j])) * (if j % 2 == 0 {
        16int
    } else {
        1int
    })
}

proof fn lemma_pair_value(a: char, b: char)
    requires
        is_digit(a, 16),
        is_digit(b, 16),
    ensures
        hex_byte(seq![a, b]) == Some((16 * digit_val(a) + digit_val(b)) as nat),
{
}

/// The two digits that build a frame spell their byte back.
proof fn lemma_hex_byte(b: u8)
    ensures
        hex_byte(hex2(b)) == Some(b as nat),
        no_ws(hex2(b)),
        all_digits(hex2(b), 16),
{
    lemma_hex2(b);
    crate::text::lemma_digit_chars((b / 16) as int);
    crate::text::lemma_digit_chars((b % 16) as int);
    assert(b == 16 * (b / 16) + b % 16);
}

proof fn lemma_pairs_sum_update(seq: u64, n: nat, j: int, d: char)
    requires
        0 <= j < 2 * n,
        is_digit(d, 16),
    ensures
        pairs_sum(payload_hex(seq, n).update(j, d)) is Some,
        pairs_sum(payload_hex(seq, n).update(j, d))->0 == payload_sum(seq, n) + flip_delta(
            payload_hex(seq, n),
            j,
            d,
        ),
    decreases n,
{
    let p = payload_hex(seq, (n - 1) as nat);
    let b = payload_byte(seq, n - 1);
    let h = payload_hex(seq, n);
    let h2 = h.update(j, d);
    lemma_payload(seq, (n - 1) as nat);
    lemma_hex_byte(b);
    crate::text::lemma_digit_chars((b / 16) as int);
    crate::text::lemma_digit_chars((b % 16) as int);
    assert(h == p + hex2(b));
    assert(h2.len() == 2 * n);
    if j < 2 * n - 2 {
        lemma_pairs_sum_update(seq, (n - 1) as nat, j, d);
        assert(h2.take(h2.len() - 2) =~= p.update(j, d));
        assert(h2.skip(h2.len() - 2) =~= hex2(b));
        assert(h[j] == p[j]);
    } else {
        assert(h2.take(h2.len() - 2) =~= p);
        let k = j - (2 * n - 2);
        let q = hex2(b);
        if k == 0 {
            assert(h2.skip(h2.len() - 2) =~= seq![d, q[1]]);
            lemma_pair_value(d, q[1]);
            assert(h[j] == q[0]);
        } else {
            assert(h2.skip(h2.len() - 2) =~= seq![q[0], d]);
            lemma_pair_value(q[0], d);
            assert(h[j] == q[1]);
        }
        assert(b == 16 * (b / 16) + b % 16);
    }
}

/// Changing one hex digit of a built frame's payload to a digit of another value
/// makes the frame fail its checksum: with 8-bit sums a one-digit change moves
/// the sum by 1 to 15, or 16 to 240, never by a multiple of 256.
pub proof fn lemma_flip_detected(seq: u64, len: usize, j: int, d: char)
    requires
        0 <= j < 2 * len,
        is_digit(d, 16),
        digit_val(d) != digit_val(payload_hex(seq, len as nat)[j]),
    ensures
        parse_frame_spec(
            frame_text(
                seq,
                len,
                payload_hex(seq, len as nat).update(j, d),
                frame_sum(seq, len as nat),
            ),
        ) is Err,
        parse_frame_spec(
            frame_text(
                seq,
                len,
                payload_hex(seq, len as nat).update(j, d),
                frame_sum(seq, len as nat),
            ),
        )->Err_0 is ChecksumMismatch,
{
    let h = payload_hex(seq, len as nat);
    let h2 = h.update(j, d);
    lemma_payload(seq, len as nat);
    lemma_pairs_sum_update(seq, len as nat, j, d);
    assert forall|i: int| 0 <= i < h2.len() implies !crate::text::is_ws(#[trigger] h2[i]) by {
        if i != j {
            assert(h2[i] == h[i]);
        }
    }
    lemma_parse_frame_text(seq, len, h2, frame_sum(seq, len as nat));
    let total = payload_sum(seq, len as nat);
    let delta = flip_delta(h, j, d);
    assert(is_digit(h[j], 16));
    let t = pairs_sum(h2)->0;
    assert(t == total + delta);
    assert(delta != 0);
    assert(-240 <= delta <= 240);
    assert((t % 256) as u8 != (total % 256) as u8) by (nonlinear_arith)
        requires
            t == total + delta,
            delta != 0,
            -240 <= delta <= 240,
            total >= 0,
            t >= 0,
    ;
}

// ---------------------------------------------------------------------------
// Code
// ---------------------------------------------------------------------------

/// The byte that `v[lo..hi]` spells as exactly two hex digits.
fn hex_byte_span(v: &Vec<char>, lo: usize, hi: usize) -> (r: Option<u8>)
    requires
        lo <= hi <= v@.len(),
    ensures
        r == (match hex_byte(v@.subrange(lo as int, hi as int)) {
            Some(n) => Some(n as u8),
            None => None::<u8>,
        }),
{
    if hi - lo != 2 {
        return None;
    }
    let ghost s = v@.subrange(lo as int, hi as int);
    assert(s[0] == v@[lo as int] && s[1] == v@[lo + 1]);
    match (crate::text::digit_of(v[lo], 16), crate::text::digit_of(v[lo + 1], 16)) {
        (Some(a), Some(b)) => Some((16 * a + b) as u8),
        _ => None,
    }
}

#[verifier::rlimit(50)]
fn hexsum_span(v: &Vec<char>, lo: usize, hi: usize) -> (r: Result<u8, FrameError>)
    requires
        lo <= hi <= v@.len(),
    ensures
        r == hexsum_of(v@.subrange(lo as int, hi as int)),
{
    let ghost h = v@.subrange(lo as int, hi as int);
    if (hi - lo) % 2 != 0 {
        return Err(FrameError::OddHexLength);
    }
    let mut sum: u8 = 0;
    let mut i = lo;
    let ghost mut total: nat = 0;
    while i < hi
        invariant
            lo <= i <= hi <= v@.len(),
            (i - lo) % 2 == 0,
            (hi - lo) % 2 == 0,
            h == v@.subrange(lo as int, hi as int),
            pairs_sum(h.take(i - lo)) == Some(total),
            sum == total % 256,
        decreases hi - i,
    {
        let ghost t = h.take(i - lo + 2);
        proof {
            assert(t.len() == i - lo + 2);
            assert(t.take(t.len() - 2) =~= h.take(i - lo));
            assert(t.skip(t.len() - 2) =~= v@.subrange(i as int, i + 2));
        }
        match hex_byte_span(v, i, i + 2) {
            None => {
                proof {
                    lemma_pairs_sum_prefix(h, i - lo + 2);
                }
                return Err(FrameError::BadHex);
            },
            Some(b) => {
                proof {
                    assert(pairs_sum(t) == Some(total + b as nat));
                    lemma_add_mod_noop(total as int, b as int, 256);
                    total = total + b as nat;
                }
                sum = ((sum as u32 + b as u32) % 256) as u8;
                i = i + 2;
            },
        }
    }
    assert(h.take(hi - lo) =~= h);
    Ok(sum)
}

/// Once the scan of a prefix fails, the scan of the whole fails the same way.
proof fn lemma_scan_error_sticks(toks: Seq<Seq<char>>, k: int)
    requires
        0 <= k <= toks.len(),
        scan_tokens(toks.take(k)) is Err,
    ensures
        scan_tokens(toks) == scan_tokens(toks.take(k)),
    decreases toks.len() - k,
{
    if k < toks.len() {
        let t = toks.take(k + 1);
        assert(t.drop_last() =~= toks.take(k));
        lemma_scan_error_sticks(toks, k + 1);
    } else {
        assert(toks.take(k) =~= toks);
    }
}

/// A bad pair anywhere makes the whole sum fail.
proof fn lemma_pairs_sum_prefix(h: Seq<char>, k: int)
    requires
        0 <= k <= h.len(),
        k % 2 == 0,
        h.len() % 2 == 0,
        pairs_sum(h.take(k)) is None,
    ensures
        pairs_sum(h) is None,
    decreases h.len() - k,
{
    if k < h.len() {
        let t = h.take(k + 2);
        assert(t.take(t.len() - 2) =~= h.take(k));
        lemma_pairs_sum_prefix(h, k + 2);
    } else {
        assert(h.take(k) =~= h);
    }
}

/// 8-bit wrapping sum of the bytes that the hex text `payload_hex` spells.
pub fn hexsum(payload_hex: &str) -> (r: Result<u8, FrameError>)
    ensures
        r == hexsum_of(payload_hex@),
{
    let v = chars_of(payload_hex);
    let r = hexsum_span(&v, 0, v.len());
    assert(v@.subrange(0, v@.len() as int) =~= v@);
    r
}

/// Builds the frame line with sequence number `seq` and `len` payload bytes.
pub fn build_frame(seq: u64, len: usize) -> (r: String)
    ensures
        r@ == frame_line(seq, len),
{
    let mut pay = String::new();
    let mut sum: u8 = 0;
    let mut i: usize = 0;
    while i < len
        invariant
            i <= len,
            pay@ == payload_hex(seq, i as nat),
            sum == frame_sum(seq, i as nat),
        decreases len - i,
    {
        let b: u8 = (((i % 256) as u64 + seq % 256) % 256) as u8;
        proof {
            lemma_add_mod_noop(i as int, seq as int, 256);
            lemma_add_mod_noop(payload_sum(seq, i as nat) as int, b as int, 256);
        }
        push_hex2(&mut pay, b);
        sum = ((sum as u32 + b as u32) % 256) as u8;
        i = i + 1;
    }
    let mut out = String::new();
    push_str(&mut out, "@@ SEQ=");
    push_dec(&mut out, seq);
    push_str(&mut out, " LEN=");
    push_dec(&mut out, len as u64);
    push_str(&mut out, " PAY=");
    let pv = chars_of(pay.as_str());
    push_span(&mut out, &pv, 0, pv.len());
    push_str(&mut out, " SUM=");
    push_hex2(&mut out, sum);
    push_str(&mut out, " ##");
    assert(pv@.subrange(0, pv@.len() as int) =~= pv@);
    assert(out@ =~= frame_line(seq, len));
    out
}

/// Parses and validates a frame line; field order is free and other tokens are ignored.
pub fn parse_frame(line: &str) -> (r: Result<Frame, FrameError>)
    ensures
        match r {
            Ok(f) => parse_frame_spec(line@) == Ok::<(u64, usize, Seq<char>, u8), FrameError>(
                (f.seq, f.len, f.pay_hex@, f.sum),
            ),
            Err(e) => parse_frame_spec(line@) == Err::<(u64, usize, Seq<char>, u8), FrameError>(e),
        },
{
    proof {
        reveal_strlit("SEQ=");
        reveal_strlit("LEN=");
        reveal_strlit("PAY=");
        reveal_strlit("SUM=");
        assert("SEQ="@.len() == 4 && "LEN="@.len() == 4 && "PAY="@.len() == 4 && "SUM="@.len()
            == 4);
    }
    let v = chars_of(line);
    let spans = token_spans(&v);
    let ghost toks = tokens(v@);
    let mut seq: Option<u64> = None;
    let mut len: Option<usize> = None;
    let mut pay: Option<(usize, usize)> = None;
    let mut sum: Option<u8> = None;
    let mut k: usize = 0;
    assert(toks.take(0) =~= Seq::<Seq<char>>::empty());
    while k < spans.len()
        invariant
            k <= spans@.len(),
            spans_in(v@, spans@),
            span_text(v@, spans@) == toks,
            toks == tokens(v@),
            v@ == line@,
            match pay {
                Some(p) => p.0 <= p.1 <= v@.len(),
                None => true,
            },
            scan_tokens(toks.take(k as int)) == Ok::<Seen, FrameError>(
                (
                    seq,
                    len,
                    match pay {
                        Some(p) => Some(v@.subrange(p.0 as int, p.1 as int)),
                        None => None,
                    },
                    sum,
                ),
            ),
        decreases spans@.len() - k,
    {
        let (lo, hi) = spans[k];
        let ghost tok = toks[k as int];
        proof {
            reveal_strlit("SEQ=");
            reveal_strlit("LEN=");
            reveal_strlit("PAY=");
            reveal_strlit("SUM=");
            assert(tok == v@.subrange(lo as int, hi as int));
            assert(toks.take(k + 1).drop_last() =~= toks.take(k as int));
            assert(toks.take(k + 1).last() == tok);
            if tok.len() >= 4 {
                assert(tok.skip(4) =~= v@.subrange(lo + 4, hi as int));
                assert(tok.take(4) =~= v@.subrange(lo as int, lo + 4));
            }
        }
        if span_starts_with(&v, lo, hi, "SEQ=") {
            match parse_uint_span(&v, lo + 4, hi, 10, u64::MAX) {
                Some(n) => {
                    seq = Some(n);
                },
                None => {
                    proof {
                        lemma_scan_error_sticks(toks, k + 1);
                    }
                    return Err(FrameError::BadNumber(FrameField::Sequence));
                },
            }
        } else if span_starts_with(&v, lo, hi, "LEN=") {
            match parse_uint_span(&v, lo + 4, hi, 10, usize::MAX as u64) {
                Some(n) => {
                    len = Some(n as usize);
                },
                None => {
                    proof {
                        lemma_scan_error_sticks(toks, k + 1);
                    }
                    return Err(FrameError::BadNumber(FrameField::Length));
                },
            }
        } else if span_starts_with(&v, lo, hi, "PAY=") {
            pay = Some((lo + 4, hi));
        } else if span_starts_with(&v, lo, hi, "SUM=") {
            match hex_byte_span(&v, lo + 4, hi) {
                Some(n) => {
                    sum = Some(n as u8);
                },
                None => {
                    proof {
                        lemma_scan_error_sticks(toks, k + 1);
                    }
                    return Err(FrameError::BadNumber(FrameField::Checksum));
                },
            }
        }
        k = k + 1;
    }
    assert(toks.take(k as int) =~= toks);
    let seq = match seq {
        Some(s) => s,
        None => {
            return Err(FrameError::Missing(FrameField::Sequence));
        },
    };
    let len = match len {
        Some(l) => l,
        None => {
            return Err(FrameError::Missing(FrameField::Length));
        },
    };
    let (plo, phi) = match pay {
        Some(p) => p,
        None => {
            return Err(FrameError::Missing(FrameField::Payload));
        },
    };
    let sum = match sum {
        Some(s) => s,
        None => {
            return Err(FrameError::Missing(FrameField::Checksum));
        },
    };
    if len > usize::MAX / 2 || phi - plo != 2 * len {
        return Err(FrameError::LengthMismatch);
    }
    match hexsum_span(&v, plo, phi) {
        Err(e) => Err(e),
        Ok(calc) => {
            if calc != sum {
                Err(FrameError::ChecksumMismatch { computed: calc, received: sum })
            } else {
                let pay_hex = crate::text::string_of_span(&v, plo, phi);
                Ok(Frame { seq, len, pay_hex, sum })
            }
        },
    }
}

} // verus!
