//! Character-level building blocks shared by the two line codecs: whitespace
//! tokenizing, decimal and hexadecimal numbers, and string assembly.
use vstd::prelude::*;

verus! {

// ---------------------------------------------------------------------------
// Whitespace and tokens
// ---------------------------------------------------------------------------

/// The Unicode `White_Space` characters, as `char::is_whitespace` classifies them.
pub open spec fn is_ws(c: char) -> bool {
    let u = c as u32;
    u == 0x20 || (0x09 <= u && u <= 0x0d) || u == 0x85 || u == 0xa0 || u == 0x1680 || (0x2000
        <= u && u <= 0x200a) || u == 0x2028 || u == 0x2029 || u == 0x202f || u == 0x205f || u
        == 0x3000
}

/// No character of `s` is whitespace.
pub open spec fn no_ws(s: Seq<char>) -> bool {
    forall|i: int| 0 <= i < s.len() ==> !is_ws(#[trigger] s[i])
}

/// Every character of `s` is whitespace.
pub open spec fn all_ws(s: Seq<char>) -> bool {
    forall|i: int| 0 <= i < s.len() ==> is_ws(#[trigger] s[i])
}

/// Length of the run of non-whitespace characters that starts `s`.
pub open spec fn word_len(s: Seq<char>) -> nat
    decreases s.len(),
{
    if s.len() == 0 || is_ws(s[0]) {
        0
    } else {
        1 + word_len(s.drop_first())
    }
}

/// The maximal runs of non-whitespace characters of `s`, in order.
pub open spec fn tokens(s: Seq<char>) -> Seq<Seq<char>>
    decreases s.len(),
    via tokens_decreases
{
    if s.len() == 0 {
        seq![]
    } else if is_ws(s[0]) {
        tokens(s.drop_first())
    } else {
        let n = word_len(s);
        seq![s.take(n as int)] + tokens(s.skip(n as int))
    }
}

#[via_fn]
proof fn tokens_decreases(s: Seq<char>) {
    if s.len() != 0 && !is_ws(s[0]) {
        lemma_word_len_bounds(s);
    }
}

pub proof fn lemma_word_len_bounds(s: Seq<char>)
    ensures
        word_len(s) <= s.len(),
        s.len() > 0 && !is_ws(s[0]) ==> word_len(s) >= 1,
    decreases s.len(),
{
    if s.len() != 0 && !is_ws(s[0]) {
        lemma_word_len_bounds(s.drop_first());
    }
}

/// A run of `m` non-whitespace characters ended by whitespace or by the end of `t`.
pub proof fn lemma_word_len_exact(t: Seq<char>, m: nat)
    requires
        m <= t.len(),
        forall|k: int| 0 <= k < m ==> !is_ws(#[trigger] t[k]),
        m == t.len() || is_ws(t[m as int]),
    ensures
        word_len(t) == m,
    decreases m,
{
    if m > 0 {
        let r = t.drop_first();
        assert forall|k: int| 0 <= k < m - 1 implies !is_ws(#[trigger] r[k]) by {
            assert(r[k] == t[k + 1]);
        }
        if m < t.len() {
            assert(r[m - 1] == t[m as int]);
        }
        lemma_word_len_exact(r, (m - 1) as nat);
    }
}

pub proof fn lemma_tokens_all_ws(t: Seq<char>)
    requires
        all_ws(t),
    ensures
        tokens(t) == Seq::<Seq<char>>::empty(),
    decreases t.len(),
{
    if t.len() > 0 {
        let r = t.drop_first();
        assert forall|i: int| 0 <= i < r.len() implies is_ws(#[trigger] r[i]) by {
            assert(r[i] == t[i + 1]);
        }
        lemma_tokens_all_ws(r);
    }
}

/// The words of `ws`, separated by single spaces.
pub open spec fn join_sp(ws: Seq<Seq<char>>) -> Seq<char>
    decreases ws.len(),
{
    if ws.len() == 0 {
        seq![]
    } else if ws.len() == 1 {
        ws[0]
    } else {
        ws[0] + seq![' '] + join_sp(ws.drop_first())
    }
}

/// Each word is non-empty and holds no whitespace.
pub open spec fn plain_words(ws: Seq<Seq<char>>) -> bool {
    forall|i: int| 0 <= i < ws.len() ==> #[trigger] ws[i].len() > 0 && no_ws(ws[i])
}

pub proof fn lemma_join_push(ws: Seq<Seq<char>>, w: Seq<char>)
    requires
        ws.len() > 0,
    ensures
        join_sp(ws.push(w)) == join_sp(ws) + seq![' '] + w,
    decreases ws.len(),
{
    let p = ws.push(w);
    assert(p.len() == ws.len() + 1);
    assert(p[0] == ws[0]);
    if ws.len() == 1 {
        assert(p.drop_first() =~= seq![w]);
        assert(join_sp(seq![w]) == w);
        assert(join_sp(ws) == ws[0]);
    } else {
        assert(p.drop_first() =~= ws.drop_first().push(w));
        lemma_join_push(ws.drop_first(), w);
        assert(join_sp(ws) == ws[0] + seq![' '] + join_sp(ws.drop_first()));
        assert(join_sp(p) == p[0] + seq![' '] + join_sp(p.drop_first()));
        assert(join_sp(p) =~= join_sp(ws) + seq![' '] + w);
    }
}

/// Splitting a space-joined line back into tokens gives the words again.
pub proof fn lemma_tokens_join(ws: Seq<Seq<char>>, t: Seq<char>)
    requires
        plain_words(ws),
        all_ws(t),
    ensures
        tokens(join_sp(ws) + t) == ws,
    decreases ws.len(),
{
    if ws.len() == 0 {
        assert(join_sp(ws) + t =~= t);
        lemma_tokens_all_ws(t);
        assert(ws =~= Seq::<Seq<char>>::empty());
    } else {
        let w = ws[0];
        assert(w.len() > 0 && no_ws(w));
        let rest: Seq<char> = if ws.len() == 1 {
            t
        } else {
            seq![' '] + join_sp(ws.drop_first()) + t
        };
        let s = join_sp(ws) + t;
        assert(s =~= w + rest);
        assert(s[0] == w[0]);
        assert forall|k: int| 0 <= k < w.len() implies !is_ws(#[trigger] s[k]) by {
            assert(s[k] == w[k]);
        }
        if w.len() < s.len() {
            assert(s[w.len() as int] == rest[0]);
        }
        lemma_word_len_exact(s, w.len());
        assert(s.take(w.len() as int) =~= w);
        assert(s.skip(w.len() as int) =~= rest);
        assert(tokens(s) == seq![w] + tokens(rest));
        if ws.len() == 1 {
            lemma_tokens_all_ws(t);
            assert(ws =~= seq![w]);
            assert(seq![w] + tokens(rest) =~= seq![w]);
        } else {
            let ws2 = ws.drop_first();
            assert forall|i: int| 0 <= i < ws2.len() implies #[trigger] ws2[i].len() > 0 && no_ws(
                ws2[i],
            ) by {
                assert(ws2[i] == ws[i + 1]);
            }
            lemma_tokens_join(ws2, t);
            assert(rest.drop_first() =~= join_sp(ws2) + t);
            assert(rest[0] == ' ');
            assert(tokens(rest) == tokens(rest.drop_first()));
            assert(ws =~= seq![w] + ws2);
        }
    }
}

pub fn is_whitespace(c: char) -> (r: bool)
    ensures
        r == is_ws(c),
{
    let u = c as u32;
    u == 0x20 || (0x09 <= u && u <= 0x0d) || u == 0x85 || u == 0xa0 || u == 0x1680 || (0x2000
        <= u && u <= 0x200a) || u == 0x2028 || u == 0x2029 || u == 0x202f || u == 0x205f || u
        == 0x3000
}

/// The pieces of `s` that a list of index spans picks out.
pub open spec fn span_text(s: Seq<char>, spans: Seq<(usize, usize)>) -> Seq<Seq<char>> {
    Seq::new(spans.len(), |k: int| s.subrange(spans[k].0 as int, spans[k].1 as int))
}

pub open spec fn spans_in(s: Seq<char>, spans: Seq<(usize, usize)>) -> bool {
    forall|k: int| 0 <= k < spans.len() ==> #[trigger] spans[k].0 <= spans[k].1 <= s.len()
}

/// The tokens of `s`, as spans of indices into it.
pub fn token_spans(s: &Vec<char>) -> (r: Vec<(usize, usize)>)
    ensures
        spans_in(s@, r@),
        span_text(s@, r@) == tokens(s@),
{
    let n = s.len();
    let mut r: Vec<(usize, usize)> = Vec::new();
    let mut i: usize = 0;
    proof {
        assert(s@.skip(0) =~= s@);
        assert(span_text(s@, r@) =~= Seq::<Seq<char>>::empty());
        assert(span_text(s@, r@) + tokens(s@.skip(0)) =~= tokens(s@));
    }
    while i < n
        invariant
            n == s@.len(),
            i <= n,
            spans_in(s@, r@),
            span_text(s@, r@) + tokens(s@.skip(i as int)) == tokens(s@),
        decreases n - i,
    {
        let ghost rest = s@.skip(i as int);
        if is_whitespace(s[i]) {
            proof {
                assert(rest[0] == s@[i as int]);
                assert(rest.drop_first() =~= s@.skip(i + 1));
            }
            i = i + 1;
        } else {
            let start = i;
            while i < n && !is_whitespace(s[i])
                invariant
                    n == s@.len(),
                    start <= i <= n,
                    forall|k: int| start <= k < i ==> !is_ws(#[trigger] s@[k]),
                decreases n - i,
            {
                i = i + 1;
            }
            proof {
                assert(rest[0] == s@[start as int]);
                assert forall|k: int| 0 <= k < i - start implies !is_ws(#[trigger] rest[k]) by {
                    assert(rest[k] == s@[start + k]);
                }
                if i < n {
                    assert(rest[i - start] == s@[i as int]);
                }
                lemma_word_len_exact(rest, (i - start) as nat);
                assert(rest.take(i - start) =~= s@.subrange(start as int, i as int));
                assert(rest.skip(i - start) =~= s@.skip(i as int));
            }
            let ghost old_r = r@;
            r.push((start, i));
            proof {
                assert forall|k: int| 0 <= k < r@.len() implies #[trigger] r@[k].0 <= r@[k].1
                    <= s@.len() by {
                    if k < old_r.len() {
                        assert(r@[k] == old_r[k]);
                    }
                }
                assert(span_text(s@, r@) =~= span_text(s@, old_r).push(
                    s@.subrange(start as int, i as int),
                ));
                assert(span_text(s@, r@) + tokens(s@.skip(i as int)) =~= span_text(s@, old_r)
                    + tokens(rest));
            }
        }
    }
    proof {
        assert(s@.skip(n as int) =~= Seq::<char>::empty());
        assert(span_text(s@, r@) + tokens(s@.skip(i as int)) =~= span_text(s@, r@));
    }
    r
}

// ---------------------------------------------------------------------------
// Strings
// ---------------------------------------------------------------------------

/// Relies on `str::chars`: the characters of the string, in order.
#[verifier::external_body]
pub fn chars_of(s: &str) -> (r: Vec<char>)
    ensures
        r@ == s@,
{
    s.chars().collect()
}

/// Relies on `String::push`: appends one character at the end.
#[verifier::external_body]
pub fn push_char(s: &mut String, c: char)
    ensures
        final(s)@ == old(s)@.push(c),
{
    s.push(c)
}

/// Appends the characters `v[lo..hi]` to `out`.
pub fn push_span(out: &mut String, v: &Vec<char>, lo: usize, hi: usize)
    requires
        lo <= hi <= v@.len(),
    ensures
        final(out)@ == old(out)@ + v@.subrange(lo as int, hi as int),
{
    let mut i = lo;
    while i < hi
        invariant
            lo <= i <= hi <= v@.len(),
            out@ == old(out)@ + v@.subrange(lo as int, i as int),
        decreases hi - i,
    {
        push_char(out, v[i]);
        i = i + 1;
        assert(out@ =~= old(out)@ + v@.subrange(lo as int, i as int));
    }
}

/// Appends every character of `v` to `out`.
pub fn push_all(out: &mut String, v: &Vec<char>)
    ensures
        final(out)@ == old(out)@ + v@,
{
    push_span(out, v, 0, v.len());
    assert(v@.subrange(0, v@.len() as int) =~= v@);
}

/// Appends the characters of `s` to `out`.
pub fn push_str(out: &mut String, s: &str)
    ensures
        final(out)@ == old(out)@ + s@,
{
    let v = chars_of(s);
    push_all(out, &v);
}

/// A string holding the characters `v[lo..hi]`.
pub fn string_of_span(v: &Vec<char>, lo: usize, hi: usize) -> (r: String)
    requires
        lo <= hi <= v@.len(),
    ensures
        r@ == v@.subrange(lo as int, hi as int),
{
    let mut out = String::new();
    push_span(&mut out, v, lo, hi);
    assert(out@ =~= v@.subrange(lo as int, hi as int));
    out
}

/// Whether `v[lo..hi]` spells exactly `lit`.
pub fn span_is(v: &Vec<char>, lo: usize, hi: usize, lit: &str) -> (r: bool)
    requires
        lo <= hi <= v@.len(),
    ensures
        r == (v@.subrange(lo as int, hi as int) == lit@),
{
    let n = lit.unicode_len();
    if hi - lo != n {
        return false;
    }
    let mut i: usize = 0;
    while i < n
        invariant
            n == lit@.len(),
            hi - lo == n,
            lo <= hi <= v@.len(),
            i <= n,
            forall|k: int| 0 <= k < i ==> v@[lo + k] == lit@[k],
        decreases n - i,
    {
        if v[lo + i] != lit.get_char(i) {
            assert(v@.subrange(lo as int, hi as int)[i as int] != lit@[i as int]);
            return false;
        }
        i = i + 1;
    }
    assert(v@.subrange(lo as int, hi as int) =~= lit@);
    true
}

/// Whether `v[lo..hi]` begins with `lit`.
pub fn span_starts_with(v: &Vec<char>, lo: usize, hi: usize, lit: &str) -> (r: bool)
    requires
        lo <= hi <= v@.len(),
    ensures
        r == (lit@.len() <= hi - lo && v@.subrange(lo as int, lo + lit@.len()) == lit@),
{
    let n = lit.unicode_len();
    if hi - lo < n {
        return false;
    }
    span_is(v, lo, lo + n, lit)
}

// ---------------------------------------------------------------------------
// Numbers
// ---------------------------------------------------------------------------

/// Upper-case digits, most significant first.
pub open spec fn digit_chars() -> Seq<char> {
    seq!['0', '1', '2', '3', '4', '5', '6', '7', '8', '9', 'A', 'B', 'C', 'D', 'E', 'F']
}

/// Value of `c` as a digit in base `radix` (at most 16; letters in either case).
pub open spec fn digit_val(c: char) -> int {
    let u = c as u32;
    if 0x30 <= u && u <= 0x39 {
        u - 0x30
    } else if 0x41 <= u && u <= 0x46 {
        u - 0x41 + 10
    } else if 0x61 <= u && u <= 0x66 {
        u - 0x61 + 10
    } else {
        99
    }
}

pub open spec fn is_digit(c: char, radix: nat) -> bool {
    digit_val(c) < radix
}

pub open spec fn all_digits(s: Seq<char>, radix: nat) -> bool {
    forall|i: int| 0 <= i < s.len() ==> is_digit(#[trigger] s[i], radix)
}

/// Positional value of the digits of `s`.
pub open spec fn digits_val(s: Seq<char>, radix: nat) -> nat
    decreases s.len(),
{
    if s.len() == 0 {
        0
    } else {
        (digits_val(s.drop_last(), radix) * radix + digit_val(s.last())) as nat
    }
}

/// What `from_str_radix` makes of `s` for an unsigned type whose largest value
/// is `max`: an optional `+`, then one or more digits, with a value that fits.
pub open spec fn parse_uint(s: Seq<char>, radix: nat, max: nat) -> Option<nat> {
    let d = if s.len() > 0 && s[0] == '+' {
        s.drop_first()
    } else {
        s
    };
    if d.len() > 0 && all_digits(d, radix) && digits_val(d, radix) <= max {
        Some(digits_val(d, radix))
    } else {
        None
    }
}

/// Decimal digits of `n`, without leading zeros.
pub open spec fn dec(n: nat) -> Seq<char>
    decreases n,
{
    if n < 10 {
        seq![digit_chars()[n as int]]
    } else {
        dec(n / 10).push(digit_chars()[(n % 10) as int])
    }
}

/// Two upper-case hexadecimal digits of the byte `b`.
pub open spec fn hex2(b: u8) -> Seq<char> {
    seq![digit_chars()[(b / 16) as int], digit_chars()[(b % 16) as int]]
}

pub proof fn lemma_digit_chars(d: int)
    requires
        0 <= d < 16,
    ensures
        digit_val(digit_chars()[d]) == d,
        !is_ws(digit_chars()[d]),
        digit_chars()[d] != '+',
        digit_chars()[d] != '=',
{
}

pub proof fn lemma_digits_val_mono(s: Seq<char>, i: int, radix: nat)
    requires
        0 <= i <= s.len(),
        radix >= 1,
        all_digits(s, radix),
    ensures
        digits_val(s.take(i), radix) <= digits_val(s, radix),
    decreases s.len() - i,
{
    if i < s.len() {
        lemma_digits_val_mono(s, i + 1, radix);
        let t = s.take(i + 1);
        assert(t.drop_last() =~= s.take(i));
        assert(digits_val(t, radix) == digits_val(s.take(i), radix) * radix + digit_val(t.last()));
        assert(digit_val(t.last()) >= 0);
        assert(digits_val(s.take(i), radix) * radix >= digits_val(s.take(i), radix)) by (
        nonlinear_arith)
            requires
                radix >= 1,
        ;
    } else {
        assert(s.take(i) =~= s);
    }
}

pub proof fn lemma_dec(n: nat)
    ensures
        dec(n).len() > 0,
        all_digits(dec(n), 10),
        no_ws(dec(n)),
        digits_val(dec(n), 10) == n,
        dec(n)[0] != '+',
        forall|i: int| 0 <= i < dec(n).len() ==> #[trigger] dec(n)[i] != '=',
    decreases n,
{
    if n < 10 {
        lemma_digit_chars(n as int);
        let d = dec(n);
        assert(d.drop_last() =~= Seq::<char>::empty());
        assert(digits_val(Seq::<char>::empty(), 10) == 0);
    } else {
        lemma_dec(n / 10);
        lemma_digit_chars((n % 10) as int);
        let d = dec(n);
        assert(d == dec(n / 10).push(digit_chars()[(n % 10) as int]));
        assert(d.drop_last() =~= dec(n / 10));
        assert(digits_val(dec(n / 10), 10) == n / 10);
        assert(digit_val(digit_chars()[(n % 10) as int]) == n % 10);
        assert forall|i: int| 0 <= i < d.len() implies is_digit(#[trigger] d[i], 10) && !is_ws(
            d[i],
        ) && d[i] != '=' by {
            if i < d.len() - 1 {
                assert(d[i] == dec(n / 10)[i]);
            }
        }
        assert(d[0] == dec(n / 10)[0]);
        assert(d.last() == digit_chars()[(n % 10) as int]);
        assert(digits_val(d, 10) == digits_val(dec(n / 10), 10) * 10 + digit_val(d.last()));
        assert(n == (n / 10) * 10 + n % 10);
    }
}

/// Decimal digits round-trip through the number parser.
pub proof fn lemma_parse_dec(n: nat, max: nat)
    requires
        n <= max,
    ensures
        parse_uint(dec(n), 10, max) == Some(n),
{
    lemma_dec(n);
}

pub proof fn lemma_hex2(b: u8)
    ensures
        parse_uint(hex2(b), 16, 255) == Some(b as nat),
        no_ws(hex2(b)),
        all_digits(hex2(b), 16),
        digits_val(hex2(b), 16) == b,
        hex2(b)[0] != '=' && hex2(b)[1] != '=',
{
    lemma_digit_chars((b / 16) as int);
    lemma_digit_chars((b % 16) as int);
    let h = hex2(b);
    assert(h.drop_last() =~= seq![h[0]]);
    assert(seq![h[0]].drop_last() =~= Seq::<char>::empty());
    assert(seq![h[0]].last() == h[0]);
    assert(digits_val(Seq::<char>::empty(), 16) == 0);
    assert(digits_val(seq![h[0]], 16) == digit_val(h[0]));
    assert(h.last() == h[1]);
}

/// Digit value of `c` in base `radix`, if it is one.
pub fn digit_of(c: char, radix: u32) -> (r: Option<u32>)
    requires
        radix <= 16,
    ensures
        match r {
            Some(d) => is_digit(c, radix as nat) && d == digit_val(c),
            None => !is_digit(c, radix as nat),
        },
{
    let u = c as u32;
    let d: u32 = if 0x30 <= u && u <= 0x39 {
        u - 0x30
    } else if 0x41 <= u && u <= 0x46 {
        u - 0x41 + 10
    } else if 0x61 <= u && u <= 0x66 {
        u - 0x61 + 10
    } else {
        99
    };
    if d < radix {
        Some(d)
    } else {
        None
    }
}

/// Parses `v[lo..hi]` as an unsigned number in base `radix` that is at most `max`.
pub fn parse_uint_span(v: &Vec<char>, lo: usize, hi: usize, radix: u32, max: u64) -> (r: Option<
    u64,
>)
    requires
        lo <= hi <= v@.len(),
        2 <= radix <= 16,
    ensures
        r == (match parse_uint(v@.subrange(lo as int, hi as int), radix as nat, max as nat) {
            Some(n) => Some(n as u64),
            None => None::<u64>,
        }),
{
    let ghost s = v@.subrange(lo as int, hi as int);
    let mut i = lo;
    assert(s.len() > 0 ==> s[0] == v@[lo as int]);
    if i < hi && v[i] == '+' {
        i = i + 1;
    }
    let ghost d = v@.subrange(i as int, hi as int);
    proof {
        if s.len() > 0 && s[0] == '+' {
            assert(d =~= s.drop_first());
        } else {
            assert(d =~= s);
        }
    }
    if i == hi {
        assert(d.len() == 0);
        assert(parse_uint(s, radix as nat, max as nat) is None);
        return None;
    }
    let start = i;
    let mut acc: u128 = 0;
    while i < hi
        invariant
            lo <= start < hi <= v@.len(),
            start <= i <= hi,
            d == v@.subrange(start as int, hi as int),
            s == v@.subrange(lo as int, hi as int),
            d == (if s.len() > 0 && s[0] == '+' {
                s.drop_first()
            } else {
                s
            }),
            acc == digits_val(d.take(i - start), radix as nat),
            acc <= max,
            all_digits(d.take(i - start), radix as nat),
            2 <= radix <= 16,
        decreases hi - i,
    {
        let c = v[i];
        let dg = digit_of(c, radix);
        match dg {
            None => {
                assert(d[i - start] == c);
                assert(!is_digit(d[i - start], radix as nat));
                assert(!all_digits(d, radix as nat));
                return None;
            },
            Some(x) => {
                let ghost t = d.take(i - start + 1);
                proof {
                    assert(t.drop_last() =~= d.take(i - start));
                    assert(t.last() == c);
                    assert(acc * radix + x <= max * 16 + 15) by (nonlinear_arith)
                        requires
                            acc <= max,
                            radix <= 16,
                            x < 16,
                    ;
                }
                acc = acc * (radix as u128) + (x as u128);
                i = i + 1;
                proof {
                    assert(t == d.take(i - start));
                    assert(digits_val(t, radix as nat) == digits_val(t.drop_last(), radix as nat)
                        * radix + digit_val(t.last()));
                }
                if acc > max as u128 {
                    proof {
                        assert forall|k: int| 0 <= k < t.len() implies is_digit(
                            #[trigger] t[k],
                            radix as nat,
                        ) by {
                            if k < t.len() - 1 {
                                assert(t[k] == d.take(i - start - 1)[k]);
                            }
                        }
                        if all_digits(d, radix as nat) {
                            lemma_digits_val_mono(d, i - start, radix as nat);
                        }
                        assert(parse_uint(s, radix as nat, max as nat) is None);
                    }
                    return None;
                }
                proof {
                    assert forall|k: int| 0 <= k < t.len() implies is_digit(
                        #[trigger] t[k],
                        radix as nat,
                    ) by {
                        if k < t.len() - 1 {
                            assert(t[k] == d.take(i - start - 1)[k]);
                        }
                    }
                }
            },
        }
    }
    assert(d.take(hi - start) =~= d);
    Some(acc as u64)
}

/// The decimal digits of `n`.
pub fn dec_chars(n: u64) -> (r: Vec<char>)
    ensures
        r@ == dec(n as nat),
    decreases n,
{
    let digits = digit_table();
    if n < 10 {
        let mut v: Vec<char> = Vec::new();
        v.push(digits[n as usize]);
        v
    } else {
        let mut v = dec_chars(n / 10);
        v.push(digits[(n % 10) as usize]);
        v
    }
}

/// Appends the decimal digits of `n` to `out`.
pub fn push_dec(out: &mut String, n: u64)
    ensures
        final(out)@ == old(out)@ + dec(n as nat),
{
    let v = dec_chars(n);
    push_all(out, &v);
}

/// Appends the two upper-case hexadecimal digits of `b` to `out`.
pub fn push_hex2(out: &mut String, b: u8)
    ensures
        final(out)@ == old(out)@ + hex2(b),
{
    let digits = digit_table();
    push_char(out, digits[(b / 16) as usize]);
    push_char(out, digits[(b % 16) as usize]);
    assert(out@ =~= old(out)@ + hex2(b));
}

fn digit_table() -> (r: Vec<char>)
    ensures
        r@ == digit_chars(),
{
    let r = vec!['0', '1', '2', '3', '4', '5', '6', '7', '8', '9', 'A', 'B', 'C', 'D', 'E', 'F'];
    assert(r@ =~= digit_chars());
    r
}

// ---------------------------------------------------------------------------
// Comma lists
// ---------------------------------------------------------------------------

/// Index of the first `c` in `t`, or its length when there is none.
pub open spec fn pos_of(t: Seq<char>, c: char) -> nat
    decreases t.len(),
{
    if t.len() == 0 || t[0] == c {
        0
    } else {
        1 + pos_of(t.drop_first(), c)
    }
}

pub proof fn lemma_pos_of_bound(t: Seq<char>, c: char)
    ensures
        pos_of(t, c) <= t.len(),
    decreases t.len(),
{
    if t.len() > 0 && t[0] != c {
        lemma_pos_of_bound(t.drop_first(), c);
    }
}

pub proof fn lemma_pos_of_exact(t: Seq<char>, c: char, m: nat)
    requires
        m <= t.len(),
        forall|k: int| 0 <= k < m ==> #[trigger] t[k] != c,
        m == t.len() || t[m as int] == c,
    ensures
        pos_of(t, c) == m,
    decreases m,
{
    if m > 0 {
        let r = t.drop_first();
        assert forall|k: int| 0 <= k < m - 1 implies #[trigger] r[k] != c by {
            assert(r[k] == t[k + 1]);
        }
        if m < t.len() {
            assert(r[m - 1] == t[m as int]);
        }
        lemma_pos_of_exact(r, c, (m - 1) as nat);
    }
}

/// The pieces of `s` between commas, as `str::split(',')` yields them.
pub open spec fn split_commas(s: Seq<char>) -> Seq<Seq<char>>
    decreases s.len(),
    via split_commas_decreases
{
    let p = pos_of(s, ',');
    if p >= s.len() {
        seq![s]
    } else {
        seq![s.take(p as int)] + split_commas(s.skip(p as int + 1))
    }
}

#[via_fn]
proof fn split_commas_decreases(s: Seq<char>) {
    lemma_pos_of_bound(s, ',');
}

/// `s` without leading whitespace.
pub open spec fn trim_start(s: Seq<char>) -> Seq<char>
    decreases s.len(),
{
    if s.len() > 0 && is_ws(s[0]) {
        trim_start(s.drop_first())
    } else {
        s
    }
}

/// `s` without trailing whitespace.
pub open spec fn trim_end(s: Seq<char>) -> Seq<char>
    decreases s.len(),
{
    if s.len() > 0 && is_ws(s.last()) {
        trim_end(s.drop_last())
    } else {
        s
    }
}

/// `s` without surrounding whitespace, as `str::trim` gives it.
pub open spec fn trim(s: Seq<char>) -> Seq<char> {
    trim_end(trim_start(s))
}

/// The trimmed span of `v[lo..hi]`.
pub fn trim_span(v: &Vec<char>, lo: usize, hi: usize) -> (r: (usize, usize))
    requires
        lo <= hi <= v@.len(),
    ensures
        lo <= r.0 <= r.1 <= hi,
        v@.subrange(r.0 as int, r.1 as int) == trim(v@.subrange(lo as int, hi as int)),
{
    let mut a = lo;
    while a < hi && is_whitespace(v[a])
        invariant
            lo <= a <= hi <= v@.len(),
            trim_start(v@.subrange(lo as int, hi as int)) == trim_start(
                v@.subrange(a as int, hi as int),
            ),
        decreases hi - a,
    {
        assert(v@.subrange(a as int, hi as int).drop_first() =~= v@.subrange(a + 1, hi as int));
        a = a + 1;
    }
    proof {
        let t = v@.subrange(a as int, hi as int);
        if a < hi {
            assert(t[0] == v@[a as int]);
        }
        assert(trim_start(t) == t);
    }
    let mut b = hi;
    while b > a && is_whitespace(v[b - 1])
        invariant
            lo <= a <= b <= hi <= v@.len(),
            trim_end(v@.subrange(a as int, hi as int)) == trim_end(v@.subrange(a as int, b as int)),
        decreases b - a,
    {
        assert(v@.subrange(a as int, b as int).drop_last() =~= v@.subrange(a as int, b - 1));
        b = b - 1;
    }
    proof {
        let t = v@.subrange(a as int, b as int);
        if a < b {
            assert(t.last() == v@[b - 1]);
        }
        assert(trim_end(t) == t);
    }
    (a, b)
}

/// The comma-separated pieces of `v`, each trimmed, as spans.
pub fn comma_items(v: &Vec<char>) -> (r: Vec<(usize, usize)>)
    ensures
        spans_in(v@, r@),
        span_text(v@, r@) == split_commas(v@).map_values(|p: Seq<char>| trim(p)),
{
    let n = v.len();
    let mut r: Vec<(usize, usize)> = Vec::new();
    let mut start: usize = 0;
    assert(v@.skip(0) =~= v@);
    assert(span_text(v@, r@) =~= Seq::<Seq<char>>::empty());
    loop
        invariant
            n == v@.len(),
            start <= n,
            spans_in(v@, r@),
            span_text(v@, r@) + split_commas(v@.skip(start as int)).map_values(
                |p: Seq<char>| trim(p),
            ) == split_commas(v@).map_values(|p: Seq<char>| trim(p)),
        decreases n - start,
    {
        let ghost rest = v@.skip(start as int);
        let mut p = start;
        while p < n && v[p] != ','
            invariant
                start <= p <= n,
                n == v@.len(),
                forall|k: int| start <= k < p ==> #[trigger] v@[k] != ',',
            decreases n - p,
        {
            p = p + 1;
        }
        proof {
            assert forall|k: int| 0 <= k < p - start implies #[trigger] rest[k] != ',' by {
                assert(rest[k] == v@[start + k]);
            }
            if p < n {
                assert(rest[p - start] == v@[p as int]);
            }
            lemma_pos_of_exact(rest, ',', (p - start) as nat);
            assert(rest.take(p - start) =~= v@.subrange(start as int, p as int));
        }
        let item = trim_span(v, start, p);
        let ghost old_r = r@;
        r.push(item);
        proof {
            assert(span_text(v@, r@) =~= span_text(v@, old_r).push(
                trim(v@.subrange(start as int, p as int)),
            ));
        }
        if p == n {
            proof {
                assert(rest.take(p - start) =~= rest);
                assert(split_commas(rest) == seq![rest]);
                assert(split_commas(rest).map_values(|q: Seq<char>| trim(q)) =~= seq![
                    trim(rest),
                ]);
                assert(span_text(v@, r@) =~= span_text(v@, old_r) + split_commas(rest).map_values(
                    |q: Seq<char>| trim(q),
                ));
            }
            return r;
        }
        proof {
            assert(rest.skip(p - start + 1) =~= v@.skip(p + 1));
            let tail = split_commas(v@.skip(p + 1));
            assert(split_commas(rest) == seq![rest.take(p - start)] + tail);
            assert(split_commas(rest).map_values(|q: Seq<char>| trim(q)) =~= seq![
                trim(v@.subrange(start as int, p as int)),
            ] + tail.map_values(|q: Seq<char>| trim(q)));
            assert(span_text(v@, r@) + tail.map_values(|q: Seq<char>| trim(q)) =~= span_text(
                v@,
                old_r,
            ) + split_commas(rest).map_values(|q: Seq<char>| trim(q)));
        }
        start = p + 1;
    }
}

} // verus!
