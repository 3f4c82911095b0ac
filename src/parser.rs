//! The control-channel wire codec: one command per CRLF-terminated line,
//! `<TAG words> key=value ...`.
use vstd::prelude::*;

use crate::command::{
    CommandView, CtrlCommand, Direction, FlowControl, Parity, TestName, TestResultFlag,
};
use crate::text::{
    chars_of, dec, join_sp, lemma_join_push, no_ws, parse_uint, parse_uint_span, plain_words,
    push_all, push_char, push_str, span_is, span_text, spans_in, string_of_span, token_spans,
    tokens,
};

verus! {

/// Why a line is not a command.
#[derive(Debug, Clone)]
pub enum ParseError {
    Empty,
    MissingTag,
    BadPair(String),
    MissingField(&'static str),
    BadInt(&'static str, String),
    BadEnum(&'static str, String),
    UnknownTag(String),
    Semantic(&'static str),
}

pub enum ParseErrorView {
    Empty,
    MissingTag,
    BadPair(Seq<char>),
    MissingField(Seq<char>),
    BadInt(Seq<char>, Seq<char>),
    BadEnum(Seq<char>, Seq<char>),
    UnknownTag(Seq<char>),
    Semantic(Seq<char>),
}

impl View for ParseError {
    type V = ParseErrorView;

    open spec fn view(&self) -> ParseErrorView {
        match self {
            ParseError::Empty => ParseErrorView::Empty,
            ParseError::MissingTag => ParseErrorView::MissingTag,
            ParseError::BadPair(t) => ParseErrorView::BadPair(t@),
            ParseError::MissingField(k) => ParseErrorView::MissingField(k@),
            ParseError::BadInt(k, v) => ParseErrorView::BadInt(k@, v@),
            ParseError::BadEnum(k, v) => ParseErrorView::BadEnum(k@, v@),
            ParseError::UnknownTag(t) => ParseErrorView::UnknownTag(t@),
            ParseError::Semantic(m) => ParseErrorView::Semantic(m@),
        }
    }
}

pub type Decoded = Result<CommandView, ParseErrorView>;

pub open spec fn parsed_view(r: Result<CtrlCommand, ParseError>) -> Decoded {
    match r {
        Ok(c) => Ok(c@),
        Err(e) => Err(e@),
    }
}

// ---------------------------------------------------------------------------
// Enum tokens
// ---------------------------------------------------------------------------

pub open spec fn parity_str(p: Parity) -> Seq<char> {
    match p {
        Parity::Off => "none"@,
        Parity::Even => "even"@,
        Parity::Odd => "odd"@,
    }
}

pub open spec fn direction_str(d: Direction) -> Seq<char> {
    match d {
        Direction::Tx => "tx"@,
        Direction::Rx => "rx"@,
        Direction::Both => "both"@,
    }
}

pub open spec fn flow_str(f: FlowControl) -> Seq<char> {
    match f {
        FlowControl::Off => "none"@,
        FlowControl::RtsCts => "rtscts"@,
    }
}

pub open spec fn testname_str(t: TestName) -> Seq<char> {
    match t {
        TestName::MaxRate => "max-rate"@,
        TestName::FifoResidue => "fifo-residue"@,
    }
}

pub open spec fn resultflag_str(r: TestResultFlag) -> Seq<char> {
    match r {
        TestResultFlag::Pass => "pass"@,
        TestResultFlag::Fail => "fail"@,
    }
}

pub fn parity_to_str(p: Parity) -> (r: &'static str)
    ensures
        r@ == parity_str(p),
{
    match p {
        Parity::Off => "none",
        Parity::Even => "even",
        Parity::Odd => "odd",
    }
}

pub fn direction_to_str(d: Direction) -> (r: &'static str)
    ensures
        r@ == direction_str(d),
{
    match d {
        Direction::Tx => "tx",
        Direction::Rx => "rx",
        Direction::Both => "both",
    }
}

pub fn flow_to_str(f: FlowControl) -> (r: &'static str)
    ensures
        r@ == flow_str(f),
{
    match f {
        FlowControl::Off => "none",
        FlowControl::RtsCts => "rtscts",
    }
}

pub fn testname_to_str(t: TestName) -> (r: &'static str)
    ensures
        r@ == testname_str(t),
{
    match t {
        TestName::MaxRate => "max-rate",
        TestName::FifoResidue => "fifo-residue",
    }
}

pub fn resultflag_to_str(r: TestResultFlag) -> (s: &'static str)
    ensures
        s@ == resultflag_str(r),
{
    match r {
        TestResultFlag::Pass => "pass",
        TestResultFlag::Fail => "fail",
    }
}

/// `a` lower-cased as ASCII is `b`.
pub open spec fn lower_is(a: char, b: char) -> bool {
    if 0x41 <= a as u32 && a as u32 <= 0x5a {
        a as u32 + 32 == b as u32
    } else {
        a == b
    }
}

/// `v` lower-cased as ASCII is `lit`.
pub open spec fn lower_eq(v: Seq<char>, lit: Seq<char>) -> bool {
    v.len() == lit.len() && forall|i: int| 0 <= i < v.len() ==> lower_is(#[trigger] v[i], lit[i])
}

pub open spec fn parity_of(v: Seq<char>) -> Option<Parity> {
    if lower_eq(v, "none"@) {
        Some(Parity::Off)
    } else if lower_eq(v, "even"@) {
        Some(Parity::Even)
    } else if lower_eq(v, "odd"@) {
        Some(Parity::Odd)
    } else {
        None
    }
}

pub open spec fn direction_of(v: Seq<char>) -> Option<Direction> {
    if lower_eq(v, "tx"@) {
        Some(Direction::Tx)
    } else if lower_eq(v, "rx"@) {
        Some(Direction::Rx)
    } else if lower_eq(v, "both"@) {
        Some(Direction::Both)
    } else {
        None
    }
}

pub open spec fn flow_of(v: Seq<char>) -> Option<FlowControl> {
    if lower_eq(v, "none"@) {
        Some(FlowControl::Off)
    } else if lower_eq(v, "rtscts"@) {
        Some(FlowControl::RtsCts)
    } else {
        None
    }
}

pub open spec fn testname_of(v: Seq<char>) -> Option<TestName> {
    if lower_eq(v, "max-rate"@) {
        Some(TestName::MaxRate)
    } else if lower_eq(v, "fifo-residue"@) {
        Some(TestName::FifoResidue)
    } else {
        None
    }
}

pub open spec fn resultflag_of(v: Seq<char>) -> Option<TestResultFlag> {
    if lower_eq(v, "pass"@) {
        Some(TestResultFlag::Pass)
    } else if lower_eq(v, "fail"@) {
        Some(TestResultFlag::Fail)
    } else {
        None
    }
}

/// Whether `v[lo..hi]`, lower-cased as ASCII, is `lit`.
pub fn span_lower_is(v: &Vec<char>, lo: usize, hi: usize, lit: &str) -> (r: bool)
    requires
        lo <= hi <= v@.len(),
    ensures
        r == lower_eq(v@.subrange(lo as int, hi as int), lit@),
{
    let n = lit.unicode_len();
    if hi - lo != n {
        return false;
    }
    let mut i: usize = 0;
    while i < n
        invariant
            n == lit@.len(),
            hi - lo == n,
            lo <= hi <= v@.len(),
            i <= n,
            forall|k: int| 0 <= k < i ==> lower_is(#[trigger] v@[lo + k], lit@[k]),
        decreases n - i,
    {
        let a = v[lo + i];
        let b = lit.get_char(i);
        let ok = if 0x41 <= a as u32 && a as u32 <= 0x5a {
            a as u32 + 32 == b as u32
        } else {
            a == b
        };
        if !ok {
            assert(!lower_is(v@.subrange(lo as int, hi as int)[i as int], lit@[i as int]));
            return false;
        }
        i = i + 1;
    }
    assert forall|k: int| 0 <= k < n implies lower_is(
        #[trigger] v@.subrange(lo as int, hi as int)[k],
        lit@[k],
    ) by {
        assert(v@.subrange(lo as int, hi as int)[k] == v@[lo + k]);
    }
    true
}

fn parity_from_span(v: &Vec<char>, lo: usize, hi: usize) -> (r: Option<Parity>)
    requires
        lo <= hi <= v@.len(),
    ensures
        r == parity_of(v@.subrange(lo as int, hi as int)),
{
    if span_lower_is(v, lo, hi, "none") {
        Some(Parity::Off)
    } else if span_lower_is(v, lo, hi, "even") {
        Some(Parity::Even)
    } else if span_lower_is(v, lo, hi, "odd") {
        Some(Parity::Odd)
    } else {
        None
    }
}

fn direction_from_span(v: &Vec<char>, lo: usize, hi: usize) -> (r: Option<Direction>)
    requires
        lo <= hi <= v@.len(),
    ensures
        r == direction_of(v@.subrange(lo as int, hi as int)),
{
    if span_lower_is(v, lo, hi, "tx") {
        Some(Direction::Tx)
    } else if span_lower_is(v, lo, hi, "rx") {
        Some(Direction::Rx)
    } else if span_lower_is(v, lo, hi, "both") {
        Some(Direction::Both)
    } else {
        None
    }
}

fn flow_from_span(v: &Vec<char>, lo: usize, hi: usize) -> (r: Option<FlowControl>)
    requires
        lo <= hi <= v@.len(),
    ensures
        r == flow_of(v@.subrange(lo as int, hi as int)),
{
    if span_lower_is(v, lo, hi, "none") {
        Some(FlowControl::Off)
    } else if span_lower_is(v, lo, hi, "rtscts") {
        Some(FlowControl::RtsCts)
    } else {
        None
    }
}

fn testname_from_span(v: &Vec<char>, lo: usize, hi: usize) -> (r: Option<TestName>)
    requires
        lo <= hi <= v@.len(),
    ensures
        r == testname_of(v@.subrange(lo as int, hi as int)),
{
    if span_lower_is(v, lo, hi, "max-rate") {
        Some(TestName::MaxRate)
    } else if span_lower_is(v, lo, hi, "fifo-residue") {
        Some(TestName::FifoResidue)
    } else {
        None
    }
}

fn resultflag_from_span(v: &Vec<char>, lo: usize, hi: usize) -> (r: Option<TestResultFlag>)
    requires
        lo <= hi <= v@.len(),
    ensures
        r == resultflag_of(v@.subrange(lo as int, hi as int)),
{
    if span_lower_is(v, lo, hi, "pass") {
        Some(TestResultFlag::Pass)
    } else if span_lower_is(v, lo, hi, "fail") {
        Some(TestResultFlag::Fail)
    } else {
        None
    }
}

impl core::str::FromStr for Parity {
    type Err = ();

    fn from_str(s: &str) -> Result<Self, ()> {
        let v = chars_of(s);
        match parity_from_span(&v, 0, v.len()) {
            Some(p) => Ok(p),
            None => Err(()),
        }
    }
}

impl core::str::FromStr for Direction {
    type Err = ();

    fn from_str(s: &str) -> Result<Self, ()> {
        let v = chars_of(s);
        match direction_from_span(&v, 0, v.len()) {
            Some(d) => Ok(d),
            None => Err(()),
        }
    }
}

impl core::str::FromStr for FlowControl {
    type Err = ();

    fn from_str(s: &str) -> Result<Self, ()> {
        let v = chars_of(s);
        match flow_from_span(&v, 0, v.len()) {
            Some(f) => Ok(f),
            None => Err(()),
        }
    }
}

impl core::str::FromStr for TestName {
    type Err = ();

    fn from_str(s: &str) -> Result<Self, ()> {
        let v = chars_of(s);
        match testname_from_span(&v, 0, v.len()) {
            Some(t) => Ok(t),
            None => Err(()),
        }
    }
}

impl core::str::FromStr for TestResultFlag {
    type Err = ();

    fn from_str(s: &str) -> Result<Self, ()> {
        let v = chars_of(s);
        match resultflag_from_span(&v, 0, v.len()) {
            Some(r) => Ok(r),
            None => Err(()),
        }
    }
}

// ---------------------------------------------------------------------------
// Reason escaping
// ---------------------------------------------------------------------------

pub open spec fn escape_char(c: char) -> Seq<char> {
    if c == ' ' {
        seq!['_']
    } else if c == '\r' {
        seq!['\\', 'r']
    } else if c == '\n' {
        seq!['\\', 'n']
    } else {
        seq![c]
    }
}

/// Spaces become `_`, CR and LF become the two-character sequences `\r` and `\n`.
pub open spec fn escape(s: Seq<char>) -> Seq<char>
    decreases s.len(),
{
    if s.len() == 0 {
        seq![]
    } else {
        escape(s.drop_last()) + escape_char(s.last())
    }
}

/// Replaces, left to right, each non-overlapping `a b` by `to`.
pub open spec fn replace_pair(s: Seq<char>, a: char, b: char, to: char) -> Seq<char>
    decreases s.len(),
{
    if s.len() < 2 {
        s
    } else if s[0] == a && s[1] == b {
        seq![to] + replace_pair(s.skip(2), a, b, to)
    } else {
        seq![s[0]] + replace_pair(s.drop_first(), a, b, to)
    }
}

/// Replaces each `a` by `to`.
pub open spec fn replace_one(s: Seq<char>, a: char, to: char) -> Seq<char> {
    s.map_values(|c: char| if c == a { to } else { c })
}

/// `\r` and `\n` sequences become CR and LF, then `_` becomes a space.
pub open spec fn unescape(s: Seq<char>) -> Seq<char> {
    replace_one(replace_pair(replace_pair(s, '\\', 'r', '\r'), '\\', 'n', '\n'), '_', ' ')
}

/// Makes a failure reason fit in one whitespace-free token.
pub fn escape_reason(s: &str) -> (r: String)
    ensures
        r@ == escape(s@),
{
    let v = chars_of(s);
    let mut out = String::new();
    let mut i: usize = 0;
    while i < v.len()
        invariant
            i <= v@.len(),
            out@ == escape(v@.take(i as int)),
        decreases v@.len() - i,
    {
        let c = v[i];
        if c == ' ' {
            push_char(&mut out, '_');
        } else if c == '\r' {
            push_char(&mut out, '\\');
            push_char(&mut out, 'r');
        } else if c == '\n' {
            push_char(&mut out, '\\');
            push_char(&mut out, 'n');
        } else {
            push_char(&mut out, c);
        }
        proof {
            let t = v@.take(i + 1);
            assert(t.drop_last() =~= v@.take(i as int));
            assert(t.last() == c);
            assert(out@ =~= escape(t));
        }
        i = i + 1;
    }
    assert(v@.take(v@.len() as int) =~= v@);
    out
}

fn replace_pair_vec(s: &Vec<char>, a: char, b: char, to: char) -> (r: Vec<char>)
    ensures
        r@ == replace_pair(s@, a, b, to),
{
    let mut out: Vec<char> = Vec::new();
    let mut i: usize = 0;
    assert(s@.skip(0) =~= s@);
    while i < s.len()
        invariant
            i <= s@.len(),
            out@ + replace_pair(s@.skip(i as int), a, b, to) == replace_pair(s@, a, b, to),
        decreases s@.len() - i,
    {
        let ghost rest = s@.skip(i as int);
        if i + 1 < s.len() && s[i] == a && s[i + 1] == b {
            proof {
                assert(rest[0] == s@[i as int] && rest[1] == s@[i + 1]);
                assert(rest.skip(2) =~= s@.skip(i + 2));
                assert(out@.push(to) + replace_pair(s@.skip(i + 2), a, b, to) =~= out@
                    + replace_pair(rest, a, b, to));
            }
            out.push(to);
            i = i + 2;
        } else {
            proof {
                assert(rest[0] == s@[i as int]);
                if rest.len() >= 2 {
                    assert(rest[1] == s@[i + 1]);
                    assert(rest.drop_first() =~= s@.skip(i + 1));
                    assert(out@.push(s@[i as int]) + replace_pair(s@.skip(i + 1), a, b, to)
                        =~= out@ + replace_pair(rest, a, b, to));
                } else {
                    assert(s@.skip(i + 1) =~= Seq::<char>::empty());
                    assert(out@.push(s@[i as int]) + replace_pair(s@.skip(i + 1), a, b, to)
                        =~= out@ + replace_pair(rest, a, b, to));
                }
            }
            out.push(s[i]);
            i = i + 1;
        }
    }
    assert(s@.skip(i as int) =~= Seq::<char>::empty());
    assert(out@ + replace_pair(s@.skip(i as int), a, b, to) =~= out@);
    out
}

/// Undoes `escape_reason`; an underscore that the reason held comes back as a space.
pub fn unescape_reason(s: &str) -> (r: String)
    ensures
        r@ == unescape(s@),
{
    let v = chars_of(s);
    let v1 = replace_pair_vec(&v, '\\', 'r', '\r');
    let v2 = replace_pair_vec(&v1, '\\', 'n', '\n');
    let mut out = String::new();
    let mut i: usize = 0;
    while i < v2.len()
        invariant
            i <= v2@.len(),
            out@ == replace_one(v2@.take(i as int), '_', ' '),
        decreases v2@.len() - i,
    {
        let c = v2[i];
        if c == '_' {
            push_char(&mut out, ' ');
        } else {
            push_char(&mut out, c);
        }
        assert(out@ =~= replace_one(v2@.take(i + 1), '_', ' '));
        i = i + 1;
    }
    assert(v2@.take(v2@.len() as int) =~= v2@);
    out
}

// ---------------------------------------------------------------------------
// Encoding
// ---------------------------------------------------------------------------

/// The token `k=v`.
pub open spec fn kv(k: Seq<char>, v: Seq<char>) -> Seq<char> {
    k + seq!['='] + v
}

/// The `key=value` tokens of a list of pairs.
pub open spec fn kv_words(ps: Pairs) -> Seq<Seq<char>> {
    ps.map_values(|p: (Seq<char>, Seq<char>)| kv(p.0, p.1))
}

pub open spec fn opt_pair(k: Seq<char>, v: Option<u64>) -> Pairs {
    match v {
        Some(n) => seq![(k, dec(n as nat))],
        None => seq![],
    }
}

pub open spec fn config_pairs(
    id: Seq<char>,
    baud: u32,
    parity: Parity,
    bits: u8,
    flow: FlowControl,
) -> Pairs {
    seq![
        ("id"@, id),
        ("baud"@, dec(baud as nat)),
        ("parity"@, parity_str(parity)),
        ("bits"@, dec(bits as nat)),
        ("flow"@, flow_str(flow)),
    ]
}

pub open spec fn begin_pairs(
    id: Seq<char>,
    name: TestName,
    frames: Option<u64>,
    duration_ms: Option<u64>,
    payload: usize,
    dir: Direction,
) -> Pairs {
    seq![("id"@, id), ("name"@, testname_str(name))] + opt_pair("frames"@, frames) + opt_pair(
        "duration_ms"@,
        duration_ms,
    ) + seq![("payload"@, dec(payload as nat)), ("dir"@, direction_str(dir))]
}

pub open spec fn done_ack_pairs(
    id: Seq<char>,
    ok: u64,
    bad: u64,
    lost: u64,
    total: u64,
    duration_micros: u64,
    bytes: u64,
) -> Pairs {
    seq![
        ("id"@, id),
        ("ok"@, dec(ok as nat)),
        ("bad"@, dec(bad as nat)),
        ("lost"@, dec(lost as nat)),
        ("total"@, dec(total as nat)),
        ("duration_micros"@, dec(duration_micros as nat)),
        ("bytes"@, dec(bytes as nat)),
    ]
}

/// An empty reason is left out.
pub open spec fn reason_pairs(reason: Option<Seq<char>>) -> Pairs {
    match reason {
        Some(r) => if r.len() > 0 {
            seq![("reason"@, escape(r))]
        } else {
            seq![]
        },
        None => seq![],
    }
}

pub open spec fn result_pairs(
    id: Seq<char>,
    result: TestResultFlag,
    rx_frames: u64,
    rx_bytes: u64,
    bad_crc: u64,
    seq_gaps: u64,
    overruns: u64,
    errors: u32,
    rate_bps: u64,
    reason: Option<Seq<char>>,
) -> Pairs {
    seq![
        ("id"@, id),
        ("result"@, resultflag_str(result)),
        ("rx_frames"@, dec(rx_frames as nat)),
        ("rx_bytes"@, dec(rx_bytes as nat)),
        ("bad_crc"@, dec(bad_crc as nat)),
        ("seq_gaps"@, dec(seq_gaps as nat)),
        ("overruns"@, dec(overruns as nat)),
        ("errors"@, dec(errors as nat)),
        ("rate_bps"@, dec(rate_bps as nat)),
    ] + reason_pairs(reason)
}

/// The words of the tag that names the kind of `c`.
pub open spec fn tag_words(c: CommandView) -> Seq<Seq<char>> {
    match c {
        CommandView::Hello { .. } => seq!["HELLO"@],
        CommandView::Ack { .. } => seq!["ACK"@],
        CommandView::ConfigSet { .. } => seq!["CONFIG"@, "SET"@],
        CommandView::ConfigSetAck { .. } => seq!["CONFIG"@, "SET"@, "ACK"@],
        CommandView::TestBegin { .. } => seq!["TEST"@, "BEGIN"@],
        CommandView::TestBeginAck { .. } => seq!["TEST"@, "BEGIN"@, "ACK"@],
        CommandView::TestDone { .. } => seq!["TEST"@, "DONE"@],
        CommandView::TestDoneAck { .. } => seq!["TEST"@, "DONE"@, "ACK"@],
        CommandView::TestResult { .. } => seq!["TEST"@, "RESULT"@],
        CommandView::Terminate { .. } => seq!["TERMINATE"@],
        CommandView::TerminateAck { .. } => seq!["TERMINATE"@, "ACK"@],
    }
}

/// The fields of `c`, in the order in which they are written.
pub open spec fn command_pairs(c: CommandView) -> Pairs {
    match c {
        CommandView::Hello { id } => seq![("id"@, id)],
        CommandView::Ack { id } => seq![("id"@, id)],
        CommandView::ConfigSet { id, baud, parity, bits, flow } => config_pairs(
            id,
            baud,
            parity,
            bits,
            flow,
        ),
        CommandView::ConfigSetAck { id, baud, parity, bits, flow } => config_pairs(
            id,
            baud,
            parity,
            bits,
            flow,
        ),
        CommandView::TestBegin { id, name, frames, duration_ms, payload, dir } => begin_pairs(
            id,
            name,
            frames,
            duration_ms,
            payload,
            dir,
        ),
        CommandView::TestBeginAck { id, name, frames, duration_ms, payload, dir } => begin_pairs(
            id,
            name,
            frames,
            duration_ms,
            payload,
            dir,
        ),
        CommandView::TestDone { id } => seq![("id"@, id)],
        CommandView::TestDoneAck { id, ok, bad, lost, total, duration_micros, bytes } =>
            done_ack_pairs(id, ok, bad, lost, total, duration_micros, bytes),
        CommandView::TestResult {
            id,
            result,
            rx_frames,
            rx_bytes,
            bad_crc,
            seq_gaps,
            overruns,
            errors,
            rate_bps,
            reason,
        } => result_pairs(
            id,
            result,
            rx_frames,
            rx_bytes,
            bad_crc,
            seq_gaps,
            overruns,
            errors,
            rate_bps,
            reason,
        ),
        CommandView::Terminate { id } => seq![("id"@, id)],
        CommandView::TerminateAck { id } => seq![("id"@, id)],
    }
}

/// The tokens of the line that encodes `c`: tag words, then `key=value` tokens.
pub open spec fn command_words(c: CommandView) -> Seq<Seq<char>> {
    tag_words(c) + kv_words(command_pairs(c))
}

/// The line that encodes `c`: its tokens separated by single spaces, then CRLF.
pub open spec fn encode(c: CommandView) -> Seq<char> {
    join_sp(command_words(c)) + "\r\n"@
}

/// A line under construction, with the tokens written so far.
struct LineWriter {
    out: String,
    words: Ghost<Seq<Seq<char>>>,
}

impl LineWriter {
    spec fn wf(&self) -> bool {
        self.words@.len() > 0 && self.out@ == join_sp(self.words@)
    }

    fn new(first: &str) -> (w: Self)
        ensures
            w.wf(),
            w.words@ == seq![first@],
    {
        let mut out = String::new();
        push_str(&mut out, first);
        assert(out@ =~= first@);
        let ghost words = seq![first@];
        LineWriter { out, words: Ghost(words) }
    }

    fn word(&mut self, w: &str)
        requires
            old(self).wf(),
        ensures
            final(self).wf(),
            final(self).words@ == old(self).words@.push(w@),
    {
        push_char(&mut self.out, ' ');
        push_str(&mut self.out, w);
        proof {
            lemma_join_push(self.words@, w@);
            assert(self.out@ =~= join_sp(self.words@) + seq![' '] + w@);
        }
        self.words = Ghost(self.words@.push(w@));
    }

    fn pair_chars(&mut self, k: &str, v: &Vec<char>)
        requires
            old(self).wf(),
        ensures
            final(self).wf(),
            final(self).words@ == old(self).words@.push(kv(k@, v@)),
    {
        push_char(&mut self.out, ' ');
        push_str(&mut self.out, k);
        push_char(&mut self.out, '=');
        push_all(&mut self.out, v);
        proof {
            lemma_join_push(self.words@, kv(k@, v@));
            assert(self.out@ =~= join_sp(self.words@) + seq![' '] + kv(k@, v@));
        }
        self.words = Ghost(self.words@.push(kv(k@, v@)));
    }

    fn pair_str(&mut self, k: &str, v: &str)
        requires
            old(self).wf(),
        ensures
            final(self).wf(),
            final(self).words@ == old(self).words@.push(kv(k@, v@)),
    {
        let vv = chars_of(v);
        self.pair_chars(k, &vv);
    }

    fn pair_num(&mut self, k: &str, n: u64)
        requires
            old(self).wf(),
        ensures
            final(self).wf(),
            final(self).words@ == old(self).words@.push(kv(k@, dec(n as nat))),
    {
        let vv = crate::text::dec_chars(n);
        self.pair_chars(k, &vv);
    }

    fn finish(self) -> (r: String)
        requires
            self.wf(),
        ensures
            r@ == join_sp(self.words@) + "\r\n"@,
    {
        let mut out = self.out;
        push_str(&mut out, "\r\n");
        out
    }
}

fn write_config(
    w: &mut LineWriter,
    id: &String,
    baud: u32,
    parity: Parity,
    bits: u8,
    flow: FlowControl,
)
    requires
        old(w).wf(),
    ensures
        final(w).wf(),
        final(w).words@ == old(w).words@ + kv_words(config_pairs(id@, baud, parity, bits, flow)),
{
    w.pair_str("id", id.as_str());
    w.pair_num("baud", baud as u64);
    w.pair_str("parity", parity_to_str(parity));
    w.pair_num("bits", bits as u64);
    w.pair_str("flow", flow_to_str(flow));
    assert(w.words@ =~= old(w).words@ + kv_words(config_pairs(id@, baud, parity, bits, flow)));
}

fn write_begin(
    w: &mut LineWriter,
    id: &String,
    name: TestName,
    frames: Option<u64>,
    duration_ms: Option<u64>,
    payload: usize,
    dir: Direction,
)
    requires
        old(w).wf(),
    ensures
        final(w).wf(),
        final(w).words@ == old(w).words@ + kv_words(
            begin_pairs(id@, name, frames, duration_ms, payload, dir),
        ),
{
    w.pair_str("id", id.as_str());
    w.pair_str("name", testname_to_str(name));
    let ghost w1 = w.words@;
    if let Some(m) = frames {
        w.pair_num("frames", m);
    }
    assert(w.words@ =~= w1 + kv_words(opt_pair("frames"@, frames)));
    let ghost w2 = w.words@;
    if let Some(t) = duration_ms {
        w.pair_num("duration_ms", t);
    }
    assert(w.words@ =~= w2 + kv_words(opt_pair("duration_ms"@, duration_ms)));
    w.pair_num("payload", payload as u64);
    w.pair_str("dir", direction_to_str(dir));
    assert(w.words@ =~= old(w).words@ + kv_words(
        begin_pairs(id@, name, frames, duration_ms, payload, dir),
    ));
}

/// Serializes a command to one CRLF-terminated line.
pub fn format_command(cmd: &CtrlCommand) -> (r: String)
    ensures
        r@ == encode(cmd@),
{
    match cmd {
        CtrlCommand::Hello { id } => {
            let mut w = LineWriter::new("HELLO");
            w.pair_str("id", id.as_str());
            assert(w.words@ =~= command_words(cmd@));
            w.finish()
        },
        CtrlCommand::Ack { id } => {
            let mut w = LineWriter::new("ACK");
            w.pair_str("id", id.as_str());
            assert(w.words@ =~= command_words(cmd@));
            w.finish()
        },
        CtrlCommand::ConfigSet { id, baud, parity, bits, flow } => {
            let mut w = LineWriter::new("CONFIG");
            w.word("SET");
            write_config(&mut w, id, *baud, *parity, *bits, *flow);
            assert(w.words@ =~= command_words(cmd@));
            w.finish()
        },
        CtrlCommand::ConfigSetAck { id, baud, parity, bits, flow } => {
            let mut w = LineWriter::new("CONFIG");
            w.word("SET");
            w.word("ACK");
            write_config(&mut w, id, *baud, *parity, *bits, *flow);
            assert(w.words@ =~= command_words(cmd@));
            w.finish()
        },
        CtrlCommand::TestBegin { id, name, frames, duration_ms, payload, dir } => {
            let mut w = LineWriter::new("TEST");
            w.word("BEGIN");
            write_begin(&mut w, id, *name, *frames, *duration_ms, *payload, *dir);
            assert(w.words@ =~= command_words(cmd@));
            w.finish()
        },
        CtrlCommand::TestBeginAck { id, name, frames, duration_ms, payload, dir } => {
            let mut w = LineWriter::new("TEST");
            w.word("BEGIN");
            w.word("ACK");
            write_begin(&mut w, id, *name, *frames, *duration_ms, *payload, *dir);
            assert(w.words@ =~= command_words(cmd@));
            w.finish()
        },
        CtrlCommand::TestDone { id } => {
            let mut w = LineWriter::new("TEST");
            w.word("DONE");
            w.pair_str("id", id.as_str());
            assert(w.words@ =~= command_words(cmd@));
            w.finish()
        },
        CtrlCommand::TestDoneAck { id, ok, bad, lost, total, duration_micros, bytes } => {
            let mut w = LineWriter::new("TEST");
            w.word("DONE");
            w.word("ACK");
            w.pair_str("id", id.as_str());
            w.pair_num("ok", *ok);
            w.pair_num("bad", *bad);
            w.pair_num("lost", *lost);
            w.pair_num("total", *total);
            w.pair_num("duration_micros", *duration_micros);
            w.pair_num("bytes", *bytes);
            assert(w.words@ =~= command_words(cmd@));
            w.finish()
        },
        CtrlCommand::TestResult {
            id,
            result,
            rx_frames,
            rx_bytes,
            bad_crc,
            seq_gaps,
            overruns,
            errors,
            rate_bps,
            reason,
        } => {
            let mut w = LineWriter::new("TEST");
            w.word("RESULT");
            w.pair_str("id", id.as_str());
            w.pair_str("result", resultflag_to_str(*result));
            w.pair_num("rx_frames", *rx_frames);
            w.pair_num("rx_bytes", *rx_bytes);
            w.pair_num("bad_crc", *bad_crc);
            w.pair_num("seq_gaps", *seq_gaps);
            w.pair_num("overruns", *overruns);
            w.pair_num("errors", *errors as u64);
            w.pair_num("rate_bps", *rate_bps);
            let ghost w1 = w.words@;
            if let Some(r) = reason {
                let rv = chars_of(r.as_str());
                if rv.len() > 0 {
                    let e = escape_reason(r.as_str());
                    w.pair_str("reason", e.as_str());
                }
            }
            assert(w.words@ =~= w1 + kv_words(reason_pairs(opt_view_ref(reason))));
            assert(w.words@ =~= command_words(cmd@));
            w.finish()
        },
        CtrlCommand::Terminate { id } => {
            let mut w = LineWriter::new("TERMINATE");
            w.pair_str("id", id.as_str());
            assert(w.words@ =~= command_words(cmd@));
            w.finish()
        },
        CtrlCommand::TerminateAck { id } => {
            let mut w = LineWriter::new("TERMINATE");
            w.word("ACK");
            w.pair_str("id", id.as_str());
            assert(w.words@ =~= command_words(cmd@));
            w.finish()
        },
    }
}

spec fn opt_view_ref(s: &Option<String>) -> Option<Seq<char>> {
    crate::command::opt_view(*s)
}

// ---------------------------------------------------------------------------
// Decoding
// ---------------------------------------------------------------------------

/// Only whitespace: nothing is left once the line is trimmed.
pub open spec fn blank(s: Seq<char>) -> bool {
    forall|i: int| 0 <= i < s.len() ==> crate::text::is_ws(#[trigger] s[i])
}

/// Index of the first `=` of `t`, or its length when there is none.
pub open spec fn eq_pos(t: Seq<char>) -> nat
    decreases t.len(),
{
    if t.len() == 0 || t[0] == '=' {
        0
    } else {
        1 + eq_pos(t.drop_first())
    }
}

pub open spec fn has_eq(t: Seq<char>) -> bool {
    eq_pos(t) < t.len()
}

/// Index of the first token that holds `=`; the tokens before it form the tag.
pub open spec fn first_kv(toks: Seq<Seq<char>>) -> nat
    decreases toks.len(),
{
    if toks.len() == 0 || has_eq(toks[0]) {
        0
    } else {
        1 + first_kv(toks.drop_first())
    }
}

pub type Pairs = Seq<(Seq<char>, Seq<char>)>;

/// Splits each token at its first `=`; the first token without one is an error.
pub open spec fn split_pairs(toks: Seq<Seq<char>>) -> Result<Pairs, ParseErrorView>
    decreases toks.len(),
{
    if toks.len() == 0 {
        Ok(seq![])
    } else {
        match split_pairs(toks.drop_last()) {
            Err(e) => Err(e),
            Ok(ps) => {
                let t = toks.last();
                if has_eq(t) {
                    Ok(ps.push((t.take(eq_pos(t) as int), t.skip(eq_pos(t) as int + 1))))
                } else {
                    Err(ParseErrorView::BadPair(t))
                }
            },
        }
    }
}

/// The value of the last pair with key `k`: a repeated key overwrites.
pub open spec fn lookup(ps: Pairs, k: Seq<char>) -> Option<Seq<char>>
    decreases ps.len(),
{
    if ps.len() == 0 {
        None
    } else if ps.last().0 == k {
        Some(ps.last().1)
    } else {
        lookup(ps.drop_last(), k)
    }
}

pub open spec fn get_str(ps: Pairs, k: Seq<char>) -> Result<Seq<char>, ParseErrorView> {
    match lookup(ps, k) {
        Some(v) => Ok(v),
        None => Err(ParseErrorView::MissingField(k)),
    }
}

pub open spec fn get_num(ps: Pairs, k: Seq<char>, max: nat) -> Result<nat, ParseErrorView> {
    match lookup(ps, k) {
        Some(v) => match parse_uint(v, 10, max) {
            Some(n) => Ok(n),
            None => Err(ParseErrorView::BadInt(k, v)),
        },
        None => Err(ParseErrorView::MissingField(k)),
    }
}

pub open spec fn get_opt_num(ps: Pairs, k: Seq<char>, max: nat) -> Result<
    Option<nat>,
    ParseErrorView,
> {
    match lookup(ps, k) {
        Some(v) => match parse_uint(v, 10, max) {
            Some(n) => Ok(Some(n)),
            None => Err(ParseErrorView::BadInt(k, v)),
        },
        None => Ok(None),
    }
}

pub open spec fn get_enum<T>(ps: Pairs, k: Seq<char>, of: spec_fn(Seq<char>) -> Option<T>) -> Result<
    T,
    ParseErrorView,
> {
    match lookup(ps, k) {
        Some(v) => match of(v) {
            Some(x) => Ok(x),
            None => Err(ParseErrorView::BadEnum(k, v)),
        },
        None => Err(ParseErrorView::MissingField(k)),
    }
}

pub open spec fn u64_max() -> nat {
    u64::MAX as nat
}

pub open spec fn decode_id_only(ps: Pairs, tag: Seq<char>) -> Decoded {
    match get_str(ps, "id"@) {
        Err(e) => Err(e),
        Ok(id) => if tag == "HELLO"@ {
            Ok(CommandView::Hello { id })
        } else if tag == "ACK"@ {
            Ok(CommandView::Ack { id })
        } else if tag == "TEST DONE"@ {
            Ok(CommandView::TestDone { id })
        } else if tag == "TERMINATE"@ {
            Ok(CommandView::Terminate { id })
        } else {
            Ok(CommandView::TerminateAck { id })
        },
    }
}

pub open spec fn decode_config(ps: Pairs, ack: bool) -> Decoded {
    let id = get_str(ps, "id"@);
    let baud = get_num(ps, "baud"@, u32::MAX as nat);
    let parity = get_enum(ps, "parity"@, |v: Seq<char>| parity_of(v));
    let bits = get_num(ps, "bits"@, u8::MAX as nat);
    let flow = get_enum(ps, "flow"@, |v: Seq<char>| flow_of(v));
    if id is Err {
        Err(id->Err_0)
    } else if baud is Err {
        Err(baud->Err_0)
    } else if parity is Err {
        Err(parity->Err_0)
    } else if bits is Err {
        Err(bits->Err_0)
    } else if flow is Err {
        Err(flow->Err_0)
    } else if ack {
        Ok(
            CommandView::ConfigSetAck {
                id: id->Ok_0,
                baud: baud->Ok_0 as u32,
                parity: parity->Ok_0,
                bits: bits->Ok_0 as u8,
                flow: flow->Ok_0,
            },
        )
    } else {
        Ok(
            CommandView::ConfigSet {
                id: id->Ok_0,
                baud: baud->Ok_0 as u32,
                parity: parity->Ok_0,
                bits: bits->Ok_0 as u8,
                flow: flow->Ok_0,
            },
        )
    }
}

pub open spec fn as_opt_u64(n: Option<nat>) -> Option<u64> {
    match n {
        Some(x) => Some(x as u64),
        None => None,
    }
}

/// A test announcement; one that is not an acknowledgment needs a frame count or a duration.
pub open spec fn decode_begin(ps: Pairs, ack: bool) -> Decoded {
    let frames = get_opt_num(ps, "frames"@, u64_max());
    let duration_ms = get_opt_num(ps, "duration_ms"@, u64_max());
    let id = get_str(ps, "id"@);
    let name = get_enum(ps, "name"@, |v: Seq<char>| testname_of(v));
    let payload = get_num(ps, "payload"@, usize::MAX as nat);
    let dir = get_enum(ps, "dir"@, |v: Seq<char>| direction_of(v));
    if frames is Err {
        Err(frames->Err_0)
    } else if duration_ms is Err {
        Err(duration_ms->Err_0)
    } else if !ack && frames->Ok_0 is None && duration_ms->Ok_0 is None {
        Err(ParseErrorView::Semantic("TEST BEGIN requires frames or duration_ms"@))
    } else if id is Err {
        Err(id->Err_0)
    } else if name is Err {
        Err(name->Err_0)
    } else if payload is Err {
        Err(payload->Err_0)
    } else if dir is Err {
        Err(dir->Err_0)
    } else if ack {
        Ok(
            CommandView::TestBeginAck {
                id: id->Ok_0,
                name: name->Ok_0,
                frames: as_opt_u64(frames->Ok_0),
                duration_ms: as_opt_u64(duration_ms->Ok_0),
                payload: payload->Ok_0 as usize,
                dir: dir->Ok_0,
            },
        )
    } else {
        Ok(
            CommandView::TestBegin {
                id: id->Ok_0,
                name: name->Ok_0,
                frames: as_opt_u64(frames->Ok_0),
                duration_ms: as_opt_u64(duration_ms->Ok_0),
                payload: payload->Ok_0 as usize,
                dir: dir->Ok_0,
            },
        )
    }
}

pub open spec fn decode_done_ack(ps: Pairs) -> Decoded {
    let id = get_str(ps, "id"@);
    let ok = get_num(ps, "ok"@, u64_max());
    let bad = get_num(ps, "bad"@, u64_max());
    let lost = get_num(ps, "lost"@, u64_max());
    let total = get_num(ps, "total"@, u64_max());
    let duration_micros = get_num(ps, "duration_micros"@, u64_max());
    let bytes = get_num(ps, "bytes"@, u64_max());
    if id is Err {
        Err(id->Err_0)
    } else if ok is Err {
        Err(ok->Err_0)
    } else if bad is Err {
        Err(bad->Err_0)
    } else if lost is Err {
        Err(lost->Err_0)
    } else if total is Err {
        Err(total->Err_0)
    } else if duration_micros is Err {
        Err(duration_micros->Err_0)
    } else if bytes is Err {
        Err(bytes->Err_0)
    } else {
        Ok(
            CommandView::TestDoneAck {
                id: id->Ok_0,
                ok: ok->Ok_0 as u64,
                bad: bad->Ok_0 as u64,
                lost: lost->Ok_0 as u64,
                total: total->Ok_0 as u64,
                duration_micros: duration_micros->Ok_0 as u64,
                bytes: bytes->Ok_0 as u64,
            },
        )
    }
}

/// An escaped reason, read back; an empty one counts as absent.
pub open spec fn reason_of(ps: Pairs) -> Option<Seq<char>> {
    match lookup(ps, "reason"@) {
        Some(v) => if unescape(v).len() > 0 {
            Some(unescape(v))
        } else {
            None
        },
        None => None,
    }
}

pub open spec fn decode_result(ps: Pairs) -> Decoded {
    let id = get_str(ps, "id"@);
    let result = get_enum(ps, "result"@, |v: Seq<char>| resultflag_of(v));
    let rx_frames = get_num(ps, "rx_frames"@, u64_max());
    let rx_bytes = get_num(ps, "rx_bytes"@, u64_max());
    let bad_crc = get_num(ps, "bad_crc"@, u64_max());
    let seq_gaps = get_num(ps, "seq_gaps"@, u64_max());
    let overruns = get_num(ps, "overruns"@, u64_max());
    let errors = get_num(ps, "errors"@, u32::MAX as nat);
    let rate_bps = get_num(ps, "rate_bps"@, u64_max());
    if id is Err {
        Err(id->Err_0)
    } else if result is Err {
        Err(result->Err_0)
    } else if rx_frames is Err {
        Err(rx_frames->Err_0)
    } else if rx_bytes is Err {
        Err(rx_bytes->Err_0)
    } else if bad_crc is Err {
        Err(bad_crc->Err_0)
    } else if seq_gaps is Err {
        Err(seq_gaps->Err_0)
    } else if overruns is Err {
        Err(overruns->Err_0)
    } else if errors is Err {
        Err(errors->Err_0)
    } else if rate_bps is Err {
        Err(rate_bps->Err_0)
    } else {
        Ok(
            CommandView::TestResult {
                id: id->Ok_0,
                result: result->Ok_0,
                rx_frames: rx_frames->Ok_0 as u64,
                rx_bytes: rx_bytes->Ok_0 as u64,
                bad_crc: bad_crc->Ok_0 as u64,
                seq_gaps: seq_gaps->Ok_0 as u64,
                overruns: overruns->Ok_0 as u64,
                errors: errors->Ok_0 as u32,
                rate_bps: rate_bps->Ok_0 as u64,
                reason: reason_of(ps),
            },
        )
    }
}

/// The command named by `tag`, with fields from `ps`.
pub open spec fn decode_tagged(tag: Seq<char>, ps: Pairs) -> Decoded {
    if tag == "HELLO"@ || tag == "ACK"@ || tag == "TEST DONE"@ || tag == "TERMINATE"@ || tag
        == "TERMINATE ACK"@ {
        decode_id_only(ps, tag)
    } else if tag == "CONFIG SET"@ {
        decode_config(ps, false)
    } else if tag == "CONFIG SET ACK"@ {
        decode_config(ps, true)
    } else if tag == "TEST BEGIN"@ {
        decode_begin(ps, false)
    } else if tag == "TEST BEGIN ACK"@ {
        decode_begin(ps, true)
    } else if tag == "TEST DONE ACK"@ {
        decode_done_ack(ps)
    } else if tag == "TEST RESULT"@ {
        decode_result(ps)
    } else {
        Err(ParseErrorView::UnknownTag(tag))
    }
}

pub open spec fn decode_tokens(toks: Seq<Seq<char>>) -> Decoded {
    if toks.len() == 0 {
        Err(ParseErrorView::MissingTag)
    } else {
        let k = first_kv(toks) as int;
        match split_pairs(toks.skip(k)) {
            Err(e) => Err(e),
            Ok(ps) => decode_tagged(join_sp(toks.take(k)), ps),
        }
    }
}

/// What `parse_command` makes of a line.
pub open spec fn decode(line: Seq<char>) -> Decoded {
    if blank(line) {
        Err(ParseErrorView::Empty)
    } else {
        decode_tokens(tokens(line))
    }
}

// ---------------------------------------------------------------------------
// Decoder
// ---------------------------------------------------------------------------

/// Key and value text of each `(key start, key end, value start, value end)` span.
pub open spec fn pairs_view(text: Seq<char>, pairs: Seq<(usize, usize, usize, usize)>) -> Pairs {
    Seq::new(
        pairs.len(),
        |i: int|
            (
                text.subrange(pairs[i].0 as int, pairs[i].1 as int),
                text.subrange(pairs[i].2 as int, pairs[i].3 as int),
            ),
    )
}

/// Every span lies within `text`.
pub open spec fn pairs_in(text: Seq<char>, pairs: Seq<(usize, usize, usize, usize)>) -> bool {
    forall|i: int|
        0 <= i < pairs.len() ==> #[trigger] pairs[i].0 <= pairs[i].1 <= text.len() && pairs[i].2
            <= pairs[i].3 <= text.len()
}

proof fn lemma_pairs_in_push(
    text: Seq<char>,
    pairs: Seq<(usize, usize, usize, usize)>,
    q: (usize, usize, usize, usize),
)
    requires
        pairs_in(text, pairs),
        q.0 <= q.1 <= text.len(),
        q.2 <= q.3 <= text.len(),
    ensures
        pairs_in(text, pairs.push(q)),
{
    assert forall|i: int| 0 <= i < pairs.len() + 1 implies #[trigger] pairs.push(q)[i].0
        <= pairs.push(q)[i].1 <= text.len() && pairs.push(q)[i].2 <= pairs.push(q)[i].3
        <= text.len() by {
        if i < pairs.len() {
            assert(pairs.push(q)[i] == pairs[i]);
        }
    }
}

/// The `key=value` pairs of a line, as index spans into its characters.
pub struct KeyValues {
    text: Vec<char>,
    pairs: Vec<(usize, usize, usize, usize)>,
}

impl View for KeyValues {
    type V = Pairs;

    closed spec fn view(&self) -> Pairs {
        pairs_view(self.text@, self.pairs@)
    }
}

impl KeyValues {
    pub closed spec fn wf(&self) -> bool {
        pairs_in(self.text@, self.pairs@)
    }

    /// The value span of the last pair with key `k`.
    fn find(&self, k: &str) -> (r: Option<(usize, usize)>)
        requires
            self.wf(),
        ensures
            match r {
                Some(p) => p.0 <= p.1 <= self.text@.len() && lookup(self@, k@) == Some(
                    self.text@.subrange(p.0 as int, p.1 as int),
                ),
                None => lookup(self@, k@) is None,
            },
    {
        let mut j = self.pairs.len();
        assert(self@.take(j as int) =~= self@);
        while j > 0
            invariant
                self.wf(),
                j <= self.pairs@.len(),
                lookup(self@, k@) == lookup(self@.take(j as int), k@),
            decreases j,
        {
            let (a, b, c, d) = self.pairs[j - 1];
            let ghost t = self@.take(j as int);
            assert(t.drop_last() =~= self@.take(j - 1));
            assert(t.last() == self@[j - 1]);
            if span_is(&self.text, a, b, k) {
                return Some((c, d));
            }
            j = j - 1;
        }
        None
    }
}

pub open spec fn res_view<T>(r: Result<T, ParseError>) -> Result<T, ParseErrorView> {
    match r {
        Ok(x) => Ok(x),
        Err(e) => Err(e@),
    }
}

pub open spec fn str_res_view(r: Result<String, ParseError>) -> Result<Seq<char>, ParseErrorView> {
    match r {
        Ok(x) => Ok(x@),
        Err(e) => Err(e@),
    }
}

pub fn req_s(map: &KeyValues, k: &'static str) -> (r: Result<String, ParseError>)
    requires
        map.wf(),
    ensures
        str_res_view(r) == get_str(map@, k@),
{
    match map.find(k) {
        Some((lo, hi)) => Ok(string_of_span(&map.text, lo, hi)),
        None => Err(ParseError::MissingField(k)),
    }
}

fn req_num(map: &KeyValues, k: &'static str, max: u64) -> (r: Result<u64, ParseError>)
    requires
        map.wf(),
    ensures
        match r {
            Ok(n) => get_num(map@, k@, max as nat) == Ok::<nat, ParseErrorView>(n as nat),
            Err(e) => get_num(map@, k@, max as nat) == Err::<nat, ParseErrorView>(e@),
        },
{
    match map.find(k) {
        Some((lo, hi)) => match parse_uint_span(&map.text, lo, hi, 10, max) {
            Some(n) => Ok(n),
            None => Err(ParseError::BadInt(k, string_of_span(&map.text, lo, hi))),
        },
        None => Err(ParseError::MissingField(k)),
    }
}

pub fn req_u8(map: &KeyValues, k: &'static str) -> (r: Result<u8, ParseError>)
    requires
        map.wf(),
    ensures
        match r {
            Ok(n) => get_num(map@, k@, u8::MAX as nat) == Ok::<nat, ParseErrorView>(n as nat),
            Err(e) => get_num(map@, k@, u8::MAX as nat) == Err::<nat, ParseErrorView>(e@),
        },
{
    match req_num(map, k, u8::MAX as u64) {
        Ok(n) => Ok(n as u8),
        Err(e) => Err(e),
    }
}

pub fn req_u32(map: &KeyValues, k: &'static str) -> (r: Result<u32, ParseError>)
    requires
        map.wf(),
    ensures
        match r {
            Ok(n) => get_num(map@, k@, u32::MAX as nat) == Ok::<nat, ParseErrorView>(n as nat),
            Err(e) => get_num(map@, k@, u32::MAX as nat) == Err::<nat, ParseErrorView>(e@),
        },
{
    match req_num(map, k, u32::MAX as u64) {
        Ok(n) => Ok(n as u32),
        Err(e) => Err(e),
    }
}

pub fn req_u64(map: &KeyValues, k: &'static str) -> (r: Result<u64, ParseError>)
    requires
        map.wf(),
    ensures
        match r {
            Ok(n) => get_num(map@, k@, u64_max()) == Ok::<nat, ParseErrorView>(n as nat),
            Err(e) => get_num(map@, k@, u64_max()) == Err::<nat, ParseErrorView>(e@),
        },
{
    req_num(map, k, u64::MAX)
}

pub fn req_usize(map: &KeyValues, k: &'static str) -> (r: Result<usize, ParseError>)
    requires
        map.wf(),
    ensures
        match r {
            Ok(n) => get_num(map@, k@, usize::MAX as nat) == Ok::<nat, ParseErrorView>(n as nat),
            Err(e) => get_num(map@, k@, usize::MAX as nat) == Err::<nat, ParseErrorView>(e@),
        },
{
    match req_num(map, k, usize::MAX as u64) {
        Ok(n) => Ok(n as usize),
        Err(e) => Err(e),
    }
}

pub fn opt_u64(map: &KeyValues, k: &'static str) -> (r: Result<Option<u64>, ParseError>)
    requires
        map.wf(),
    ensures
        match r {
            Ok(n) => get_opt_num(map@, k@, u64_max()) == Ok::<Option<nat>, ParseErrorView>(
                match n {
                    Some(x) => Some(x as nat),
                    None => None,
                },
            ),
            Err(e) => get_opt_num(map@, k@, u64_max()) == Err::<Option<nat>, ParseErrorView>(e@),
        },
{
    match map.find(k) {
        Some((lo, hi)) => match parse_uint_span(&map.text, lo, hi, 10, u64::MAX) {
            Some(n) => Ok(Some(n)),
            None => Err(ParseError::BadInt(k, string_of_span(&map.text, lo, hi))),
        },
        None => Ok(None),
    }
}

pub fn req_parity(map: &KeyValues, k: &'static str) -> (r: Result<Parity, ParseError>)
    requires
        map.wf(),
    ensures
        res_view(r) == get_enum(map@, k@, |v: Seq<char>| parity_of(v)),
{
    match map.find(k) {
        Some((lo, hi)) => match parity_from_span(&map.text, lo, hi) {
            Some(x) => Ok(x),
            None => Err(ParseError::BadEnum(k, string_of_span(&map.text, lo, hi))),
        },
        None => Err(ParseError::MissingField(k)),
    }
}

pub fn req_dir(map: &KeyValues, k: &'static str) -> (r: Result<Direction, ParseError>)
    requires
        map.wf(),
    ensures
        res_view(r) == get_enum(map@, k@, |v: Seq<char>| direction_of(v)),
{
    match map.find(k) {
        Some((lo, hi)) => match direction_from_span(&map.text, lo, hi) {
            Some(x) => Ok(x),
            None => Err(ParseError::BadEnum(k, string_of_span(&map.text, lo, hi))),
        },
        None => Err(ParseError::MissingField(k)),
    }
}

pub fn req_flow(map: &KeyValues, k: &'static str) -> (r: Result<FlowControl, ParseError>)
    requires
        map.wf(),
    ensures
        res_view(r) == get_enum(map@, k@, |v: Seq<char>| flow_of(v)),
{
    match map.find(k) {
        Some((lo, hi)) => match flow_from_span(&map.text, lo, hi) {
            Some(x) => Ok(x),
            None => Err(ParseError::BadEnum(k, string_of_span(&map.text, lo, hi))),
        },
        None => Err(ParseError::MissingField(k)),
    }
}

pub fn req_testname(map: &KeyValues, k: &'static str) -> (r: Result<TestName, ParseError>)
    requires
        map.wf(),
    ensures
        res_view(r) == get_enum(map@, k@, |v: Seq<char>| testname_of(v)),
{
    match map.find(k) {
        Some((lo, hi)) => match testname_from_span(&map.text, lo, hi) {
            Some(x) => Ok(x),
            None => Err(ParseError::BadEnum(k, string_of_span(&map.text, lo, hi))),
        },
        None => Err(ParseError::MissingField(k)),
    }
}

pub fn req_resultflag(map: &KeyValues, k: &'static str) -> (r: Result<TestResultFlag, ParseError>)
    requires
        map.wf(),
    ensures
        res_view(r) == get_enum(map@, k@, |v: Seq<char>| resultflag_of(v)),
{
    match map.find(k) {
        Some((lo, hi)) => match resultflag_from_span(&map.text, lo, hi) {
            Some(x) => Ok(x),
            None => Err(ParseError::BadEnum(k, string_of_span(&map.text, lo, hi))),
        },
        None => Err(ParseError::MissingField(k)),
    }
}

proof fn lemma_eq_pos_exact(t: Seq<char>, m: nat)
    requires
        m <= t.len(),
        forall|k: int| 0 <= k < m ==> #[trigger] t[k] != '=',
        m == t.len() || t[m as int] == '=',
    ensures
        eq_pos(t) == m,
    decreases m,
{
    if m > 0 {
        let r = t.drop_first();
        assert forall|k: int| 0 <= k < m - 1 implies #[trigger] r[k] != '=' by {
            assert(r[k] == t[k + 1]);
        }
        if m < t.len() {
            assert(r[m - 1] == t[m as int]);
        }
        lemma_eq_pos_exact(r, (m - 1) as nat);
    }
}

proof fn lemma_first_kv_exact(toks: Seq<Seq<char>>, k: nat)
    requires
        k <= toks.len(),
        forall|j: int| 0 <= j < k ==> !has_eq(#[trigger] toks[j]),
        k == toks.len() || has_eq(toks[k as int]),
    ensures
        first_kv(toks) == k,
    decreases k,
{
    if k > 0 {
        let r = toks.drop_first();
        assert forall|j: int| 0 <= j < k - 1 implies !has_eq(#[trigger] r[j]) by {
            assert(r[j] == toks[j + 1]);
        }
        if k < toks.len() {
            assert(r[k - 1] == toks[k as int]);
        }
        lemma_first_kv_exact(r, (k - 1) as nat);
    }
}

proof fn lemma_split_error_sticks(toks: Seq<Seq<char>>, m: int)
    requires
        0 <= m <= toks.len(),
        split_pairs(toks.take(m)) is Err,
    ensures
        split_pairs(toks) == split_pairs(toks.take(m)),
    decreases toks.len() - m,
{
    if m < toks.len() {
        let t = toks.take(m + 1);
        assert(t.drop_last() =~= toks.take(m));
        lemma_split_error_sticks(toks, m + 1);
    } else {
        assert(toks.take(m) =~= toks);
    }
}

/// Index of the first `=` in `v[lo..hi]`, or `hi`.
fn eq_in_span(v: &Vec<char>, lo: usize, hi: usize) -> (p: usize)
    requires
        lo <= hi <= v@.len(),
    ensures
        lo <= p <= hi,
        p - lo == eq_pos(v@.subrange(lo as int, hi as int)),
{
    let mut p = lo;
    while p < hi && v[p] != '='
        invariant
            lo <= p <= hi <= v@.len(),
            forall|k: int| lo <= k < p ==> #[trigger] v@[k] != '=',
        decreases hi - p,
    {
        p = p + 1;
    }
    proof {
        let t = v@.subrange(lo as int, hi as int);
        assert forall|k: int| 0 <= k < p - lo implies #[trigger] t[k] != '=' by {
            assert(t[k] == v@[lo + k]);
        }
        if p < hi {
            assert(t[p - lo] == v@[p as int]);
        }
        lemma_eq_pos_exact(t, (p - lo) as nat);
    }
    p
}

fn vec_is(v: &Vec<char>, lit: &str) -> (r: bool)
    ensures
        r == (v@ == lit@),
{
    let r = span_is(v, 0, v.len(), lit);
    assert(v@.subrange(0, v@.len() as int) =~= v@);
    r
}

fn parse_id_only(tag: &Vec<char>, map: &KeyValues) -> (r: Result<CtrlCommand, ParseError>)
    requires
        map.wf(),
        tag@ == "HELLO"@ || tag@ == "ACK"@ || tag@ == "TEST DONE"@ || tag@ == "TERMINATE"@
            || tag@ == "TERMINATE ACK"@,
    ensures
        parsed_view(r) == decode_id_only(map@, tag@),
{
    let id = match req_s(map, "id") {
        Ok(x) => x,
        Err(e) => {
            return Err(e);
        },
    };
    if vec_is(tag, "HELLO") {
        Ok(CtrlCommand::Hello { id })
    } else if vec_is(tag, "ACK") {
        Ok(CtrlCommand::Ack { id })
    } else if vec_is(tag, "TEST DONE") {
        Ok(CtrlCommand::TestDone { id })
    } else if vec_is(tag, "TERMINATE") {
        Ok(CtrlCommand::Terminate { id })
    } else {
        Ok(CtrlCommand::TerminateAck { id })
    }
}

fn parse_config(map: &KeyValues, ack: bool) -> (r: Result<CtrlCommand, ParseError>)
    requires
        map.wf(),
    ensures
        parsed_view(r) == decode_config(map@, ack),
{
    let id = match req_s(map, "id") {
        Ok(x) => x,
        Err(e) => {
            return Err(e);
        },
    };
    let baud = match req_u32(map, "baud") {
        Ok(x) => x,
        Err(e) => {
            return Err(e);
        },
    };
    let parity = match req_parity(map, "parity") {
        Ok(x) => x,
        Err(e) => {
            return Err(e);
        },
    };
    let bits = match req_u8(map, "bits") {
        Ok(x) => x,
        Err(e) => {
            return Err(e);
        },
    };
    let flow = match req_flow(map, "flow") {
        Ok(x) => x,
        Err(e) => {
            return Err(e);
        },
    };
    if ack {
        Ok(CtrlCommand::ConfigSetAck { id, baud, parity, bits, flow })
    } else {
        Ok(CtrlCommand::ConfigSet { id, baud, parity, bits, flow })
    }
}

fn parse_begin(map: &KeyValues, ack: bool) -> (r: Result<CtrlCommand, ParseError>)
    requires
        map.wf(),
    ensures
        parsed_view(r) == decode_begin(map@, ack),
{
    let frames = match opt_u64(map, "frames") {
        Ok(x) => x,
        Err(e) => {
            return Err(e);
        },
    };
    let duration_ms = match opt_u64(map, "duration_ms") {
        Ok(x) => x,
        Err(e) => {
            return Err(e);
        },
    };
    if !ack && frames.is_none() && duration_ms.is_none() {
        return Err(ParseError::Semantic("TEST BEGIN requires frames or duration_ms"));
    }
    let id = match req_s(map, "id") {
        Ok(x) => x,
        Err(e) => {
            return Err(e);
        },
    };
    let name = match req_testname(map, "name") {
        Ok(x) => x,
        Err(e) => {
            return Err(e);
        },
    };
    let payload = match req_usize(map, "payload") {
        Ok(x) => x,
        Err(e) => {
            return Err(e);
        },
    };
    let dir = match req_dir(map, "dir") {
        Ok(x) => x,
        Err(e) => {
            return Err(e);
        },
    };
    if ack {
        Ok(CtrlCommand::TestBeginAck { id, name, frames, duration_ms, payload, dir })
    } else {
        Ok(CtrlCommand::TestBegin { id, name, frames, duration_ms, payload, dir })
    }
}

fn parse_done_ack(map: &KeyValues) -> (r: Result<CtrlCommand, ParseError>)
    requires
        map.wf(),
    ensures
        parsed_view(r) == decode_done_ack(map@),
{
    let id = match req_s(map, "id") {
        Ok(x) => x,
        Err(e) => {
            return Err(e);
        },
    };
    let ok = match req_u64(map, "ok") {
        Ok(x) => x,
        Err(e) => {
            return Err(e);
        },
    };
    let bad = match req_u64(map, "bad") {
        Ok(x) => x,
        Err(e) => {
            return Err(e);
        },
    };
    let lost = match req_u64(map, "lost") {
        Ok(x) => x,
        Err(e) => {
            return Err(e);
        },
    };
    let total = match req_u64(map, "total") {
        Ok(x) => x,
        Err(e) => {
            return Err(e);
        },
    };
    let duration_micros = match req_u64(map, "duration_micros") {
        Ok(x) => x,
        Err(e) => {
            return Err(e);
        },
    };
    let bytes = match req_u64(map, "bytes") {
        Ok(x) => x,
        Err(e) => {
            return Err(e);
        },
    };
    Ok(CtrlCommand::TestDoneAck { id, ok, bad, lost, total, duration_micros, bytes })
}

fn parse_reason(map: &KeyValues) -> (r: Option<String>)
    requires
        map.wf(),
    ensures
        crate::command::opt_view(r) == reason_of(map@),
{
    match map.find("reason") {
        None => None,
        Some((lo, hi)) => {
            let raw = string_of_span(&map.text, lo, hi);
            let u = unescape_reason(raw.as_str());
            let uv = chars_of(u.as_str());
            if uv.len() > 0 {
                Some(u)
            } else {
                None
            }
        },
    }
}

fn parse_result(map: &KeyValues) -> (r: Result<CtrlCommand, ParseError>)
    requires
        map.wf(),
    ensures
        parsed_view(r) == decode_result(map@),
{
    let id = match req_s(map, "id") {
        Ok(x) => x,
        Err(e) => {
            return Err(e);
        },
    };
    let result = match req_resultflag(map, "result") {
        Ok(x) => x,
        Err(e) => {
            return Err(e);
        },
    };
    let rx_frames = match req_u64(map, "rx_frames") {
        Ok(x) => x,
        Err(e) => {
            return Err(e);
        },
    };
    let rx_bytes = match req_u64(map, "rx_bytes") {
        Ok(x) => x,
        Err(e) => {
            return Err(e);
        },
    };
    let bad_crc = match req_u64(map, "bad_crc") {
        Ok(x) => x,
        Err(e) => {
            return Err(e);
        },
    };
    let seq_gaps = match req_u64(map, "seq_gaps") {
        Ok(x) => x,
        Err(e) => {
            return Err(e);
        },
    };
    let overruns = match req_u64(map, "overruns") {
        Ok(x) => x,
        Err(e) => {
            return Err(e);
        },
    };
    let errors = match req_u32(map, "errors") {
        Ok(x) => x,
        Err(e) => {
            return Err(e);
        },
    };
    let rate_bps = match req_u64(map, "rate_bps") {
        Ok(x) => x,
        Err(e) => {
            return Err(e);
        },
    };
    let reason = parse_reason(map);
    Ok(
        CtrlCommand::TestResult {
            id,
            result,
            rx_frames,
            rx_bytes,
            bad_crc,
            seq_gaps,
            overruns,
            errors,
            rate_bps,
            reason,
        },
    )
}

fn parse_tagged(tag: &Vec<char>, map: &KeyValues) -> (r: Result<CtrlCommand, ParseError>)
    requires
        map.wf(),
    ensures
        parsed_view(r) == decode_tagged(tag@, map@),
{
    if vec_is(tag, "HELLO") || vec_is(tag, "ACK") || vec_is(tag, "TEST DONE") || vec_is(
        tag,
        "TERMINATE",
    ) || vec_is(tag, "TERMINATE ACK") {
        parse_id_only(tag, map)
    } else if vec_is(tag, "CONFIG SET") {
        parse_config(map, false)
    } else if vec_is(tag, "CONFIG SET ACK") {
        parse_config(map, true)
    } else if vec_is(tag, "TEST BEGIN") {
        parse_begin(map, false)
    } else if vec_is(tag, "TEST BEGIN ACK") {
        parse_begin(map, true)
    } else if vec_is(tag, "TEST DONE ACK") {
        parse_done_ack(map)
    } else if vec_is(tag, "TEST RESULT") {
        parse_result(map)
    } else {
        let mut t = String::new();
        push_all(&mut t, tag);
        assert(t@ =~= tag@);
        Err(ParseError::UnknownTag(t))
    }
}

/// Parses one line (CR/LF and surrounding spaces are ignored) into a command.
pub fn parse_command(line: &str) -> (r: Result<CtrlCommand, ParseError>)
    ensures
        parsed_view(r) == decode(line@),
{
    let v = chars_of(line);
    let mut i: usize = 0;
    while i < v.len() && crate::text::is_whitespace(v[i])
        invariant
            i <= v@.len(),
            forall|j: int| 0 <= j < i ==> crate::text::is_ws(#[trigger] v@[j]),
        decreases v@.len() - i,
    {
        i = i + 1;
    }
    if i == v.len() {
        return Err(ParseError::Empty);
    }
    assert(!blank(v@)) by {
        assert(!crate::text::is_ws(v@[i as int]));
    }
    let spans = token_spans(&v);
    let ghost toks = tokens(v@);
    if spans.len() == 0 {
        return Err(ParseError::MissingTag);
    }
    let mut k: usize = 0;
    while k < spans.len() && eq_in_span(&v, spans[k].0, spans[k].1) == spans[k].1
        invariant
            k <= spans@.len(),
            spans_in(v@, spans@),
            span_text(v@, spans@) == toks,
            forall|j: int| 0 <= j < k ==> !has_eq(#[trigger] toks[j]),
        decreases spans@.len() - k,
    {
        assert(toks[k as int] == v@.subrange(spans@[k as int].0 as int, spans@[k as int].1 as int));
        k = k + 1;
    }
    proof {
        if k < spans.len() {
            assert(toks[k as int] == v@.subrange(spans@[k as int].0 as int, spans@[k as int].1 as int));
        }
        lemma_first_kv_exact(toks, k as nat);
    }
    let mut tag: Vec<char> = Vec::new();
    let mut j: usize = 0;
    assert(toks.take(0) =~= Seq::<Seq<char>>::empty());
    while j < k
        invariant
            j <= k <= spans@.len(),
            spans_in(v@, spans@),
            span_text(v@, spans@) == toks,
            tag@ == join_sp(toks.take(j as int)),
        decreases k - j,
    {
        let (lo, hi) = spans[j];
        let ghost before = tag@;
        if j > 0 {
            tag.push(' ');
        }
        let mut p = lo;
        while p < hi
            invariant
                lo <= p <= hi <= v@.len(),
                tag@ == (if j > 0 {
                    before + seq![' ']
                } else {
                    before
                }) + v@.subrange(lo as int, p as int),
            decreases hi - p,
        {
            tag.push(v[p]);
            p = p + 1;
            assert(tag@ =~= (if j > 0 {
                before + seq![' ']
            } else {
                before
            }) + v@.subrange(lo as int, p as int));
        }
        proof {
            let w = toks[j as int];
            assert(w == v@.subrange(lo as int, hi as int));
            assert(toks.take(j + 1) =~= toks.take(j as int).push(w));
            if j > 0 {
                lemma_join_push(toks.take(j as int), w);
            } else {
                assert(toks.take(1) =~= seq![w]);
                assert(tag@ =~= w);
            }
        }
        j = j + 1;
    }
    let ghost rest = toks.skip(k as int);
    let mut pairs: Vec<(usize, usize, usize, usize)> = Vec::new();
    let mut j: usize = k;
    assert(rest.take(0) =~= Seq::<Seq<char>>::empty());
    assert(pairs_view(v@, pairs@) =~= Seq::<(Seq<char>, Seq<char>)>::empty());
    while j < spans.len()
        invariant
            k <= j <= spans@.len(),
            spans_in(v@, spans@),
            span_text(v@, spans@) == toks,
            rest == toks.skip(k as int),
            v@ == line@,
            toks == tokens(v@),
            !blank(v@),
            toks.len() > 0,
            first_kv(toks) == k,
            pairs_in(v@, pairs@),
            split_pairs(rest.take(j - k)) == Ok::<Pairs, ParseErrorView>(pairs_view(v@, pairs@)),
        decreases spans@.len() - j,
    {
        let (lo, hi) = spans[j];
        assert(spans@[j as int].0 <= spans@[j as int].1 <= v@.len());
        let p = eq_in_span(&v, lo, hi);
        let ghost t = toks[j as int];
        proof {
            assert(t == v@.subrange(lo as int, hi as int));
            assert(rest.take(j - k + 1).drop_last() =~= rest.take(j - k));
            assert(rest.take(j - k + 1).last() == t);
        }
        if p == hi {
            proof {
                lemma_split_error_sticks(rest, j - k + 1);
            }
            return Err(ParseError::BadPair(string_of_span(&v, lo, hi)));
        }
        let ghost old_pairs = pairs@;
        pairs.push((lo, p, p + 1, hi));
        proof {
            lemma_pairs_in_push(v@, old_pairs, (lo, p, (p + 1) as usize, hi));
            assert(t.take(eq_pos(t) as int) =~= v@.subrange(lo as int, p as int));
            assert(t.skip(eq_pos(t) as int + 1) =~= v@.subrange(p + 1, hi as int));
            assert(pairs_view(v@, pairs@) =~= pairs_view(v@, old_pairs).push(
                (v@.subrange(lo as int, p as int), v@.subrange(p + 1, hi as int)),
            ));
        }
        j = j + 1;
    }
    assert(rest.take(j - k) =~= rest);
    let map = KeyValues { text: v, pairs };
    parse_tagged(&tag, &map)
}

// ---------------------------------------------------------------------------
// Round trip
// ---------------------------------------------------------------------------

/// No character of `s` is `=`.
pub open spec fn no_eq(s: Seq<char>) -> bool {
    forall|i: int| 0 <= i < s.len() ==> #[trigger] s[i] != '='
}

/// Keys and values that survive the trip through one line.
pub open spec fn carriable(ps: Pairs) -> bool {
    forall|i: int|
        0 <= i < ps.len() ==> no_eq(#[trigger] ps[i].0) && no_ws(ps[i].0) && no_ws(ps[i].1)
}

proof fn lemma_no_eq_pos(t: Seq<char>)
    requires
        no_eq(t),
    ensures
        eq_pos(t) == t.len(),
        !has_eq(t),
{
    lemma_eq_pos_exact(t, t.len());
}

proof fn lemma_kv_token(k: Seq<char>, v: Seq<char>)
    requires
        no_eq(k),
    ensures
        has_eq(kv(k, v)),
        eq_pos(kv(k, v)) == k.len(),
        kv(k, v).take(k.len() as int) == k,
        kv(k, v).skip(k.len() as int + 1) == v,
{
    let t = kv(k, v);
    assert forall|i: int| 0 <= i < k.len() implies #[trigger] t[i] != '=' by {
        assert(t[i] == k[i]);
    }
    assert(t[k.len() as int] == '=');
    lemma_eq_pos_exact(t, k.len());
    assert(t.take(k.len() as int) =~= k);
    assert(t.skip(k.len() as int + 1) =~= v);
}

/// The `key=value` tokens split back into their pairs.
proof fn lemma_split_kv_words(ps: Pairs)
    requires
        carriable(ps),
    ensures
        split_pairs(kv_words(ps)) == Ok::<Pairs, ParseErrorView>(ps),
    decreases ps.len(),
{
    if ps.len() > 0 {
        let init = ps.drop_last();
        assert forall|i: int| 0 <= i < init.len() implies no_eq(#[trigger] init[i].0) && no_ws(
            init[i].0,
        ) && no_ws(init[i].1) by {
            assert(init[i] == ps[i]);
        }
        lemma_split_kv_words(init);
        assert(kv_words(ps).drop_last() =~= kv_words(init));
        let last = ps.last();
        assert(no_eq(ps[ps.len() - 1].0));
        lemma_kv_token(last.0, last.1);
        let t = kv_words(ps).last();
        assert(t == kv(last.0, last.1));
        assert(has_eq(t));
        assert((t.take(eq_pos(t) as int), t.skip(eq_pos(t) as int + 1)) == last);
        assert(init.push(last) =~= ps);
        assert(split_pairs(kv_words(ps)) == Ok::<Pairs, ParseErrorView>(init.push(last)));
    } else {
        assert(kv_words(ps) =~= Seq::<Seq<char>>::empty());
        assert(ps =~= Seq::<(Seq<char>, Seq<char>)>::empty());
    }
}

/// The whole line of a tag and pairs reads back as that tag and those pairs.
proof fn lemma_decode_words(tw: Seq<Seq<char>>, ps: Pairs)
    requires
        tw.len() > 0,
        plain_words(tw),
        forall|i: int| 0 <= i < tw.len() ==> no_eq(#[trigger] tw[i]),
        carriable(ps),
    ensures
        decode(join_sp(tw + kv_words(ps)) + "\r\n"@) == decode_tagged(join_sp(tw), ps),
{
    reveal_strlit("\r\n");
    let kw = kv_words(ps);
    let ws = tw + kw;
    assert forall|i: int| 0 <= i < ws.len() implies #[trigger] ws[i].len() > 0 && no_ws(ws[i]) by {
        if i < tw.len() {
            assert(ws[i] == tw[i]);
        } else {
            let p = ps[i - tw.len()];
            assert(ws[i] == kv(p.0, p.1));
            assert(no_ws(p.0) && no_ws(p.1));
            let t = kv(p.0, p.1);
            assert forall|j: int| 0 <= j < t.len() implies !crate::text::is_ws(#[trigger] t[j]) by {
                if j < p.0.len() {
                    assert(t[j] == p.0[j]);
                } else if j > p.0.len() {
                    assert(t[j] == p.1[j - p.0.len() - 1]);
                }
            }
        }
    }
    let crlf = "\r\n"@;
    assert(crate::text::all_ws(crlf));
    crate::text::lemma_tokens_join(ws, crlf);
    let line = join_sp(ws) + crlf;
    assert(tokens(line) == ws);
    // The line starts with the first tag word, which is not blank.
    lemma_join_first(ws);
    assert(line[0] == tw[0][0]);
    assert(tw[0].len() > 0 && no_ws(tw[0]));
    assert(!crate::text::is_ws(tw[0][0]));
    assert(!blank(line));
    // The tag ends where the first `key=value` token starts.
    assert forall|j: int| 0 <= j < tw.len() implies !has_eq(#[trigger] ws[j]) by {
        assert(ws[j] == tw[j]);
        lemma_no_eq_pos(tw[j]);
    }
    if kw.len() > 0 {
        let p = ps[0];
        assert(ws[tw.len() as int] == kv(p.0, p.1));
        lemma_kv_token(p.0, p.1);
    }
    lemma_first_kv_exact(ws, tw.len());
    assert(ws.take(tw.len() as int) =~= tw);
    assert(ws.skip(tw.len() as int) =~= kw);
    lemma_split_kv_words(ps);
}

proof fn lemma_join_first(ws: Seq<Seq<char>>)
    requires
        ws.len() > 0,
        ws[0].len() > 0,
    ensures
        join_sp(ws).len() > 0,
        join_sp(ws)[0] == ws[0][0],
{
    if ws.len() > 1 {
        assert((ws[0] + seq![' '] + join_sp(ws.drop_first()))[0] == ws[0][0]);
    }
}

/// A reason fits in one token once escaped: its only whitespace is spaces, CR and LF.
pub open spec fn reason_ok(r: Seq<char>) -> bool {
    forall|i: int|
        0 <= i < r.len() ==> crate::text::is_ws(#[trigger] r[i]) ==> (r[i] == ' ' || r[i] == '\r'
            || r[i] == '\n')
}

/// The id of any command.
pub open spec fn id_of(c: CommandView) -> Seq<char> {
    match c {
        CommandView::Hello { id } => id,
        CommandView::Ack { id } => id,
        CommandView::ConfigSet { id, .. } => id,
        CommandView::ConfigSetAck { id, .. } => id,
        CommandView::TestBegin { id, .. } => id,
        CommandView::TestBeginAck { id, .. } => id,
        CommandView::TestDone { id } => id,
        CommandView::TestDoneAck { id, .. } => id,
        CommandView::TestResult { id, .. } => id,
        CommandView::Terminate { id } => id,
        CommandView::TerminateAck { id } => id,
    }
}

/// A command that one line can carry: its id holds no whitespace, its reason is
/// escapable, and a test announcement is bounded by a frame count or a duration.
pub open spec fn encodable(c: CommandView) -> bool {
    &&& no_ws(id_of(c))
    &&& match c {
        CommandView::TestBegin { frames, duration_ms, .. } => frames is Some || duration_ms is Some,
        CommandView::TestResult { reason, .. } => match reason {
            Some(r) => reason_ok(r),
            None => true,
        },
        _ => true,
    }
}

/// What a command reads back as: an empty reason is dropped, and a reason goes
/// through escaping and unescaping.
pub open spec fn normalized(c: CommandView) -> CommandView {
    match c {
        CommandView::TestResult {
            id,
            result,
            rx_frames,
            rx_bytes,
            bad_crc,
            seq_gaps,
            overruns,
            errors,
            rate_bps,
            reason,
        } => CommandView::TestResult {
            id,
            result,
            rx_frames,
            rx_bytes,
            bad_crc,
            seq_gaps,
            overruns,
            errors,
            rate_bps,
            reason: match reason {
                Some(r) => if r.len() > 0 {
                    Some(unescape(escape(r)))
                } else {
                    None
                },
                None => None,
            },
        },
        _ => c,
    }
}

proof fn lemma_dec_value(n: nat, max: nat)
    requires
        n <= max,
    ensures
        no_ws(dec(n)),
        parse_uint(dec(n), 10, max) == Some(n),
{
    crate::text::lemma_dec(n);
    crate::text::lemma_parse_dec(n, max);
}

proof fn lemma_enum_tokens()
    ensures
        forall|p: Parity| #[trigger] parity_of(parity_str(p)) == Some(p) && no_ws(parity_str(p)),
        forall|d: Direction|
            #[trigger] direction_of(direction_str(d)) == Some(d) && no_ws(direction_str(d)),
        forall|f: FlowControl| #[trigger] flow_of(flow_str(f)) == Some(f) && no_ws(flow_str(f)),
        forall|t: TestName| #[trigger] testname_of(testname_str(t)) == Some(t) && no_ws(testname_str(t)),
        forall|r: TestResultFlag|
            #[trigger] resultflag_of(resultflag_str(r)) == Some(r) && no_ws(resultflag_str(r)),
{
    reveal_strlit("none");
    reveal_strlit("even");
    reveal_strlit("odd");
    reveal_strlit("tx");
    reveal_strlit("rx");
    reveal_strlit("both");
    reveal_strlit("rtscts");
    reveal_strlit("max-rate");
    reveal_strlit("fifo-residue");
    reveal_strlit("pass");
    reveal_strlit("fail");
    assert(lower_eq("none"@, "none"@));
    assert(lower_eq("even"@, "even"@));
    assert(lower_eq("odd"@, "odd"@));
    assert(!lower_is("even"@[0], "none"@[0]));
    assert(!lower_eq("even"@, "none"@));
    assert(!lower_is("odd"@[0], "none"@[0]));
    assert(!lower_eq("odd"@, "none"@));
    assert(!lower_is("odd"@[0], "even"@[0]));
    assert(!lower_eq("odd"@, "even"@));
    assert(lower_eq("tx"@, "tx"@));
    assert(lower_eq("rx"@, "rx"@));
    assert(lower_eq("both"@, "both"@));
    assert(!lower_is("rx"@[0], "tx"@[0]));
    assert(!lower_eq("rx"@, "tx"@));
    assert(!lower_is("both"@[0], "tx"@[0]));
    assert(!lower_eq("both"@, "tx"@));
    assert(!lower_is("both"@[0], "rx"@[0]));
    assert(!lower_eq("both"@, "rx"@));
    assert(lower_eq("rtscts"@, "rtscts"@));
    assert(!lower_is("rtscts"@[0], "none"@[0]));
    assert(!lower_eq("rtscts"@, "none"@));
    assert(lower_eq("max-rate"@, "max-rate"@));
    assert(lower_eq("fifo-residue"@, "fifo-residue"@));
    assert(!lower_is("fifo-residue"@[0], "max-rate"@[0]));
    assert(!lower_eq("fifo-residue"@, "max-rate"@));
    assert(lower_eq("pass"@, "pass"@));
    assert(lower_eq("fail"@, "fail"@));
    assert(!lower_is("fail"@[0], "pass"@[0]));
    assert(!lower_eq("fail"@, "pass"@));
}

pub broadcast proof fn lemma_lookup_push(ps: Pairs, p: (Seq<char>, Seq<char>), k: Seq<char>)
    ensures
        #[trigger] lookup(ps.push(p), k) == if p.0 == k {
            Some(p.1)
        } else {
            lookup(ps, k)
        },
{
    assert(ps.push(p).drop_last() =~= ps);
}

pub broadcast proof fn lemma_lookup_concat(a: Pairs, b: Pairs, k: Seq<char>)
    ensures
        #[trigger] lookup(a + b, k) == match lookup(b, k) {
            Some(v) => Some(v),
            None => lookup(a, k),
        },
    decreases b.len(),
{
    if b.len() == 0 {
        assert(a + b =~= a);
    } else {
        assert((a + b).drop_last() =~= a + b.drop_last());
        assert((a + b).last() == b.last());
        lemma_lookup_concat(a, b.drop_last(), k);
    }
}

spec fn either(x: Option<Seq<char>>, y: Option<Seq<char>>) -> Option<Seq<char>> {
    match x {
        Some(v) => Some(v),
        None => y,
    }
}

proof fn lemma_lookup2(p1: (Seq<char>, Seq<char>), p2: (Seq<char>, Seq<char>), k: Seq<char>)
    ensures
        lookup(seq![p1, p2], k) == if p2.0 == k {
            Some(p2.1)
        } else if p1.0 == k {
            Some(p1.1)
        } else {
            None
        },
{
    lemma_lookup_push(seq![p1], p2, k);
    lemma_lookup_push(Seq::empty(), p1, k);
    assert(seq![p1] =~= Seq::<(Seq<char>, Seq<char>)>::empty().push(p1));
    assert(seq![p1, p2] =~= seq![p1].push(p2));
    assert(lookup(Seq::<(Seq<char>, Seq<char>)>::empty(), k) is None);
}

proof fn lemma_lookup_opt(k: Seq<char>, v: Option<u64>, key: Seq<char>)
    ensures
        lookup(opt_pair(key, v), k) == match v {
            Some(n) => if key == k {
                Some(dec(n as nat))
            } else {
                None
            },
            None => None::<Seq<char>>,
        },
{
    if let Some(n) = v {
        lemma_lookup_push(Seq::empty(), (key, dec(n as nat)), k);
        assert(opt_pair(key, v) == Seq::<(Seq<char>, Seq<char>)>::empty().push((key, dec(n as nat))));
    }
}

proof fn lemma_join2(a: Seq<char>, b: Seq<char>)
    ensures
        join_sp(seq![a, b]) == a + seq![' '] + b,
{
    assert(seq![a, b].drop_first() =~= seq![b]);
    assert(join_sp(seq![b]) == b);
    assert(seq![a, b][0] == a);
}

proof fn lemma_join3(a: Seq<char>, b: Seq<char>, c: Seq<char>)
    ensures
        join_sp(seq![a, b, c]) == a + seq![' '] + b + seq![' '] + c,
{
    assert(seq![a, b, c].drop_first() =~= seq![b, c]);
    lemma_join2(b, c);
    assert(join_sp(seq![a, b, c]) =~= a + seq![' '] + b + seq![' '] + c);
}

proof fn lemma_config_fields(
    id: Seq<char>,
    baud: u32,
    parity: Parity,
    bits: u8,
    flow: FlowControl,
    ack: bool,
)
    requires
        no_ws(id),
    ensures
        carriable(config_pairs(id, baud, parity, bits, flow)),
        decode_config(config_pairs(id, baud, parity, bits, flow), ack) == Ok::<
            CommandView,
            ParseErrorView,
        >(
            if ack {
                CommandView::ConfigSetAck { id, baud, parity, bits, flow }
            } else {
                CommandView::ConfigSet { id, baud, parity, bits, flow }
            },
        ),
{
    reveal_strlit("id");
    reveal_strlit("baud");
    reveal_strlit("parity");
    reveal_strlit("bits");
    reveal_strlit("flow");
    lemma_enum_tokens();
    lemma_dec_value(baud as nat, u32::MAX as nat);
    lemma_dec_value(bits as nat, u8::MAX as nat);
    let ps = config_pairs(id, baud, parity, bits, flow);
    broadcast use lemma_lookup_push;

    assert("bits"@[1] != "baud"@[1] && "flow"@[0] != "baud"@[0] && "flow"@[0] != "bits"@[0]);
    assert("id"@.len() != "baud"@.len() && "id"@.len() != "parity"@.len());
    assert("id"@ != "bits"@ && "id"@ != "flow"@ && "id"@ != "parity"@ && "id"@ != "baud"@);
    assert("baud"@ != "parity"@ && "baud"@ != "bits"@ && "baud"@ != "flow"@);

    let s1 = seq![("id"@, id)];
    let s2 = s1.push(("baud"@, dec(baud as nat)));
    let s3 = s2.push(("parity"@, parity_str(parity)));
    let s4 = s3.push(("bits"@, dec(bits as nat)));
    assert(ps =~= s4.push(("flow"@, flow_str(flow))));
    assert(lookup(s1, "id"@) == Some(id));
    assert(lookup(s2, "id"@) == Some(id));
    assert(lookup(s3, "id"@) == Some(id));
    assert(lookup(s4, "id"@) == Some(id));
    assert(lookup(ps, "id"@) == Some(id));
    assert(lookup(s3, "baud"@) == Some(dec(baud as nat)));
    assert(lookup(s4, "baud"@) == Some(dec(baud as nat)));
    assert(lookup(ps, "baud"@) == Some(dec(baud as nat)));
    assert(lookup(ps, "parity"@) == Some(parity_str(parity)));
    assert(lookup(ps, "bits"@) == Some(dec(bits as nat)));
    assert(lookup(ps, "flow"@) == Some(flow_str(flow)));
}

proof fn lemma_rt_config(c: CommandView)
    requires
        encodable(c),
        c is ConfigSet || c is ConfigSetAck,
    ensures
        decode(encode(c)) == Ok::<CommandView, ParseErrorView>(normalized(c)),
{
    reveal_strlit("CONFIG");
    reveal_strlit("SET");
    reveal_strlit("ACK");
    reveal_strlit("CONFIG SET");
    reveal_strlit("CONFIG SET ACK");
    reveal_strlit("HELLO");
    reveal_strlit("TEST DONE");
    reveal_strlit("TERMINATE");
    reveal_strlit("TERMINATE ACK");
    let tw = tag_words(c);
    match c {
        CommandView::ConfigSet { id, baud, parity, bits, flow } => {
            lemma_config_fields(id, baud, parity, bits, flow, false);
            lemma_decode_words(tw, command_pairs(c));
            lemma_join2("CONFIG"@, "SET"@);
            assert(join_sp(tw) =~= "CONFIG SET"@);
        },
        CommandView::ConfigSetAck { id, baud, parity, bits, flow } => {
            lemma_config_fields(id, baud, parity, bits, flow, true);
            lemma_decode_words(tw, command_pairs(c));
            lemma_join3("CONFIG"@, "SET"@, "ACK"@);
            assert(join_sp(tw) =~= "CONFIG SET ACK"@);
            assert("CONFIG SET ACK"@ != "CONFIG SET"@);
        },
        _ => {},
    }
}

proof fn lemma_id_pairs(id: Seq<char>)
    requires
        no_ws(id),
    ensures
        carriable(seq![("id"@, id)]),
        lookup(seq![("id"@, id)], "id"@) == Some(id),
        get_str(seq![("id"@, id)], "id"@) == Ok::<Seq<char>, ParseErrorView>(id),
{
    reveal_strlit("id");
    broadcast use lemma_lookup_push;

}

proof fn lemma_rt_id_only(c: CommandView)
    requires
        encodable(c),
        c is Hello || c is Ack || c is TestDone || c is Terminate || c is TerminateAck,
    ensures
        decode(encode(c)) == Ok::<CommandView, ParseErrorView>(normalized(c)),
{
    reveal_strlit("HELLO");
    reveal_strlit("ACK");
    reveal_strlit("TEST");
    reveal_strlit("DONE");
    reveal_strlit("TERMINATE");
    reveal_strlit("TEST DONE");
    reveal_strlit("TERMINATE ACK");
    let tw = tag_words(c);
    let id = id_of(c);
    lemma_id_pairs(id);
    assert(command_pairs(c) == seq![("id"@, id)]);
    lemma_decode_words(tw, command_pairs(c));
    assert("TEST DONE"@[2] != "TERMINATE"@[2]);
    match c {
        CommandView::Hello { .. } => {
            assert(join_sp(tw) == "HELLO"@);
        },
        CommandView::Ack { .. } => {
            assert(join_sp(tw) == "ACK"@);
        },
        CommandView::TestDone { .. } => {
            lemma_join2("TEST"@, "DONE"@);
            assert(join_sp(tw) =~= "TEST DONE"@);
        },
        CommandView::Terminate { .. } => {
            assert(join_sp(tw) == "TERMINATE"@);
        },
        CommandView::TerminateAck { .. } => {
            lemma_join2("TERMINATE"@, "ACK"@);
            assert(join_sp(tw) =~= "TERMINATE ACK"@);
        },
        _ => {},
    }
}

proof fn lemma_begin_fields(
    id: Seq<char>,
    name: TestName,
    frames: Option<u64>,
    duration_ms: Option<u64>,
    payload: usize,
    dir: Direction,
    ack: bool,
)
    requires
        no_ws(id),
        ack || frames is Some || duration_ms is Some,
    ensures
        carriable(begin_pairs(id, name, frames, duration_ms, payload, dir)),
        decode_begin(begin_pairs(id, name, frames, duration_ms, payload, dir), ack) == Ok::<
            CommandView,
            ParseErrorView,
        >(
            if ack {
                CommandView::TestBeginAck { id, name, frames, duration_ms, payload, dir }
            } else {
                CommandView::TestBegin { id, name, frames, duration_ms, payload, dir }
            },
        ),
{
    reveal_strlit("id");
    reveal_strlit("name");
    reveal_strlit("frames");
    reveal_strlit("duration_ms");
    reveal_strlit("payload");
    reveal_strlit("dir");
    lemma_enum_tokens();
    lemma_dec_value(payload as nat, usize::MAX as nat);
    if let Some(n) = frames {
        lemma_dec_value(n as nat, u64_max());
    }
    if let Some(n) = duration_ms {
        lemma_dec_value(n as nat, u64_max());
    }
    let a = seq![("id"@, id), ("name"@, testname_str(name))];
    let f = opt_pair("frames"@, frames);
    let d = opt_pair("duration_ms"@, duration_ms);
    let t = seq![("payload"@, dec(payload as nat)), ("dir"@, direction_str(dir))];
    let ps = begin_pairs(id, name, frames, duration_ms, payload, dir);
    assert(ps == a + f + d + t);
    assert("id"@.len() == 2 && "name"@.len() == 4 && "frames"@.len() == 6);
    assert("duration_ms"@.len() == 11 && "payload"@.len() == 7 && "dir"@.len() == 3);
    assert("id"@ != "name"@ && "id"@ != "frames"@ && "id"@ != "duration_ms"@ && "id"@ != "payload"@
        && "id"@ != "dir"@);
    assert("name"@ != "frames"@ && "name"@ != "duration_ms"@ && "name"@ != "payload"@ && "name"@
        != "dir"@);
    assert("frames"@ != "duration_ms"@ && "frames"@ != "payload"@ && "frames"@ != "dir"@);
    assert("duration_ms"@ != "payload"@ && "duration_ms"@ != "dir"@ && "payload"@ != "dir"@);
    let keys = seq!["id"@, "name"@, "frames"@, "duration_ms"@, "payload"@, "dir"@];
    assert forall|j: int| 0 <= j < keys.len() implies lookup(ps, #[trigger] keys[j]) == either(
        lookup(t, keys[j]),
        either(lookup(d, keys[j]), either(lookup(f, keys[j]), lookup(a, keys[j]))),
    ) by {
        let k = keys[j];
        lemma_lookup_concat(a + f + d, t, k);
        lemma_lookup_concat(a + f, d, k);
        lemma_lookup_concat(a, f, k);
        lemma_lookup2(a[0], a[1], k);
        lemma_lookup2(t[0], t[1], k);
        assert(a == seq![a[0], a[1]]);
        assert(t == seq![t[0], t[1]]);
        lemma_lookup_opt(k, frames, "frames"@);
        lemma_lookup_opt(k, duration_ms, "duration_ms"@);
    }
    assert(keys[0] == "id"@ && keys[1] == "name"@ && keys[2] == "frames"@);
    assert(keys[3] == "duration_ms"@ && keys[4] == "payload"@ && keys[5] == "dir"@);
    lemma_lookup2(a[0], a[1], "id"@);
    lemma_lookup2(t[0], t[1], "id"@);
    lemma_lookup_opt("id"@, frames, "frames"@);
    lemma_lookup_opt("id"@, duration_ms, "duration_ms"@);
    assert(lookup(ps, "id"@) == Some(id));
    lemma_lookup2(a[0], a[1], "name"@);
    lemma_lookup2(t[0], t[1], "name"@);
    lemma_lookup_opt("name"@, frames, "frames"@);
    lemma_lookup_opt("name"@, duration_ms, "duration_ms"@);
    assert(lookup(ps, "name"@) == Some(testname_str(name)));
    lemma_lookup2(t[0], t[1], "frames"@);
    lemma_lookup2(a[0], a[1], "frames"@);
    lemma_lookup_opt("frames"@, frames, "frames"@);
    lemma_lookup_opt("frames"@, duration_ms, "duration_ms"@);
    assert(lookup(ps, "frames"@) == match frames {
        Some(n) => Some(dec(n as nat)),
        None => None::<Seq<char>>,
    });
    lemma_lookup2(t[0], t[1], "duration_ms"@);
    lemma_lookup2(a[0], a[1], "duration_ms"@);
    lemma_lookup_opt("duration_ms"@, frames, "frames"@);
    lemma_lookup_opt("duration_ms"@, duration_ms, "duration_ms"@);
    assert(lookup(ps, "duration_ms"@) == match duration_ms {
        Some(n) => Some(dec(n as nat)),
        None => None::<Seq<char>>,
    });
    lemma_lookup2(t[0], t[1], "payload"@);
    assert(lookup(ps, "payload"@) == Some(dec(payload as nat)));
    lemma_lookup2(t[0], t[1], "dir"@);
    assert(lookup(ps, "dir"@) == Some(direction_str(dir)));
    assert forall|i: int| 0 <= i < ps.len() implies no_eq(#[trigger] ps[i].0) && no_ws(ps[i].0)
        && no_ws(ps[i].1) by {
        if i < 2 {
            assert(ps[i] == a[i]);
        } else if i < 2 + f.len() {
            assert(ps[i] == f[i - 2]);
        } else if i < 2 + f.len() + d.len() {
            assert(ps[i] == d[i - 2 - f.len()]);
        } else {
            assert(ps[i] == t[i - 2 - f.len() - d.len()]);
        }
    }
}

proof fn lemma_rt_begin(c: CommandView)
    requires
        encodable(c),
        c is TestBegin || c is TestBeginAck,
    ensures
        decode(encode(c)) == Ok::<CommandView, ParseErrorView>(normalized(c)),
{
    reveal_strlit("TEST");
    reveal_strlit("BEGIN");
    reveal_strlit("ACK");
    reveal_strlit("HELLO");
    reveal_strlit("TEST DONE");
    reveal_strlit("TERMINATE");
    reveal_strlit("TERMINATE ACK");
    reveal_strlit("CONFIG SET");
    reveal_strlit("CONFIG SET ACK");
    reveal_strlit("TEST BEGIN");
    reveal_strlit("TEST BEGIN ACK");
    let tw = tag_words(c);
    assert("TEST BEGIN"@[0] != "CONFIG SET"@[0]);
    assert("TEST BEGIN ACK"@[0] != "CONFIG SET ACK"@[0]);
    match c {
        CommandView::TestBegin { id, name, frames, duration_ms, payload, dir } => {
            lemma_begin_fields(id, name, frames, duration_ms, payload, dir, false);
            lemma_decode_words(tw, command_pairs(c));
            lemma_join2("TEST"@, "BEGIN"@);
            assert(join_sp(tw) =~= "TEST BEGIN"@);
        },
        CommandView::TestBeginAck { id, name, frames, duration_ms, payload, dir } => {
            lemma_begin_fields(id, name, frames, duration_ms, payload, dir, true);
            lemma_decode_words(tw, command_pairs(c));
            lemma_join3("TEST"@, "BEGIN"@, "ACK"@);
            assert(join_sp(tw) =~= "TEST BEGIN ACK"@);
        },
        _ => {},
    }
}

proof fn lemma_lookup_unique(ps: Pairs, i: int)
    requires
        0 <= i < ps.len(),
        forall|j: int| i < j < ps.len() ==> #[trigger] ps[j].0 != ps[i].0,
    ensures
        lookup(ps, ps[i].0) == Some(ps[i].1),
    decreases ps.len(),
{
    if i < ps.len() - 1 {
        let init = ps.drop_last();
        assert(ps.last() == ps[ps.len() - 1]);
        assert(init[i] == ps[i]);
        assert forall|j: int| i < j < init.len() implies #[trigger] init[j].0 != init[i].0 by {
            assert(init[j] == ps[j]);
        }
        lemma_lookup_unique(init, i);
    }
}

proof fn lemma_lookup_absent(ps: Pairs, k: Seq<char>)
    requires
        forall|j: int| 0 <= j < ps.len() ==> #[trigger] ps[j].0 != k,
    ensures
        lookup(ps, k) is None,
    decreases ps.len(),
{
    if ps.len() > 0 {
        let init = ps.drop_last();
        assert(ps.last() == ps[ps.len() - 1]);
        assert forall|j: int| 0 <= j < init.len() implies #[trigger] init[j].0 != k by {
            assert(init[j] == ps[j]);
        }
        lemma_lookup_absent(init, k);
    }
}

proof fn lemma_rt_done_ack(c: CommandView)
    requires
        encodable(c),
        c is TestDoneAck,
    ensures
        decode(encode(c)) == Ok::<CommandView, ParseErrorView>(normalized(c)),
{
    reveal_strlit("TEST");
    reveal_strlit("DONE");
    reveal_strlit("ACK");
    reveal_strlit("HELLO");
    reveal_strlit("TEST DONE");
    reveal_strlit("TERMINATE");
    reveal_strlit("TERMINATE ACK");
    reveal_strlit("CONFIG SET");
    reveal_strlit("CONFIG SET ACK");
    reveal_strlit("TEST BEGIN");
    reveal_strlit("TEST BEGIN ACK");
    reveal_strlit("TEST DONE ACK");
    reveal_strlit("id");
    reveal_strlit("ok");
    reveal_strlit("bad");
    reveal_strlit("lost");
    reveal_strlit("total");
    reveal_strlit("duration_micros");
    reveal_strlit("bytes");
    let tw = tag_words(c);
    match c {
        CommandView::TestDoneAck { id, ok, bad, lost, total, duration_micros, bytes } => {
            lemma_dec_value(ok as nat, u64_max());
            lemma_dec_value(bad as nat, u64_max());
            lemma_dec_value(lost as nat, u64_max());
            lemma_dec_value(total as nat, u64_max());
            lemma_dec_value(duration_micros as nat, u64_max());
            lemma_dec_value(bytes as nat, u64_max());
            let ps = command_pairs(c);
            assert(ps == done_ack_pairs(id, ok, bad, lost, total, duration_micros, bytes));
            assert("id"@.len() == 2 && "ok"@.len() == 2 && "bad"@.len() == 3 && "lost"@.len() == 4);
            assert("total"@.len() == 5 && "bytes"@.len() == 5 && "duration_micros"@.len() == 15);
            assert("id"@[0] != "ok"@[0] && "total"@[0] != "bytes"@[0]);
            assert forall|i: int, j: int| 0 <= i < j < ps.len() implies #[trigger] ps[j].0 != #[trigger] ps[i].0 by {
            }
            lemma_lookup_unique(ps, 0);
            lemma_lookup_unique(ps, 1);
            lemma_lookup_unique(ps, 2);
            lemma_lookup_unique(ps, 3);
            lemma_lookup_unique(ps, 4);
            lemma_lookup_unique(ps, 5);
            lemma_lookup_unique(ps, 6);
            assert(carriable(ps));
            lemma_decode_words(tw, ps);
            lemma_join3("TEST"@, "DONE"@, "ACK"@);
            assert(join_sp(tw) =~= "TEST DONE ACK"@);
            assert("TEST DONE ACK"@[2] != "TERMINATE ACK"@[2]);
        },
        _ => {},
    }
}

proof fn lemma_escape(r: Seq<char>)
    ensures
        reason_ok(r) ==> no_ws(escape(r)),
        r.len() > 0 ==> escape(r).len() > 0,
    decreases r.len(),
{
    if r.len() > 0 {
        let init = r.drop_last();
        if reason_ok(r) {
            assert forall|i: int| 0 <= i < init.len() && crate::text::is_ws(#[trigger] init[i])
                implies (init[i] == ' ' || init[i] == '\r' || init[i] == '\n') by {
                assert(init[i] == r[i]);
            }
        }
        lemma_escape(init);
        let c = r.last();
        assert(r[r.len() - 1] == c);
        let e = escape(r);
        assert(e == escape(init) + escape_char(c));
        if reason_ok(r) {
            assert forall|i: int| 0 <= i < e.len() implies !crate::text::is_ws(#[trigger] e[i]) by {
                if i < escape(init).len() {
                    assert(e[i] == escape(init)[i]);
                } else {
                    assert(e[i] == escape_char(c)[i - escape(init).len()]);
                }
            }
        }
    }
}

proof fn lemma_unescape_nonempty(x: Seq<char>)
    requires
        x.len() > 0,
    ensures
        unescape(x).len() > 0,
{
    let a = replace_pair(x, '\\', 'r', '\r');
    assert(a.len() > 0);
    let b = replace_pair(a, '\\', 'n', '\n');
    assert(b.len() > 0);
}

proof fn lemma_rt_result(c: CommandView)
    requires
        encodable(c),
        c is TestResult,
    ensures
        decode(encode(c)) == Ok::<CommandView, ParseErrorView>(normalized(c)),
{
    reveal_strlit("TEST");
    reveal_strlit("RESULT");
    reveal_strlit("HELLO");
    reveal_strlit("ACK");
    reveal_strlit("TEST DONE");
    reveal_strlit("TERMINATE");
    reveal_strlit("TERMINATE ACK");
    reveal_strlit("CONFIG SET");
    reveal_strlit("CONFIG SET ACK");
    reveal_strlit("TEST BEGIN");
    reveal_strlit("TEST BEGIN ACK");
    reveal_strlit("TEST DONE ACK");
    reveal_strlit("TEST RESULT");
    reveal_strlit("id");
    reveal_strlit("result");
    reveal_strlit("rx_frames");
    reveal_strlit("rx_bytes");
    reveal_strlit("bad_crc");
    reveal_strlit("seq_gaps");
    reveal_strlit("overruns");
    reveal_strlit("errors");
    reveal_strlit("rate_bps");
    reveal_strlit("reason");
    lemma_enum_tokens();
    let tw = tag_words(c);
    match c {
        CommandView::TestResult {
            id,
            result,
            rx_frames,
            rx_bytes,
            bad_crc,
            seq_gaps,
            overruns,
            errors,
            rate_bps,
            reason,
        } => {
            lemma_dec_value(rx_frames as nat, u64_max());
            lemma_dec_value(rx_bytes as nat, u64_max());
            lemma_dec_value(bad_crc as nat, u64_max());
            lemma_dec_value(seq_gaps as nat, u64_max());
            lemma_dec_value(overruns as nat, u64_max());
            lemma_dec_value(errors as nat, u32::MAX as nat);
            lemma_dec_value(rate_bps as nat, u64_max());
            let ps = command_pairs(c);
            let rp = reason_pairs(reason);
            assert("id"@.len() == 2 && "result"@.len() == 6 && "rx_frames"@.len() == 9);
            assert("rx_bytes"@.len() == 8 && "bad_crc"@.len() == 7 && "seq_gaps"@.len() == 8);
            assert("overruns"@.len() == 8 && "errors"@.len() == 6 && "rate_bps"@.len() == 8);
            assert("reason"@.len() == 6);
            assert("result"@[0] != "errors"@[0] && "result"@[2] != "reason"@[2] && "errors"@[0]
                != "reason"@[0]);
            assert("rx_bytes"@[0] != "seq_gaps"@[0] && "rx_bytes"@[0] != "overruns"@[0]
                && "rx_bytes"@[1] != "rate_bps"@[1] && "seq_gaps"@[0] != "overruns"@[0]
                && "seq_gaps"@[0] != "rate_bps"@[0] && "overruns"@[0] != "rate_bps"@[0]);
            if let Some(r) = reason {
                lemma_escape(r);
                if r.len() > 0 {
                    lemma_unescape_nonempty(escape(r));
                }
            }
            assert forall|i: int, j: int| 0 <= i < j < ps.len() implies #[trigger] ps[j].0
                != #[trigger] ps[i].0 by {
            }
            lemma_lookup_unique(ps, 0);
            lemma_lookup_unique(ps, 1);
            lemma_lookup_unique(ps, 2);
            lemma_lookup_unique(ps, 3);
            lemma_lookup_unique(ps, 4);
            lemma_lookup_unique(ps, 5);
            lemma_lookup_unique(ps, 6);
            lemma_lookup_unique(ps, 7);
            lemma_lookup_unique(ps, 8);
            if rp.len() > 0 {
                lemma_lookup_unique(ps, 9);
            } else {
                lemma_lookup_absent(ps, "reason"@);
            }
            assert(carriable(ps));
            lemma_decode_words(tw, ps);
            lemma_join2("TEST"@, "RESULT"@);
            assert(join_sp(tw) =~= "TEST RESULT"@);
        },
        _ => {},
    }
}

/// Decoding the line that encodes a command gives the command back, with its
/// reason compared after escaping and unescaping.
pub proof fn lemma_command_round_trip(c: CtrlCommand)
    requires
        encodable(c@),
    ensures
        decode(encode(c@)) == Ok::<CommandView, ParseErrorView>(normalized(c@)),
{
    let v = c@;
    match v {
        CommandView::ConfigSet { .. } | CommandView::ConfigSetAck { .. } => lemma_rt_config(v),
        CommandView::TestBegin { .. } | CommandView::TestBeginAck { .. } => lemma_rt_begin(v),
        CommandView::TestDoneAck { .. } => lemma_rt_done_ack(v),
        CommandView::TestResult { .. } => lemma_rt_result(v),
        _ => lemma_rt_id_only(v),
    }
}

} // verus!
