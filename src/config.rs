//! Port settings and the option lists that select the test matrix.
use vstd::prelude::*;

use crate::command::{Direction, FlowControl, Parity, TestName};
use crate::text::{
    chars_of, comma_items, parse_uint, parse_uint_span, span_is, span_text, spans_in,
    split_commas, trim, trim_span,
};

verus! {

/// Live settings of a serial line.
#[derive(Debug, Clone, Copy, PartialEq, Eq, Structural)]
pub struct PortConfig {
    pub baud: u32,
    pub parity: Parity,
    pub bits: u8,
    pub flow: FlowControl,
    pub stop_bits: u8,
}

impl PortConfig {
    /// Bits on the wire per byte: start bit, data bits, parity bit if any, stop bits.
    pub fn bits_per_byte(&self) -> (r: u32)
        ensures
            r == 1 + self.bits + (if self.parity == Parity::Off {
                0int
            } else {
                1int
            }) + self.stop_bits,
    {
        let parity_bits: u32 = match self.parity {
            Parity::Off => 0,
            _ => 1,
        };
        1 + self.bits as u32 + parity_bits + self.stop_bits as u32
    }
}

/// The port takes 7 or 8 data bits; any other width is refused.
pub fn data_bits_supported(bits: u8) -> (r: bool)
    ensures
        r == (bits == 7 || bits == 8),
{
    bits == 7 || bits == 8
}

/// 115200 baud, 8 data bits, no parity, one stop bit, no flow control.
pub open spec fn default_port() -> PortConfig {
    PortConfig { baud: 115_200, parity: Parity::Off, bits: 8, flow: FlowControl::Off, stop_bits: 1 }
}

pub fn default_config() -> (c: PortConfig)
    ensures
        c == default_port(),
{
    PortConfig { baud: 115_200, parity: Parity::Off, bits: 8, flow: FlowControl::Off, stop_bits: 1 }
}

/// Options of a plain serial endpoint.
#[derive(Debug, Clone)]
pub struct SerialOpts {
    pub dev: String,
    pub baud: u32,
    pub rtscts: bool,
}

/// Options of the automatic (slave) role.
#[derive(Debug, Clone)]
pub struct AutoOpts {
    pub dev: String,
    pub repeat_timeout_ms: u64,
    pub debug: bool,
    pub inactive_timeout_ms: u64,
}

/// Options of the test (master) role; the list options are comma-separated.
#[derive(Debug, Clone)]
pub struct TestOpts {
    pub dev: String,
    pub tests: String,
    pub bauds: String,
    pub parity: String,
    pub bits: String,
    pub dir: String,
    pub flow: String,
    pub payload: usize,
    pub frames: usize,
    pub duration_ms: Option<u64>,
    pub hello_ms: u64,
    pub hello_backoff_max_ms: u64,
    pub repeat_timeout_ms: u64,
    pub repeat_hz: u32,
    pub debug: bool,
}

/// The items that `of` accepts, in order.
pub open spec fn pick<T>(items: Seq<Seq<char>>, of: spec_fn(Seq<char>) -> Option<T>) -> Seq<T>
    decreases items.len(),
{
    if items.len() == 0 {
        seq![]
    } else {
        pick(items.drop_last(), of) + match of(items.last()) {
            Some(x) => seq![x],
            None => seq![],
        }
    }
}

/// The trimmed items of a comma-separated list.
pub open spec fn list_items(s: Seq<char>) -> Seq<Seq<char>> {
    split_commas(s).map_values(|p: Seq<char>| trim(p))
}

/// `v`, or `[d]` when `v` is empty.
pub open spec fn or_default<T>(v: Seq<T>, d: T) -> Seq<T> {
    if v.len() == 0 {
        seq![d]
    } else {
        v
    }
}

pub open spec fn u8_of(p: Seq<char>) -> Option<u8> {
    match parse_uint(p, 10, u8::MAX as nat) {
        Some(n) => Some(n as u8),
        None => None,
    }
}

pub open spec fn u32_of(p: Seq<char>) -> Option<u32> {
    match parse_uint(p, 10, u32::MAX as nat) {
        Some(n) => Some(n as u32),
        None => None,
    }
}

pub open spec fn flow_named(p: Seq<char>) -> Option<FlowControl> {
    if p == "none"@ {
        Some(FlowControl::Off)
    } else if p == "rtscts"@ {
        Some(FlowControl::RtsCts)
    } else {
        None
    }
}

pub open spec fn dir_named(p: Seq<char>) -> Option<Direction> {
    if p == "tx"@ {
        Some(Direction::Tx)
    } else if p == "rx"@ {
        Some(Direction::Rx)
    } else if p == "both"@ {
        Some(Direction::Both)
    } else {
        None
    }
}

pub open spec fn parity_named(p: Seq<char>) -> Option<Parity> {
    if p == "none"@ {
        Some(Parity::Off)
    } else if p == "even"@ {
        Some(Parity::Even)
    } else if p == "odd"@ {
        Some(Parity::Odd)
    } else {
        None
    }
}

pub open spec fn test_named(p: Seq<char>) -> Option<TestName> {
    if p == "max-rate"@ {
        Some(TestName::MaxRate)
    } else if p == "fifo-residue"@ {
        Some(TestName::FifoResidue)
    } else {
        None
    }
}

/// Every rate that `*` selects.
pub open spec fn all_bauds() -> Seq<u32> {
    seq![9_600, 19_200, 38_400, 57_600, 115_200, 230_400, 460_800, 921_600, 1_000_000, 1_500_000, 3_000_000]
}

/// One configuration per flow control, with one stop bit.
pub open spec fn flow_row(baud: u32, parity: Parity, bits: u8, flows: Seq<FlowControl>) -> Seq<
    PortConfig,
> {
    flows.map_values(|f: FlowControl| PortConfig { baud, parity, bits, flow: f, stop_bits: 1 })
}

pub open spec fn bits_rows(baud: u32, parity: Parity, bits: Seq<u8>, flows: Seq<FlowControl>) -> Seq<
    PortConfig,
>
    decreases bits.len(),
{
    if bits.len() == 0 {
        seq![]
    } else {
        bits_rows(baud, parity, bits.drop_last(), flows) + flow_row(baud, parity, bits.last(), flows)
    }
}

pub open spec fn parity_rows(
    baud: u32,
    parities: Seq<Parity>,
    bits: Seq<u8>,
    flows: Seq<FlowControl>,
) -> Seq<PortConfig>
    decreases parities.len(),
{
    if parities.len() == 0 {
        seq![]
    } else {
        parity_rows(baud, parities.drop_last(), bits, flows) + bits_rows(
            baud,
            parities.last(),
            bits,
            flows,
        )
    }
}

/// Every combination of the settings, bauds outermost and flow controls innermost.
pub open spec fn config_matrix(
    bauds: Seq<u32>,
    parities: Seq<Parity>,
    bits: Seq<u8>,
    flows: Seq<FlowControl>,
) -> Seq<PortConfig>
    decreases bauds.len(),
{
    if bauds.len() == 0 {
        seq![]
    } else {
        config_matrix(bauds.drop_last(), parities, bits, flows) + parity_rows(
            bauds.last(),
            parities,
            bits,
            flows,
        )
    }
}

fn configs_of(bauds: &Vec<u32>, parities: &Vec<Parity>, bits: &Vec<u8>, flows: &Vec<FlowControl>) -> (r:
    Vec<PortConfig>)
    ensures
        r@ == config_matrix(bauds@, parities@, bits@, flows@),
{
    let mut configs: Vec<PortConfig> = Vec::new();
    let mut a: usize = 0;
    assert(bauds@.take(0) =~= Seq::<u32>::empty());
    while a < bauds.len()
        invariant
            a <= bauds@.len(),
            configs@ == config_matrix(bauds@.take(a as int), parities@, bits@, flows@),
        decreases bauds@.len() - a,
    {
        let ghost base_a = configs@;
        let mut b: usize = 0;
        assert(parities@.take(0) =~= Seq::<Parity>::empty());
        assert(configs@ =~= base_a + parity_rows(bauds@[a as int], parities@.take(0), bits@, flows@));
        while b < parities.len()
            invariant
                a < bauds@.len(),
                b <= parities@.len(),
                configs@ == base_a + parity_rows(bauds@[a as int], parities@.take(b as int), bits@, flows@),
            decreases parities@.len() - b,
        {
            let ghost base_b = configs@;
            let mut c: usize = 0;
            assert(bits@.take(0) =~= Seq::<u8>::empty());
            assert(configs@ =~= base_b + bits_rows(bauds@[a as int], parities@[b as int], bits@.take(0), flows@));
            while c < bits.len()
                invariant
                    a < bauds@.len(),
                    b < parities@.len(),
                    c <= bits@.len(),
                    configs@ == base_b + bits_rows(bauds@[a as int], parities@[b as int], bits@.take(c as int), flows@),
                decreases bits@.len() - c,
            {
                let ghost base_c = configs@;
                let mut d: usize = 0;
                assert(configs@ =~= base_c + flow_row(bauds@[a as int], parities@[b as int], bits@[c as int], flows@.take(0)));
                while d < flows.len()
                    invariant
                        a < bauds@.len(),
                        b < parities@.len(),
                        c < bits@.len(),
                        d <= flows@.len(),
                        configs@ == base_c + flow_row(bauds@[a as int], parities@[b as int], bits@[c as int], flows@.take(d as int)),
                    decreases flows@.len() - d,
                {
                    configs.push(PortConfig { baud: bauds[a], parity: parities[b], bits: bits[c], flow: flows[d], stop_bits: 1 });
                    d = d + 1;
                    assert(configs@ =~= base_c + flow_row(bauds@[a as int], parities@[b as int], bits@[c as int], flows@.take(d as int)));
                }
                assert(flows@.take(d as int) =~= flows@);
                let ghost t = bits@.take(c + 1);
                assert(t.drop_last() =~= bits@.take(c as int));
                assert(t.last() == bits@[c as int]);
                c = c + 1;
                assert(configs@ =~= base_b + bits_rows(bauds@[a as int], parities@[b as int], bits@.take(c as int), flows@));
            }
            assert(bits@.take(c as int) =~= bits@);
            let ghost t = parities@.take(b + 1);
            assert(t.drop_last() =~= parities@.take(b as int));
            assert(t.last() == parities@[b as int]);
            b = b + 1;
            assert(configs@ =~= base_a + parity_rows(bauds@[a as int], parities@.take(b as int), bits@, flows@));
        }
        assert(parities@.take(b as int) =~= parities@);
        let ghost t = bauds@.take(a + 1);
        assert(t.drop_last() =~= bauds@.take(a as int));
        assert(t.last() == bauds@[a as int]);
        a = a + 1;
        assert(configs@ =~= config_matrix(bauds@.take(a as int), parities@, bits@, flows@));
    }
    assert(bauds@.take(a as int) =~= bauds@);
    configs
}

impl TestOpts {
    /// The data-bit counts of `bits`; `[8]` when none parses.
    pub open spec fn bits_list(&self) -> Seq<u8> {
        or_default(pick(list_items(self.bits@), |p: Seq<char>| u8_of(p)), 8u8)
    }

    /// The flow controls named in `flow`; `[Off]` when none is.
    pub open spec fn flow_list(&self) -> Seq<FlowControl> {
        or_default(pick(list_items(self.flow@), |p: Seq<char>| flow_named(p)), FlowControl::Off)
    }

    /// The parities named in `parity`; `[Off]` when none is.
    pub open spec fn parity_list(&self) -> Seq<Parity> {
        or_default(pick(list_items(self.parity@), |p: Seq<char>| parity_named(p)), Parity::Off)
    }

    /// Every standard rate for `*`; otherwise the numbers of `bauds` (underscores
    /// ignored), or `[115200]` when none parses.
    pub open spec fn baud_list(&self) -> Seq<u32> {
        if trim(self.bauds@) == "*"@ {
            all_bauds()
        } else {
            or_default(
                pick(list_items(self.bauds@.filter(|c: char| c != '_')), |p: Seq<char>| u32_of(p)),
                115_200u32,
            )
        }
    }

    /// Every combination of the selected bauds, parities, data bits and flow
    /// controls, or the default configuration when there is none.
    pub fn get_port_configs(&self) -> (r: Vec<PortConfig>)
        ensures
            r@ == or_default(
                config_matrix(self.baud_list(), self.parity_list(), self.bits_list(), self.flow_list()),
                default_port(),
            ),
    {
        let bauds = self.get_baud_rates();
        let parities = self.get_parities();
        let bits_list = self.get_bits();
        let flows = self.get_flow_controls();
        let configs = configs_of(&bauds, &parities, &bits_list, &flows);
        if configs.len() == 0 {
            let d = vec![default_config()];
            assert(d@ =~= seq![default_port()]);
            d
        } else {
            configs
        }
    }

    /// Data-bit counts; `[8]` when none parses.
    pub fn get_bits(&self) -> (r: Vec<u8>)
        ensures
            r@ == self.bits_list(),
    {
        let v = chars_of(self.bits.as_str());
        let items = comma_items(&v);
        let mut r: Vec<u8> = Vec::new();
        let mut i: usize = 0;
        let ghost texts = span_text(v@, items@);
        assert(texts.take(0) =~= Seq::<Seq<char>>::empty());
        while i < items.len()
            invariant
                i <= items@.len(),
                spans_in(v@, items@),
                texts == span_text(v@, items@),
                r@ == pick(texts.take(i as int), |p: Seq<char>| u8_of(p)),
            decreases items@.len() - i,
        {
            let (lo, hi) = items[i];
            let ghost t = texts.take(i + 1);
            proof {
                assert(t.drop_last() =~= texts.take(i as int));
                assert(t.last() == v@.subrange(lo as int, hi as int));
            }
            let x: Option<u8> = match parse_uint_span(&v, lo, hi, 10, 255) {
                Some(n) => Some(n as u8),
                None => None,
            };
            match x {
                Some(y) => {
                    r.push(y);
                },
                None => {},
            }
            assert(r@ =~= pick(t, |p: Seq<char>| u8_of(p)));
            i = i + 1;
        }
        assert(texts.take(i as int) =~= texts);
        if r.len() == 0 {
            let d: Vec<u8> = vec![8];
            assert(d@ =~= seq![8u8]);
            d
        } else {
            r
        }
    }

    /// Flow controls named `none` or `rtscts`; `[Off]` when none is.
    pub fn get_flow_controls(&self) -> (r: Vec<FlowControl>)
        ensures
            r@ == self.flow_list(),
    {
        let v = chars_of(self.flow.as_str());
        let items = comma_items(&v);
        let mut r: Vec<FlowControl> = Vec::new();
        let mut i: usize = 0;
        let ghost texts = span_text(v@, items@);
        assert(texts.take(0) =~= Seq::<Seq<char>>::empty());
        while i < items.len()
            invariant
                i <= items@.len(),
                spans_in(v@, items@),
                texts == span_text(v@, items@),
                r@ == pick(texts.take(i as int), |p: Seq<char>| flow_named(p)),
            decreases items@.len() - i,
        {
            let (lo, hi) = items[i];
            let ghost t = texts.take(i + 1);
            proof {
                assert(t.drop_last() =~= texts.take(i as int));
                assert(t.last() == v@.subrange(lo as int, hi as int));
            }
            let x: Option<FlowControl> = if span_is(&v, lo, hi, "none") {
                Some(FlowControl::Off)
            } else if span_is(&v, lo, hi, "rtscts") {
                Some(FlowControl::RtsCts)
            } else {
                None
            };
            match x {
                Some(y) => {
                    r.push(y);
                },
                None => {},
            }
            assert(r@ =~= pick(t, |p: Seq<char>| flow_named(p)));
            i = i + 1;
        }
        assert(texts.take(i as int) =~= texts);
        if r.len() == 0 {
            let d: Vec<FlowControl> = vec![FlowControl::Off];
            assert(d@ =~= seq![FlowControl::Off]);
            d
        } else {
            r
        }
    }

    /// Directions named `tx`, `rx` or `both`; `[Tx]` when none is.
    pub fn get_dirs(&self) -> (r: Vec<Direction>)
        ensures
            r@ == or_default(
                pick(list_items(self.dir@), |p: Seq<char>| dir_named(p)),
                Direction::Tx,
            ),
    {
        let v = chars_of(self.dir.as_str());
        let items = comma_items(&v);
        let mut r: Vec<Direction> = Vec::new();
        let mut i: usize = 0;
        let ghost texts = span_text(v@, items@);
        assert(texts.take(0) =~= Seq::<Seq<char>>::empty());
        while i < items.len()
            invariant
                i <= items@.len(),
                spans_in(v@, items@),
                texts == span_text(v@, items@),
                r@ == pick(texts.take(i as int), |p: Seq<char>| dir_named(p)),
            decreases items@.len() - i,
        {
            let (lo, hi) = items[i];
            let ghost t = texts.take(i + 1);
            proof {
                assert(t.drop_last() =~= texts.take(i as int));
                assert(t.last() == v@.subrange(lo as int, hi as int));
            }
            let x: Option<Direction> = if span_is(&v, lo, hi, "tx") {
                Some(Direction::Tx)
            } else if span_is(&v, lo, hi, "rx") {
                Some(Direction::Rx)
            } else if span_is(&v, lo, hi, "both") {
                Some(Direction::Both)
            } else {
                None
            };
            match x {
                Some(y) => {
                    r.push(y);
                },
                None => {},
            }
            assert(r@ =~= pick(t, |p: Seq<char>| dir_named(p)));
            i = i + 1;
        }
        assert(texts.take(i as int) =~= texts);
        if r.len() == 0 {
            let d: Vec<Direction> = vec![Direction::Tx];
            assert(d@ =~= seq![Direction::Tx]);
            d
        } else {
            r
        }
    }

    /// Parities named `none`, `even` or `odd`; `[Off]` when none is.
    pub fn get_parities(&self) -> (r: Vec<Parity>)
        ensures
            r@ == self.parity_list(),
    {
        let v = chars_of(self.parity.as_str());
        let items = comma_items(&v);
        let mut r: Vec<Parity> = Vec::new();
        let mut i: usize = 0;
        let ghost texts = span_text(v@, items@);
        assert(texts.take(0) =~= Seq::<Seq<char>>::empty());
        while i < items.len()
            invariant
                i <= items@.len(),
                spans_in(v@, items@),
                texts == span_text(v@, items@),
                r@ == pick(texts.take(i as int), |p: Seq<char>| parity_named(p)),
            decreases items@.len() - i,
        {
            let (lo, hi) = items[i];
            let ghost t = texts.take(i + 1);
            proof {
                assert(t.drop_last() =~= texts.take(i as int));
                assert(t.last() == v@.subrange(lo as int, hi as int));
            }
            let x: Option<Parity> = if span_is(&v, lo, hi, "none") {
                Some(Parity::Off)
            } else if span_is(&v, lo, hi, "even") {
                Some(Parity::Even)
            } else if span_is(&v, lo, hi, "odd") {
                Some(Parity::Odd)
            } else {
                None
            };
            match x {
                Some(y) => {
                    r.push(y);
                },
                None => {},
            }
            assert(r@ =~= pick(t, |p: Seq<char>| parity_named(p)));
            i = i + 1;
        }
        assert(texts.take(i as int) =~= texts);
        if r.len() == 0 {
            let d: Vec<Parity> = vec![Parity::Off];
            assert(d@ =~= seq![Parity::Off]);
            d
        } else {
            r
        }
    }

    /// Baud rates: every standard one for `*`; otherwise the numbers of the list
    /// (underscores ignored), or `[115200]` when none parses.
    pub fn get_baud_rates(&self) -> (r: Vec<u32>)
        ensures
            r@ == self.baud_list(),
    {
        let raw = chars_of(self.bauds.as_str());
        let (a, b) = trim_span(&raw, 0, raw.len());
        assert(raw@.subrange(0, raw@.len() as int) =~= raw@);
        if span_is(&raw, a, b, "*") {
            let all: Vec<u32> = vec![9_600, 19_200, 38_400, 57_600, 115_200, 230_400, 460_800, 921_600, 1_000_000, 1_500_000, 3_000_000];
            assert(all@ =~= all_bauds());
            return all;
        }
        let mut v: Vec<char> = Vec::new();
        let mut j: usize = 0;
        while j < raw.len()
            invariant
                j <= raw@.len(),
                v@ == raw@.take(j as int).filter(|c: char| c != '_'),
            decreases raw@.len() - j,
        {
            proof {
                reveal_with_fuel(Seq::filter, 1);
                assert(raw@.take(j + 1).drop_last() =~= raw@.take(j as int));
            }
            if raw[j] != '_' {
                v.push(raw[j]);
            }
            j = j + 1;
        }
        assert(raw@.take(j as int) =~= raw@);
        let items = comma_items(&v);
        let mut r: Vec<u32> = Vec::new();
        let mut i: usize = 0;
        let ghost texts = span_text(v@, items@);
        assert(texts.take(0) =~= Seq::<Seq<char>>::empty());
        while i < items.len()
            invariant
                i <= items@.len(),
                spans_in(v@, items@),
                texts == span_text(v@, items@),
                r@ == pick(texts.take(i as int), |p: Seq<char>| u32_of(p)),
            decreases items@.len() - i,
        {
            let (lo, hi) = items[i];
            let ghost t = texts.take(i + 1);
            proof {
                assert(t.drop_last() =~= texts.take(i as int));
                assert(t.last() == v@.subrange(lo as int, hi as int));
            }
            let x: Option<u32> = match parse_uint_span(&v, lo, hi, 10, u32::MAX as u64) {
                Some(n) => Some(n as u32),
                None => None,
            };
            match x {
                Some(y) => {
                    r.push(y);
                },
                None => {},
            }
            assert(r@ =~= pick(t, |p: Seq<char>| u32_of(p)));
            i = i + 1;
        }
        assert(texts.take(i as int) =~= texts);
        if r.len() == 0 {
            let d: Vec<u32> = vec![115_200];
            assert(d@ =~= seq![115_200u32]);
            d
        } else {
            r
        }
    }

    /// Test names: both for `*`, otherwise those of the list that are known (possibly none).
    pub fn get_test_names(&self) -> (r: Vec<TestName>)
        ensures
            trim(self.tests@) == "*"@ ==> r@ == seq![TestName::MaxRate, TestName::FifoResidue],
            trim(self.tests@) != "*"@ ==> r@ == pick(list_items(self.tests@), |p: Seq<char>| test_named(p)),
    {
        let v = chars_of(self.tests.as_str());
        let (a, b) = trim_span(&v, 0, v.len());
        assert(v@.subrange(0, v@.len() as int) =~= v@);
        if span_is(&v, a, b, "*") {
            let all: Vec<TestName> = vec![TestName::MaxRate, TestName::FifoResidue];
            assert(all@ =~= seq![TestName::MaxRate, TestName::FifoResidue]);
            return all;
        }
        let items = comma_items(&v);
        let mut r: Vec<TestName> = Vec::new();
        let mut i: usize = 0;
        let ghost texts = span_text(v@, items@);
        assert(texts.take(0) =~= Seq::<Seq<char>>::empty());
        while i < items.len()
            invariant
                i <= items@.len(),
                spans_in(v@, items@),
                texts == span_text(v@, items@),
                r@ == pick(texts.take(i as int), |p: Seq<char>| test_named(p)),
            decreases items@.len() - i,
        {
            let (lo, hi) = items[i];
            let ghost t = texts.take(i + 1);
            proof {
                assert(t.drop_last() =~= texts.take(i as int));
                assert(t.last() == v@.subrange(lo as int, hi as int));
            }
            let x: Option<TestName> = if span_is(&v, lo, hi, "max-rate") {
                Some(TestName::MaxRate)
            } else if span_is(&v, lo, hi, "fifo-residue") {
                Some(TestName::FifoResidue)
            } else {
                None
            };
            match x {
                Some(y) => {
                    r.push(y);
                },
                None => {},
            }
            assert(r@ =~= pick(t, |p: Seq<char>| test_named(p)));
            i = i + 1;
        }
        assert(texts.take(i as int) =~= texts);
        r
    }
}

} // verus!
