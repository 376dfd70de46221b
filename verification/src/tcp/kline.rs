//! The K-line request and the decoder for its response: a bar count, then
//! per bar a packed datetime, four delta-encoded prices sharing one running
//! base that persists across the bars of a response, and two packed-volume
//! fields.

use vstd::prelude::*;

verus! {

use vstd::string::StringExecFns;
use vstd::string::StringSliceAdditionalSpecFns;
use crate::bytes_helper::u16_from_le_bytes;
use crate::bytes_helper::u32_from_le_bytes;
use crate::file::day::u32_le_at;
use crate::file::lc::u16_le_at;
use crate::tcp::basic::{spec_with_u16_at, set_u16_at};
use crate::tcp::helper::{
    DateTime,
    datetime,
    spec_datetime,
    price_checked,
    spec_price_ok,
    spec_price_value,
    spec_price_end,
    VolAmount,
    vol_amount,
    spec_vol_mantissa,
    spec_vol_exp,
};
use crate::Error;

/// One decoded K-line bar.
///
/// The four prices are in thousandths of a currency unit, as the delta
/// stream carries them; the consumer divides by 1,000.
#[derive(Debug, Clone, Copy, PartialEq, Eq)]
pub struct KlineData {
    /// The bar's date and time.
    pub dt: DateTime,
    /// Opening price in thousandths.
    pub open: i32,
    /// Closing price in thousandths.
    pub close: i32,
    /// Highest price in thousandths.
    pub high: i32,
    /// Lowest price in thousandths.
    pub low: i32,
    /// Traded volume, packed-volume encoded.
    pub vol: VolAmount,
    /// Turnover, packed-volume encoded.
    pub amount: VolAmount,
}

impl Default for KlineData {
    /// An all-zero bar at the default time.
    fn default() -> (r: Self)
        ensures
            r == (KlineData {
                dt: DateTime { year: 0, month: 0, day: 0, hour: 15, minute: 0 },
                open: 0,
                close: 0,
                high: 0,
                low: 0,
                vol: VolAmount { mantissa: 0, exp2: 0 },
                amount: VolAmount { mantissa: 0, exp2: 0 },
            }),
    {
        KlineData {
            dt: DateTime { year: 0, month: 0, day: 0, hour: 15, minute: 0 },
            open: 0,
            close: 0,
            high: 0,
            low: 0,
            vol: VolAmount { mantissa: 0, exp2: 0 },
            amount: VolAmount { mantissa: 0, exp2: 0 },
        }
    }
}

/// A value fits a 32-bit signed integer.
pub open spec fn spec_in_i32(x: int) -> bool {
    -0x80000000 <= x < 0x80000000
}

/// What one bar decodes to at `pos` with running base `base`: the bar, the
/// position after it, and the new base. Nothing when the bytes are
/// malformed: a truncated field, an unfit price chain, or a price outside
/// the 32-bit range.
pub open spec fn spec_kline_step(b: Seq<u8>, pos: int, base: int, category: u16) -> Option<
    (KlineData, int, int),
> {
    if pos + 4 > b.len() {
        None
    } else {
        let dt = spec_datetime(b.subrange(pos, pos + 4), category);
        let p1 = pos + 4;
        if !spec_price_ok(b, p1) {
            None
        } else {
            let od = spec_price_value(b, p1);
            let p2 = spec_price_end(b, p1);
            if !spec_price_ok(b, p2) {
                None
            } else {
                let cd = spec_price_value(b, p2);
                let p3 = spec_price_end(b, p2);
                if !spec_price_ok(b, p3) {
                    None
                } else {
                    let hd = spec_price_value(b, p3);
                    let p4 = spec_price_end(b, p3);
                    if !spec_price_ok(b, p4) {
                        None
                    } else {
                        let ld = spec_price_value(b, p4);
                        let p5 = spec_price_end(b, p4);
                        let base1 = base + od;
                        if !(spec_in_i32(base1) && spec_in_i32(base1 + cd) && spec_in_i32(
                            base1 + hd,
                        ) && spec_in_i32(base1 + ld)) {
                            None
                        } else if p5 + 8 > b.len() {
                            None
                        } else {
                            let uv = u32_le_at(b, p5);
                            let ua = u32_le_at(b, p5 + 4);
                            Some(
                                (
                                    KlineData {
                                        dt,
                                        open: base1 as i32,
                                        close: (base1 + cd) as i32,
                                        high: (base1 + hd) as i32,
                                        low: (base1 + ld) as i32,
                                        vol: VolAmount {
                                            mantissa: spec_vol_mantissa(uv) as u32,
                                            exp2: spec_vol_exp(uv) as i32,
                                        },
                                        amount: VolAmount {
                                            mantissa: spec_vol_mantissa(ua) as u32,
                                            exp2: spec_vol_exp(ua) as i32,
                                        },
                                    },
                                    p5 + 8,
                                    base1 + cd,
                                ),
                            )
                        }
                    }
                }
            }
        }
    }
}

/// What `n` bars decode to from `pos` with running base `base`; nothing
/// when any bar is malformed.
pub open spec fn spec_kline_bars(b: Seq<u8>, pos: int, base: int, n: nat, category: u16) -> Option<
    Seq<KlineData>,
>
    decreases n,
{
    if n == 0 {
        Some(Seq::empty())
    } else {
        match spec_kline_step(b, pos, base, category) {
            None => None,
            Some(s) => match spec_kline_bars(b, s.1, s.2, (n - 1) as nat, category) {
                None => None,
                Some(rest) => Some(seq![s.0] + rest),
            },
        }
    }
}

/// What a whole K-line response decodes to when `count` bars were asked
/// for: the response must declare exactly `count` bars and carry them all,
/// the price base starting at zero.
pub open spec fn spec_kline_parse(b: Seq<u8>, count: u16, category: u16) -> Option<Seq<KlineData>> {
    if b.len() < 2 {
        None
    } else if u16_le_at(b, 0) != count {
        None
    } else {
        spec_kline_bars(b, 2, 0, count as nat, category)
    }
}

/// Decode one bar at `*pos`, threading the running price base.
fn parse_bar(v: &[u8], pos: &mut usize, base: &mut i32, category: u16) -> (r: Option<KlineData>)
    requires
        *old(pos) <= v@.len(),
    ensures
        match r {
            Some(bar) => {
                &&& spec_kline_step(v@, *old(pos) as int, *old(base) as int, category) == Some(
                    (bar, *final(pos) as int, *final(base) as int),
                )
                &&& *final(pos) <= v@.len()
            },
            None => spec_kline_step(v@, *old(pos) as int, *old(base) as int, category) is None,
        },
{
    let n: usize = v.len();
    if n - *pos < 4 {
        return None;
    }
    let dts = vstd::slice::slice_subrange(v, *pos, *pos + 4);
    let dt = datetime(dts, category);
    proof {
        assert(dts@.subrange(0, 4) =~= v@.subrange(*pos as int, *pos + 4));
    }
    *pos = *pos + 4;
    let od = match price_checked(v, pos) {
        Some(d) => d,
        None => {
            return None;
        },
    };
    let cd = match price_checked(v, pos) {
        Some(d) => d,
        None => {
            return None;
        },
    };
    let hd = match price_checked(v, pos) {
        Some(d) => d,
        None => {
            return None;
        },
    };
    let ld = match price_checked(v, pos) {
        Some(d) => d,
        None => {
            return None;
        },
    };
    let base1: i64 = *base as i64 + od as i64;
    let close1: i64 = base1 + cd as i64;
    let high1: i64 = base1 + hd as i64;
    let low1: i64 = base1 + ld as i64;
    if base1 < i32::MIN as i64 || base1 > i32::MAX as i64 || close1 < i32::MIN as i64 || close1
        > i32::MAX as i64 || high1 < i32::MIN as i64 || high1 > i32::MAX as i64 || low1
        < i32::MIN as i64 || low1 > i32::MAX as i64 {
        return None;
    }
    if n - *pos < 8 {
        return None;
    }
    let uv = u32_from_le_bytes(v, *pos);
    let ua = u32_from_le_bytes(v, *pos + 4);
    proof {
        assert(#[verifier::truncate] ((#[verifier::truncate] (uv as i32)) as u32) == uv)
            by (bit_vector);
        assert(#[verifier::truncate] ((#[verifier::truncate] (ua as i32)) as u32) == ua)
            by (bit_vector);
    }
    let vol = vol_amount(#[verifier::truncate] (uv as i32));
    let amount = vol_amount(#[verifier::truncate] (ua as i32));
    *pos = *pos + 8;
    *base = close1 as i32;
    Some(
        KlineData {
            dt,
            open: base1 as i32,
            close: close1 as i32,
            high: high1 as i32,
            low: low1 as i32,
            vol,
            amount,
        },
    )
}

/// The request template, 38 bytes: the market at offset 12, the six code
/// bytes at 14..20, the category at 20, the start at 24 and the count at
/// 26 (the template asks for three daily bars of Shenzhen 000001).
pub open spec fn spec_kline_send() -> Seq<u8> {
    seq![
        0x0cu8,
        0x01,
        0x08,
        0x64,
        0x01,
        0x01,
        0x1c,
        0x00,
        0x1c,
        0x00,
        0x2d,
        0x05,
        0x00,
        0x00,
        0x30,
        0x30,
        0x30,
        0x30,
        0x30,
        0x31,
        0x09,
        0x00,
        0x01,
        0x00,
        0x00,
        0x00,
        0x03,
        0x00,
        0x00,
        0x00,
        0x00,
        0x00,
        0x00,
        0x00,
        0x00,
        0x00,
        0x00,
        0x00,
    ]
}

fn kline_send() -> (v: Vec<u8>)
    ensures
        v@ == spec_kline_send(),
{
    let v: Vec<u8> = vec![
        0x0c,
        0x01,
        0x08,
        0x64,
        0x01,
        0x01,
        0x1c,
        0x00,
        0x1c,
        0x00,
        0x2d,
        0x05,
        0x00,
        0x00,
        0x30,
        0x30,
        0x30,
        0x30,
        0x30,
        0x31,
        0x09,
        0x00,
        0x01,
        0x00,
        0x00,
        0x00,
        0x03,
        0x00,
        0x00,
        0x00,
        0x00,
        0x00,
        0x00,
        0x00,
        0x00,
        0x00,
        0x00,
        0x00,
    ];
    proof {
        assert(v@ =~= spec_kline_send());
    }
    v
}

/// A byte sequence with six bytes written over offsets `pos..pos + 6`.
pub open spec fn spec_with_code_at(s: Seq<u8>, pos: int, code: Seq<u8>) -> Seq<u8> {
    s.subrange(0, pos) + code + s.subrange(pos + 6, s.len() as int)
}

/// The K-line request: up to `count` bars of one category for one
/// instrument, ending at index `start` from the newest bar.
#[derive(Debug, Clone)]
pub struct Kline {
    /// The bytes to send.
    pub send: Vec<u8>,
    /// 0 Shenzhen, 1 Shanghai.
    pub market: u16,
    /// The six-character code the request asks about.
    pub code: String,
    /// Bar category.
    pub category: u16,
    /// Index of the newest bar asked for.
    pub start: u16,
    /// Number of bars asked for, at most 800 by the protocol.
    pub count: u16,
    /// The last raw response.
    pub response: Vec<u8>,
    /// The decoded bars of the last response.
    pub data: Vec<KlineData>,
}

impl Default for Kline {
    /// The unmodified request template: three daily bars of Shenzhen
    /// 000001, with three default bars as placeholder data.
    fn default() -> (r: Self)
        ensures
            r.send@ == spec_kline_send(),
            r.market == 0,
            r.code@ == "000001"@,
            r.category == 9,
            r.start == 0,
            r.count == 3,
            r.response@.len() == 0,
            r.data@.len() == 3,
    {
        let send = kline_send();
        let mut data: Vec<KlineData> = Vec::new();
        data.push(KlineData::default());
        data.push(KlineData::default());
        data.push(KlineData::default());
        Kline {
            send,
            market: 0,
            code: String::from_str("000001"),
            category: 9,
            start: 0,
            count: 3,
            response: Vec::new(),
            data,
        }
    }
}

impl Kline {
    /// Build the request. The code must be six ASCII characters.
    pub fn new(market: u16, code: &str, category: u16, start: u16, count: u16) -> (r: Kline)
        requires
            code@.len() == 6,
            code.is_ascii(),
        ensures
            r.market == market,
            r.code@ == code@,
            r.category == category,
            r.start == start,
            r.count == count,
            r.response@.len() == 0,
            r.data@.len() == count,
            forall|i: int|
                0 <= i < count ==> r.data@[i] == (KlineData {
                    dt: DateTime { year: 0, month: 0, day: 0, hour: 15, minute: 0 },
                    open: 0,
                    close: 0,
                    high: 0,
                    low: 0,
                    vol: VolAmount { mantissa: 0, exp2: 0 },
                    amount: VolAmount { mantissa: 0, exp2: 0 },
                }),
            r.send@ == spec_with_u16_at(
                spec_with_u16_at(
                    spec_with_u16_at(
                        spec_with_code_at(
                            spec_with_u16_at(spec_kline_send(), 12, market),
                            14,
                            code.spec_bytes(),
                        ),
                        20,
                        category,
                    ),
                    24,
                    start,
                ),
                26,
                count,
            ),
    {
        let mut send = kline_send();
        set_u16_at(&mut send, 12, market);
        let cb = code.as_bytes();
        let ghost mid = send@;
        send.set(14, *vstd::slice::slice_index_get(cb, 0));
        send.set(15, *vstd::slice::slice_index_get(cb, 1));
        send.set(16, *vstd::slice::slice_index_get(cb, 2));
        send.set(17, *vstd::slice::slice_index_get(cb, 3));
        send.set(18, *vstd::slice::slice_index_get(cb, 4));
        send.set(19, *vstd::slice::slice_index_get(cb, 5));
        proof {
            vstd::string::is_ascii_spec_bytes(code);
            assert(send@ =~= spec_with_code_at(mid, 14, code.spec_bytes()));
        }
        set_u16_at(&mut send, 20, category);
        set_u16_at(&mut send, 24, start);
        set_u16_at(&mut send, 26, count);
        let mut data: Vec<KlineData> = Vec::new();
        let mut i: usize = 0;
        while i < count as usize
            invariant
                i <= count,
                data@.len() == i,
                forall|t: int|
                    0 <= t < i ==> data@[t] == (KlineData {
                        dt: DateTime { year: 0, month: 0, day: 0, hour: 15, minute: 0 },
                        open: 0,
                        close: 0,
                        high: 0,
                        low: 0,
                        vol: VolAmount { mantissa: 0, exp2: 0 },
                        amount: VolAmount { mantissa: 0, exp2: 0 },
                    }),
            decreases count - i,
        {
            data.push(KlineData::default());
            i = i + 1;
        }
        Kline {
            send,
            market,
            code: String::from_str(code),
            category,
            start,
            count,
            response: Vec::new(),
            data,
        }
    }

    /// Change the market of the request in place.
    pub fn market(&mut self, market: u16)
        requires
            old(self).send@.len() >= 14,
        ensures
            final(self).market == market,
            final(self).send@ == spec_with_u16_at(old(self).send@, 12, market),
            final(self).code == old(self).code,
            final(self).category == old(self).category,
            final(self).start == old(self).start,
            final(self).count == old(self).count,
            final(self).response == old(self).response,
            final(self).data == old(self).data,
    {
        self.market = market;
        set_u16_at(&mut self.send, 12, market);
    }

    /// Change the code of the request in place. The code must be six
    /// ASCII characters.
    pub fn code(&mut self, code: &str)
        requires
            old(self).send@.len() >= 20,
            code@.len() == 6,
            code.is_ascii(),
        ensures
            final(self).code@ == code@,
            final(self).send@ == spec_with_code_at(old(self).send@, 14, code.spec_bytes()),
            final(self).market == old(self).market,
            final(self).category == old(self).category,
            final(self).start == old(self).start,
            final(self).count == old(self).count,
            final(self).response == old(self).response,
            final(self).data == old(self).data,
    {
        let cb = code.as_bytes();
        let ghost mid = self.send@;
        self.send.set(14, *vstd::slice::slice_index_get(cb, 0));
        self.send.set(15, *vstd::slice::slice_index_get(cb, 1));
        self.send.set(16, *vstd::slice::slice_index_get(cb, 2));
        self.send.set(17, *vstd::slice::slice_index_get(cb, 3));
        self.send.set(18, *vstd::slice::slice_index_get(cb, 4));
        self.send.set(19, *vstd::slice::slice_index_get(cb, 5));
        proof {
            vstd::string::is_ascii_spec_bytes(code);
            assert(self.send@ =~= spec_with_code_at(mid, 14, code.spec_bytes()));
        }
        self.code = String::from_str(code);
    }

    /// Change the category of the request in place.
    pub fn category(&mut self, category: u16)
        requires
            old(self).send@.len() >= 22,
        ensures
            final(self).category == category,
            final(self).send@ == spec_with_u16_at(old(self).send@, 20, category),
            final(self).market == old(self).market,
            final(self).code == old(self).code,
            final(self).start == old(self).start,
            final(self).count == old(self).count,
            final(self).response == old(self).response,
            final(self).data == old(self).data,
    {
        self.category = category;
        set_u16_at(&mut self.send, 20, category);
    }

    /// Change the start index of the request in place.
    pub fn start(&mut self, start: u16)
        requires
            old(self).send@.len() >= 26,
        ensures
            final(self).start == start,
            final(self).send@ == spec_with_u16_at(old(self).send@, 24, start),
            final(self).market == old(self).market,
            final(self).code == old(self).code,
            final(self).category == old(self).category,
            final(self).count == old(self).count,
            final(self).response == old(self).response,
            final(self).data == old(self).data,
    {
        self.start = start;
        set_u16_at(&mut self.send, 24, start);
    }

    /// Change the bar count of the request in place, resizing the decoded
    /// data to match: kept bars stay, added slots are default bars.
    pub fn count(&mut self, count: u16)
        requires
            old(self).send@.len() >= 28,
        ensures
            final(self).count == count,
            final(self).send@ == spec_with_u16_at(old(self).send@, 26, count),
            final(self).data@.len() == count,
            forall|i: int|
                0 <= i < count ==> final(self).data@[i] == if i < old(self).data@.len() {
                    old(self).data@[i]
                } else {
                    KlineData {
                        dt: DateTime { year: 0, month: 0, day: 0, hour: 15, minute: 0 },
                        open: 0,
                        close: 0,
                        high: 0,
                        low: 0,
                        vol: VolAmount { mantissa: 0, exp2: 0 },
                        amount: VolAmount { mantissa: 0, exp2: 0 },
                    }
                },
            final(self).market == old(self).market,
            final(self).code == old(self).code,
            final(self).category == old(self).category,
            final(self).start == old(self).start,
            final(self).response == old(self).response,
    {
        let mut data: Vec<KlineData> = Vec::new();
        let mut i: usize = 0;
        while i < count as usize
            invariant
                i <= count,
                data@.len() == i,
                forall|t: int|
                    0 <= t < i ==> data@[t] == if t < self.data@.len() {
                        self.data@[t]
                    } else {
                        KlineData {
                            dt: DateTime { year: 0, month: 0, day: 0, hour: 15, minute: 0 },
                            open: 0,
                            close: 0,
                            high: 0,
                            low: 0,
                            vol: VolAmount { mantissa: 0, exp2: 0 },
                            amount: VolAmount { mantissa: 0, exp2: 0 },
                        }
                    },
                *self == *old(self),
            decreases count - i,
        {
            if i < self.data.len() {
                data.push(self.data[i]);
            } else {
                data.push(KlineData::default());
            }
            i = i + 1;
        }
        self.data = data;
        self.count = count;
        set_u16_at(&mut self.send, 26, count);
    }

    /// Decode a response of exactly the requested bar count. The request
    /// state is unchanged when the response is malformed.
    pub fn parse(&mut self, v: Vec<u8>) -> (r: Result<(), Error>)
        ensures
            r is Ok <==> spec_kline_parse(v@, old(self).count, old(self).category) is Some,
            r matches Ok(u) ==> {
                &&& spec_kline_parse(v@, old(self).count, old(self).category) == Some(
                    final(self).data@,
                )
                &&& final(self).response@ == v@
                &&& final(self).send@ == old(self).send@
                &&& final(self).count == old(self).count
                &&& final(self).category == old(self).category
                &&& final(self).market == old(self).market
                &&& final(self).start == old(self).start
                &&& final(self).code == old(self).code
            },
            r matches Err(e) ==> e == Error::CorruptFrame && *final(self) == *old(self),
    {
        let n: usize = v.len();
        if n < 2 {
            return Err(Error::CorruptFrame);
        }
        let rcount = u16_from_le_bytes(v.as_slice(), 0);
        if rcount != self.count {
            return Err(Error::CorruptFrame);
        }
        let count = self.count;
        let category = self.category;
        let mut out: Vec<KlineData> = Vec::new();
        let mut pos: usize = 2;
        let mut base: i32 = 0;
        let mut i: usize = 0;
        while i < count as usize
            invariant
                v@.len() == n,
                2 <= n,
                i <= count,
                pos <= n,
                out@.len() == i,
                category == old(self).category,
                count == old(self).count,
                match spec_kline_bars(v@, pos as int, base as int, (count - i) as nat, category) {
                    Some(s) => spec_kline_bars(v@, 2, 0, count as nat, category) == Some(out@ + s),
                    None => spec_kline_bars(v@, 2, 0, count as nat, category) is None,
                },
            decreases count - i,
        {
            let bar = match parse_bar(v.as_slice(), &mut pos, &mut base, category) {
                Some(b) => b,
                None => {
                    return Err(Error::CorruptFrame);
                },
            };
            let ghost out0 = out@;
            out.push(bar);
            proof {
                let rem = (count - i) as nat;
                let s1 = spec_kline_bars(v@, pos as int, base as int, (rem - 1) as nat, category);
                if s1 is Some {
                    assert(out0 + (seq![bar] + s1.unwrap()) =~= out@ + s1.unwrap());
                }
            }
            i = i + 1;
        }
        proof {
            assert(spec_kline_bars(v@, pos as int, base as int, 0, category) == Some(
                Seq::<KlineData>::empty(),
            ));
            assert(out@ + Seq::<KlineData>::empty() =~= out@);
        }
        self.data = out;
        self.response = v;
        Ok(())
    }
}

} // verus!
