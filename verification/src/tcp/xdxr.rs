//! The corporate-action history request for one instrument, and the
//! decoder for its 29-byte records.

use vstd::prelude::*;

verus! {

use vstd::string::StringExecFns;
use crate::bytes_helper::{
    u16_from_le_bytes,
    u8_from_le_bytes,
    u32_from_le_bytes,
    ascii_string,
    spec_ascii_chars,
    spec_all_ascii,
};
use crate::file::day::u32_le_at;
use crate::file::lc::u16_le_at;
use crate::tcp::helper::{
    datetime,
    spec_datetime_ymd,
    VolAmount,
    vol_amount,
    spec_vol_mantissa,
    spec_vol_exp,
};

/// One payload slot of a corporate-action record.
///
/// Categories 1 and 11..=14 carry the slot verbatim as stored float bits;
/// the other categories store it packed-volume encoded, with a zero word
/// standing for the value zero.
#[derive(Debug, Clone, Copy, PartialEq, Eq)]
pub enum SlotValue {
    /// The raw bits of the stored 32-bit float.
    Raw(u32),
    /// A packed-volume value.
    Packed(VolAmount),
    /// The zero word of a packed slot: the value zero.
    Zero,
}

/// How one slot decodes under a category.
pub open spec fn spec_slot(category: u8, raw: u32) -> SlotValue {
    if category == 1 || (11 <= category && category <= 14) {
        SlotValue::Raw(raw)
    } else if raw == 0 {
        SlotValue::Zero
    } else {
        SlotValue::Packed(
            VolAmount { mantissa: spec_vol_mantissa(raw) as u32, exp2: spec_vol_exp(raw) as i32 },
        )
    }
}

/// A zero packed slot decodes to zero, whatever the category: the
/// zero-word rule of the packed-volume encoding.
pub proof fn lemma_slot_zero(category: u8)
    requires
        !(category == 1 || (11 <= category && category <= 14)),
    ensures
        spec_slot(category, 0) == SlotValue::Zero,
{
}

/// The `YYYYMMDD` number a record's four date bytes decode to, read as a
/// daily-category datetime and recombined.
pub open spec fn spec_xdxr_date(b: Seq<u8>) -> u32 {
    let dt = spec_datetime_ymd(b);
    (dt.day + dt.month * 100 + dt.year * 10000) as u32
}

/// One decoded corporate-action record from the wire.
#[derive(Debug, Clone)]
pub struct XdxrData {
    /// Market flag: 0 Shenzhen, 1 Shanghai.
    pub market: u8,
    /// The six-character code.
    pub code: String,
    /// `YYYYMMDD` date number.
    pub date: u32,
    /// Event category, 1..=14 in plausible records.
    pub category: u8,
    /// Cash dividend per 10 shares, or prior float.
    pub fh_qltp: SlotValue,
    /// Rights-issue price, or prior total capital.
    pub pgj_qzgb: SlotValue,
    /// Bonus shares per 10, or posterior float.
    pub sg_hltp: SlotValue,
    /// Rights-issue shares per 10, or posterior total capital.
    pub pg_hzgb: SlotValue,
}

impl XdxrData {
    /// Decode one 29-byte record: market, six code bytes, date, category,
    /// then the four payload slots under the category's rule. A code that
    /// is not ASCII decodes to the empty string.
    pub fn parse(bytes: &[u8]) -> (r: XdxrData)
        requires
            bytes@.len() == 29,
        ensures
            r.market == bytes@[0],
            spec_all_ascii(bytes@.subrange(1, 7)) ==> r.code@ == spec_ascii_chars(
                bytes@.subrange(1, 7),
            ),
            r.date == spec_xdxr_date(bytes@.subrange(8, 12)),
            r.category == bytes@[12],
            r.fh_qltp == spec_slot(bytes@[12], u32_le_at(bytes@, 13)),
            r.pgj_qzgb == spec_slot(bytes@[12], u32_le_at(bytes@, 17)),
            r.sg_hltp == spec_slot(bytes@[12], u32_le_at(bytes@, 21)),
            r.pg_hzgb == spec_slot(bytes@[12], u32_le_at(bytes@, 25)),
    {
        let market = u8_from_le_bytes(bytes, 0);
        let code_bytes = vstd::slice::slice_to_vec(vstd::slice::slice_subrange(bytes, 1, 7));
        let code = match ascii_string(code_bytes) {
            Some(c) => c,
            None => String::new(),
        };
        let date_slice = vstd::slice::slice_subrange(bytes, 8, 12);
        let dt = datetime(date_slice, 9);
        proof {
            assert(date_slice@.subrange(0, 4) =~= bytes@.subrange(8, 12));
        }
        let date = dt.to_u32();
        let category = u8_from_le_bytes(bytes, 12);
        let fh_qltp = Self::slot(category, u32_from_le_bytes(bytes, 13));
        let pgj_qzgb = Self::slot(category, u32_from_le_bytes(bytes, 17));
        let sg_hltp = Self::slot(category, u32_from_le_bytes(bytes, 21));
        let pg_hzgb = Self::slot(category, u32_from_le_bytes(bytes, 25));
        XdxrData { market, code, date, category, fh_qltp, pgj_qzgb, sg_hltp, pg_hzgb }
    }

    /// Decode one payload slot under the category's rule.
    fn slot(category: u8, raw: u32) -> (r: SlotValue)
        ensures
            r == spec_slot(category, raw),
    {
        if category == 1 || (11 <= category && category <= 14) {
            SlotValue::Raw(raw)
        } else if raw == 0 {
            SlotValue::Zero
        } else {
            proof {
                assert(#[verifier::truncate] ((#[verifier::truncate] (raw as i32)) as u32) == raw)
                    by (bit_vector);
            }
            SlotValue::Packed(vol_amount(#[verifier::truncate] (raw as i32)))
        }
    }
}

/// The corporate-action history request for one instrument.
#[derive(Debug, Clone)]
pub struct Xdxr {
    /// The bytes to send.
    pub send: Vec<u8>,
    /// 0 Shenzhen, 1 Shanghai.
    pub market: u16,
    /// The six-character code the template asks about.
    pub code: String,
    /// The last raw response.
    pub response: Vec<u8>,
    /// The count the last response declared, once one was parsed.
    pub count: Option<usize>,
    /// The decoded records of the last response.
    pub data: Vec<XdxrData>,
}

/// The request template, 21 bytes: the market at offset 13 and the six
/// code bytes at offsets 15..21 (the template asks about Shenzhen 000001).
pub open spec fn spec_xdxr_send() -> Seq<u8> {
    seq![
        0x0cu8,
        0x1f,
        0x18,
        0x76,
        0x00,
        0x01,
        0x0b,
        0x00,
        0x0b,
        0x00,
        0x0f,
        0x00,
        0x01,
        0x00,
        0x00,
        0x30,
        0x30,
        0x30,
        0x30,
        0x30,
        0x31,
    ]
}

impl Default for Xdxr {
    /// The unmodified request template.
    fn default() -> (r: Self)
        ensures
            r.send@ == spec_xdxr_send(),
            r.market == 0,
            r.code@ == "000001"@,
            r.response@.len() == 0,
            r.count is None,
            r.data@.len() == 0,
    {
        let send: Vec<u8> = vec![
            0x0c,
            0x1f,
            0x18,
            0x76,
            0x00,
            0x01,
            0x0b,
            0x00,
            0x0b,
            0x00,
            0x0f,
            0x00,
            0x01,
            0x00,
            0x00,
            0x30,
            0x30,
            0x30,
            0x30,
            0x30,
            0x31,
        ];
        proof {
            assert(send@ =~= spec_xdxr_send());
        }
        Xdxr {
            send,
            market: 0,
            code: String::from_str("000001"),
            response: Vec::new(),
            count: None,
            data: Vec::new(),
        }
    }
}

impl Xdxr {
    /// Decode a response: a response shorter than its 11-byte preamble is
    /// ignored; otherwise the declared count sits at offset 9 and the
    /// records follow from offset 11, one per 29 bytes, an incomplete
    /// trailing chunk ignored.
    pub fn parse(&mut self, v: Vec<u8>)
        ensures
            final(self).send@ == old(self).send@,
            final(self).market == old(self).market,
            final(self).code == old(self).code,
            v@.len() < 11 ==> *final(self) == *old(self),
            v@.len() >= 11 ==> {
                &&& final(self).count == Some(u16_le_at(v@, 9) as usize)
                &&& final(self).response@ == v@
                &&& final(self).data@.len() == (v@.len() - 11) / 29
                &&& forall|i: int|
                    0 <= i < final(self).data@.len() ==> {
                        let chunk = #[trigger] v@.subrange(11 + 29 * i, 11 + 29 * i + 29);
                        &&& final(self).data@[i].market == chunk[0]
                        &&& spec_all_ascii(chunk.subrange(1, 7)) ==> final(self).data@[i].code@
                            == spec_ascii_chars(chunk.subrange(1, 7))
                        &&& final(self).data@[i].date == spec_xdxr_date(chunk.subrange(8, 12))
                        &&& final(self).data@[i].category == chunk[12]
                        &&& final(self).data@[i].fh_qltp == spec_slot(
                            chunk[12],
                            u32_le_at(chunk, 13),
                        )
                        &&& final(self).data@[i].pgj_qzgb == spec_slot(
                            chunk[12],
                            u32_le_at(chunk, 17),
                        )
                        &&& final(self).data@[i].sg_hltp == spec_slot(
                            chunk[12],
                            u32_le_at(chunk, 21),
                        )
                        &&& final(self).data@[i].pg_hzgb == spec_slot(
                            chunk[12],
                            u32_le_at(chunk, 25),
                        )
                    }
            },
    {
        let n: usize = v.len();
        if n < 11 {
            return ;
        }
        let count = u16_from_le_bytes(v.as_slice(), 9) as usize;
        let m: usize = (n - 11) / 29;
        let mut data: Vec<XdxrData> = Vec::new();
        let mut i: usize = 0;
        while i < m
            invariant
                v@.len() == n,
                11 <= n,
                m == (n - 11) / 29,
                i <= m,
                data@.len() == i,
                forall|t: int|
                    0 <= t < data@.len() ==> {
                        let chunk = #[trigger] v@.subrange(11 + 29 * t, 11 + 29 * t + 29);
                        &&& data@[t].market == chunk[0]
                        &&& spec_all_ascii(chunk.subrange(1, 7)) ==> data@[t].code@
                            == spec_ascii_chars(chunk.subrange(1, 7))
                        &&& data@[t].date == spec_xdxr_date(chunk.subrange(8, 12))
                        &&& data@[t].category == chunk[12]
                        &&& data@[t].fh_qltp == spec_slot(chunk[12], u32_le_at(chunk, 13))
                        &&& data@[t].pgj_qzgb == spec_slot(chunk[12], u32_le_at(chunk, 17))
                        &&& data@[t].sg_hltp == spec_slot(chunk[12], u32_le_at(chunk, 21))
                        &&& data@[t].pg_hzgb == spec_slot(chunk[12], u32_le_at(chunk, 25))
                    },
            decreases m - i,
        {
            let chunk = vstd::slice::slice_subrange(v.as_slice(), 11 + 29 * i, 11 + 29 * i + 29);
            let d = XdxrData::parse(chunk);
            proof {
                let t = i as int;
                let c = v@.subrange(11 + 29 * t, 11 + 29 * t + 29);
                assert(chunk@ =~= c);
                assert(chunk@.subrange(1, 7) =~= c.subrange(1, 7));
                assert(chunk@.subrange(8, 12) =~= c.subrange(8, 12));
                assert(chunk@.subrange(13, 17) =~= c.subrange(13, 17));
                assert(chunk@.subrange(17, 21) =~= c.subrange(17, 21));
                assert(chunk@.subrange(21, 25) =~= c.subrange(21, 25));
                assert(chunk@.subrange(25, 29) =~= c.subrange(25, 29));
            }
            data.push(d);
            i = i + 1;
        }
        self.count = Some(count);
        self.data = data;
        self.response = v;
    }
}

} // verus!
