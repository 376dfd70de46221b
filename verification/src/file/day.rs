//! Decoder for `*.day` files: a header-less concatenation of 32-byte records,
//! one per trading day.

use vstd::prelude::*;

verus! {

use vstd::bytes::{spec_u32_from_le_bytes, spec_u32_to_le_bytes, lemma_auto_spec_u32_to_from_le_bytes};
use vstd::string::StringExecFns;
use crate::bytes_helper::{u32_from_le_bytes, date_string, spec_date_chars};
use crate::Error;

/// The little-endian `u32` at offset `p` of `b`.
pub open spec fn u32_le_at(b: Seq<u8>, p: int) -> u32 {
    spec_u32_from_le_bytes(b.subrange(p, p + 4))
}

/// One decoded day-bar record.
///
/// The file stores the four prices as hundredths of a currency unit; this
/// type keeps those counts exactly as stored (`18.10` is held as `1810`).
/// `amount` is the raw bit pattern of the 32-bit IEEE-754 turnover field,
/// carried through undecoded; `vol` is the share count. The six-digit code
/// is not part of the record: the caller supplies it.
#[derive(Debug, Clone, Copy, PartialEq, Eq)]
pub struct Day {
    /// `YYYYMMDD` date number.
    pub date: u32,
    /// Numeric security code supplied by the caller.
    pub code: u32,
    /// Opening price in hundredths.
    pub open: u32,
    /// Highest price in hundredths.
    pub high: u32,
    /// Lowest price in hundredths.
    pub low: u32,
    /// Closing price in hundredths.
    pub close: u32,
    /// Raw bit pattern of the stored 32-bit float turnover.
    pub amount: u32,
    /// Traded volume in shares.
    pub vol: u32,
}

/// What a 32-byte record decodes to.
pub open spec fn spec_day_from_bytes(code: u32, b: Seq<u8>) -> Day {
    Day {
        date: u32_le_at(b, 0),
        code: code,
        open: u32_le_at(b, 4),
        high: u32_le_at(b, 8),
        low: u32_le_at(b, 12),
        close: u32_le_at(b, 16),
        amount: u32_le_at(b, 20),
        vol: u32_le_at(b, 24),
    }
}

/// The 32-byte encoding of a day bar; the reserved last four bytes are zero.
pub open spec fn spec_day_to_bytes(d: Day) -> Seq<u8> {
    spec_u32_to_le_bytes(d.date) + spec_u32_to_le_bytes(d.open) + spec_u32_to_le_bytes(d.high)
        + spec_u32_to_le_bytes(d.low) + spec_u32_to_le_bytes(d.close)
        + spec_u32_to_le_bytes(d.amount) + spec_u32_to_le_bytes(d.vol) + seq![0u8, 0u8, 0u8, 0u8]
}

/// A plausible `YYYYMMDD` date number: month in 1..=12, day in 1..=31.
pub open spec fn spec_valid_date(x: u32) -> bool {
    1 <= (x as int % 10000) / 100 <= 12 && 1 <= x as int % 100 <= 31
}

impl Day {
    /// Decode one 32-byte record; the first 28 bytes carry the fields, the
    /// last four are reserved.
    pub fn from_bytes(code: u32, arr: &[u8]) -> (d: Day)
        requires
            arr@.len() >= 28,
        ensures
            d == spec_day_from_bytes(code, arr@.subrange(0, 28)),
    {
        let d = Day {
            date: u32_from_le_bytes(arr, 0),
            code: code,
            open: u32_from_le_bytes(arr, 4),
            high: u32_from_le_bytes(arr, 8),
            low: u32_from_le_bytes(arr, 12),
            close: u32_from_le_bytes(arr, 16),
            amount: u32_from_le_bytes(arr, 20),
            vol: u32_from_le_bytes(arr, 24),
        };
        proof {
            let b = arr@.subrange(0, 28);
            assert(arr@.subrange(0, 4) =~= b.subrange(0, 4));
            assert(arr@.subrange(4, 8) =~= b.subrange(4, 8));
            assert(arr@.subrange(8, 12) =~= b.subrange(8, 12));
            assert(arr@.subrange(12, 16) =~= b.subrange(12, 16));
            assert(arr@.subrange(16, 20) =~= b.subrange(16, 20));
            assert(arr@.subrange(20, 24) =~= b.subrange(20, 24));
            assert(arr@.subrange(24, 28) =~= b.subrange(24, 28));
        }
        d
    }

    /// Encode the bar back into a 32-byte record, with the reserved bytes
    /// zeroed.
    pub fn to_bytes(&self) -> (r: Vec<u8>)
        ensures
            r@ == spec_day_to_bytes(*self),
            r@.len() == 32,
    {
        let mut r = vstd::bytes::u32_to_le_bytes(self.date);
        let mut t = vstd::bytes::u32_to_le_bytes(self.open);
        r.append(&mut t);
        let mut t = vstd::bytes::u32_to_le_bytes(self.high);
        r.append(&mut t);
        let mut t = vstd::bytes::u32_to_le_bytes(self.low);
        r.append(&mut t);
        let mut t = vstd::bytes::u32_to_le_bytes(self.close);
        r.append(&mut t);
        let mut t = vstd::bytes::u32_to_le_bytes(self.amount);
        r.append(&mut t);
        let mut t = vstd::bytes::u32_to_le_bytes(self.vol);
        r.append(&mut t);
        r.push(0);
        r.push(0);
        r.push(0);
        r.push(0);
        proof {
            lemma_auto_spec_u32_to_from_le_bytes();
            assert(r@ =~= spec_day_to_bytes(*self));
        }
        r
    }

    /// Decode a whole `*.day` byte stream: one record per 32 bytes.
    /// Rejects a stream whose length is not a multiple of 32.
    pub fn from_bytes_vec(code: u32, bytes: &[u8]) -> (r: Result<Vec<Day>, Error>)
        ensures
            r is Ok <==> bytes@.len() % 32 == 0,
            r matches Ok(v) ==> {
                &&& v@.len() == bytes@.len() / 32
                &&& forall|i: int|
                    0 <= i < v@.len() ==> v@[i] == spec_day_from_bytes(
                        code,
                        bytes@.subrange(32 * i, 32 * i + 28),
                    )
            },
    {
        let n: usize = bytes.len();
        if n % 32 != 0 {
            return Err(Error::Invalid {
                expected: String::from_str("a byte stream of 32-byte day records"),
                found: String::from_str("a length not divisible by 32"),
            });
        }
        let mut v: Vec<Day> = Vec::new();
        let mut pos: usize = 0;
        while pos < n
            invariant
                bytes@.len() == n,
                n % 32 == 0,
                pos % 32 == 0,
                pos <= n,
                v@.len() == pos / 32,
                forall|i: int|
                    0 <= i < v@.len() ==> v@[i] == spec_day_from_bytes(
                        code,
                        bytes@.subrange(32 * i, 32 * i + 28),
                    ),
            decreases n - pos,
        {
            let rec = vstd::slice::slice_subrange(bytes, pos, pos + 32);
            let d = Day::from_bytes(code, rec);
            proof {
                let i = pos as int / 32;
                assert(rec@.subrange(0, 28) =~= bytes@.subrange(32 * i, 32 * i + 28));
            }
            v.push(d);
            pos = pos + 32;
        }
        Ok(v)
    }

    /// The `%Y-%m-%d` rendering of the bar's date.
    pub fn date_string(&self) -> (r: String)
        ensures
            r@ == spec_date_chars(self.date as nat),
    {
        date_string(self.date)
    }

    /// The date split as `[year, month, day]`.
    pub fn ymd_arr(&self) -> (r: [u32; 3])
        ensures
            r@ == seq![self.date / 10000, self.date % 10000 / 100, self.date % 10000 % 100],
    {
        let x = self.date;
        [x / 10000, x % 10000 / 100, x % 10000 % 100]
    }
}

/// Day-bar round trip: re-encoding a decoded record with the documented
/// field widths reproduces the first 28 bytes exactly; only the reserved
/// tail of the record may differ.
pub proof fn lemma_day_round_trip(code: u32, b: Seq<u8>)
    requires
        b.len() == 32,
        spec_valid_date(u32_le_at(b, 0)),
    ensures
        spec_day_to_bytes(spec_day_from_bytes(code, b.subrange(0, 28))).subrange(0, 28)
            == b.subrange(0, 28),
{
    lemma_auto_spec_u32_to_from_le_bytes();
    let r = b.subrange(0, 28);
    let enc = spec_day_to_bytes(spec_day_from_bytes(code, r));
    assert(r.subrange(0, 4) =~= b.subrange(0, 4));
    assert(r.subrange(4, 8) =~= b.subrange(4, 8));
    assert(r.subrange(8, 12) =~= b.subrange(8, 12));
    assert(r.subrange(12, 16) =~= b.subrange(12, 16));
    assert(r.subrange(16, 20) =~= b.subrange(16, 20));
    assert(r.subrange(20, 24) =~= b.subrange(20, 24));
    assert(r.subrange(24, 28) =~= b.subrange(24, 28));
    assert(enc.subrange(0, 28) =~= r);
}

} // verus!
