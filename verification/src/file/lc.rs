//! Decoder for `*.lc1` / `*.lc5` minute-bar files: the same 32-byte stride
//! as day files, but the first four bytes pack date and minute, and the four
//! prices are stored as native 32-bit floats, not as centi-integers.

use vstd::prelude::*;

verus! {

use vstd::bytes::{spec_u16_from_le_bytes, spec_u32_from_le_bytes};
use vstd::string::StringExecFns;
use crate::bytes_helper::{
    u16_from_le_bytes,
    u32_from_le_bytes,
    push_dec,
    push_dec_pad2,
    dec_chars,
    dec_chars_pad2,
};
use crate::file::day::u32_le_at;
use crate::Error;

/// The little-endian `u16` at offset `p` of `b`.
pub open spec fn u16_le_at(b: Seq<u8>, p: int) -> u16 {
    spec_u16_from_le_bytes(b.subrange(p, p + 2))
}

/// One decoded minute-bar record.
///
/// `date` packs year, month and day (`year = date >> 11 + 2004`,
/// `month = (date & 0x7ff) / 100`, `day = (date & 0x7ff) % 100`); `min` is
/// the minute of the day. The four prices and the turnover are the raw bit
/// patterns of the stored 32-bit floats, carried through undecoded.
#[derive(Debug, Clone, Copy, PartialEq, Eq)]
pub struct Lc {
    /// Packed date word.
    pub date: u16,
    /// Minutes since midnight.
    pub min: u16,
    /// Numeric security code supplied by the caller.
    pub code: u32,
    /// Raw bits of the stored 32-bit float opening price.
    pub open: u32,
    /// Raw bits of the stored 32-bit float highest price.
    pub high: u32,
    /// Raw bits of the stored 32-bit float lowest price.
    pub low: u32,
    /// Raw bits of the stored 32-bit float closing price.
    pub close: u32,
    /// Raw bits of the stored 32-bit float turnover.
    pub amount: u32,
    /// Traded volume in shares.
    pub vol: u32,
}

/// What a 32-byte minute record decodes to.
pub open spec fn spec_lc_from_bytes(code: u32, b: Seq<u8>) -> Lc {
    Lc {
        date: u16_le_at(b, 0),
        min: u16_le_at(b, 2),
        code: code,
        open: u32_le_at(b, 4),
        high: u32_le_at(b, 8),
        low: u32_le_at(b, 12),
        close: u32_le_at(b, 16),
        amount: u32_le_at(b, 20),
        vol: u32_le_at(b, 24),
    }
}

/// The `%Y-%m-%d` rendering of a packed minute-bar date.
pub open spec fn spec_lc_date_chars(date: u16) -> Seq<char> {
    dec_chars((date / 2048 + 2004) as nat) + seq!['-'] + dec_chars_pad2(
        (date % 2048 / 100) as nat,
    ) + seq!['-'] + dec_chars_pad2((date % 2048 % 100) as nat)
}

/// The `%Y-%m-%d:%H:%M` rendering of a minute bar's date and time.
pub open spec fn spec_lc_datetime_chars(date: u16, min: u16) -> Seq<char> {
    spec_lc_date_chars(date) + seq![':'] + dec_chars_pad2((min / 60) as nat) + seq![':']
        + dec_chars_pad2((min % 60) as nat)
}

impl Lc {
    /// Decode one 32-byte record; the first 28 bytes carry the fields, the
    /// last four are reserved.
    pub fn from_bytes(code: u32, arr: &[u8]) -> (r: Lc)
        requires
            arr@.len() >= 28,
        ensures
            r == spec_lc_from_bytes(code, arr@.subrange(0, 28)),
    {
        let r = Lc {
            date: u16_from_le_bytes(arr, 0),
            min: u16_from_le_bytes(arr, 2),
            code: code,
            open: u32_from_le_bytes(arr, 4),
            high: u32_from_le_bytes(arr, 8),
            low: u32_from_le_bytes(arr, 12),
            close: u32_from_le_bytes(arr, 16),
            amount: u32_from_le_bytes(arr, 20),
            vol: u32_from_le_bytes(arr, 24),
        };
        proof {
            let b = arr@.subrange(0, 28);
            assert(arr@.subrange(0, 2) =~= b.subrange(0, 2));
            assert(arr@.subrange(2, 4) =~= b.subrange(2, 4));
            assert(arr@.subrange(4, 8) =~= b.subrange(4, 8));
            assert(arr@.subrange(8, 12) =~= b.subrange(8, 12));
            assert(arr@.subrange(12, 16) =~= b.subrange(12, 16));
            assert(arr@.subrange(16, 20) =~= b.subrange(16, 20));
            assert(arr@.subrange(20, 24) =~= b.subrange(20, 24));
            assert(arr@.subrange(24, 28) =~= b.subrange(24, 28));
        }
        r
    }

    /// Decode a whole minute-bar byte stream: one record per 32 bytes.
    /// Rejects a stream whose length is not a multiple of 32.
    pub fn from_bytes_vec(code: u32, bytes: &[u8]) -> (r: Result<Vec<Lc>, Error>)
        ensures
            r is Ok <==> bytes@.len() % 32 == 0,
            r matches Ok(v) ==> {
                &&& v@.len() == bytes@.len() / 32
                &&& forall|i: int|
                    0 <= i < v@.len() ==> v@[i] == spec_lc_from_bytes(
                        code,
                        bytes@.subrange(32 * i, 32 * i + 28),
                    )
            },
    {
        let n: usize = bytes.len();
        if n % 32 != 0 {
            return Err(Error::Invalid {
                expected: String::from_str("a byte stream of 32-byte minute records"),
                found: String::from_str("a length not divisible by 32"),
            });
        }
        let mut v: Vec<Lc> = Vec::new();
        let mut pos: usize = 0;
        while pos < n
            invariant
                bytes@.len() == n,
                n % 32 == 0,
                pos % 32 == 0,
                pos <= n,
                v@.len() == pos / 32,
                forall|i: int|
                    0 <= i < v@.len() ==> v@[i] == spec_lc_from_bytes(
                        code,
                        bytes@.subrange(32 * i, 32 * i + 28),
                    ),
            decreases n - pos,
        {
            let rec = vstd::slice::slice_subrange(bytes, pos, pos + 32);
            let r = Lc::from_bytes(code, rec);
            proof {
                let i = pos as int / 32;
                assert(rec@.subrange(0, 28) =~= bytes@.subrange(32 * i, 32 * i + 28));
            }
            v.push(r);
            pos = pos + 32;
        }
        Ok(v)
    }

    /// The date split as `[year, month, day]`.
    pub fn ymd_arr(&self) -> (r: [u16; 3])
        ensures
            r@ == seq![
                (self.date / 2048 + 2004) as u16,
                self.date % 2048 / 100,
                self.date % 2048 % 100,
            ],
    {
        let x = self.date;
        [x / 2048 + 2004, x % 2048 / 100, x % 2048 % 100]
    }

    /// The time split as `[hour, minute]`.
    pub fn hm_arr(&self) -> (r: [u16; 2])
        ensures
            r@ == seq![self.min / 60, self.min % 60],
    {
        [self.min / 60, self.min % 60]
    }

    /// The `%Y-%m-%d` rendering of the bar's date.
    pub fn date_string(&self) -> (r: String)
        ensures
            r@ == spec_lc_date_chars(self.date),
    {
        proof {
            reveal_strlit("-");
        }
        let mut s = String::new();
        push_dec(&mut s, self.date as u32 / 2048 + 2004);
        s.append("-");
        push_dec_pad2(&mut s, self.date as u32 % 2048 / 100);
        s.append("-");
        push_dec_pad2(&mut s, self.date as u32 % 2048 % 100);
        proof {
            assert(s@ =~= spec_lc_date_chars(self.date));
        }
        s
    }

    /// The `%Y-%m-%d:%H:%M` rendering of the bar's date and time.
    pub fn datetime_string(&self) -> (r: String)
        ensures
            r@ == spec_lc_datetime_chars(self.date, self.min),
    {
        proof {
            reveal_strlit(":");
        }
        let mut s = self.date_string();
        s.append(":");
        push_dec_pad2(&mut s, self.min as u32 / 60);
        s.append(":");
        push_dec_pad2(&mut s, self.min as u32 % 60);
        proof {
            assert(s@ =~= spec_lc_datetime_chars(self.date, self.min));
        }
        s
    }
}

} // verus!
