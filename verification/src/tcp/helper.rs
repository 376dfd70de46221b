//! The three numeric encodings of K-line responses: the packed datetime,
//! the variable-length price delta, and the packed-volume pseudo-float.

use vstd::prelude::*;

verus! {

use vstd::string::StringExecFns;
use crate::bytes_helper::{
    u16_from_le_bytes,
    u32_from_le_bytes,
    push_dec_pad2,
    push_dec_pad4,
    dec_chars_pad2,
    dec_chars_pad4,
};
use crate::file::day::u32_le_at;
use crate::file::lc::u16_le_at;
use vstd::arithmetic::power2::pow2;

/// A decoded protocol date and time.
///
/// Bar categories without an intraday time default to 15:00, the close of
/// the trading day.
#[derive(Debug, Clone, Copy, PartialEq, Eq)]
pub struct DateTime {
    pub year: u16,
    pub month: u16,
    pub day: u16,
    pub hour: u16,
    pub minute: u16,
}

impl Default for DateTime {
    /// The all-zero date at the default hour, 15:00.
    fn default() -> (r: Self)
        ensures
            r == (DateTime { year: 0, month: 0, day: 0, hour: 15, minute: 0 }),
    {
        DateTime { year: 0, month: 0, day: 0, hour: 15, minute: 0 }
    }
}

/// Whether a K-line category carries an intraday time: the sub-hour and
/// hour categories and both one-minute categories do, daily and coarser
/// categories do not.
pub open spec fn spec_has_minutes(category: u16) -> bool {
    category < 4 || category == 7 || category == 8
}

/// What the four datetime bytes decode to for a category with an intraday
/// time: a packed day word and minutes since midnight.
pub open spec fn spec_datetime_packed(b: Seq<u8>) -> DateTime {
    let day = u16_le_at(b, 0);
    let minutes = u16_le_at(b, 2);
    DateTime {
        year: ((day >> 11) + 2004) as u16,
        month: day % 2048 / 100,
        day: day % 2048 % 100,
        hour: minutes / 60,
        minute: minutes % 60,
    }
}

/// What the four datetime bytes decode to for a daily or coarser category:
/// a `YYYYMMDD` word, at the default time 15:00.
pub open spec fn spec_datetime_ymd(b: Seq<u8>) -> DateTime {
    let day = u32_le_at(b, 0);
    DateTime {
        year: (day / 10000) as u16,
        month: (day % 10000 / 100) as u16,
        day: (day % 100) as u16,
        hour: 15,
        minute: 0,
    }
}

/// What the four datetime bytes of a bar decode to.
pub open spec fn spec_datetime(b: Seq<u8>, category: u16) -> DateTime {
    if spec_has_minutes(category) {
        spec_datetime_packed(b)
    } else {
        spec_datetime_ymd(b)
    }
}

/// Decode the four datetime bytes of a bar of the given category.
pub fn datetime(arr: &[u8], category: u16) -> (r: DateTime)
    requires
        arr@.len() >= 4,
    ensures
        r == spec_datetime(arr@.subrange(0, 4), category),
{
    let mut dt = DateTime::default();
    proof {
        let b = arr@.subrange(0, 4);
        assert(arr@.subrange(0, 2) =~= b.subrange(0, 2));
        assert(arr@.subrange(2, 4) =~= b.subrange(2, 4));
        assert(arr@.subrange(0, 4) =~= b.subrange(0, 4));
    }
    if category < 4 || category == 7 || category == 8 {
        let day = u16_from_le_bytes(arr, 0);
        let minutes = u16_from_le_bytes(arr, 2);
        proof {
            assert(day >> 11 < 32) by (bit_vector);
        }
        dt.year = (day >> 11) + 2004;
        dt.month = day % 2048 / 100;
        dt.day = day % 2048 % 100;
        dt.hour = minutes / 60;
        dt.minute = minutes % 60;
    } else {
        let day = u32_from_le_bytes(arr, 0);
        dt.year = (day / 10000) as u16;
        dt.month = (day % 10000 / 100) as u16;
        dt.day = (day % 100) as u16;
    }
    dt
}

impl DateTime {
    /// The date as a `YYYYMMDD` number.
    pub fn to_u32(self) -> (r: u32)
        ensures
            r == self.day + self.month * 100 + self.year * 10000,
    {
        self.day as u32 + self.month as u32 * 100 + self.year as u32 * 10000
    }

    /// Pack the date and time back into the on-wire words: the day word
    /// (year offset in the top five bits, `month * 100 + day` below) and
    /// minutes since midnight.
    pub fn to_packed(self) -> (r: (u16, u16))
        requires
            2004 <= self.year <= 2035,
            self.month <= 12,
            self.day <= 31,
            self.hour <= 23,
            self.minute <= 59,
        ensures
            r.0 == (self.year - 2004) * 2048 + self.month * 100 + self.day,
            r.1 == self.hour * 60 + self.minute,
    {
        ((self.year - 2004) * 2048 + self.month * 100 + self.day, self.hour * 60 + self.minute)
    }
}

/// The text rendering of a decoded date and time: `%Y-%m-%d %H:%M` for a
/// category with an intraday time, `%Y-%m-%d` otherwise.
pub open spec fn spec_datetime_chars(dt: DateTime, category: u16) -> Seq<char> {
    let date = dec_chars_pad4(dt.year as nat) + seq!['-'] + dec_chars_pad2(dt.month as nat)
        + seq!['-'] + dec_chars_pad2(dt.day as nat);
    if spec_has_minutes(category) {
        date + seq![' '] + dec_chars_pad2(dt.hour as nat) + seq![':'] + dec_chars_pad2(
            dt.minute as nat,
        )
    } else {
        date
    }
}

impl DateTime {
    /// Render the date, and for a category with an intraday time also the
    /// time, as text.
    pub fn into_string(self, category: u16) -> (r: String)
        ensures
            r@ == spec_datetime_chars(self, category),
    {
        proof {
            reveal_strlit("-");
            reveal_strlit(" ");
            reveal_strlit(":");
        }
        let mut s = String::new();
        push_dec_pad4(&mut s, self.year as u32);
        s.append("-");
        push_dec_pad2(&mut s, self.month as u32);
        s.append("-");
        push_dec_pad2(&mut s, self.day as u32);
        if category < 4 || category == 7 || category == 8 {
            s.append(" ");
            push_dec_pad2(&mut s, self.hour as u32);
            s.append(":");
            push_dec_pad2(&mut s, self.minute as u32);
        }
        proof {
            assert(s@ =~= spec_datetime_chars(self, category));
        }
        s
    }
}

/// Whether a well-formed price chain starts at `pos`: some byte at or after
/// `pos` clears the continuation bit before the buffer ends.
pub open spec fn spec_price_valid(b: Seq<u8>, pos: int) -> bool
    decreases b.len() - pos,
{
    0 <= pos < b.len() && (b[pos] & 0x80 == 0 || spec_price_valid(b, pos + 1))
}

/// One past the last byte of the price chain starting at `pos`.
pub open spec fn spec_price_end(b: Seq<u8>, pos: int) -> int
    decreases b.len() - pos,
{
    if pos < 0 || pos >= b.len() {
        pos
    } else if b[pos] & 0x80 == 0 {
        pos + 1
    } else {
        spec_price_end(b, pos + 1)
    }
}

/// The magnitude contributed by the continuation bytes from `pos` on, each
/// adding its low seven bits at the current shift, the shift growing by
/// seven per byte.
pub open spec fn spec_price_mag_rest(b: Seq<u8>, pos: int, shl: nat) -> int
    decreases b.len() - pos,
{
    if pos < 0 || pos >= b.len() {
        0
    } else {
        let c = (b[pos] & 0x7f) as int * pow2(shl);
        if b[pos] & 0x80 == 0 {
            c
        } else {
            c + spec_price_mag_rest(b, pos + 1, shl + 7)
        }
    }
}

/// The magnitude of the price chain at `pos`: the low six bits of the first
/// byte, then seven bits per continuation byte.
pub open spec fn spec_price_mag(b: Seq<u8>, pos: int) -> int {
    (b[pos] & 0x3f) as int + if b[pos] & 0x80 != 0 {
        spec_price_mag_rest(b, pos + 1, 6)
    } else {
        0
    }
}

/// The signed value of the price chain at `pos`: bit 6 of the first byte
/// clear means positive.
pub open spec fn spec_price_value(b: Seq<u8>, pos: int) -> int {
    if b[pos] & 0x40 == 0 {
        spec_price_mag(b, pos)
    } else {
        -spec_price_mag(b, pos)
    }
}

proof fn lemma_price_end_bounds(b: Seq<u8>, pos: int)
    requires
        spec_price_valid(b, pos),
    ensures
        pos + 1 <= spec_price_end(b, pos) <= b.len(),
    decreases b.len() - pos,
{
    if b[pos] & 0x80 != 0 {
        lemma_price_end_bounds(b, pos + 1);
    }
}

proof fn lemma_price_mag_rest_nonneg(b: Seq<u8>, pos: int, shl: nat)
    ensures
        spec_price_mag_rest(b, pos, shl) >= 0,
    decreases b.len() - pos,
{
    if 0 <= pos < b.len() {
        vstd::arithmetic::power2::lemma_pow2_pos(shl);
        if b[pos] & 0x80 != 0 {
            lemma_price_mag_rest_nonneg(b, pos + 1, shl + 7);
        }
    }
}

/// Decode one variable-length price delta at `*pos`, advancing `*pos` past
/// the chain. The chain must be well formed, at most five bytes, and its
/// magnitude must fit a 32-bit signed integer, as the wire format of a
/// well-formed response guarantees.
pub fn price(arr: &[u8], pos: &mut usize) -> (res: i32)
    requires
        spec_price_valid(arr@, *old(pos) as int),
        spec_price_end(arr@, *old(pos) as int) - *old(pos) <= 5,
        spec_price_mag(arr@, *old(pos) as int) <= i32::MAX as int,
    ensures
        res as int == spec_price_value(arr@, *old(pos) as int),
        *final(pos) == spec_price_end(arr@, *old(pos) as int),
{
    let ghost b = arr@;
    let ghost p0 = *old(pos) as int;
    let alen: usize = arr.len();
    let mut shl: u32 = 6;
    let mut bit: u8 = *vstd::slice::slice_index_get(arr, *pos);
    let mut res: u32 = (bit & 0x3f) as u32;
    let sign = (bit & 0x40) == 0;
    proof {
        assert(bit & 0x3f <= 0x3f) by (bit_vector);
    }
    while (bit & 0x80) != 0
        invariant
            b == arr@,
            b.len() == alen,
            0 <= p0 <= *pos < b.len(),
            bit == b[*pos as int],
            spec_price_valid(b, *pos as int),
            spec_price_end(b, *pos as int) == spec_price_end(b, p0),
            spec_price_end(b, p0) - p0 <= 5,
            spec_price_mag(b, p0) <= i32::MAX as int,
            shl == 6 + 7 * (*pos - p0),
            res <= i32::MAX,
            res as int + (if bit & 0x80 != 0 {
                spec_price_mag_rest(b, *pos + 1, shl as nat)
            } else {
                0int
            }) == spec_price_mag(b, p0),
        decreases b.len() - *pos,
    {
        proof {
            lemma_price_end_bounds(b, *pos + 1);
        }
        *pos = *pos + 1;
        bit = *vstd::slice::slice_index_get(arr, *pos);
        let c: u32 = (bit & 0x7f) as u32;
        proof {
            assert(bit & 0x7f <= 0x7f) by (bit_vector);
            assert(*pos - p0 <= 4);
            if spec_price_end(b, *pos as int) - *pos >= 2 {
                assert(b[*pos as int] & 0x80 != 0 || spec_price_end(b, *pos as int) == *pos + 1);
            }
            lemma_price_mag_rest_nonneg(b, *pos + 1, (shl + 7) as nat);
            vstd::arithmetic::power2::lemma_pow2_pos(shl as nat);
            assert(spec_price_mag_rest(b, *pos as int, shl as nat) == c * pow2(shl as nat) + (
            if bit & 0x80 != 0 {
                spec_price_mag_rest(b, *pos + 1, (shl + 7) as nat)
            } else {
                0int
            }));
            assert(c * pow2(shl as nat) <= i32::MAX as int);
            vstd::bits::lemma_u32_shl_is_mul(c, shl);
        }
        res = res + (c << shl);
        shl = shl + 7;
    }
    *pos = *pos + 1;
    if sign {
        res as i32
    } else {
        proof {
            assert(res as i32 == res as int);
        }
        -(res as i32)
    }
}

/// A price chain fit for [`price`]: well formed, at most five bytes, and
/// with a magnitude that fits a 32-bit signed integer.
pub open spec fn spec_price_ok(b: Seq<u8>, pos: int) -> bool {
    &&& spec_price_valid(b, pos)
    &&& spec_price_end(b, pos) - pos <= 5
    &&& spec_price_mag(b, pos) <= 0x7fffffff
}

/// Decode one price delta at `*pos` if a fit chain starts there, advancing
/// `*pos` past it; leave `*pos` alone and return nothing otherwise.
pub fn price_checked(arr: &[u8], pos: &mut usize) -> (r: Option<i32>)
    requires
        *old(pos) <= arr@.len(),
    ensures
        match r {
            Some(d) => {
                &&& spec_price_ok(arr@, *old(pos) as int)
                &&& d as int == spec_price_value(arr@, *old(pos) as int)
                &&& *final(pos) == spec_price_end(arr@, *old(pos) as int)
                &&& *final(pos) <= arr@.len()
            },
            None => !spec_price_ok(arr@, *old(pos) as int) && *final(pos) == *old(pos),
        },
{
    let ghost b = arr@;
    let ghost p0 = *old(pos) as int;
    let alen: usize = arr.len();
    if *pos >= alen {
        return None;
    }
    let mut p: usize = *pos;
    let mut shl: u32 = 6;
    let mut bit: u8 = *vstd::slice::slice_index_get(arr, p);
    let mut res: u64 = (bit & 0x3f) as u64;
    let sign = (bit & 0x40) == 0;
    proof {
        assert(bit & 0x3f <= 0x3f) by (bit_vector);
    }
    while (bit & 0x80) != 0
        invariant
            b == arr@,
            b.len() == alen,
            0 <= p0 <= p < b.len(),
            p - p0 <= 4,
            bit == b[p as int],
            p0 == *pos,
            spec_price_valid(b, p0) <==> spec_price_valid(b, p as int),
            spec_price_end(b, p as int) == spec_price_end(b, p0),
            shl == 6 + 7 * (p - p0),
            res <= 0x7fffffff,
            res as int + (if bit & 0x80 != 0 {
                spec_price_mag_rest(b, p + 1, shl as nat)
            } else {
                0int
            }) == spec_price_mag(b, p0),
        decreases b.len() - p,
    {
        if p + 1 >= alen && p + 1 == alen {
            proof {
                assert(!spec_price_valid(b, p + 1));
            }
            return None;
        }
        if p - *pos >= 4 {
            proof {
                if spec_price_valid(b, p0) {
                    lemma_price_end_bounds(b, p + 1);
                }
            }
            return None;
        }
        p = p + 1;
        bit = *vstd::slice::slice_index_get(arr, p);
        let c: u64 = (bit & 0x7f) as u64;
        proof {
            assert(bit & 0x7f <= 0x7f) by (bit_vector);
            lemma_price_mag_rest_nonneg(b, p + 1, (shl + 7) as nat);
            vstd::arithmetic::power2::lemma_pow2_pos(shl as nat);
            assert(pow2(27) == 0x8000000) by {
                vstd::arithmetic::power2::lemma2_to64();
            }
            assert(pow2(shl as nat) <= pow2(27)) by {
                if shl < 27 {
                    vstd::arithmetic::power2::lemma_pow2_strictly_increases(shl as nat, 27);
                }
            }
            assert(c * pow2(shl as nat) <= 0x7f * 0x8000000) by (nonlinear_arith)
                requires
                    0 <= c <= 0x7f,
                    0 < pow2(shl as nat) <= 0x8000000,
            ;
            vstd::bits::lemma_u64_shl_is_mul(c, shl as u64);
        }
        res = res + (c << (shl as u64));
        shl = shl + 7;
        if res > 0x7fffffff {
            proof {
                lemma_price_mag_rest_nonneg(b, p + 1, shl as nat);
            }
            return None;
        }
    }
    *pos = p + 1;
    if sign {
        Some(res as i32)
    } else {
        Some(-(res as i32))
    }
}

/// The continuation bytes of the encoding of a magnitude remainder: seven
/// bits per byte, low bits first, the continuation bit set while more
/// remain.
pub open spec fn spec_price_encode_rest(rem: int) -> Seq<u8>
    decreases rem,
{
    if rem <= 0 {
        Seq::empty()
    } else if rem < 128 {
        seq![rem as u8]
    } else {
        seq![(rem % 128 + 128) as u8] + spec_price_encode_rest(rem / 128)
    }
}

/// The canonical encoding of a price delta: sign and low six bits in the
/// first byte, then the remaining magnitude seven bits per byte.
pub open spec fn spec_price_encode(delta: int) -> Seq<u8> {
    let mag = if delta < 0 {
        -delta
    } else {
        delta
    };
    let b0 = (mag % 64) + (if delta < 0 {
        0x40int
    } else {
        0int
    }) + (if mag >= 64 {
        0x80int
    } else {
        0int
    });
    seq![b0 as u8] + spec_price_encode_rest(mag / 64)
}

/// Encode one price delta canonically.
pub fn price_encode(delta: i32) -> (r: Vec<u8>)
    requires
        delta != i32::MIN,
    ensures
        r@ == spec_price_encode(delta as int),
{
    let mag: u32 = if delta < 0 {
        (-delta) as u32
    } else {
        delta as u32
    };
    let mut r: Vec<u8> = Vec::new();
    proof {
        let m = mag;
        assert((m & 0x3f) == m % 64 && (m & 0x3f) < 64) by (bit_vector);
        assert(((m & 0x3f) as u8 | 0x40) == (m % 64 + 0x40) as u8 && ((m & 0x3f) as u8 | 0x80)
            == (m % 64 + 0x80) as u8 && ((m & 0x3f) as u8 | 0xc0) == (m % 64 + 0xc0) as u8) by (bit_vector);
    }
    let low: u8 = (mag & 0x3f) as u8;
    let b0: u8 = if delta < 0 {
        if mag >= 0x40 {
            low | 0xc0
        } else {
            low | 0x40
        }
    } else {
        if mag >= 0x40 {
            low | 0x80
        } else {
            low
        }
    };
    r.push(b0);
    let mut rem: u32 = mag >> 6;
    proof {
        assert(mag >> 6 == mag / 64) by (bit_vector);
    }
    while rem > 0
        invariant
            r@ + spec_price_encode_rest(rem as int) == spec_price_encode(delta as int),
        decreases rem,
    {
        proof {
            let m = rem;
            assert((m & 0x7f) == m % 128 && (m & 0x7f) < 128 && m >> 7 == m / 128) by (bit_vector);
            assert(((m & 0x7f) as u8 | 0x80) == (m % 128 + 0x80) as u8) by (bit_vector);
        }
        let byte: u8 = if rem >= 0x80 {
            ((rem & 0x7f) as u8) | 0x80
        } else {
            (rem & 0x7f) as u8
        };
        r.push(byte);
        rem = rem >> 7;
        proof {
            assert(r@ + spec_price_encode_rest(rem as int) =~= spec_price_encode(delta as int));
        }
    }
    proof {
        assert(r@ =~= spec_price_encode(delta as int));
    }
    r
}

/// The magnitude of the continuation bytes from `pos` on in units of the
/// incoming shift: seven bits per byte, low bits first.
pub open spec fn spec_price_units(b: Seq<u8>, pos: int) -> int
    decreases b.len() - pos,
{
    if pos < 0 || pos >= b.len() {
        0
    } else if b[pos] & 0x80 == 0 {
        (b[pos] & 0x7f) as int
    } else {
        (b[pos] & 0x7f) as int + 128 * spec_price_units(b, pos + 1)
    }
}

proof fn lemma_price_mag_rest_units(b: Seq<u8>, pos: int, shl: nat)
    ensures
        spec_price_mag_rest(b, pos, shl) == spec_price_units(b, pos) * pow2(shl),
    decreases b.len() - pos,
{
    if 0 <= pos < b.len() {
        if b[pos] & 0x80 != 0 {
            lemma_price_mag_rest_units(b, pos + 1, shl + 7);
            vstd::arithmetic::power2::lemma_pow2_adds(shl, 7);
            vstd::arithmetic::power2::lemma2_to64();
            let u = spec_price_units(b, pos + 1);
            let c = (b[pos] & 0x7f) as int;
            assert(c * pow2(shl) + u * (pow2(shl) * 128) == (c + 128 * u) * pow2(shl))
                by (nonlinear_arith);
        }
    } else {
        assert(spec_price_units(b, pos) * pow2(shl) == 0) by (nonlinear_arith)
            requires
                spec_price_units(b, pos) == 0,
        ;
    }
}

/// The encoding of a price delta is a well-formed chain of at most five
/// bytes that decodes back to the delta.
pub proof fn lemma_price_decode_encode(delta: int)
    requires
        -0x7fffffff <= delta <= 0x7fffffff,
    ensures
        ({
            let e = spec_price_encode(delta);
            &&& spec_price_valid(e, 0)
            &&& spec_price_end(e, 0) == e.len()
            &&& e.len() <= 5
            &&& spec_price_value(e, 0) == delta
        }),
{
    let mag = if delta < 0 {
        -delta
    } else {
        delta
    };
    let e = spec_price_encode(delta);
    vstd::arithmetic::div_mod::lemma_fundamental_div_mod(mag, 64);
    vstd::arithmetic::power2::lemma2_to64();
    let sign_add: int = if delta < 0 {
        0x40
    } else {
        0int
    };
    let cont_add: int = if mag >= 64 {
        0x80
    } else {
        0int
    };
    let rest = spec_price_encode_rest(mag / 64);
    assert(e == seq![(mag % 64 + sign_add + cont_add) as u8] + rest);
    assert(e.len() == 1 + rest.len());
    assert(e[0] == (mag % 64 + sign_add + cont_add) as u8);
    let b0 = e[0];
    if mag < 64 {
        assert(rest =~= Seq::<u8>::empty());
        assert(e.len() == 1);
        let v: u8 = b0;
        assert(v < 0x80 ==> v & 0x80 == 0) by (bit_vector);
        assert(v <= 0x7f ==> (v & 0x3f) == v % 64 && ((v & 0x40 == 0) <==> v < 0x40))
            by (bit_vector);
        assert(spec_price_valid(e, 0) && spec_price_end(e, 0) == 1);
        assert(spec_price_value(e, 0) == delta);
    } else {
        let rem = mag / 64;
        assert(rem >= 1);
        assert(rest.len() >= 1);
        assert(e.subrange(1, e.len() as int) =~= rest) by {
            assert forall|i: int| 0 <= i < e.len() - 1 implies e.subrange(1, e.len() as int)[i]
                == rest[i] by {
                assert(e.subrange(1, e.len() as int)[i] == e[1 + i]);
                assert(e[1 + i] == rest[i]);
            }
        }
        lemma_price_rest_encode(e, 1, rem);
        let v: u8 = b0;
        let lo: u8 = (mag % 64) as u8;
        assert(lo < 64 && (v == (lo + 0x80) as u8 || v == (lo + 0xc0) as u8) ==> (v & 0x80 != 0
            && (v & 0x3f) == lo && ((v & 0x40 == 0) <==> v == (lo + 0x80) as u8)))
            by (bit_vector);
        assert(spec_price_valid(e, 0) && spec_price_end(e, 0) == e.len());
        lemma_price_mag_rest_units(e, 1, 6);
        assert(pow2(6) == 64);
        assert(spec_price_mag(e, 0) == mag % 64 + rem * pow2(6));
        assert(rem * 64 == 64 * rem) by (nonlinear_arith);
        assert(spec_price_mag(e, 0) == mag);
        assert(spec_price_value(e, 0) == delta);
        assert(rem < 0x10000000);
        assert(pow2(28) == 0x10000000);
        lemma_price_rest_len(rem, 4);
        assert(e.len() <= 5);
    }
}

/// The continuation encoding of `rem` is a chain ending exactly at the end
/// of the buffer, decoding back to `rem` units.
proof fn lemma_price_rest_encode(b: Seq<u8>, pos: int, rem: int)
    requires
        1 <= rem,
        0 <= pos <= b.len(),
        b.subrange(pos, b.len() as int) == spec_price_encode_rest(rem),
    ensures
        spec_price_valid(b, pos),
        spec_price_end(b, pos) == b.len(),
        spec_price_units(b, pos) == rem,
    decreases rem,
{
    vstd::arithmetic::div_mod::lemma_fundamental_div_mod(rem, 128);
    let sub = b.subrange(pos, b.len() as int);
    assert(sub.len() == b.len() - pos);
    if rem < 128 {
        assert(spec_price_encode_rest(rem) =~= seq![rem as u8]);
        assert(b.len() == pos + 1);
        assert(b[pos] == sub[0]);
        assert(b[pos] == rem as u8);
        let v: u8 = b[pos];
        assert(v < 0x80 ==> (v & 0x80 == 0 && (v & 0x7f) == v)) by (bit_vector);
    } else {
        let lo: u8 = (rem % 128) as u8;
        let rest2 = spec_price_encode_rest(rem / 128);
        assert(spec_price_encode_rest(rem) == seq![(rem % 128 + 128) as u8] + rest2);
        assert((seq![(rem % 128 + 128) as u8] + rest2).len() == 1 + rest2.len());
        assert(rest2.len() >= 1);
        assert(b[pos] == sub[0]);
        assert(b[pos] == (rem % 128 + 128) as u8);
        assert(b.subrange(pos + 1, b.len() as int) =~= rest2) by {
            assert forall|i: int| 0 <= i < b.len() - pos - 1 implies b.subrange(
                pos + 1,
                b.len() as int,
            )[i] == rest2[i] by {
                assert(b.subrange(pos + 1, b.len() as int)[i] == b[pos + 1 + i]);
                assert(b[pos + 1 + i] == sub[1 + i]);
                assert(sub[1 + i] == rest2[i]);
            }
        }
        lemma_price_rest_encode(b, pos + 1, rem / 128);
        let v: u8 = b[pos];
        assert(lo < 128 && v == (lo + 128) as u8 ==> (v & 0x80 != 0 && (v & 0x7f) == lo))
            by (bit_vector);
    }
}

/// The continuation encoding of a remainder below `2^(7k)` takes at most
/// `k` bytes.
proof fn lemma_price_rest_len(rem: int, k: nat)
    requires
        1 <= rem,
        rem < pow2(7 * k),
    ensures
        spec_price_encode_rest(rem).len() <= k,
    decreases k,
{
    vstd::arithmetic::power2::lemma2_to64();
    if rem < 128 {
        assert(pow2(0) == 1);
        if k == 0 {
            assert(rem < 1);
        }
    } else {
        assert(k >= 1) by {
            if k == 0 {
                assert(pow2(0) == 1);
            }
        }
        vstd::arithmetic::power2::lemma_pow2_adds((7 * (k - 1)) as nat, 7);
        assert(rem / 128 < pow2((7 * (k - 1)) as nat)) by (nonlinear_arith)
            requires
                rem < pow2((7 * (k - 1)) as nat) * pow2(7),
                pow2(7) == 128,
                rem >= 128,
        ;
        lemma_price_rest_len(rem / 128, (k - 1) as nat);
    }
}

/// A canonical price chain: well formed, a multi-byte chain does not end in
/// a zero byte, and a single-byte chain is not the negative zero.
pub open spec fn spec_price_canonical(b: Seq<u8>, pos: int) -> bool {
    &&& spec_price_valid(b, pos)
    &&& (spec_price_end(b, pos) - pos > 1 ==> b[spec_price_end(b, pos) - 1] != 0)
    &&& (spec_price_end(b, pos) - pos == 1 ==> b[pos] != 0x40)
}

proof fn lemma_price_units_pos(b: Seq<u8>, pos: int)
    requires
        spec_price_valid(b, pos),
        b[spec_price_end(b, pos) - 1] != 0,
    ensures
        spec_price_units(b, pos) >= 1,
        spec_price_units(b, pos) >= (b[pos] & 0x7f) as int,
    decreases b.len() - pos,
{
    if b[pos] & 0x80 == 0 {
        let v: u8 = b[pos];
        assert(v & 0x80 == 0 && v != 0 ==> (v & 0x7f) == v && v >= 1) by (bit_vector);
    } else {
        lemma_price_units_pos(b, pos + 1);
        assert(128 * spec_price_units(b, pos + 1) >= 128) by (nonlinear_arith)
            requires
                spec_price_units(b, pos + 1) >= 1,
        ;
    }
}

/// Re-encoding the continuation units reproduces the continuation bytes.
proof fn lemma_price_rest_reencode(b: Seq<u8>, pos: int)
    requires
        spec_price_valid(b, pos),
        b[spec_price_end(b, pos) - 1] != 0,
    ensures
        spec_price_encode_rest(spec_price_units(b, pos)) == b.subrange(pos, spec_price_end(b, pos)),
    decreases b.len() - pos,
{
    let u = spec_price_units(b, pos);
    let end = spec_price_end(b, pos);
    lemma_price_end_bounds(b, pos);
    if b[pos] & 0x80 == 0 {
        let v: u8 = b[pos];
        assert(v & 0x80 == 0 && v != 0 ==> (v & 0x7f) == v && 1 <= v < 128) by (bit_vector);
        assert(end == pos + 1);
        assert(b.subrange(pos, end).len() == 1);
        assert(b.subrange(pos, end)[0] == b[pos]);
        assert(spec_price_encode_rest(u) =~= b.subrange(pos, end));
    } else {
        lemma_price_units_pos(b, pos + 1);
        lemma_price_rest_reencode(b, pos + 1);
        let u1 = spec_price_units(b, pos + 1);
        let c = (b[pos] & 0x7f) as int;
        assert(u == c + 128 * u1);
        assert(c < 128) by {
            let v: u8 = b[pos];
            assert(v & 0x7f < 128) by (bit_vector);
        }
        assert(u / 128 == u1 && u % 128 == c) by (nonlinear_arith)
            requires
                u == c + 128 * u1,
                0 <= c < 128,
                u1 >= 1,
        ;
        assert(u >= 128) by (nonlinear_arith)
            requires
                u == c + 128 * u1,
                0 <= c,
                u1 >= 1,
        ;
        let v: u8 = b[pos];
        let lo: u8 = c as u8;
        assert(v & 0x80 != 0 && lo == (v & 0x7f) ==> v == (lo + 128) as u8) by (bit_vector);
        let rest2 = spec_price_encode_rest(u / 128);
        assert(spec_price_encode_rest(u) == seq![(u % 128 + 128) as u8] + rest2);
        assert((seq![(u % 128 + 128) as u8] + rest2).len() == 1 + rest2.len());
        assert(spec_price_end(b, pos + 1) == end);
        let tail = b.subrange(pos + 1, end);
        assert(tail == rest2);
        assert(tail.len() == end - pos - 1);
        assert(spec_price_encode_rest(u) =~= b.subrange(pos, end)) by {
            assert(b.subrange(pos, end).len() == end - pos);
            assert(b.subrange(pos, end)[0] == b[pos]);
            assert(seq![(u % 128 + 128) as u8][0] == (u % 128 + 128) as u8);
            assert forall|i: int| 1 <= i < end - pos implies b.subrange(pos, end)[i]
                == spec_price_encode_rest(u)[i] by {
                assert(b.subrange(pos, end)[i] == b[pos + i]);
                assert(tail[i - 1] == b[pos + i]);
                assert(spec_price_encode_rest(u)[i] == rest2[i - 1]);
            }
        }
    }
}

/// Price-delta re-encoding: decoding a canonical price chain and encoding
/// the decoded delta reproduces the chain's bytes exactly.
pub proof fn lemma_price_reencode(b: Seq<u8>, pos: int)
    requires
        spec_price_canonical(b, pos),
    ensures
        spec_price_encode(spec_price_value(b, pos)) == b.subrange(pos, spec_price_end(b, pos)),
{
    let end = spec_price_end(b, pos);
    let delta = spec_price_value(b, pos);
    let mag = spec_price_mag(b, pos);
    let v: u8 = b[pos];
    lemma_price_end_bounds(b, pos);
    vstd::arithmetic::power2::lemma2_to64();
    let e = spec_price_encode(delta);
    let sub = b.subrange(pos, end);
    assert(sub.len() == end - pos);
    assert(sub[0] == b[pos]);
    if v & 0x80 == 0 {
        assert(end == pos + 1);
        assert(mag == (v & 0x3f) as int);
        assert((v & 0x3f) < 64) by (bit_vector);
        assert(spec_price_encode_rest(0) =~= Seq::<u8>::empty());
        if v & 0x40 == 0 {
            assert(delta == mag && 0 <= delta < 64);
            assert(e == seq![(mag % 64) as u8] + spec_price_encode_rest(0));
            assert(v & 0x80 == 0 && v & 0x40 == 0 ==> v == (v & 0x3f)) by (bit_vector);
            assert(e =~= sub);
        } else {
            assert(delta == -mag);
            if mag == 0 {
                assert(v & 0x80 == 0 && v & 0x40 != 0 && v & 0x3f == 0 ==> v == 0x40)
                    by (bit_vector);
                assert(false);
            } else {
                assert(delta < 0 && -delta == mag < 64);
                assert(e == seq![(mag % 64 + 0x40) as u8] + spec_price_encode_rest(0));
                assert(v & 0x80 == 0 && v & 0x40 != 0 ==> v == ((v & 0x3f) + 0x40) as u8)
                    by (bit_vector);
                assert(e =~= sub);
            }
        }
    } else {
        assert(spec_price_valid(b, pos + 1));
        assert(spec_price_end(b, pos + 1) == end);
        lemma_price_end_bounds(b, pos + 1);
        assert(end - pos > 1);
        lemma_price_units_pos(b, pos + 1);
        lemma_price_rest_reencode(b, pos + 1);
        lemma_price_mag_rest_units(b, pos + 1, 6);
        let u1 = spec_price_units(b, pos + 1);
        let c = (v & 0x3f) as int;
        assert(pow2(6) == 64);
        assert(mag == c + u1 * 64);
        assert((v & 0x3f) < 64) by (bit_vector);
        assert(mag / 64 == u1 && mag % 64 == c && mag >= 64) by (nonlinear_arith)
            requires
                mag == c + u1 * 64,
                0 <= c < 64,
                u1 >= 1,
        ;
        let rest2 = spec_price_encode_rest(u1);
        assert(rest2 == b.subrange(pos + 1, end));
        assert(rest2.len() == end - pos - 1);
        let b0e: int = mag % 64 + (if v & 0x40 == 0 {
            0x80int
        } else {
            0xc0int
        });
        if v & 0x40 == 0 {
            assert(delta == mag && delta >= 64);
            assert(e == seq![(mag % 64 + 0x80) as u8] + rest2);
            assert(v & 0x40 == 0 && v & 0x80 != 0 ==> v == ((v & 0x3f) + 0x80) as u8)
                by (bit_vector);
        } else {
            assert(delta == -mag && delta <= -64);
            assert(e == seq![(mag % 64 + 0x40 + 0x80) as u8] + rest2);
            assert(v & 0x40 != 0 && v & 0x80 != 0 ==> v == ((v & 0x3f) + 0xc0) as u8)
                by (bit_vector);
        }
        assert(e[0] == (b0e) as u8);
        assert(e.len() == 1 + rest2.len());
        assert(e =~= sub) by {
            assert(e[0] == sub[0]);
            assert forall|i: int| 1 <= i < end - pos implies e[i] == sub[i] by {
                assert(e[i] == rest2[i - 1]);
                assert(b.subrange(pos + 1, end)[i - 1] == b[pos + i]);
                assert(sub[i] == b[pos + i]);
            }
        }
    }
}

/// The signed top byte of a packed-volume word: the piecewise exponent
/// selector.
pub open spec fn spec_vol_logpoint(u: u32) -> int {
    let t = (u >> 24) as int;
    if t >= 128 {
        t - 256
    } else {
        t
    }
}

/// The power-of-two exponent of the packed-volume value.
pub open spec fn spec_vol_exp(u: u32) -> int {
    2 * spec_vol_logpoint(u) - 0x96
}

/// The integer mantissa of the packed-volume value: the decoded value is
/// exactly `mantissa * 2^exp`. The four piecewise terms of the wire rule
/// (`x1`..`x4`), each a byte scaled by a power of two, collapse to this
/// integer once the common factor `2^exp` is taken out.
pub open spec fn spec_vol_mantissa(u: u32) -> int {
    let h = (u >> 16) & 0xff;
    let l = (u >> 8) & 0xff;
    let ll = u & 0xff;
    if h & 0x80 != 0 {
        0x800000 + (if h > 0x80 {
            (2 * h - 0x80) * 0x10000
        } else {
            h * 0x10000
        }) + l * 0x200 + ll * 2
    } else {
        0x800000 + h * 0x10000 + l * 0x100 + ll
    }
}

/// The exact value of a packed-volume field: `mantissa * 2^exp2`.
///
/// The mantissa fits 25 bits, so a 64-bit float evaluation of the
/// product, as consumers perform it, is exact.
#[derive(Debug, Clone, Copy, PartialEq, Eq)]
pub struct VolAmount {
    /// Integer mantissa, below `0x2000000`.
    pub mantissa: u32,
    /// Power-of-two exponent, in `-0x196..=0x68`.
    pub exp2: i32,
}

/// Decode a packed-volume field.
pub fn vol_amount(ivol: i32) -> (r: VolAmount)
    ensures
        r.mantissa == spec_vol_mantissa(ivol as u32),
        r.exp2 == spec_vol_exp(ivol as u32),
{
    let u: u32 = #[verifier::truncate] (ivol as u32);
    let t: u32 = u >> 24;
    let h: u32 = (u >> 16) & 0xff;
    let l: u32 = (u >> 8) & 0xff;
    let ll: u32 = u & 0xff;
    proof {
        assert(u >> 24 < 256 && (u >> 16) & 0xff < 256 && (u >> 8) & 0xff < 256 && u & 0xff < 256)
            by (bit_vector);
    }
    let lp: i32 = if t >= 128 {
        t as i32 - 256
    } else {
        t as i32
    };
    let mantissa: u32 = if h & 0x80 != 0 {
        let x2: u32 = if h > 0x80 {
            (2 * h - 0x80) * 0x10000
        } else {
            h * 0x10000
        };
        0x800000 + x2 + l * 0x200 + ll * 2
    } else {
        0x800000 + h * 0x10000 + l * 0x100 + ll
    };
    VolAmount { mantissa, exp2: 2 * lp - 0x96 }
}

/// Packed-volume round trip: every value whose mantissa fits the format
/// re-encodes to a word that decodes back to it exactly. A mantissa of 24
/// bits is carried exactly; one of 25 bits only with its lowest bit clear,
/// the representable-mantissa limit of the format.
pub fn vol_encode(mantissa: u32, exp2: i32) -> (r: i32)
    requires
        0x800000 <= mantissa < 0x2000000,
        mantissa >= 0x1000000 ==> mantissa % 2 == 0,
        -0x196 <= exp2 <= 0x68,
        (exp2 + 0x96) % 2 == 0,
    ensures
        spec_vol_mantissa(#[verifier::truncate] (r as u32)) == mantissa,
        spec_vol_exp(#[verifier::truncate] (r as u32)) == exp2,
{
    let e_off: u32 = ((exp2 + 0x196) as u32) / 2;
    let t: u32 = if e_off >= 0x80 {
        e_off - 0x80
    } else {
        e_off + 0x80
    };
    let m = mantissa;
    proof {
        assert(m >= 0x800000 ==> m >> 16 >= 0x80) by (bit_vector);
        assert(m < 0x1000000 ==> m >> 16 < 0x100) by (bit_vector);
        assert((m >> 1) >> 16 < 0x100 && ((m >> 1) >> 8) & 0xff < 0x100 && (m >> 1) & 0xff < 0x100
            && (m >> 8) & 0xff < 0x100 && m & 0xff < 0x100) by (bit_vector)
            requires
                m < 0x2000000,
        ;
    }
    let kk: u32 = if mantissa < 0x1000000 {
        mantissa
    } else {
        mantissa >> 1
    };
    let hfield: u32 = if mantissa < 0x1000000 {
        (mantissa >> 16) - 0x80
    } else {
        (mantissa >> 1) >> 16
    };
    let l: u32 = (kk >> 8) & 0xff;
    let ll2: u32 = kk & 0xff;
    let r_u: u32 = (t << 24) | (hfield << 16) | (l << 8) | ll2;
    proof {
        let tt = t;
        let hh = hfield;
        let lll = l;
        let llll = ll2;
        let w = r_u;
        assert(tt < 0x100 && hh < 0x100 && lll < 0x100 && llll < 0x100 && w == (tt << 24) | (hh
            << 16) | (lll << 8) | llll ==> (w >> 24 == tt && (w >> 16) & 0xff == hh && (w >> 8)
            & 0xff == lll && w & 0xff == llll)) by (bit_vector);
        assert(hfield < 0x100) by {
            assert(m < 0x1000000 && m >= 0x800000 ==> (m >> 16) - 0x80 < 0x100) by (bit_vector);
        }
        assert(m < 0x1000000 && m >= 0x800000 ==> ((m >> 16) - 0x80 < 0x80 && 0x800000 + ((m >> 16)
            - 0x80) * 0x10000 + ((m >> 8) & 0xff) * 0x100 + (m & 0xff) == m)) by (bit_vector);
        assert(m >= 0x1000000 && m < 0x2000000 && m % 2 == 0 ==> ({
            let k = m >> 1;
            let hf = k >> 16;
            &&& hf & 0x80 != 0
            &&& hf >= 0x80
            &&& (hf > 0x80 ==> 0x800000 + (2 * hf - 0x80) * 0x10000 + ((k >> 8) & 0xff) * 0x200 + (
            k & 0xff) * 2 == m)
            &&& (hf == 0x80 ==> 0x800000 + hf * 0x10000 + ((k >> 8) & 0xff) * 0x200 + (k & 0xff)
                * 2 == m)
        })) by (bit_vector);
        assert(m < 0x1000000 ==> (m >> 16) - 0x80 < 0x80) by (bit_vector)
            requires
                m >= 0x800000,
        ;
        let hf2 = hfield;
        assert(hf2 < 0x80 ==> hf2 & 0x80 == 0) by (bit_vector);
        assert(#[verifier::truncate] ((#[verifier::truncate] (w as i32)) as u32) == w)
            by (bit_vector);
    }
    #[verifier::truncate] (r_u as i32)
}

/// Packed-datetime round trip: for every year in 2004..=2035, month in
/// 1..=12, day in 1..=31, and time of day, decoding the packed words gives
/// the date and time back exactly. A year past 2035 does not fit the five
/// year bits of the day word: packing 2036 would need the thirty-second
/// multiple of 2048, beyond a 16-bit word.
pub proof fn lemma_packed_datetime_round_trip(y: u16, mo: u16, d: u16, h: u16, mi: u16)
    requires
        2004 <= y <= 2035,
        1 <= mo <= 12,
        1 <= d <= 31,
        h <= 23,
        mi <= 59,
    ensures
        ({
            let p = ((y - 2004) * 2048 + mo * 100 + d) as u16;
            let q = (h * 60 + mi) as u16;
            &&& (p >> 11) + 2004 == y
            &&& p % 2048 / 100 == mo
            &&& p % 2048 % 100 == d
            &&& q / 60 == h
            &&& q % 60 == mi
        }),
{
    let a = (y - 2004) as u16;
    let r = (mo * 100 + d) as u16;
    let p = ((y - 2004) * 2048 + mo * 100 + d) as u16;
    assert(p == a * 2048 + r);
    assert((p >> 11) == a && p % 2048 == r) by (bit_vector)
        requires
            a < 32 && r < 2048 && p == a * 2048 + r,
    ;
    assert(r / 100 == mo && r % 100 == d) by (nonlinear_arith)
        requires
            r == mo * 100 + d,
            1 <= mo <= 12,
            1 <= d <= 31,
    ;
    let q = (h * 60 + mi) as u16;
    assert(q / 60 == h && q % 60 == mi) by (nonlinear_arith)
        requires
            q == h * 60 + mi,
            h <= 23,
            mi <= 59,
    ;
}

} // verus!
