//! Little-endian primitive readers shared by every parser of the crate, and
//! the decimal date formatter used by the CSV-facing types.

use vstd::prelude::*;

verus! {

use vstd::bytes::{spec_u16_from_le_bytes, spec_u32_from_le_bytes};
use vstd::string::StringExecFns;

/// The little-endian `u32` stored at `slice[pos..pos + 4]`.
pub fn u32_from_le_bytes(slice: &[u8], pos: usize) -> (x: u32)
    requires
        pos + 4 <= slice@.len(),
    ensures
        x == spec_u32_from_le_bytes(slice@.subrange(pos as int, pos + 4)),
{
    let n: usize = slice.len();
    let b = vstd::slice::slice_subrange(slice, pos, pos + 4);
    vstd::bytes::u32_from_le_bytes(b)
}

/// The little-endian `u16` stored at `slice[pos..pos + 2]`.
pub fn u16_from_le_bytes(slice: &[u8], pos: usize) -> (x: u16)
    requires
        pos + 2 <= slice@.len(),
    ensures
        x == spec_u16_from_le_bytes(slice@.subrange(pos as int, pos + 2)),
{
    let n: usize = slice.len();
    let b = vstd::slice::slice_subrange(slice, pos, pos + 2);
    vstd::bytes::u16_from_le_bytes(b)
}

/// The byte stored at `slice[pos]`.
pub fn u8_from_le_bytes(slice: &[u8], pos: usize) -> (x: u8)
    requires
        pos < slice@.len(),
    ensures
        x == slice@[pos as int],
{
    *vstd::slice::slice_index_get(slice, pos)
}

/// Every byte is ASCII.
pub open spec fn spec_all_ascii(b: Seq<u8>) -> bool {
    forall|i: int| 0 <= i < b.len() ==> b[i] < 0x80
}

/// The bytes read as characters, one per byte.
pub open spec fn spec_ascii_chars(b: Seq<u8>) -> Seq<char> {
    Seq::new(b.len(), |i: int| b[i] as char)
}

/// Relies on String::from_utf8: the conversion succeeds exactly on valid
/// UTF-8, and a vector of ASCII bytes is valid UTF-8 and converts to the
/// string of those bytes as characters.
#[verifier::external_body]
pub fn ascii_string(bytes: Vec<u8>) -> (r: Option<String>)
    ensures
        match r {
            Some(s) => spec_all_ascii(bytes@) ==> s@ == spec_ascii_chars(bytes@),
            None => !spec_all_ascii(bytes@),
        },
{
    String::from_utf8(bytes).ok()
}

/// The character for one decimal digit.
pub closed spec fn digit_char(d: int) -> char {
    if d == 0 {
        '0'
    } else if d == 1 {
        '1'
    } else if d == 2 {
        '2'
    } else if d == 3 {
        '3'
    } else if d == 4 {
        '4'
    } else if d == 5 {
        '5'
    } else if d == 6 {
        '6'
    } else if d == 7 {
        '7'
    } else if d == 8 {
        '8'
    } else {
        '9'
    }
}

/// The decimal digits of `n`, most significant first, without padding.
pub closed spec fn dec_chars(n: nat) -> Seq<char>
    decreases n,
{
    if n < 10 {
        seq![digit_char(n as int)]
    } else {
        dec_chars(n / 10).push(digit_char((n % 10) as int))
    }
}

/// `n` in decimal, left-padded with one `'0'` when it has a single digit.
/// Wider values go through unpadded.
pub open spec fn dec_chars_pad2(n: nat) -> Seq<char> {
    if n > 9 {
        dec_chars(n)
    } else {
        seq!['0', digit_char(n as int)]
    }
}

/// `n` in decimal, left-padded with `'0'` to at least four characters.
pub open spec fn dec_chars_pad4(n: nat) -> Seq<char> {
    if n > 999 {
        dec_chars(n)
    } else if n > 99 {
        seq!['0'] + dec_chars(n)
    } else if n > 9 {
        seq!['0', '0'] + dec_chars(n)
    } else {
        seq!['0', '0', '0'] + dec_chars(n)
    }
}

/// Append the decimal digits of `x`, left-padded to four characters.
pub fn push_dec_pad4(s: &mut String, x: u32)
    ensures
        final(s)@ == old(s)@ + dec_chars_pad4(x as nat),
{
    if x <= 9 {
        push_digit(s, 0);
        push_digit(s, 0);
        push_digit(s, 0);
    } else if x <= 99 {
        push_digit(s, 0);
        push_digit(s, 0);
    } else if x <= 999 {
        push_digit(s, 0);
    }
    push_dec(s, x);
    proof {
        assert(s@ =~= old(s)@ + dec_chars_pad4(x as nat));
    }
}

/// The `%Y-%m-%d` rendering of a `YYYYMMDD` date number.
pub open spec fn spec_date_chars(x: nat) -> Seq<char> {
    dec_chars(x / 10000) + seq!['-'] + dec_chars_pad2(x % 10000 / 100) + seq!['-']
        + dec_chars_pad2(x % 10000 % 100)
}

/// Append the character of the decimal digit `d` to `s`.
fn push_digit(s: &mut String, d: u32)
    requires
        d < 10,
    ensures
        final(s)@ == old(s)@.push(digit_char(d as int)),
{
    proof {
        reveal_strlit("0");
        reveal_strlit("1");
        reveal_strlit("2");
        reveal_strlit("3");
        reveal_strlit("4");
        reveal_strlit("5");
        reveal_strlit("6");
        reveal_strlit("7");
        reveal_strlit("8");
        reveal_strlit("9");
    }
    match d {
        0 => s.append("0"),
        1 => s.append("1"),
        2 => s.append("2"),
        3 => s.append("3"),
        4 => s.append("4"),
        5 => s.append("5"),
        6 => s.append("6"),
        7 => s.append("7"),
        8 => s.append("8"),
        _ => s.append("9"),
    }
    proof {
        assert(s@ =~= old(s)@.push(digit_char(d as int)));
    }
}

/// Append the decimal digits of `x` to `s`, most significant first.
pub fn push_dec(s: &mut String, x: u32)
    ensures
        final(s)@ == old(s)@ + dec_chars(x as nat),
    decreases x,
{
    if x >= 10 {
        push_dec(s, x / 10);
    }
    push_digit(s, x % 10);
    proof {
        assert(s@ =~= old(s)@ + dec_chars(x as nat));
    }
}

/// Append the decimal digits of `x`, left-padded to two characters.
pub fn push_dec_pad2(s: &mut String, x: u32)
    ensures
        final(s)@ == old(s)@ + dec_chars_pad2(x as nat),
{
    if x <= 9 {
        push_digit(s, 0);
    }
    push_dec(s, x);
    proof {
        assert(s@ =~= old(s)@ + dec_chars_pad2(x as nat));
    }
}

/// Render a `YYYYMMDD` date number as `%Y-%m-%d`, for example `20210801`
/// as `2021-08-01`.
pub fn date_string(x: u32) -> (r: String)
    ensures
        r@ == spec_date_chars(x as nat),
{
    proof {
        reveal_strlit("-");
    }
    let mut s = String::new();
    push_dec(&mut s, x / 10000);
    s.append("-");
    push_dec_pad2(&mut s, x % 10000 / 100);
    s.append("-");
    push_dec_pad2(&mut s, x % 10000 % 100);
    proof {
        assert(s@ =~= spec_date_chars(x as nat));
    }
    s
}

} // verus!
