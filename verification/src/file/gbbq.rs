//! The corporate-action ("gbbq") file: a 4-byte little-endian record count
//! followed by 29-byte records, each encrypted with a Feistel-like network
//! of sixteen rounds over a constant key schedule.
//!
//! The key schedule is a 4,168-byte table (a 0x48-byte round-key area and
//! four 1,024-byte lookup tables). This crate takes it as a value, checked
//! for its exact length, rather than compiling the table in.

use vstd::prelude::*;

verus! {

use vstd::bytes::{spec_u32_from_le_bytes, spec_u32_to_le_bytes, lemma_auto_spec_u32_to_from_le_bytes};
use crate::bytes_helper::u32_from_le_bytes;
use crate::file::day::u32_le_at;
use crate::Error;

/// Length in bytes of the cipher key schedule.
pub const KEY_LEN: usize = 4168;

/// The constant key schedule of the record cipher, held with its exact
/// length as an invariant.
#[derive(Debug, Clone)]
pub struct KeySchedule {
    bytes: Vec<u8>,
}

impl View for KeySchedule {
    type V = Seq<u8>;

    closed spec fn view(&self) -> Seq<u8> {
        self.bytes@
    }
}

impl KeySchedule {
    /// The length invariant of the schedule.
    pub open spec fn wf(&self) -> bool {
        self@.len() == KEY_LEN
    }

    /// Accept exactly `KEY_LEN` bytes as a key schedule.
    pub fn new(bytes: Vec<u8>) -> (r: Result<KeySchedule, Error>)
        ensures
            r is Ok <==> bytes@.len() == KEY_LEN,
            r matches Ok(k) ==> k@ == bytes@ && k.wf(),
    {
        if bytes.len() == KEY_LEN {
            Ok(KeySchedule { bytes })
        } else {
            Err(Error::Custom("key schedule must be exactly 4168 bytes"))
        }
    }

    /// The little-endian `u32` at offset `pos` of the schedule.
    fn word(&self, pos: usize) -> (x: u32)
        requires
            self.wf(),
            pos + 4 <= KEY_LEN,
        ensures
            x == key_word(self@, pos as int),
    {
        u32_from_le_bytes(self.bytes.as_slice(), pos)
    }
}

/// The little-endian `u32` at offset `p` of the key schedule `k`.
pub open spec fn key_word(k: Seq<u8>, p: int) -> u32 {
    spec_u32_from_le_bytes(k.subrange(p, p + 4))
}

/// The table value mixed into one round: four table lookups selected by the
/// bytes of `num`, combined by alternating wrapping addition and xor, and
/// finally xored with the round key at offset `j`.
pub open spec fn spec_round_t(k: Seq<u8>, num: u32, j: int) -> u32 {
    let b3 = (num >> 24) as int;
    let b2 = ((num & 0xff0000) >> 16) as int;
    let b1 = ((num & 0xff00) >> 8) as int;
    let b0 = (num & 0xff) as int;
    let e1 = key_word(k, b2 * 4 + 0x448);
    let e2 = e1.wrapping_add(key_word(k, b3 * 4 + 0x48));
    let e3 = e2 ^ key_word(k, b1 * 4 + 0x848);
    let e4 = e3.wrapping_add(key_word(k, b0 * 4 + 0xc48));
    e4 ^ key_word(k, j)
}

/// The rounds of the cipher from round key offset `j` down to 4, stepping
/// by 4: each round maps `(num, numold)` to `(numold ^ t, num)`.
pub open spec fn spec_rounds(k: Seq<u8>, num: u32, numold: u32, j: int) -> (u32, u32)
    decreases j,
{
    if j < 4 {
        (num, numold)
    } else {
        spec_rounds(k, numold ^ spec_round_t(k, num, j), num, j - 4)
    }
}

/// Decipher one 8-byte half-block pair given as two little-endian words:
/// initial xor with the word at 0x44, sixteen rounds, final xor with the
/// word at 0, and the concluding swap.
pub open spec fn spec_decipher_pair(k: Seq<u8>, l: u32, r: u32) -> (u32, u32) {
    let rounds = spec_rounds(k, key_word(k, 0x44) ^ l, r, 64);
    (rounds.1 ^ key_word(k, 0), rounds.0)
}

/// Decipher one 8-byte block.
pub open spec fn spec_decipher_block(k: Seq<u8>, b: Seq<u8>) -> Seq<u8> {
    let words = spec_decipher_pair(k, u32_le_at(b, 0), u32_le_at(b, 4));
    spec_u32_to_le_bytes(words.0) + spec_u32_to_le_bytes(words.1)
}

/// Decipher one 29-byte record: three 8-byte blocks, with the last five
/// bytes carried through verbatim.
pub open spec fn spec_decipher_record(k: Seq<u8>, c: Seq<u8>) -> Seq<u8> {
    spec_decipher_block(k, c.subrange(0, 8)) + spec_decipher_block(k, c.subrange(8, 16))
        + spec_decipher_block(k, c.subrange(16, 24)) + c.subrange(24, 29)
}

/// One round's table value.
fn round_t(key: &KeySchedule, num: u32, j: usize) -> (t: u32)
    requires
        key.wf(),
        j + 4 <= KEY_LEN,
    ensures
        t == spec_round_t(key@, num, j as int),
{
    proof {
        assert(num >> 24 < 256 && (num & 0xff0000) >> 16 < 256 && (num & 0xff00) >> 8 < 256
            && num & 0xff < 256) by (bit_vector);
    }
    let b3 = (num >> 24) as usize;
    let b2 = ((num & 0xff0000) >> 16) as usize;
    let b1 = ((num & 0xff00) >> 8) as usize;
    let b0 = (num & 0xff) as usize;
    let e1 = key.word(b2 * 4 + 0x448);
    let e2 = e1.wrapping_add(key.word(b3 * 4 + 0x48));
    let e3 = e2 ^ key.word(b1 * 4 + 0x848);
    let e4 = e3.wrapping_add(key.word(b0 * 4 + 0xc48));
    e4 ^ key.word(j)
}

/// Decipher one half-block pair.
fn decipher_pair(key: &KeySchedule, l: u32, r: u32) -> (out: (u32, u32))
    requires
        key.wf(),
    ensures
        out == spec_decipher_pair(key@, l, r),
{
    let mut num: u32 = key.word(0x44) ^ l;
    let mut numold: u32 = r;
    let ghost num0 = num;
    let mut j: usize = 64;
    while j >= 4
        invariant
            key.wf(),
            j % 4 == 0,
            j <= 64,
            spec_rounds(key@, num, numold, j as int) == spec_rounds(key@, num0, r, 64),
        decreases j,
    {
        let t = round_t(key, num, j);
        let tmp = num;
        num = numold ^ t;
        numold = tmp;
        j = j - 4;
    }
    (numold ^ key.word(0), num)
}

/// Decipher the 8-byte block at `pos` of `encrypt` and append the result
/// to `out`.
fn push_block(out: &mut Vec<u8>, key: &KeySchedule, encrypt: &[u8], pos: usize)
    requires
        key.wf(),
        pos + 8 <= encrypt@.len(),
    ensures
        final(out)@ == old(out)@ + spec_decipher_block(
            key@,
            encrypt@.subrange(pos as int, pos + 8),
        ),
{
    let n: usize = encrypt.len();
    let l = u32_from_le_bytes(encrypt, pos);
    let r = u32_from_le_bytes(encrypt, pos + 4);
    proof {
        let b = encrypt@.subrange(pos as int, pos + 8);
        assert(encrypt@.subrange(pos as int, pos + 4) =~= b.subrange(0, 4));
        assert(encrypt@.subrange(pos + 4, pos + 8) =~= b.subrange(4, 8));
    }
    let words = decipher_pair(key, l, r);
    let mut b0 = vstd::bytes::u32_to_le_bytes(words.0);
    let mut b1 = vstd::bytes::u32_to_le_bytes(words.1);
    out.append(&mut b0);
    out.append(&mut b1);
}

/// Decrypt one 29-byte encrypted record.
pub fn parse(encrypt: &[u8], key: &KeySchedule) -> (r: Vec<u8>)
    requires
        encrypt@.len() == 29,
        key.wf(),
    ensures
        r@ == spec_decipher_record(key@, encrypt@),
        r@.len() == 29,
{
    let mut out: Vec<u8> = Vec::new();
    push_block(&mut out, key, encrypt, 0);
    push_block(&mut out, key, encrypt, 8);
    push_block(&mut out, key, encrypt, 16);
    let tail = vstd::slice::slice_subrange(encrypt, 24, 29);
    let mut tail = vstd::slice::slice_to_vec(tail);
    out.append(&mut tail);
    proof {
        lemma_auto_spec_u32_to_from_le_bytes();
        assert(out@ =~= spec_decipher_record(key@, encrypt@));
    }
    out
}

/// Decryption is a function of the record and the key schedule alone: the
/// same ciphertext under the same schedule always yields the same plaintext.
pub proof fn lemma_decipher_deterministic(k1: Seq<u8>, c1: Seq<u8>, k2: Seq<u8>, c2: Seq<u8>)
    requires
        k1 == k2,
        c1 == c2,
    ensures
        spec_decipher_record(k1, c1) == spec_decipher_record(k2, c2),
{
}

/// One decoded corporate-action record.
///
/// The four payload slots hold the raw bit patterns of the stored 32-bit
/// floats; this crate does not interpret them. Which meaning a slot carries
/// depends on `category` (category 1, the only one the adjustment engine
/// consumes, reads them as dividend, rights price, bonus ratio and rights
/// ratio).
#[derive(Debug, Clone)]
pub struct Gbbq {
    /// Market flag: 0 Shenzhen, 1 Shanghai.
    pub market: u8,
    /// The six ASCII bytes of the security code.
    pub code: Vec<u8>,
    /// `YYYYMMDD` date number.
    pub date: u32,
    /// Event category, 1..=14 in plausible records.
    pub category: u8,
    /// Raw bits: cash dividend per 10 shares, or prior float.
    pub fh_qltp: u32,
    /// Raw bits: rights-issue price, or prior total capital.
    pub pgj_qzgb: u32,
    /// Raw bits: bonus shares per 10, or posterior float.
    pub sg_hltp: u32,
    /// Raw bits: rights-issue shares per 10, or posterior total capital.
    pub pg_hzgb: u32,
}

impl Gbbq {
    /// How a decoded record relates to its 29 plaintext bytes.
    pub open spec fn matches_bytes(&self, b: Seq<u8>) -> bool {
        &&& self.market == b[0]
        &&& self.code@ == b.subrange(1, 7)
        &&& self.date == u32_le_at(b, 8)
        &&& self.category == b[12]
        &&& self.fh_qltp == u32_le_at(b, 13)
        &&& self.pgj_qzgb == u32_le_at(b, 17)
        &&& self.sg_hltp == u32_le_at(b, 21)
        &&& self.pg_hzgb == u32_le_at(b, 25)
    }

    /// Decode one 29-byte plaintext record.
    pub fn from_chunk(chunk: &[u8]) -> (g: Gbbq)
        requires
            chunk@.len() == 29,
        ensures
            g.matches_bytes(chunk@),
    {
        let code = vstd::slice::slice_to_vec(vstd::slice::slice_subrange(chunk, 1, 7));
        Gbbq {
            market: *vstd::slice::slice_index_get(chunk, 0),
            code: code,
            date: u32_from_le_bytes(chunk, 8),
            category: *vstd::slice::slice_index_get(chunk, 12),
            fh_qltp: u32_from_le_bytes(chunk, 13),
            pgj_qzgb: u32_from_le_bytes(chunk, 17),
            sg_hltp: u32_from_le_bytes(chunk, 21),
            pg_hzgb: u32_from_le_bytes(chunk, 25),
        }
    }
}

/// An A-share ex-dividend record: category 1, code beginning `0`, `3` or
/// `6`. Only these records feed the adjustment engine.
pub open spec fn spec_passes(g: Gbbq) -> bool {
    &&& g.category == 1
    &&& g.code@.len() > 0
    &&& (g.code@[0] == 0x30 || g.code@[0] == 0x33 || g.code@[0] == 0x36)
}

/// The numeric code of a record, when its code bytes are all digits.
pub open spec fn spec_code_of(g: Gbbq) -> Option<int> {
    crate::cmd::spec_digits_val(g.code@)
}

/// The passing records with numeric code `c`, in order.
pub open spec fn spec_code_filter(gs: Seq<Gbbq>, c: u32) -> Seq<Gbbq> {
    gs.filter(|g: Gbbq| spec_passes(g) && spec_code_of(g) == Some(c as int))
}

/// Every security's passing records stand in one contiguous run: no two
/// records of one code are separated by a record of another.
pub open spec fn spec_run_grouped(gs: Seq<Gbbq>) -> bool {
    forall|i: int, j: int, k: int|
        0 <= i < j < k < gs.len() && spec_passes(#[trigger] gs[i]) && spec_passes(
            #[trigger] gs[j],
        ) && spec_passes(#[trigger] gs[k]) && spec_code_of(gs[i]) == spec_code_of(gs[k])
            ==> spec_code_of(gs[j]) == spec_code_of(gs[i])
}

/// A nonempty filter names an element.
proof fn lemma_filter_nonempty_index(s: Seq<Gbbq>, pred: spec_fn(Gbbq) -> bool)
    requires
        s.filter(pred).len() > 0,
    ensures
        exists|i: int| 0 <= i < s.len() && pred(#[trigger] s[i]),
    decreases s.len(),
{
    reveal(Seq::filter);
    if s.len() > 0 {
        if pred(s.last()) {
            assert(0 <= s.len() - 1 < s.len() && pred(s[s.len() - 1]));
        } else {
            lemma_filter_nonempty_index(s.drop_last(), pred);
            let i = choose|i: int| 0 <= i < s.drop_last().len() && pred(#[trigger] s.drop_last()[i]);
            assert(s[i] == s.drop_last()[i]);
        }
    }
}

/// Grouping of the corporate-action file by security.
pub type StockGbbq = std::collections::HashMap<u32, Vec<Gbbq>>;

impl Gbbq {
    /// Group the A-share ex-dividend records by numeric code: each code of
    /// the input maps to its records, in input order. The records of one
    /// code must stand contiguously, their codes must be six digits, and
    /// no passing code may be zero.
    pub fn filter_hashmap(gbbq: Vec<Gbbq>) -> (r: StockGbbq)
        requires
            forall|i: int|
                0 <= i < gbbq@.len() && spec_passes(#[trigger] gbbq@[i]) ==> {
                    &&& gbbq@[i].code@.len() == 6
                    &&& spec_code_of(gbbq@[i]) is Some
                    &&& spec_code_of(gbbq@[i]) != Some(0int)
                },
            spec_run_grouped(gbbq@),
        ensures
            forall|c: u32|
                #[trigger] r@.contains_key(c) <==> (c != 0 && spec_code_filter(gbbq@, c).len()
                    > 0),
            forall|c: u32| #[trigger]
                r@.contains_key(c) ==> r@[c]@ == spec_code_filter(gbbq@, c),
    {
        broadcast use vstd::std_specs::hash::group_hash_axioms;

        let ghost gs = gbbq@;
        let mut rest = gbbq;
        let mut code: u32 = 0;
        let mut vec: Vec<Gbbq> = Vec::new();
        let mut hm: StockGbbq = std::collections::HashMap::new();
        let mut i: usize = 0;
        let total: usize = rest.len();
        let ghost n = gs.len();
        while rest.len() > 0
            invariant
                gs.len() == n,
                n == total,
                i <= n,
                rest@ == gs.subrange(i as int, n as int),
                forall|t: int|
                    0 <= t < n && spec_passes(#[trigger] gs[t]) ==> {
                        &&& gs[t].code@.len() == 6
                        &&& spec_code_of(gs[t]) is Some
                        &&& spec_code_of(gs[t]) != Some(0int)
                    },
                spec_run_grouped(gs),
                code == 0 ==> forall|c: u32| spec_code_filter(gs.subrange(0, i as int), c).len()
                    == 0,
                code != 0 ==> vec@ == spec_code_filter(gs.subrange(0, i as int), code)
                    && vec@.len() > 0,
                code != 0 ==> exists|j: int|
                    0 <= j < i && spec_passes(#[trigger] gs[j]) && spec_code_of(gs[j]) == Some(
                        code as int,
                    ) && (forall|k: int| j < k < i ==> !spec_passes(#[trigger] gs[k])),
                forall|c: u32|
                    #[trigger] hm@.contains_key(c) <==> (c != 0 && c != code && spec_code_filter(
                        gs.subrange(0, i as int),
                        c,
                    ).len() > 0),
                forall|c: u32| #[trigger]
                    hm@.contains_key(c) ==> hm@[c]@ == spec_code_filter(gs, c),
            decreases n - i,
        {
            let g = rest.remove(0);
            proof {
                assert(g == gs[i as int]);
                assert(rest@ =~= gs.subrange(i as int + 1, n as int));
            }
            let passes = g.category == 1 && g.code.len() > 0 && (*vstd::slice::slice_index_get(
                g.code.as_slice(),
                0,
            ) == 0x30 || *vstd::slice::slice_index_get(g.code.as_slice(), 0) == 0x33
                || *vstd::slice::slice_index_get(g.code.as_slice(), 0) == 0x36);
            let ghost p_old = gs.subrange(0, i as int);
            let ghost p_new = gs.subrange(0, i as int + 1);
            proof {
                reveal(Seq::filter);
                assert(p_new.drop_last() =~= p_old);
                assert(p_new.last() == g);
            }
            if passes {
                let c = match crate::cmd::parse_digits(g.code.as_slice()) {
                    Some(x) => x,
                    None => {
                        proof {
                            assert(false);
                        }
                        0
                    },
                };
                if c != code {
                    if code != 0 {
                        proof {
                            lemma_run_complete(gs, i as int, code);
                        }
                        hm.insert(code, vec);
                        vec = Vec::new();
                    }
                    let ghost old_code = code;
                    code = c;
                    vec = Vec::new();
                    vec.push(g);
                    proof {
                        assert(spec_code_filter(p_old, c).len() == 0) by {
                            if spec_code_filter(p_old, c).len() > 0 {
                                lemma_filter_nonempty_index(
                                    p_old,
                                    |g2: Gbbq| spec_passes(g2) && spec_code_of(g2) == Some(
                                        c as int,
                                    ),
                                );
                                let i0 = choose|t: int|
                                    0 <= t < p_old.len() && spec_passes(#[trigger] p_old[t])
                                        && spec_code_of(p_old[t]) == Some(c as int);
                                assert(p_old[i0] == gs[i0]);
                                if old_code != 0 {
                                    let j = choose|j: int|
                                        0 <= j < i && spec_passes(#[trigger] gs[j]) && spec_code_of(
                                            gs[j],
                                        ) == Some(old_code as int) && (forall|k: int|
                                            j < k < i ==> !spec_passes(#[trigger] gs[k]));
                                    assert(i0 <= j);
                                    assert(i0 < j);
                                    assert(spec_code_of(gs[j]) == spec_code_of(gs[i0]));
                                } else {
                                    assert(spec_code_filter(p_old, c).len() == 0);
                                }
                            }
                        }
                        assert(vec@ =~= spec_code_filter(p_new, c));
                    }
                } else {
                    vec.push(g);
                    proof {
                        assert(vec@ =~= spec_code_filter(p_new, code));
                    }
                }
            }
            i = i + 1;
            proof {
                assert(forall|c: u32|
                    !(spec_passes(g) && spec_code_of(g) == Some(c as int))
                        ==> #[trigger] spec_code_filter(p_new, c) == spec_code_filter(p_old, c));
            }
        }
        proof {
            assert(gs.subrange(0, n as int) =~= gs);
        }
        if code != 0 {
            proof {
                lemma_run_complete_end(gs, code);
            }
            hm.insert(code, vec);
        }
        hm
    }
}

/// When a run of `code` ends at index `i` (a passing record of another
/// code), no passing record of `code` follows, so the filter over the
/// whole sequence equals the filter over the prefix.
proof fn lemma_run_complete(gs: Seq<Gbbq>, i: int, code: u32)
    requires
        spec_run_grouped(gs),
        0 <= i < gs.len(),
        spec_passes(gs[i]),
        spec_code_of(gs[i]) != Some(code as int),
        exists|j: int|
            0 <= j < i && spec_passes(#[trigger] gs[j]) && spec_code_of(gs[j]) == Some(code as int),
    ensures
        spec_code_filter(gs, code) == spec_code_filter(gs.subrange(0, i), code),
{
    let j = choose|j: int|
        0 <= j < i && spec_passes(#[trigger] gs[j]) && spec_code_of(gs[j]) == Some(code as int);
    assert forall|k: int| i <= k < gs.len() implies !(spec_passes(#[trigger] gs[k]) && spec_code_of(
        gs[k],
    ) == Some(code as int)) by {
        if spec_passes(gs[k]) && spec_code_of(gs[k]) == Some(code as int) {
            assert(j < i <= k);
            assert(k != i);
            assert(spec_code_of(gs[i]) == spec_code_of(gs[j]));
        }
    }
    lemma_filter_stops(gs, i, |g: Gbbq| spec_passes(g) && spec_code_of(g) == Some(code as int));
}

/// At the end of the walk the current run's filter over the prefix is the
/// filter over the whole sequence.
proof fn lemma_run_complete_end(gs: Seq<Gbbq>, code: u32)
    ensures
        spec_code_filter(gs, code) == spec_code_filter(gs.subrange(0, gs.len() as int), code),
{
    assert(gs.subrange(0, gs.len() as int) =~= gs);
}

/// A filter whose predicate fails from `i` on equals the filter of the
/// prefix up to `i`.
proof fn lemma_filter_stops(gs: Seq<Gbbq>, i: int, pred: spec_fn(Gbbq) -> bool)
    requires
        0 <= i <= gs.len(),
        forall|k: int| i <= k < gs.len() ==> !pred(#[trigger] gs[k]),
    ensures
        gs.filter(pred) == gs.subrange(0, i).filter(pred),
    decreases gs.len() - i,
{
    reveal(Seq::filter);
    if i < gs.len() {
        let p = gs.subrange(0, gs.len() - 1);
        assert(gs.drop_last() =~= p);
        lemma_filter_stops(p, i, pred);
        assert(p.subrange(0, i) =~= gs.subrange(0, i));
    } else {
        assert(gs.subrange(0, i) =~= gs);
    }
}

/// The suffix of a gbbq byte stream from record `i` on, with every complete
/// 29-byte record deciphered and the incomplete tail carried through.
pub open spec fn spec_decrypt_chunks(k: Seq<u8>, d: Seq<u8>, i: int) -> Seq<u8>
    recommends
        d.len() >= 4,
        0 <= i,
    decreases d.len() - (4 + 29 * i),
{
    if 4 + 29 * i + 29 <= d.len() {
        spec_decipher_record(k, d.subrange(4 + 29 * i, 4 + 29 * i + 29)) + spec_decrypt_chunks(
            k,
            d,
            i + 1,
        )
    } else {
        d.subrange(4 + 29 * i, d.len() as int)
    }
}

/// A gbbq byte stream after in-place decryption: the 4-byte count header
/// and any incomplete tail unchanged, every complete record deciphered.
pub open spec fn spec_plain_data(k: Seq<u8>, d: Seq<u8>) -> Seq<u8> {
    d.subrange(0, 4) + spec_decrypt_chunks(k, d, 0)
}

/// Relies on the mutable range index of `Vec`: `&mut v[start..]` borrows
/// the tail in place, so writes through it change exactly the bytes from
/// `start` on, and the slice's length cannot change.
#[verifier::external_body]
fn slice_tail_mut(v: &mut Vec<u8>, start: usize) -> (r: &mut [u8])
    requires
        start <= old(v)@.len(),
    ensures
        r@ == old(v)@.subrange(start as int, old(v)@.len() as int),
        final(r)@.len() == r@.len(),
        final(v)@ == old(v)@.subrange(0, start as int) + final(r)@,
{
    &mut v[start..]
}

/// An entire gbbq file held in memory: the 4-byte record count followed by
/// the record bytes, encrypted until [`Gbbqs::to_vec`] has run once.
#[derive(Debug, Clone)]
pub struct Gbbqs {
    /// The byte stream, header included.
    pub data: Vec<u8>,
    /// The record count the file header declares.
    pub count: usize,
    /// Whether `data` now holds decrypted records.
    pub parsed: bool,
}

impl View for Gbbqs {
    type V = Seq<u8>;

    closed spec fn view(&self) -> Seq<u8> {
        self.data@
    }
}

impl Gbbqs {
    /// The stream is long enough to hold its 4-byte header.
    pub open spec fn wf(&self) -> bool {
        self@.len() >= 4
    }

    /// Take a whole gbbq byte stream; rejects one shorter than its 4-byte
    /// header. The count is read from the header; the data keeps the header.
    pub fn from_bytes(data: Vec<u8>) -> (r: Result<Gbbqs, Error>)
        ensures
            r is Ok <==> data@.len() >= 4,
            r matches Ok(g) ==> {
                &&& g@ == data@
                &&& g.wf()
                &&& g.count == u32_le_at(data@, 0)
                &&& !g.parsed
            },
    {
        if data.len() < 4 {
            return Err(Error::Custom("gbbq stream shorter than its 4-byte header"));
        }
        let count = u32_from_le_bytes(data.as_slice(), 0) as usize;
        proof {
            assert(data@.subrange(0, 4) =~= data@.subrange(0int, 0int + 4));
        }
        Ok(Gbbqs { data, count, parsed: false })
    }

    /// The record bytes, without the 4-byte header: encrypted before the
    /// first call of [`Gbbqs::to_vec`], decrypted after it.
    pub fn get_data(&self) -> (r: &[u8])
        requires
            self.wf(),
        ensures
            r@ == self@.subrange(4, self@.len() as int),
    {
        let n: usize = self.data.len();
        vstd::slice::slice_subrange(self.data.as_slice(), 4, n)
    }

    /// The record bytes as a mutable slice, without the 4-byte header.
    /// Writes through the slice land after the header, and the count
    /// header itself stays as it was.
    pub fn get_data_mut(&mut self) -> (r: &mut [u8])
        requires
            old(self).wf(),
        ensures
            r@ == old(self)@.subrange(4, old(self)@.len() as int),
            final(r)@.len() == r@.len(),
            final(self)@ == old(self)@.subrange(0, 4) + final(r)@,
            final(self).count == old(self).count,
            final(self).parsed == old(self).parsed,
    {
        slice_tail_mut(&mut self.data, 4)
    }

    /// Decrypt (on the first call) and decode every complete record.
    /// After the call the held data is the decrypted stream.
    pub fn to_vec(&mut self, key: &KeySchedule) -> (v: Vec<Gbbq>)
        requires
            old(self).wf(),
            key.wf(),
        ensures
            final(self).wf(),
            final(self).count == old(self).count,
            final(self).parsed,
            final(self)@ == if old(self).parsed {
                old(self)@
            } else {
                spec_plain_data(key@, old(self)@)
            },
            v@.len() == (old(self)@.len() - 4) / 29,
            forall|i: int|
                0 <= i < v@.len() ==> v@[i].matches_bytes(
                    #[trigger] final(self)@.subrange(4 + 29 * i, 4 + 29 * i + 29),
                ),
    {
        let n: usize = self.data.len();
        let m: usize = (n - 4) / 29;
        let mut v: Vec<Gbbq> = Vec::new();
        if self.parsed {
            let mut i: usize = 0;
            while i < m
                invariant
                    self@.len() == n,
                    4 <= n,
                    m == (n - 4) / 29,
                    i <= m,
                    v@.len() == i,
                    forall|t: int|
                        0 <= t < v@.len() ==> v@[t].matches_bytes(
                            #[trigger] self@.subrange(4 + 29 * t, 4 + 29 * t + 29),
                        ),
                decreases m - i,
            {
                let chunk = vstd::slice::slice_subrange(self.data.as_slice(), 4 + 29 * i, 4 + 29
                    * i + 29);
                v.push(Gbbq::from_chunk(chunk));
                i = i + 1;
            }
            v
        } else {
            let mut nd: Vec<u8> = vstd::slice::slice_to_vec(
                vstd::slice::slice_subrange(self.data.as_slice(), 0, 4),
            );
            let ghost d = self.data@;
            let ghost k = key@;
            let mut i: usize = 0;
            while i < m
                invariant
                    self@ == d,
                    d.len() == n,
                    4 <= n,
                    m == (n - 4) / 29,
                    i <= m,
                    key.wf(),
                    key@ == k,
                    v@.len() == i,
                    nd@.len() == 4 + 29 * i,
                    spec_plain_data(k, d) == nd@ + spec_decrypt_chunks(k, d, i as int),
                    forall|t: int|
                        0 <= t < v@.len() ==> v@[t].matches_bytes(
                            #[trigger] nd@.subrange(4 + 29 * t, 4 + 29 * t + 29),
                        ),
                decreases m - i,
            {
                let chunk = vstd::slice::slice_subrange(self.data.as_slice(), 4 + 29 * i, 4 + 29
                    * i + 29);
                let mut plain = parse(chunk, key);
                let g = Gbbq::from_chunk(plain.as_slice());
                let ghost nd_before = nd@;
                v.push(g);
                nd.append(&mut plain);
                proof {
                    assert(forall|t: int|
                        0 <= t < i ==> #[trigger] nd@.subrange(4 + 29 * t, 4 + 29 * t + 29)
                            =~= nd_before.subrange(4 + 29 * t, 4 + 29 * t + 29));
                    assert(nd@.subrange(4 + 29 * i, 4 + 29 * i + 29) =~= spec_decipher_record(
                        k,
                        d.subrange(4 + 29 * i, 4 + 29 * i + 29),
                    ));
                }
                i = i + 1;
            }
            let mut tail = vstd::slice::slice_to_vec(
                vstd::slice::slice_subrange(self.data.as_slice(), 4 + 29 * m, n),
            );
            let ghost nd_pre = nd@;
            nd.append(&mut tail);
            proof {
                assert(forall|t: int|
                    0 <= t < v@.len() ==> #[trigger] nd@.subrange(4 + 29 * t, 4 + 29 * t + 29)
                        =~= nd_pre.subrange(4 + 29 * t, 4 + 29 * t + 29));
                assert(spec_decrypt_chunks(k, d, m as int) == d.subrange(4 + 29 * m, n as int));
                assert(nd@ =~= spec_plain_data(k, d));
                assert(forall|t: int|
                    0 <= t < v@.len() ==> #[trigger] nd@.subrange(4 + 29 * t, 4 + 29 * t + 29)
                        =~= spec_plain_data(k, d).subrange(4 + 29 * t, 4 + 29 * t + 29));
            }
            self.data = nd;
            self.parsed = true;
            v
        }
    }
}

} // verus!
