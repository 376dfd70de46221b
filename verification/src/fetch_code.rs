//! The compute side of fetching the exchanges' official stock lists: the
//! Shanghai endpoint's reply is parsed here for its declared total and its
//! company codes; the Shenzhen workbook's cells only need the exchange
//! prefix attached. The HTTP requests and the workbook reader live outside
//! this library.

use vstd::prelude::*;

verus! {

use vstd::string::StringExecFns;
use vstd::string::StringSliceAdditionalSpecFns;
use crate::bytes_helper::{ascii_string, spec_ascii_chars, spec_all_ascii};
use crate::cmd::bytes_eq;

/// How many codes each official list contributed: Shanghai main board,
/// Shanghai STAR board, Shenzhen.
#[derive(Debug, Clone, Copy, PartialEq, Eq)]
pub struct SHSZ {
    /// Shanghai main-board codes (beginning 60).
    pub sh1: usize,
    /// Shanghai STAR-board codes (beginning 68).
    pub sh8: usize,
    /// Shenzhen codes.
    pub sz: usize,
}

impl SHSZ {
    /// The total over the three lists.
    pub fn count(&self) -> (r: usize)
        requires
            self.sh1 + self.sh8 + self.sz <= usize::MAX,
        ensures
            r == self.sh1 + self.sh8 + self.sz,
    {
        self.sh1 + self.sh8 + self.sz
    }
}

/// The pattern `pat` occurs at index `i` of `b`.
pub open spec fn spec_match_at(b: Seq<u8>, pat: Seq<u8>, i: int) -> bool {
    0 <= i && i + pat.len() <= b.len() && b.subrange(i, i + pat.len()) == pat
}

/// The first occurrence of `pat` at or after `from`.
pub open spec fn spec_find_pat(b: Seq<u8>, pat: Seq<u8>, from: int) -> Option<int>
    decreases b.len() - from,
{
    if from < 0 || from + pat.len() > b.len() || pat.len() == 0 {
        None
    } else if spec_match_at(b, pat, from) {
        Some(from)
    } else {
        spec_find_pat(b, pat, from + 1)
    }
}

/// A found occurrence matches, and lies at or after the start of the
/// search.
proof fn lemma_find_pat_match(b: Seq<u8>, pat: Seq<u8>, from: int)
    requires
        spec_find_pat(b, pat, from) is Some,
    ensures
        ({
            let i = spec_find_pat(b, pat, from).unwrap();
            from <= i && spec_match_at(b, pat, i)
        }),
    decreases b.len() - from,
{
    if !(from < 0 || from + pat.len() > b.len() || pat.len() == 0) && !spec_match_at(
        b,
        pat,
        from,
    ) {
        lemma_find_pat_match(b, pat, from + 1);
    }
}

/// Find the first occurrence of `pat` at or after `from`.
pub(crate) fn find_pat(b: &[u8], pat: &[u8], from: usize) -> (r: Option<usize>)
    requires
        pat@.len() >= 1,
    ensures
        match r {
            Some(i) => spec_find_pat(b@, pat@, from as int) == Some(i as int),
            None => spec_find_pat(b@, pat@, from as int) is None,
        },
{
    let n: usize = b.len();
    let plen: usize = pat.len();
    if from > n || n - from < plen {
        return None;
    }
    let mut i: usize = from;
    while i <= n - plen
        invariant
            b@.len() == n,
            pat@.len() == plen,
            1 <= plen <= n,
            from <= i,
            i <= n - plen + 1,
            spec_find_pat(b@, pat@, from as int) == spec_find_pat(b@, pat@, i as int),
        decreases n - i,
    {
        let w = vstd::slice::slice_subrange(b, i, i + plen);
        if bytes_eq(w, pat) {
            return Some(i);
        }
        i = i + 1;
    }
    None
}

/// The numeric value of up to ten ASCII digits, capped below `2^53`.
pub open spec fn spec_digits_val10(b: Seq<u8>) -> Option<int> {
    crate::cmd::spec_digits_val(b)
}

/// Parse a run of at most ten ASCII digits.
pub(crate) fn parse_digits10(b: &[u8]) -> (r: Option<u64>)
    requires
        b@.len() <= 10,
    ensures
        match r {
            Some(x) => spec_digits_val10(b@) == Some(x as int),
            None => spec_digits_val10(b@) is None,
        },
{
    let n: usize = b.len();
    let mut i: usize = 0;
    let mut acc: u64 = 0;
    while i < n
        invariant
            b@.len() == n,
            n <= 10,
            i <= n,
            crate::cmd::spec_digits_val(b@.subrange(0, i as int)) == Some(acc as int),
            acc < crate::cmd::pow10(i as nat),
        decreases n - i,
    {
        let c = *vstd::slice::slice_index_get(b, i);
        if c < 0x30 || c > 0x39 {
            proof {
                crate::cmd::lemma_digits_prefix_none(b@, i as int);
            }
            return None;
        }
        let ghost pre = b@.subrange(0, i as int);
        proof {
            crate::cmd::lemma_pow10_le(i as nat, 9);
            assert(crate::cmd::pow10(9) == 1000000000) by {
                reveal_with_fuel(crate::cmd::pow10, 11);
            }
        }
        acc = acc * 10 + (c - 0x30) as u64;
        i = i + 1;
        proof {
            assert(b@.subrange(0, i as int).drop_last() =~= pre);
        }
    }
    proof {
        assert(b@.subrange(0, n as int) =~= b@);
    }
    Some(acc)
}

/// The bytes of `COMPANY_CODE`, the field name each code follows.
pub open spec fn spec_company_pat() -> Seq<u8> {
    seq![0x43u8, 0x4f, 0x4d, 0x50, 0x41, 0x4e, 0x59, 0x5f, 0x43, 0x4f, 0x44, 0x45]
}

/// The bytes of `total":`, the prefix of the declared total.
pub open spec fn spec_total_pat() -> Seq<u8> {
    seq![0x74u8, 0x6f, 0x74, 0x61, 0x6c, 0x22, 0x3a]
}

/// The six code bytes after each of the first `k` occurrences of the
/// company-code field, each read three bytes past the field name's colon
/// and quote; the walk stops early when no occurrence is left, and fails
/// when a code would run past the end of the reply.
pub open spec fn spec_company_codes(b: Seq<u8>, from: int, k: nat) -> Option<Seq<Seq<u8>>>
    decreases k,
{
    if k == 0 {
        Some(Seq::empty())
    } else {
        match spec_find_pat(b, spec_company_pat(), from) {
            None => Some(Seq::empty()),
            Some(o) => if o + 12 + 9 <= b.len() {
                match spec_company_codes(b, o + 12, (k - 1) as nat) {
                    None => None,
                    Some(rest) => Some(seq![b.subrange(o + 12 + 3, o + 12 + 9)] + rest),
                }
            } else {
                None
            },
        }
    }
}

/// What the Shanghai list reply parses to: the total declared after the
/// `total":` field (up to the closing brace within ten bytes), and the
/// first `total` company codes.
pub open spec fn spec_sh_parse(b: Seq<u8>) -> Option<(int, Seq<Seq<u8>>)> {
    match spec_find_pat(b, spec_total_pat(), 0) {
        None => None,
        Some(t) => {
            let p1 = t + 7;
            match spec_find_pat(b, seq![0x7du8], p1) {
                None => None,
                Some(p2) => if p2 <= p1 + 10 {
                    match spec_digits_val10(b.subrange(p1, p2)) {
                        None => None,
                        Some(total) => match spec_company_codes(b, 0, total as nat) {
                            None => None,
                            Some(codes) => Some((total, codes)),
                        },
                    }
                } else {
                    None
                },
            }
        },
    }
}

/// Attach the exchange prefix to one code, as the list builders do.
pub fn prefix_code(prefix: &str, code: &str) -> (r: String)
    ensures
        r@ == prefix@ + code@,
{
    let mut s = String::from_str(prefix);
    s.append(code);
    s
}

/// Parse the Shanghai list reply: the declared total and the company
/// codes, each returned as `sh` plus its six characters. A reply without
/// the total field, without its closing brace nearby, with a non-numeric
/// total, or truncated inside a code is rejected; a code that is not
/// ASCII becomes the bare `sh` prefix.
pub fn parse_sh_stocks(b: &[u8]) -> (r: Option<(u64, Vec<String>)>)
    ensures
        match r {
            Some(p) => {
                &&& spec_sh_parse(b@) matches Some(sp)
                &&& sp.0 == p.0 as int
                &&& p.1@.len() == sp.1.len()
                &&& forall|i: int|
                    0 <= i < sp.1.len() && spec_all_ascii(#[trigger] sp.1[i]) ==> p.1@[i]@
                        == seq!['s', 'h'] + spec_ascii_chars(sp.1[i])
            },
            None => spec_sh_parse(b@) is None,
        },
{
    proof {
        reveal_strlit("total\":");
        reveal_strlit("}");
        reveal_strlit("COMPANY_CODE");
        reveal_strlit("sh");
        assert("total\":".is_ascii() && "}".is_ascii() && "COMPANY_CODE".is_ascii()
            && "sh".is_ascii());
        vstd::string::is_ascii_spec_bytes("total\":");
        vstd::string::is_ascii_spec_bytes("}");
        vstd::string::is_ascii_spec_bytes("COMPANY_CODE");
        assert("total\":".spec_bytes() =~= spec_total_pat());
        assert("}".spec_bytes() =~= seq![0x7du8]);
        assert("COMPANY_CODE".spec_bytes() =~= spec_company_pat());
    }
    let n: usize = b.len();
    let t = match find_pat(b, "total\":".as_bytes(), 0) {
        Some(t) => t,
        None => {
            return None;
        },
    };
    proof {
        lemma_find_pat_match(b@, spec_total_pat(), 0);
    }
    let p1 = t + 7;
    let p2 = match find_pat(b, "}".as_bytes(), p1) {
        Some(p2) => p2,
        None => {
            return None;
        },
    };
    proof {
        lemma_find_pat_match(b@, seq![0x7du8], p1 as int);
    }
    if p2 - p1 > 10 {
        return None;
    }
    let total = match parse_digits10(vstd::slice::slice_subrange(b, p1, p2)) {
        Some(x) => x,
        None => {
            return None;
        },
    };
    let mut codes: Vec<String> = Vec::new();
    let mut from: usize = 0;
    let mut k: u64 = 0;
    let mut done: bool = false;
    while k < total && !done
        invariant
            b@.len() == n,
            k <= total,
            spec_find_pat(b@, spec_total_pat(), 0) == Some(t as int),
            p1 == t + 7,
            spec_find_pat(b@, seq![0x7du8], p1 as int) == Some(p2 as int),
            p1 <= p2 <= p1 + 10,
            spec_digits_val10(b@.subrange(p1 as int, p2 as int)) == Some(total as int),
            done ==> spec_company_codes(b@, from as int, (total - k) as nat) == Some(
                Seq::<Seq<u8>>::empty(),
            ),
            codes@.len() == k,
            match spec_company_codes(b@, from as int, (total - k) as nat) {
                Some(rest) => {
                    &&& spec_company_codes(b@, 0, total as nat) matches Some(all)
                    &&& all.len() == k + rest.len()
                    &&& (forall|i: int| 0 <= i < rest.len() ==> all[k + i] == rest[i])
                    &&& forall|i: int|
                        0 <= i < k && spec_all_ascii(#[trigger] all[i]) ==> codes@[i]@ == seq![
                            's',
                            'h',
                        ] + spec_ascii_chars(all[i])
                },
                None => spec_company_codes(b@, 0, total as nat) is None,
            },
            from <= n,
        decreases total - k + (if done {
            0int
        } else {
            1int
        }),
    {
        proof {
            reveal_strlit("COMPANY_CODE");
            assert("COMPANY_CODE".is_ascii());
            vstd::string::is_ascii_spec_bytes("COMPANY_CODE");
            assert("COMPANY_CODE".spec_bytes() =~= spec_company_pat());
        }
        match find_pat(b, "COMPANY_CODE".as_bytes(), from) {
            Some(o) => {
                proof {
                    lemma_find_pat_match(b@, spec_company_pat(), from as int);
                }
                let ghost k0 = k as int;
                let ghost from0 = from as int;
                let ghost rem0 = (total - k) as nat;
                if n - o < 21 {
                    proof {
                        assert(spec_company_codes(b@, from0, rem0) is None);
                        assert(spec_sh_parse(b@) is None);
                    }
                    return None;
                }
                let code_bytes = vstd::slice::slice_to_vec(
                    vstd::slice::slice_subrange(b, o + 15, o + 21),
                );
                let ghost cb = code_bytes@;
                proof {
                    assert(cb =~= b@.subrange(o + 15, o + 21));
                }
                let code = match ascii_string(code_bytes) {
                    Some(c) => {
                        let mut s = String::from_str("sh");
                        s.append(c.as_str());
                        proof {
                            reveal_strlit("sh");
                            if spec_all_ascii(cb) {
                                assert(s@ =~= seq!['s', 'h'] + spec_ascii_chars(cb));
                            }
                        }
                        s
                    },
                    None => String::from_str("sh"),
                };
                codes.push(code);
                from = o + 12;
                k = k + 1;
                proof {
                    let rp_opt = spec_company_codes(b@, o + 12, (rem0 - 1) as nat);
                    if rp_opt is Some {
                        let rp = rp_opt.unwrap();
                        assert(spec_company_codes(b@, from0, rem0) == Some(seq![cb] + rp));
                        let all = spec_company_codes(b@, 0, total as nat).unwrap();
                        assert(all.len() == k0 + (seq![cb] + rp).len());
                        assert((seq![cb] + rp).len() == 1 + rp.len());
                        assert(all[k0] == (seq![cb] + rp)[0]);
                        assert((seq![cb] + rp)[0] == cb);
                        assert forall|i2: int| 0 <= i2 < rp.len() implies all[k0 + 1 + i2]
                            == rp[i2] by {
                            assert(all[k0 + (1 + i2)] == (seq![cb] + rp)[1 + i2]);
                            assert((seq![cb] + rp)[1 + i2] == rp[i2]);
                        }
                    } else {
                        assert(spec_company_codes(b@, from0, rem0) is None);
                    }
                }
            },
            None => {
                done = true;
            },
        }
    }
    proof {
        if k == total {
            assert(spec_company_codes(b@, from as int, 0) == Some(Seq::<Seq<u8>>::empty()));
        }
        assert(spec_company_codes(b@, from as int, (total - k) as nat) is Some);
    }
    Some((total, codes))
}

} // verus!
