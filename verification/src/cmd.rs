//! The day-bar subcommand's configuration and the pure file-name rules it
//! applies: which exchange prefix a code gets, and which `*.day` files a
//! run selects.

use vstd::prelude::*;

verus! {

use vstd::string::StringSliceAdditionalSpecFns;

/// The configuration of the day-bar run.
///
/// Paths are held as plain strings; reading the directories they name
/// happens outside this library.
#[derive(Debug, Clone)]
pub struct DayCmd {
    /// Directories holding `*.day` files.
    pub path: Vec<String>,
    /// Output target: a CSV path, or a database keyword.
    pub output: String,
    /// Keep the CSV after a database insert.
    pub keep_csv: bool,
    /// Path of the corporate-action file, when adjusting.
    pub gbbq: Option<String>,
    /// Path of the prior-session factor CSV.
    pub previous: Option<String>,
    /// Stock-list source selector.
    pub stocklist: Option<String>,
    /// Exchange prefix hint: `sh`, `sz` or `auto`.
    pub exchange: Option<String>,
    /// Column of the code in a stock-list workbook.
    pub xlsx_col: Option<usize>,
    /// Required beginning of the six-digit code.
    pub code: Option<String>,
    /// How many files to take per directory.
    pub amount: Option<usize>,
    /// Database table name.
    pub table: String,
}

/// Whether two byte sequences are equal.
pub(crate) fn bytes_eq(a: &[u8], b: &[u8]) -> (r: bool)
    ensures
        r == (a@ == b@),
{
    let n: usize = a.len();
    if n != b.len() {
        proof {
            assert(a@.len() != b@.len());
        }
        return false;
    }
    let mut i: usize = 0;
    while i < n
        invariant
            a@.len() == n,
            b@.len() == n,
            i <= n,
            forall|t: int| 0 <= t < i ==> a@[t] == b@[t],
        decreases n - i,
    {
        if *vstd::slice::slice_index_get(a, i) != *vstd::slice::slice_index_get(b, i) {
            return false;
        }
        i = i + 1;
    }
    proof {
        assert(a@ =~= b@);
    }
    true
}

/// The byte of the digit `'6'`.
pub open spec fn spec_six() -> u8 {
    0x36
}

/// The UTF-8 bytes of `"auto"`.
pub open spec fn spec_auto_bytes() -> Seq<u8> {
    seq![0x61u8, 0x75, 0x74, 0x6f]
}

/// Which prefix a code gets: under the `auto` hint, `sh` for a code
/// beginning with `6` and `sz` otherwise; any other hint passes through.
pub open spec fn spec_auto_prefix(prefix: Seq<u8>, code: Seq<u8>) -> Seq<char> {
    if prefix == spec_auto_bytes() && 0 < code.len() && code[0] == spec_six() {
        seq!['s', 'h']
    } else if prefix == spec_auto_bytes() {
        seq!['s', 'z']
    } else {
        Seq::empty()
    }
}

/// Resolve the `auto` exchange hint against a code's first character:
/// `sh` for `6`, `sz` otherwise; any other hint is returned unchanged.
pub fn auto_prefix<'a>(prefix: &'a str, code: &'a str) -> (r: &'a str)
    requires
        code.spec_bytes().len() >= 1,
    ensures
        prefix.spec_bytes() == spec_auto_bytes() ==> r@ == spec_auto_prefix(
            prefix.spec_bytes(),
            code.spec_bytes(),
        ),
        prefix.spec_bytes() != spec_auto_bytes() ==> r@ == prefix@,
{
    proof {
        reveal_strlit("auto");
        reveal_strlit("sh");
        reveal_strlit("sz");
        assert("auto".is_ascii() && "sh".is_ascii() && "sz".is_ascii());
        vstd::string::is_ascii_spec_bytes("auto");
        vstd::string::is_ascii_spec_bytes("sh");
        vstd::string::is_ascii_spec_bytes("sz");
        assert("auto".spec_bytes() =~= spec_auto_bytes());
    }
    let pb = prefix.as_bytes();
    let is_auto = bytes_eq(pb, "auto".as_bytes());
    if is_auto {
        let cb = code.as_bytes();
        if *vstd::slice::slice_index_get(cb, 0) == 0x36 {
            proof {
                assert("sh"@ =~= spec_auto_prefix(prefix.spec_bytes(), code.spec_bytes()));
            }
            "sh"
        } else {
            proof {
                assert("sz"@ =~= spec_auto_prefix(prefix.spec_bytes(), code.spec_bytes()));
            }
            "sz"
        }
    } else {
        prefix
    }
}

/// The numeric value of a run of ASCII digits, or nothing when some byte
/// is not a digit.
pub open spec fn spec_digits_val(b: Seq<u8>) -> Option<int>
    decreases b.len(),
{
    if b.len() == 0 {
        Some(0)
    } else if !(0x30 <= b.last() <= 0x39) {
        None
    } else {
        match spec_digits_val(b.drop_last()) {
            None => None,
            Some(hi) => Some(hi * 10 + (b.last() - 0x30)),
        }
    }
}

/// Parse a run of at most six ASCII digits.
pub(crate) fn parse_digits(b: &[u8]) -> (r: Option<u32>)
    requires
        b@.len() <= 6,
    ensures
        match r {
            Some(x) => spec_digits_val(b@) == Some(x as int),
            None => spec_digits_val(b@) is None,
        },
{
    let n: usize = b.len();
    let mut i: usize = 0;
    let mut acc: u32 = 0;
    while i < n
        invariant
            b@.len() == n,
            n <= 6,
            i <= n,
            spec_digits_val(b@.subrange(0, i as int)) == Some(acc as int),
            acc < pow10(i as nat),
        decreases n - i,
    {
        let c = *vstd::slice::slice_index_get(b, i);
        if c < 0x30 || c > 0x39 {
            proof {
                lemma_digits_prefix_none(b@, i as int);
            }
            return None;
        }
        let ghost pre = b@.subrange(0, i as int);
        proof {
            lemma_pow10_le(i as nat, 5);
            assert(pow10(5) == 100000) by {
                reveal_with_fuel(pow10, 7);
            }
        }
        acc = acc * 10 + (c - 0x30) as u32;
        i = i + 1;
        proof {
            assert(b@.subrange(0, i as int).drop_last() =~= pre);
        }
    }
    proof {
        assert(b@.subrange(0, n as int) =~= b@);
    }
    Some(acc)
}

/// A non-digit byte makes the whole run parse to nothing.
pub(crate) proof fn lemma_digits_prefix_none(b: Seq<u8>, i: int)
    requires
        0 <= i < b.len(),
        !(0x30 <= b[i] <= 0x39),
    ensures
        spec_digits_val(b) is None,
    decreases b.len(),
{
    if i == b.len() - 1 {
    } else {
        lemma_digits_prefix_none(b.drop_last(), i);
    }
}

/// What [`DayCmd::filter_ec`] decides for a file name, over the name's
/// bytes: the six code bytes end four bytes before the end, the two
/// exchange bytes stand before them. The name passes when the code is six
/// digits, the exchange hint (if any) matches the name's exchange or is
/// `auto`, and the code (if a beginning is required) begins with it.
pub open spec fn spec_filter_ec(
    exchange: Option<Seq<u8>>,
    code_req: Option<Seq<u8>>,
    f: Seq<u8>,
) -> (bool, u32) {
    let code = f.subrange(f.len() - 10, f.len() - 4);
    let ex_f = f.subrange(f.len() - 12, f.len() - 10);
    let code_ok = spec_digits_val(code) is Some;
    let ex_ok = match exchange {
        None => true,
        Some(e) => e == ex_f || e == spec_auto_bytes(),
    };
    let pre_ok = match code_req {
        None => true,
        Some(p) => p.len() <= 6 && code.subrange(0, p.len() as int) == p,
    };
    let val: u32 = match spec_digits_val(code) {
        Some(v) => v as u32,
        None => 0,
    };
    (code_ok && ex_ok && pre_ok, val)
}

impl DayCmd {
    /// Decide whether a `*.day` file name passes the exchange and code
    /// filters, and give its numeric code (0 when the code is not
    /// digits). The name must be at least 12 bytes, as `xxNNNNNN.day`
    /// names are.
    pub fn filter_ec(&self, fname: &str) -> (r: (bool, u32))
        requires
            fname.spec_bytes().len() >= 12,
        ensures
            r == spec_filter_ec(
                match self.exchange {
                    Some(ref e) => Some(vstd::utf8::encode_utf8(e@)),
                    None => None,
                },
                match self.code {
                    Some(ref c) => Some(vstd::utf8::encode_utf8(c@)),
                    None => None,
                },
                fname.spec_bytes(),
        ),
    {
        let fb = fname.as_bytes();
        let n: usize = fb.len();
        let code = vstd::slice::slice_subrange(fb, n - 10, n - 4);
        let ex_f = vstd::slice::slice_subrange(fb, n - 12, n - 10);
        let parsed = parse_digits(code);
        let code_ok = parsed.is_some();
        let ex_ok = match self.exchange {
            Some(ref e) => {
                let eb = e.as_str().as_bytes();
                bytes_eq(eb, ex_f) || bytes_eq(eb, "auto".as_bytes())
            },
            None => true,
        };
        let pre_ok = match self.code {
            Some(ref p) => {
                let pb = p.as_str().as_bytes();
                if pb.len() <= 6 {
                    let cpre = vstd::slice::slice_subrange(code, 0, pb.len());
                    bytes_eq(pb, cpre)
                } else {
                    false
                }
            },
            None => true,
        };
        let val = match parsed {
            Some(v) => v,
            None => 0,
        };
        proof {
            reveal_strlit("auto");
            assert("auto".is_ascii());
            vstd::string::is_ascii_spec_bytes("auto");
            assert("auto".spec_bytes() =~= spec_auto_bytes());
            let f = fname.spec_bytes();
            assert(code@ =~= f.subrange(f.len() - 10, f.len() - 4));
            assert(ex_f@ =~= f.subrange(f.len() - 12, f.len() - 10));
            if self.code is Some {
                let p = vstd::utf8::encode_utf8(self.code->0@);
                if p.len() <= 6 {
                    assert(code@.subrange(0, p.len() as int) =~= f.subrange(
                        f.len() - 10,
                        f.len() - 4,
                    ).subrange(0, p.len() as int));
                }
            }
            if spec_digits_val(code@) is Some {
                assert(spec_digits_val(code@).unwrap() < 1000000) by {
                    lemma_digits_val_bound(code@);
                }
            }
        }
        (code_ok && ex_ok && pre_ok, val)
    }
}

/// A run of at most six digits stays below one million.
proof fn lemma_digits_val_bound(b: Seq<u8>)
    requires
        b.len() <= 6,
        spec_digits_val(b) is Some,
    ensures
        0 <= spec_digits_val(b).unwrap() < 1000000,
    decreases b.len(),
{
    lemma_pow10_le(b.len(), 6);
    assert(pow10(6) == 1000000) by {
        reveal_with_fuel(pow10, 7);
    }
    lemma_digits_val_bound_rec(b, 1000000);
}

proof fn lemma_digits_val_bound_rec(b: Seq<u8>, bound: int)
    requires
        spec_digits_val(b) is Some,
        pow10(b.len()) <= bound,
    ensures
        0 <= spec_digits_val(b).unwrap() < bound,
    decreases b.len(),
{
    if b.len() == 0 {
        lemma_pow10_pos(0);
    } else {
        lemma_digits_val_bound_rec(b.drop_last(), pow10((b.len() - 1) as nat));
        let hi = spec_digits_val(b.drop_last()).unwrap();
        assert(hi * 10 <= (pow10((b.len() - 1) as nat) - 1) * 10) by (nonlinear_arith)
            requires
                hi <= pow10((b.len() - 1) as nat) - 1,
        ;
    }
}

/// Powers of ten.
pub open spec fn pow10(n: nat) -> int
    decreases n,
{
    if n == 0 {
        1
    } else {
        10 * pow10((n - 1) as nat)
    }
}

pub(crate) proof fn lemma_pow10_pos(n: nat)
    ensures
        pow10(n) >= 1,
    decreases n,
{
    if n > 0 {
        lemma_pow10_pos((n - 1) as nat);
    }
}

pub(crate) proof fn lemma_pow10_le(a: nat, b: nat)
    requires
        a <= b,
    ensures
        pow10(a) <= pow10(b),
    decreases b,
{
    if a < b {
        lemma_pow10_le(a, (b - 1) as nat);
        lemma_pow10_pos((b - 1) as nat);
    }
}

/// The configuration of the daily-snapshot subcommand.
#[derive(Debug, Clone)]
pub struct EastCmd {
    /// Output target: a CSV path, or a database keyword.
    pub output: String,
    /// Path of the prior-session factor CSV.
    pub previous: Option<String>,
    /// Codes whose factor check a debug build may skip.
    pub ignore: Vec<String>,
    /// Keep the factor CSV after the run.
    pub keep_factor: bool,
    /// Print the output as JSON.
    pub json: bool,
    /// Database table name.
    pub table: String,
}

} // verus!
