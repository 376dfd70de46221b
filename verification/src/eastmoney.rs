//! The pure part of reading the daily-snapshot endpoint: peeling the JSONP
//! wrapper off a response so that what remains is the JSON payload. The
//! fetching and the JSON decoding happen outside this library.

use vstd::prelude::*;

verus! {

/// The index of the first `{` byte, if any.
pub open spec fn spec_find_brace(b: Seq<u8>, from: int) -> Option<int>
    decreases b.len() - from,
{
    if from < 0 || from >= b.len() {
        None
    } else if b[from] == 0x7b {
        Some(from)
    } else {
        spec_find_brace(b, from + 1)
    }
}

/// The JSON payload inside a JSONP response: from the first `{` up to the
/// last two bytes (the `);` tail), or nothing when no `{` occurs or the
/// response ends too early after it.
pub open spec fn spec_jsonp_payload(b: Seq<u8>) -> Option<Seq<u8>> {
    match spec_find_brace(b, 0) {
        None => None,
        Some(start) => if start <= b.len() - 2 {
            Some(b.subrange(start, b.len() - 2))
        } else {
            None
        },
    }
}

/// Peel the JSONP wrapper off a response body.
pub fn jsonp_payload(b: &[u8]) -> (r: Option<&[u8]>)
    ensures
        match r {
            Some(s) => spec_jsonp_payload(b@) == Some(s@),
            None => spec_jsonp_payload(b@) is None,
        },
{
    let n: usize = b.len();
    let mut i: usize = 0;
    while i < n
        invariant
            b@.len() == n,
            i <= n,
            spec_find_brace(b@, 0) == spec_find_brace(b@, i as int),
        decreases n - i,
    {
        if *vstd::slice::slice_index_get(b, i) == 0x7b {
            if n - i >= 2 {
                return Some(vstd::slice::slice_subrange(b, i, n - 2));
            } else {
                return None;
            }
        }
        i = i + 1;
    }
    None
}

} // verus!
