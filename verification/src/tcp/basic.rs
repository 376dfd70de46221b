//! The basic protocol exchanges: the connection handshake packets, the
//! security-count request (doubling as the heartbeat), and the
//! security-list request.

use vstd::prelude::*;

verus! {

use vstd::bytes::spec_u16_to_le_bytes;
use crate::bytes_helper::{
    u16_from_le_bytes,
    ascii_string,
    spec_ascii_chars,
    spec_all_ascii,
};
use crate::file::lc::u16_le_at;

/// A byte sequence with a little-endian `u16` written over offsets
/// `pos` and `pos + 1`.
pub open spec fn spec_with_u16_at(s: Seq<u8>, pos: int, x: u16) -> Seq<u8> {
    let b = spec_u16_to_le_bytes(x);
    s.update(pos, b[0]).update(pos + 1, b[1])
}

/// Write a little-endian `u16` over offsets `pos` and `pos + 1`.
pub(crate) fn set_u16_at(v: &mut Vec<u8>, pos: usize, x: u16)
    requires
        pos + 2 <= old(v)@.len(),
    ensures
        final(v)@ == spec_with_u16_at(old(v)@, pos as int, x),
{
    let n: usize = v.len();
    let b = vstd::bytes::u16_to_le_bytes(x);
    v.set(pos, b[0]);
    v.set(pos + 1, b[1]);
}

/// The first handshake packet.
pub open spec fn spec_pack1() -> Seq<u8> {
    seq![0x0cu8, 0x02, 0x18, 0x93, 0x00, 0x01, 0x03, 0x00, 0x03, 0x00, 0x0d, 0x00, 0x01]
}

/// The second handshake packet.
pub open spec fn spec_pack2() -> Seq<u8> {
    seq![0x0cu8, 0x02, 0x18, 0x94, 0x00, 0x01, 0x03, 0x00, 0x03, 0x00, 0x0d, 0x00, 0x02]
}

/// The third handshake packet.
pub open spec fn spec_pack3() -> Seq<u8> {
    seq![
        0x0cu8,
        0x03,
        0x18,
        0x99,
        0x00,
        0x01,
        0x20,
        0x00,
        0x20,
        0x00,
        0xdb,
        0x0f,
        0xd5,
        0xd0,
        0xc9,
        0xcc,
        0xd6,
        0xa4,
        0xa8,
        0xaf,
        0x00,
        0x00,
        0x00,
        0x8f,
        0xc2,
        0x25,
        0x40,
        0x13,
        0x00,
        0x00,
        0xd5,
        0x00,
        0xc9,
        0xcc,
        0xbd,
        0xf0,
        0xd7,
        0xea,
        0x00,
        0x00,
        0x00,
        0x02,
    ]
}

/// The first handshake packet, 13 bytes.
pub fn pack1() -> (v: Vec<u8>)
    ensures
        v@ == spec_pack1(),
{
    let v: Vec<u8> = vec![
        0x0c,
        0x02,
        0x18,
        0x93,
        0x00,
        0x01,
        0x03,
        0x00,
        0x03,
        0x00,
        0x0d,
        0x00,
        0x01,
    ];
    proof {
        assert(v@ =~= spec_pack1());
    }
    v
}

/// The second handshake packet, 13 bytes.
pub fn pack2() -> (v: Vec<u8>)
    ensures
        v@ == spec_pack2(),
{
    let v: Vec<u8> = vec![
        0x0c,
        0x02,
        0x18,
        0x94,
        0x00,
        0x01,
        0x03,
        0x00,
        0x03,
        0x00,
        0x0d,
        0x00,
        0x02,
    ];
    proof {
        assert(v@ =~= spec_pack2());
    }
    v
}

/// The third handshake packet, 42 bytes.
pub fn pack3() -> (v: Vec<u8>)
    ensures
        v@ == spec_pack3(),
{
    let v: Vec<u8> = vec![
        0x0c,
        0x03,
        0x18,
        0x99,
        0x00,
        0x01,
        0x20,
        0x00,
        0x20,
        0x00,
        0xdb,
        0x0f,
        0xd5,
        0xd0,
        0xc9,
        0xcc,
        0xd6,
        0xa4,
        0xa8,
        0xaf,
        0x00,
        0x00,
        0x00,
        0x8f,
        0xc2,
        0x25,
        0x40,
        0x13,
        0x00,
        0x00,
        0xd5,
        0x00,
        0xc9,
        0xcc,
        0xbd,
        0xf0,
        0xd7,
        0xea,
        0x00,
        0x00,
        0x00,
        0x02,
    ];
    proof {
        assert(v@ =~= spec_pack3());
    }
    v
}

/// The request template of the security count, 18 bytes; the market goes
/// at offset 12.
pub open spec fn spec_security_count_send() -> Seq<u8> {
    seq![
        0x0cu8,
        0x0c,
        0x18,
        0x6c,
        0x00,
        0x01,
        0x08,
        0x00,
        0x08,
        0x00,
        0x4e,
        0x04,
        0x00,
        0x00,
        0x75,
        0xc7,
        0x33,
        0x01,
    ]
}

fn security_count_send() -> (v: Vec<u8>)
    ensures
        v@ == spec_security_count_send(),
{
    let v: Vec<u8> = vec![
        0x0c,
        0x0c,
        0x18,
        0x6c,
        0x00,
        0x01,
        0x08,
        0x00,
        0x08,
        0x00,
        0x4e,
        0x04,
        0x00,
        0x00,
        0x75,
        0xc7,
        0x33,
        0x01,
    ];
    proof {
        assert(v@ =~= spec_security_count_send());
    }
    v
}

/// The heartbeat that keeps a connection alive: the security-count
/// request doubles as it.
pub type Heartbeat = SecurityCount;

/// The security-count request: the number of instruments on one market,
/// also used as the connection heartbeat.
#[derive(Debug, Clone)]
pub struct SecurityCount {
    /// The bytes to send.
    pub send: Vec<u8>,
    /// 0 Shenzhen, 1 Shanghai.
    pub market: u16,
    /// The decoded response: the instrument count.
    pub count: u16,
}

impl SecurityCount {
    /// Build the request for one market.
    pub fn new(market: u16) -> (r: SecurityCount)
        ensures
            r.market == market,
            r.count == 0,
            r.send@ == if market == 0 {
                spec_security_count_send()
            } else {
                spec_with_u16_at(spec_security_count_send(), 12, market)
            },
    {
        let mut send = security_count_send();
        if market != 0 {
            set_u16_at(&mut send, 12, market);
        }
        SecurityCount { send, market, count: 0 }
    }

    /// Change the market of the request in place.
    pub fn market(&mut self, market: u16)
        requires
            old(self).send@.len() >= 14,
        ensures
            final(self).market == market,
            final(self).count == old(self).count,
            final(self).send@ == spec_with_u16_at(old(self).send@, 12, market),
    {
        self.market = market;
        set_u16_at(&mut self.send, 12, market);
    }

    /// Decode a response: the count is its first word.
    pub fn parse(&mut self, response: Vec<u8>)
        requires
            response@.len() >= 2,
        ensures
            final(self).count == u16_le_at(response@, 0),
            final(self).market == old(self).market,
            final(self).send@ == old(self).send@,
    {
        self.count = u16_from_le_bytes(response.as_slice(), 0);
    }
}

/// The request template of the security list, 16 bytes; the market goes at
/// offset 12 and the start index at offset 14.
pub open spec fn spec_security_list_send() -> Seq<u8> {
    seq![
        0x0cu8,
        0x01,
        0x18,
        0x64,
        0x01,
        0x01,
        0x06,
        0x00,
        0x06,
        0x00,
        0x50,
        0x04,
        0x00,
        0x00,
        0x00,
        0x00,
    ]
}

fn security_list_send() -> (v: Vec<u8>)
    ensures
        v@ == spec_security_list_send(),
{
    let v: Vec<u8> = vec![
        0x0c,
        0x01,
        0x18,
        0x64,
        0x01,
        0x01,
        0x06,
        0x00,
        0x06,
        0x00,
        0x50,
        0x04,
        0x00,
        0x00,
        0x00,
        0x00,
    ];
    proof {
        assert(v@ =~= spec_security_list_send());
    }
    v
}

/// One entry of a security list: the instrument's code and name.
///
/// The name is stored GBK-encoded on the wire.
#[derive(Debug, Clone)]
pub struct SecurityListData {
    pub code: String,
    pub name: String,
}

/// What the GBK encoding decodes a byte sequence to.
pub uninterp spec fn gbk_chars(b: Seq<u8>) -> Seq<char>;

/// Relies on encoding_rs::GBK.decode: what a byte sequence decodes to
/// depends on the bytes alone (malformed sequences become replacement
/// characters rather than errors).
#[verifier::external_body]
fn gbk_decode(bytes: &[u8]) -> (r: String)
    ensures
        r@ == gbk_chars(bytes@),
{
    let (name, _, _) = encoding_rs::GBK.decode(bytes);
    name.into_owned()
}

impl SecurityListData {
    /// Decode one 29-byte entry: six ASCII code bytes, then the GBK name
    /// at offsets 8..16. A code that is not ASCII decodes to the empty
    /// string.
    pub fn parse(bytes: &[u8]) -> (r: SecurityListData)
        requires
            bytes@.len() >= 16,
        ensures
            spec_all_ascii(bytes@.subrange(0, 6)) ==> r.code@ == spec_ascii_chars(
                bytes@.subrange(0, 6),
            ),
            r.name@ == gbk_chars(bytes@.subrange(8, 16)),
    {
        let code_bytes = vstd::slice::slice_to_vec(vstd::slice::slice_subrange(bytes, 0, 6));
        let code = match ascii_string(code_bytes) {
            Some(c) => c,
            None => String::new(),
        };
        let name = gbk_decode(vstd::slice::slice_subrange(bytes, 8, 16));
        SecurityListData { code, name }
    }
}

/// The security-list request: 1,000 instruments of one market starting at
/// a given index.
#[derive(Debug, Clone)]
pub struct SecurityList {
    /// The bytes to send.
    pub send: Vec<u8>,
    /// 0 Shenzhen, 1 Shanghai.
    pub market: u16,
    /// Index of the first instrument asked for.
    pub start: u16,
    /// The count the last response declared.
    pub count: usize,
    /// The last raw response.
    pub response: Vec<u8>,
    /// The decoded entries of the last response.
    pub data: Vec<SecurityListData>,
}

impl Default for SecurityList {
    /// The unmodified request template, declared as starting at index 1.
    fn default() -> (r: Self)
        ensures
            r.send@ == spec_security_list_send(),
            r.market == 0,
            r.start == 1,
            r.count == 0,
            r.response@.len() == 0,
            r.data@.len() == 0,
    {
        SecurityList {
            send: security_list_send(),
            market: 0,
            start: 1,
            count: 0,
            response: Vec::new(),
            data: Vec::new(),
        }
    }
}

impl SecurityList {
    /// Build the request for one market and start index.
    pub fn new(market: u16, start: u16) -> (r: SecurityList)
        ensures
            r.market == market,
            r.start == start,
            r.count == 0,
            r.response@.len() == 0,
            r.data@.len() == 0,
            r.send@ == spec_with_u16_at(
                spec_with_u16_at(spec_security_list_send(), 12, market),
                14,
                start,
            ),
    {
        let mut send = security_list_send();
        set_u16_at(&mut send, 12, market);
        set_u16_at(&mut send, 14, start);
        SecurityList { send, market, start, count: 0, response: Vec::new(), data: Vec::new() }
    }

    /// Decode a response: the declared count, then one entry per 29 bytes;
    /// an incomplete trailing chunk is ignored.
    pub fn parse(&mut self, v: Vec<u8>)
        requires
            v@.len() >= 2,
        ensures
            final(self).send@ == old(self).send@,
            final(self).market == old(self).market,
            final(self).start == old(self).start,
            final(self).count == u16_le_at(v@, 0),
            final(self).response@ == v@,
            final(self).data@.len() == (v@.len() - 2) / 29,
            forall|i: int|
                0 <= i < final(self).data@.len() ==> {
                    let chunk = #[trigger] v@.subrange(2 + 29 * i, 2 + 29 * i + 29);
                    &&& final(self).data@[i].name@ == gbk_chars(chunk.subrange(8, 16))
                    &&& spec_all_ascii(chunk.subrange(0, 6)) ==> final(self).data@[i].code@
                        == spec_ascii_chars(chunk.subrange(0, 6))
                },
    {
        let n: usize = v.len();
        self.count = u16_from_le_bytes(v.as_slice(), 0) as usize;
        let m: usize = (n - 2) / 29;
        let mut data: Vec<SecurityListData> = Vec::new();
        let mut i: usize = 0;
        while i < m
            invariant
                v@.len() == n,
                2 <= n,
                m == (n - 2) / 29,
                i <= m,
                data@.len() == i,
                forall|t: int|
                    0 <= t < data@.len() ==> {
                        let chunk = #[trigger] v@.subrange(2 + 29 * t, 2 + 29 * t + 29);
                        &&& data@[t].name@ == gbk_chars(chunk.subrange(8, 16))
                        &&& spec_all_ascii(chunk.subrange(0, 6)) ==> data@[t].code@
                            == spec_ascii_chars(chunk.subrange(0, 6))
                    },
            decreases m - i,
        {
            let chunk = vstd::slice::slice_subrange(v.as_slice(), 2 + 29 * i, 2 + 29 * i + 29);
            let d = SecurityListData::parse(chunk);
            proof {
                let t = i as int;
                let c = v@.subrange(2 + 29 * t, 2 + 29 * t + 29);
                assert(chunk@.subrange(0, 6) =~= c.subrange(0, 6));
                assert(chunk@.subrange(8, 16) =~= c.subrange(8, 16));
            }
            data.push(d);
            i = i + 1;
        }
        self.data = data;
        self.response = v;
    }
}

} // verus!
