//! The header that precedes the payload of every frame.
//!
//! Byte 0 holds the fin bit, three reserved bits and the opcode. Byte 1 holds
//! the mask bit and a 7-bit length field. A length field of 126 is followed by
//! a 16-bit length, one of 127 by a 64-bit length, both big-endian. A masking
//! key of four bytes closes the header when the mask bit is set.

use vstd::prelude::*;
use crate::bytes::append;
use crate::websocket::message::WebSocketError;

verus! {

/// The decoded header of one frame.
#[derive(Debug, Clone)]
pub struct WebSocketHeader {
    pub fin: u8,
    pub opcode: u8,
    pub mask: u8,
    pub payload_len: u64,
    pub masking_key: Vec<u8>,
}

/// A header as a mathematical value.
pub struct HeaderView {
    pub fin: u8,
    pub opcode: u8,
    pub mask: u8,
    pub payload_len: u64,
    pub masking_key: Seq<u8>,
}

impl View for WebSocketHeader {
    type V = HeaderView;

    open spec fn view(&self) -> HeaderView {
        HeaderView {
            fin: self.fin,
            opcode: self.opcode,
            mask: self.mask,
            payload_len: self.payload_len,
            masking_key: self.masking_key@,
        }
    }
}

impl HeaderView {
    /// Each field fits its place on the wire, and the key is there exactly
    /// when the mask bit is set.
    pub open spec fn wf(self) -> bool {
        &&& self.fin <= 1
        &&& self.opcode < 16
        &&& self.mask <= 1
        &&& self.masking_key.len() == (if self.mask == 1 { 4nat } else { 0nat })
    }
}

/// The value of two big-endian bytes.
pub open spec fn be16_value(b: Seq<u8>) -> int {
    b[0] * 0x100 + b[1]
}

/// The value of eight big-endian bytes.
pub open spec fn be64_value(b: Seq<u8>) -> int {
    b[0] * 0x100_0000_0000_0000 + b[1] * 0x1_0000_0000_0000 + b[2] * 0x100_0000_0000 + b[3]
        * 0x1_0000_0000 + b[4] * 0x100_0000 + b[5] * 0x1_0000 + b[6] * 0x100 + b[7]
}

/// A length below 65536 as two big-endian bytes.
pub open spec fn be16_bytes(v: u64) -> Seq<u8> {
    seq![(v / 0x100 % 0x100) as u8, (v % 0x100) as u8]
}

/// A length as eight big-endian bytes.
pub open spec fn be64_bytes(v: u64) -> Seq<u8> {
    seq![
        (v / 0x100_0000_0000_0000 % 0x100) as u8,
        (v / 0x1_0000_0000_0000 % 0x100) as u8,
        (v / 0x100_0000_0000 % 0x100) as u8,
        (v / 0x1_0000_0000 % 0x100) as u8,
        (v / 0x100_0000 % 0x100) as u8,
        (v / 0x1_0000 % 0x100) as u8,
        (v / 0x100 % 0x100) as u8,
        (v % 0x100) as u8,
    ]
}

/// The 7-bit length field that announces a payload of `len` bytes.
pub open spec fn length_field(len: u64) -> u8 {
    if len < 126 {
        len as u8
    } else if len < 0xFFFF {
        126
    } else {
        127
    }
}

/// The extended length bytes that follow the length field.
pub open spec fn length_extension(len: u64) -> Seq<u8> {
    if len < 126 {
        Seq::empty()
    } else if len < 0xFFFF {
        be16_bytes(len)
    } else {
        be64_bytes(len)
    }
}

/// The wire form of a header.
pub open spec fn header_bytes(h: HeaderView) -> Seq<u8> {
    seq![(h.fin * 128 + h.opcode) as u8, (h.mask * 128 + length_field(h.payload_len)) as u8]
        + length_extension(h.payload_len) + h.masking_key
}

/// How many extended length bytes a length field announces.
pub open spec fn extension_size(field: u8) -> nat {
    if field == 126 {
        2
    } else if field == 127 {
        8
    } else {
        0
    }
}

/// The size of the whole header, which its second byte decides.
pub open spec fn header_size(second: u8) -> nat {
    2 + extension_size(second % 128) + (if second / 128 == 1 { 4nat } else { 0nat })
}

/// The fields held by the two fixed bytes. The reserved bits are not kept.
pub open spec fn base_header(first: u8, second: u8) -> HeaderView {
    HeaderView {
        fin: first / 128,
        opcode: first % 16,
        mask: second / 128,
        payload_len: (second % 128) as u64,
        masking_key: Seq::empty(),
    }
}

/// The header at the start of `bytes` and its size, or `None` where `bytes`
/// ends before the header does.
pub open spec fn decode_header(bytes: Seq<u8>) -> Option<(HeaderView, nat)> {
    if bytes.len() < 2 {
        None
    } else if bytes.len() < header_size(bytes[1]) {
        None
    } else {
        let base = base_header(bytes[0], bytes[1]);
        let ext = extension_size(bytes[1] % 128);
        let len = if ext == 2 {
            be16_value(bytes.subrange(2, 4)) as u64
        } else if ext == 8 {
            be64_value(bytes.subrange(2, 10)) as u64
        } else {
            base.payload_len
        };
        let key = if base.mask == 1 {
            bytes.subrange(2 + ext as int, 6 + ext as int)
        } else {
            Seq::empty()
        };
        Some(
            (
                HeaderView { payload_len: len, masking_key: key, ..base },
                header_size(bytes[1]),
            ),
        )
    }
}

impl WebSocketHeader {
    /// Writes the header in its wire form.
    pub fn to_vec(&self) -> (ret: Vec<u8>)
        requires
            self@.wf(),
        ensures
            ret@ == header_bytes(self@),
    {
        let mut ret: Vec<u8> = Vec::with_capacity(14);
        ret.push(self.fin * 128 + self.opcode);
        let len: u64 = self.payload_len;
        if len < 126 {
            ret.push(self.mask * 128 + len as u8);
        } else if len < 0xFFFF {
            ret.push(self.mask * 128 + 126);
            ret.push((len / 0x100 % 0x100) as u8);
            ret.push((len % 0x100) as u8);
        } else {
            ret.push(self.mask * 128 + 127);
            ret.push((len / 0x100_0000_0000_0000 % 0x100) as u8);
            ret.push((len / 0x1_0000_0000_0000 % 0x100) as u8);
            ret.push((len / 0x100_0000_0000 % 0x100) as u8);
            ret.push((len / 0x1_0000_0000 % 0x100) as u8);
            ret.push((len / 0x100_0000 % 0x100) as u8);
            ret.push((len / 0x1_0000 % 0x100) as u8);
            ret.push((len / 0x100 % 0x100) as u8);
            ret.push((len % 0x100) as u8);
        }
        append(&mut ret, self.masking_key.as_slice());
        ret
    }
}

/// Takes the two fixed bytes of a header apart, bit field by bit field: the
/// fin bit, three reserved bits that are dropped, and four bits of opcode;
/// then the mask bit and seven bits of length. The key is left empty.
pub fn read_header_internal_bits(first: u8, second: u8) -> (r: WebSocketHeader)
    ensures
        r@ == base_header(first, second),
{
    WebSocketHeader {
        fin: first / 128,
        opcode: first % 16,
        mask: second / 128,
        payload_len: (second % 128) as u64,
        masking_key: Vec::new(),
    }
}

/// Reads the two fixed bytes of a header from the start of `input`. Fewer
/// than two bytes are a `ProtocolError`.
pub fn read_header_internal(input: &[u8]) -> (r: Result<WebSocketHeader, WebSocketError>)
    ensures
        input@.len() < 2 ==> r == Err::<WebSocketHeader, WebSocketError>(
            WebSocketError::ProtocolError,
        ),
        input@.len() >= 2 ==> r is Ok && r->Ok_0@ == base_header(input@[0], input@[1]),
{
    if input.len() < 2 {
        return Err(WebSocketError::ProtocolError);
    }
    Ok(read_header_internal_bits(input[0], input[1]))
}

/// Reads the header at the start of `stream` and says how many bytes it took.
/// A stream that ends inside the header is `ConnectionClosed`.
pub fn read_header(stream: &[u8]) -> (r: Result<(WebSocketHeader, usize), WebSocketError>)
    ensures
        match decode_header(stream@) {
            Some((h, n)) => r is Ok && r->Ok_0.0@ == h && r->Ok_0.1 == n && h.wf() && n
                <= stream@.len(),
            None => r == Err::<(WebSocketHeader, usize), WebSocketError>(
                WebSocketError::ConnectionClosed,
            ),
        },
{
    if stream.len() < 2 {
        return Err(WebSocketError::ConnectionClosed);
    }
    let mut res = match read_header_internal(stream) {
        Ok(h) => h,
        Err(_) => { return Err(WebSocketError::ConnectionClosed); },
    };
    let mut at: usize = 2;
    if res.payload_len == 126 {
        if stream.len() < 4 {
            return Err(WebSocketError::ConnectionClosed);
        }
        res.payload_len = stream[2] as u64 * 0x100 + stream[3] as u64;
        at = 4;
    } else if res.payload_len == 127 {
        if stream.len() < 10 {
            return Err(WebSocketError::ConnectionClosed);
        }
        res.payload_len = stream[2] as u64 * 0x100_0000_0000_0000 + stream[3] as u64
            * 0x1_0000_0000_0000 + stream[4] as u64 * 0x100_0000_0000 + stream[5] as u64
            * 0x1_0000_0000 + stream[6] as u64 * 0x100_0000 + stream[7] as u64 * 0x1_0000
            + stream[8] as u64 * 0x100 + stream[9] as u64;
        at = 10;
    }
    if res.mask != 0 {
        if stream.len() < at + 4 {
            return Err(WebSocketError::ConnectionClosed);
        }
        let mut mask_key: Vec<u8> = Vec::with_capacity(4);
        mask_key.push(stream[at]);
        mask_key.push(stream[at + 1]);
        mask_key.push(stream[at + 2]);
        mask_key.push(stream[at + 3]);
        assert(mask_key@ == stream@.subrange(at as int, at + 4));
        res.masking_key = mask_key;
        at = at + 4;
    }
    Ok((res, at))
}

/// Two bytes written for a length below 65536 read back as that length.
pub proof fn lemma_be16_round_trip(v: u64)
    requires
        v < 0x1_0000,
    ensures
        be16_value(be16_bytes(v)) == v,
{
}

/// Eight bytes written for a length read back as that length.
pub proof fn lemma_be64_round_trip(v: u64)
    ensures
        be64_value(be64_bytes(v)) == v,
{
    let b = be64_bytes(v);
    let r7 = v / 0x100;
    let r6 = r7 / 0x100;
    let r5 = r6 / 0x100;
    let r4 = r5 / 0x100;
    let r3 = r4 / 0x100;
    let r2 = r3 / 0x100;
    let r1 = r2 / 0x100;
    assert(r6 == v / 0x1_0000);
    assert(r5 == v / 0x100_0000);
    assert(r4 == v / 0x1_0000_0000);
    assert(r3 == v / 0x100_0000_0000);
    assert(r2 == v / 0x1_0000_0000_0000);
    assert(r1 == v / 0x100_0000_0000_0000);
    assert(r1 < 0x100);
    assert(b[7] == v % 0x100);
    assert(b[6] == r7 % 0x100);
    assert(b[5] == r6 % 0x100);
    assert(b[4] == r5 % 0x100);
    assert(b[3] == r4 % 0x100);
    assert(b[2] == r3 % 0x100);
    assert(b[1] == r2 % 0x100);
    assert(b[0] == r1);
}

/// A header that is written and read again comes back unchanged, and the
/// bytes that follow it are left alone.
pub proof fn lemma_header_round_trip(h: HeaderView, rest: Seq<u8>)
    requires
        h.wf(),
    ensures
        decode_header(header_bytes(h) + rest) == Some((h, header_bytes(h).len())),
{
    let hb = header_bytes(h);
    let bytes = hb + rest;
    let ext = length_extension(h.payload_len);
    let field = length_field(h.payload_len);
    assert(field < 128);
    assert(bytes[0] == (h.fin * 128 + h.opcode) as u8);
    assert(bytes[1] == (h.mask * 128 + field) as u8);
    assert(bytes[1] % 128 == field);
    assert(bytes[1] / 128 == h.mask);
    assert(extension_size(field) == ext.len());
    assert(header_size(bytes[1]) == hb.len());
    assert(bytes.subrange(2, 2 + ext.len() as int) == ext);
    assert(bytes.subrange(2 + ext.len() as int, hb.len() as int) == h.masking_key);
    if h.payload_len < 126 {
    } else if h.payload_len < 0xFFFF {
        lemma_be16_round_trip(h.payload_len);
    } else {
        lemma_be64_round_trip(h.payload_len);
    }
    let d = decode_header(bytes)->Some_0.0;
    assert(d.payload_len == h.payload_len);
    assert(d.masking_key == h.masking_key);
    assert(d == h);
}

} // verus!
