//! One frame: a header, then a payload that the sender may have masked.

use vstd::prelude::*;
use crate::bytes::append;
use crate::websocket::header::HeaderView;
use crate::websocket::header::WebSocketHeader;
use crate::websocket::header::decode_header;
use crate::websocket::header::header_bytes;
use crate::websocket::header::lemma_header_round_trip;
use crate::websocket::header::read_header;
use crate::websocket::message::WebSocketError;

verus! {

/// `payload` with byte `i` XOR-ed with `key[i mod 4]`. Without a key of four
/// bytes the payload is left as it is. Masking and unmasking are the same.
pub open spec fn mask_with(payload: Seq<u8>, key: Seq<u8>) -> Seq<u8> {
    if key.len() == 4 {
        Seq::new(payload.len(), |i: int| payload[i] ^ key[i % 4])
    } else {
        payload
    }
}

/// What the start of a byte stream holds.
pub enum FrameParse {
    /// A whole frame of `size` bytes, with its payload unmasked.
    Frame { header: HeaderView, payload: Seq<u8>, size: nat },
    /// A header that announces more payload than the limit allows.
    TooBig,
    /// The stream ends before the frame does.
    Closed,
}

/// Reads one frame from the start of `bytes`. The limit is checked as soon as
/// the header is known, before any payload is looked at.
pub open spec fn parse_frame(bytes: Seq<u8>, max_payload: u64) -> FrameParse {
    match decode_header(bytes) {
        None => FrameParse::Closed,
        Some((h, n)) => if h.payload_len > max_payload {
            FrameParse::TooBig
        } else if bytes.len() - n < h.payload_len {
            FrameParse::Closed
        } else {
            FrameParse::Frame {
                header: h,
                payload: mask_with(bytes.subrange(n as int, n + h.payload_len), h.masking_key),
                size: (n + h.payload_len) as nat,
            }
        },
    }
}

/// The wire form of a frame: the header, then the payload under the header's
/// key.
pub open spec fn frame_bytes(h: HeaderView, payload: Seq<u8>) -> Seq<u8> {
    header_bytes(h) + mask_with(payload, h.masking_key)
}

/// XOR-s `contents` in place with the key, where there is one.
pub fn unmask(contents: &mut Vec<u8>, key: &Vec<u8>)
    ensures
        final(contents)@ == mask_with(old(contents)@, key@),
{
    if key.len() != 4 {
        return ;
    }
    let len: usize = contents.len();
    let mut i: usize = 0;
    while i < len
        invariant
            key@.len() == 4,
            len == contents@.len(),
            len == old(contents)@.len(),
            i <= len,
            forall|j: int| 0 <= j < i ==> contents@[j] == old(contents)@[j] ^ key@[j % 4],
            forall|j: int| i <= j < len ==> contents@[j] == old(contents)@[j],
        decreases len - i,
    {
        let b: u8 = contents[i] ^ key[i % 4];
        contents.set(i, b);
        i += 1;
    }
    assert(contents@ =~= mask_with(old(contents)@, key@));
}

/// Reads one frame from the start of `stream`: its header, its payload
/// unmasked, and the number of bytes the frame took. `TooBig` is reported for
/// a payload length above `max_payload`, `ConnectionClosed` for a stream that
/// ends inside the frame.
pub fn read_frame(stream: &[u8], max_payload: u64) -> (r: Result<
    (WebSocketHeader, Vec<u8>, usize),
    WebSocketError,
>)
    ensures
        match parse_frame(stream@, max_payload) {
            FrameParse::Frame { header, payload, size } => r is Ok && r->Ok_0.0@ == header
                && r->Ok_0.1@ == payload && r->Ok_0.2 == size && header.wf() && 2 <= size
                <= stream@.len(),
            FrameParse::TooBig => r == Err::<(WebSocketHeader, Vec<u8>, usize), WebSocketError>(
                WebSocketError::TooBig,
            ),
            FrameParse::Closed => r == Err::<(WebSocketHeader, Vec<u8>, usize), WebSocketError>(
                WebSocketError::ConnectionClosed,
            ),
        },
{
    let (header, at) = match read_header(stream) {
        Ok(found) => found,
        Err(_) => { return Err(WebSocketError::ConnectionClosed); },
    };
    if header.payload_len > max_payload {
        return Err(WebSocketError::TooBig);
    }
    if ((stream.len() - at) as u64) < header.payload_len {
        return Err(WebSocketError::ConnectionClosed);
    }
    let end: usize = at + header.payload_len as usize;
    let mut contents: Vec<u8> = Vec::with_capacity(end - at);
    append(&mut contents, &stream[at..end]);
    unmask(&mut contents, &header.masking_key);
    Ok((header, contents, end))
}

/// Masking twice with the same key gives the payload back.
pub proof fn lemma_mask_twice(payload: Seq<u8>, key: Seq<u8>)
    ensures
        mask_with(mask_with(payload, key), key) == payload,
{
    if key.len() == 4 {
        let once = mask_with(payload, key);
        assert forall|i: int| 0 <= i < payload.len() implies #[trigger] (once[i] ^ key[i % 4])
            == payload[i] by {
            let p: u8 = payload[i];
            let k: u8 = key[i % 4];
            assert((p ^ k) ^ k == p) by (bit_vector);
        }
        assert(mask_with(once, key) =~= payload);
    }
}

/// A frame that is written and read again gives its header and its payload
/// back, whatever follows it in the stream, as long as the payload is as long
/// as the header says and within the limit.
pub proof fn lemma_frame_round_trip(
    h: HeaderView,
    payload: Seq<u8>,
    rest: Seq<u8>,
    max_payload: u64,
)
    requires
        h.wf(),
        h.payload_len == payload.len(),
        h.payload_len <= max_payload,
    ensures
        parse_frame(frame_bytes(h, payload) + rest, max_payload) == (FrameParse::Frame {
            header: h,
            payload,
            size: frame_bytes(h, payload).len(),
        }),
{
    let hb = header_bytes(h);
    let masked = mask_with(payload, h.masking_key);
    let bytes = frame_bytes(h, payload) + rest;
    assert(bytes =~= hb + (masked + rest));
    lemma_header_round_trip(h, masked + rest);
    let n = hb.len();
    assert(masked.len() == payload.len());
    assert(bytes.subrange(n as int, n + h.payload_len) =~= masked);
    lemma_mask_twice(payload, h.masking_key);
}

} // verus!
