//! The receiving half of an upgraded connection: frames in, messages out.
//!
//! A message may arrive in fragments. The reader keeps the fragments seen so
//! far, and control frames pass it by without touching them.

use vstd::prelude::*;
use crate::websocket::frame::FrameParse;
use crate::websocket::frame::parse_frame;
use crate::websocket::frame::read_frame;
use crate::websocket::message::Message;
use crate::websocket::message::MessageType;
use crate::websocket::message::MessageView;
use crate::websocket::message::WebSocketError;
use crate::websocket::message::type_of_opcode;

verus! {

/// The payload limit of a reader that was given none.
pub const MAX_PAYLOAD_SIZE: u64 = 16_000;

/// The fragments of an unfinished message: its type and the bytes so far.
pub type Buffered = Option<(MessageType, Seq<u8>)>;

/// What one frame does to the reader.
pub enum Step {
    /// A message is complete and goes to the caller.
    Deliver(MessageView),
    /// The frame was a fragment; the message is not complete yet.
    Continue,
    /// The frame breaks the protocol.
    Fail(WebSocketError),
}

/// The effect of one frame with the given fin bit, opcode and unmasked
/// payload on a reader that holds `buffered`: what happens, and what the
/// reader holds afterwards.
pub open spec fn frame_step(buffered: Buffered, fin: u8, opcode: u8, payload: Seq<u8>) -> (
    Step,
    Buffered,
) {
    match type_of_opcode(opcode) {
        None => (Step::Fail(WebSocketError::BadOpcode), buffered),
        Some(typ) => if typ.spec_is_control() {
            (Step::Deliver(MessageView { typ, contents: payload }), buffered)
        } else if fin == 0 && typ != MessageType::Continuation {
            (Step::Continue, Some((typ, payload)))
        } else if fin == 0 {
            match buffered {
                Some((first, so_far)) => (Step::Continue, Some((first, so_far + payload))),
                None => (Step::Fail(WebSocketError::BadOpcode), buffered),
            }
        } else {
            match buffered {
                Some((first, so_far)) => (
                    Step::Deliver(MessageView { typ: first, contents: so_far + payload }),
                    None,
                ),
                None => (Step::Deliver(MessageView { typ, contents: payload }), None),
            }
        },
    }
}

/// The outcome of one call of `recv`.
pub struct Received {
    /// The message, or why there is none.
    pub result: Result<MessageView, WebSocketError>,
    /// What the reader holds afterwards.
    pub buffered: Buffered,
    /// How many bytes of the stream were used up.
    pub consumed: nat,
}

/// Adds `n` to the bytes an outcome used up.
pub open spec fn after(n: nat, r: Received) -> Received {
    Received { consumed: n + r.consumed, ..r }
}

/// Reads frames from the start of `bytes` until a message is complete or
/// something goes wrong. A frame that does not fit the limit, or that the
/// stream ends in, is not used up.
pub open spec fn recv_spec(buffered: Buffered, bytes: Seq<u8>, max_payload: u64) -> Received
    decreases bytes.len(),
{
    match parse_frame(bytes, max_payload) {
        FrameParse::Closed => Received {
            result: Err(WebSocketError::ConnectionClosed),
            buffered,
            consumed: 0,
        },
        FrameParse::TooBig => Received {
            result: Err(WebSocketError::TooBig),
            buffered,
            consumed: 0,
        },
        FrameParse::Frame { header, payload, size } => {
            let (step, next) = frame_step(buffered, header.fin, header.opcode, payload);
            match step {
                Step::Deliver(m) => Received { result: Ok(m), buffered: next, consumed: size },
                Step::Fail(e) => Received { result: Err(e), buffered: next, consumed: size },
                Step::Continue => after(
                    size,
                    recv_spec(next, bytes.skip(size as int), max_payload),
                ),
            }
        },
    }
}

/// The receiving half of a connection.
pub struct WebSocketReader {
    max_payload: u64,
    buffered_message: Option<(MessageType, Vec<u8>)>,
}

impl WebSocketReader {
    /// The fragments the reader holds.
    pub closed spec fn buffered(&self) -> Buffered {
        match self.buffered_message {
            Some((typ, bytes)) => Some((typ, bytes@)),
            None => None,
        }
    }

    /// The largest payload a frame may announce.
    pub closed spec fn max_payload(&self) -> u64 {
        self.max_payload
    }

    /// A reader that holds no fragment and takes frames of up to
    /// `max_payload` bytes of payload.
    pub fn new(max_payload: u64) -> (r: WebSocketReader)
        ensures
            r.buffered() == None::<(MessageType, Seq<u8>)>,
            r.max_payload() == max_payload,
    {
        WebSocketReader { max_payload, buffered_message: None }
    }

    /// The largest payload a frame may announce.
    pub fn payload_limit(&self) -> (r: u64)
        ensures
            r == self.max_payload(),
    {
        self.max_payload
    }

    /// Takes one frame that was read off the stream, by its fin bit, its
    /// opcode and its unmasked payload. `None` says that the message is not
    /// complete and the next frame is wanted.
    pub fn accept(&mut self, fin: u8, opcode: u8, contents: Vec<u8>) -> (r: Option<
        Result<Message, WebSocketError>,
    >)
        ensures
            final(self).max_payload() == old(self).max_payload(),
            final(self).buffered() == frame_step(old(self).buffered(), fin, opcode, contents@).1,
            match frame_step(old(self).buffered(), fin, opcode, contents@).0 {
                Step::Deliver(m) => r is Some && r->Some_0 is Ok && r->Some_0->Ok_0@ == m,
                Step::Continue => r is None,
                Step::Fail(e) => r == Some(Err::<Message, WebSocketError>(e)),
            },
    {
        let mut contents = contents;
        let typ = match MessageType::from_opcode(opcode) {
            Ok(typ) => typ,
            Err(_) => { return Some(Err(WebSocketError::BadOpcode)); },
        };
        if typ.is_control() {
            return Some(Ok(Message { typ, contents }));
        }
        if fin == 0 && typ != MessageType::Continuation {
            self.buffered_message = Some((typ, contents));
            None
        } else if fin == 0 {
            match self.buffered_message.take() {
                Some((first, mut so_far)) => {
                    so_far.append(&mut contents);
                    self.buffered_message = Some((first, so_far));
                    None
                },
                None => Some(Err(WebSocketError::BadOpcode)),
            }
        } else {
            match self.buffered_message.take() {
                Some((first, mut so_far)) => {
                    so_far.append(&mut contents);
                    Some(Ok(Message { typ: first, contents: so_far }))
                },
                None => Some(Ok(Message { typ, contents })),
            }
        }
    }

    /// Reads the next message from the bytes that have arrived, and says how
    /// many of them it used up. A stream that ends before the message is
    /// complete gives `ConnectionClosed`; the fragments read so far are kept,
    /// so the call can be made again on what follows the used bytes once more
    /// have arrived.
    pub fn recv(&mut self, stream: &[u8]) -> (r: (usize, Result<Message, WebSocketError>))
        ensures
            final(self).max_payload() == old(self).max_payload(),
            ({
                let want = recv_spec(old(self).buffered(), stream@, old(self).max_payload());
                &&& r.0 == want.consumed
                &&& r.0 <= stream@.len()
                &&& final(self).buffered() == want.buffered
                &&& match want.result {
                    Ok(m) => r.1 is Ok && r.1->Ok_0@ == m,
                    Err(e) => r.1 == Err::<Message, WebSocketError>(e),
                }
            }),
    {
        let mut pos: usize = 0;
        assert(stream@.skip(0) == stream@);
        loop
            invariant
                pos <= stream@.len(),
                self.max_payload() == old(self).max_payload(),
                recv_spec(old(self).buffered(), stream@, old(self).max_payload()) == after(
                    pos as nat,
                    recv_spec(self.buffered(), stream@.skip(pos as int), self.max_payload()),
                ),
            decreases stream@.len() - pos,
        {
            let rest = &stream[pos..stream.len()];
            assert(rest@ == stream@.skip(pos as int));
            let (header, contents, size) = match read_frame(rest, self.max_payload) {
                Ok(frame) => frame,
                Err(WebSocketError::TooBig) => { return (pos, Err(WebSocketError::TooBig)); },
                Err(_) => { return (pos, Err(WebSocketError::ConnectionClosed)); },
            };
            let step = self.accept(header.fin, header.opcode, contents);
            assert(rest@.skip(size as int) == stream@.skip(pos + size));
            pos = pos + size;
            match step {
                Some(done) => { return (pos, done); },
                None => {},
            }
        }
    }
}

} // verus!
