//! The sending half of an upgraded connection: messages in, frames out.
//!
//! A server sends every message as one unmasked frame with the fin bit set.

use vstd::prelude::*;
use crate::bytes::append;
use crate::websocket::frame::frame_bytes;
use crate::websocket::header::HeaderView;
use crate::websocket::header::WebSocketHeader;
use crate::websocket::message::Message;
use crate::websocket::message::MessageType;
use crate::websocket::message::MessageView;
use crate::websocket::message::WebSocketError;
use crate::websocket::message::opcode_of;

verus! {

/// The header of the single frame that carries a message of `len` bytes.
pub open spec fn message_header(typ: MessageType, len: nat) -> HeaderView {
    HeaderView {
        fin: 1,
        opcode: opcode_of(typ),
        mask: 0,
        payload_len: len as u64,
        masking_key: Seq::empty(),
    }
}

/// The bytes that carry a message: one final, unmasked frame.
pub open spec fn message_bytes(m: MessageView) -> Seq<u8> {
    frame_bytes(message_header(m.typ, m.contents.len()), m.contents)
}

/// What the control-frame responder makes of a message: `Ok(true)` for one it
/// has answered, `Ok(false)` for one that goes to the application, and
/// `ConnectionClosed` for a close.
pub open spec fn control_outcome(typ: MessageType) -> Result<bool, WebSocketError> {
    match typ {
        MessageType::Pong => Ok(true),
        MessageType::Close => Err(WebSocketError::ConnectionClosed),
        _ => Ok(false),
    }
}

/// The sending half of a connection. It gathers the bytes to put on the wire.
pub struct WebSocketWriter {
    stream: Vec<u8>,
}

impl WebSocketWriter {
    /// The bytes written so far that have not been handed out.
    pub closed spec fn pending(&self) -> Seq<u8> {
        self.stream@
    }

    /// A writer whose first bytes to send are those already in `stream`.
    pub fn new(stream: Vec<u8>) -> (w: WebSocketWriter)
        ensures
            w.pending() == stream@,
    {
        WebSocketWriter { stream }
    }

    /// Hands out the bytes to put on the wire and starts afresh.
    pub fn flush(&mut self) -> (out: Vec<u8>)
        ensures
            out@ == old(self).pending(),
            final(self).pending() == Seq::<u8>::empty(),
    {
        let mut out: Vec<u8> = Vec::new();
        out.append(&mut self.stream);
        out
    }

    /// Appends the message as one final, unmasked frame. This never fails.
    pub fn write(&mut self, msg: &Message) -> (r: Result<(), WebSocketError>)
        ensures
            r is Ok,
            final(self).pending() == old(self).pending() + message_bytes(msg@),
    {
        let res = WebSocketHeader {
            fin: 1,
            opcode: msg.typ.opcode(),
            mask: 0,
            payload_len: msg.contents.len() as u64,
            masking_key: Vec::new(),
        };
        let head = res.to_vec();
        append(&mut self.stream, head.as_slice());
        append(&mut self.stream, msg.contents.as_slice());
        assert(self.stream@ == old(self).pending() + message_bytes(msg@));
        Ok(())
    }
}

/// Answers the control messages that keep a connection open. A pong is sent
/// back with the same payload and reported as handled. A close ends the
/// message loop with `ConnectionClosed`, and nothing is sent. Every other
/// message is left for the application.
pub fn handle_control(msg: &Message, wrt: &mut WebSocketWriter) -> (r: Result<
    bool,
    WebSocketError,
>)
    ensures
        r == control_outcome(msg.typ),
        msg.typ == MessageType::Pong ==> final(wrt).pending() == old(wrt).pending()
            + message_bytes(msg@),
        msg.typ != MessageType::Pong ==> final(wrt).pending() == old(wrt).pending(),
{
    match msg.typ {
        MessageType::Pong => {
            let _ = wrt.write(msg);
            Ok(true)
        },
        MessageType::Close => Err(WebSocketError::ConnectionClosed),
        _ => Ok(false),
    }
}

} // verus!
