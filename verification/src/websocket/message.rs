//! The logical units exchanged over an upgraded connection.

use vstd::prelude::*;

verus! {

/// Everything that can end a handshake or a message loop.
#[derive(Debug, Clone, PartialEq, Eq)]
pub enum WebSocketError {
    ConnectioNotUpgrade,
    NoConnectionHeader,
    NoUpgradeHeader,
    UpgradeNotToWebSocket,
    WrongVersion,
    NoKey,
    TooBig,
    ProtocolError,
    IOError(String),
    BadOpcode,
    ConnectionClosed,
}

/// The error type of the transport underneath.
#[verifier::external_type_specification]
#[verifier::external_body]
pub struct ExIoError(std::io::Error);

/// Prints a transport error with `format!` as its `Debug` impl shows it.
#[verifier::external_body]
fn debug_text(err: &std::io::Error) -> String {
    format!("{:?}", err)
}

impl From<std::io::Error> for WebSocketError {
    /// A failure of the transport, kept as text.
    fn from(err: std::io::Error) -> (r: WebSocketError)
        ensures
            r is IOError,
    {
        WebSocketError::IOError(debug_text(&err))
    }
}

impl vstd::std_specs::convert::FromSpecImpl<std::io::Error> for WebSocketError {
    open spec fn obeys_from_spec() -> bool {
        false
    }

    open spec fn from_spec(err: std::io::Error) -> WebSocketError {
        arbitrary()
    }
}

impl WebSocketError {
    /// What to tell a person about any of these errors.
    pub fn to_string(&self) -> (text: String)
        ensures
            text@ == "problem establishing websocket connection"@,
    {
        "problem establishing websocket connection".to_owned()
    }
}

/// The type tag of a message, one per opcode of the wire format.
#[derive(Debug, Clone, Copy, PartialEq, Eq, Structural)]
pub enum MessageType {
    Continuation,
    Text,
    Binary,
    Close,
    Ping,
    Pong,
}

/// The opcode that stands for a message type on the wire.
pub open spec fn opcode_of(typ: MessageType) -> u8 {
    match typ {
        MessageType::Continuation => 0x0,
        MessageType::Text => 0x1,
        MessageType::Binary => 0x2,
        MessageType::Close => 0x8,
        MessageType::Ping => 0x9,
        MessageType::Pong => 0xA,
    }
}

/// The message type that an opcode stands for, where there is one.
pub open spec fn type_of_opcode(b: u8) -> Option<MessageType> {
    if b == 0x0 {
        Some(MessageType::Continuation)
    } else if b == 0x1 {
        Some(MessageType::Text)
    } else if b == 0x2 {
        Some(MessageType::Binary)
    } else if b == 0x8 {
        Some(MessageType::Close)
    } else if b == 0x9 {
        Some(MessageType::Ping)
    } else if b == 0xA {
        Some(MessageType::Pong)
    } else {
        None
    }
}

impl MessageType {
    /// Control frames manage the connection and are never fragmented.
    pub open spec fn spec_is_control(&self) -> bool {
        *self == MessageType::Ping || *self == MessageType::Pong || *self == MessageType::Close
    }

    #[verifier::when_used_as_spec(spec_is_control)]
    pub fn is_control(&self) -> (r: bool)
        ensures
            r == self.spec_is_control(),
    {
        match self {
            MessageType::Ping | MessageType::Pong | MessageType::Close => true,
            _ => false,
        }
    }

    /// The opcode written into a frame header for this type.
    pub fn opcode(self) -> (b: u8)
        ensures
            b == opcode_of(self),
            b < 16,
    {
        match self {
            MessageType::Continuation => 0x0,
            MessageType::Text => 0x1,
            MessageType::Binary => 0x2,
            MessageType::Close => 0x8,
            MessageType::Ping => 0x9,
            MessageType::Pong => 0xA,
        }
    }

    /// Reads an opcode; any value without a message type is `BadOpcode`.
    pub fn from_opcode(b: u8) -> (r: Result<MessageType, WebSocketError>)
        ensures
            match type_of_opcode(b) {
                Some(t) => r == Ok::<MessageType, WebSocketError>(t),
                None => r == Err::<MessageType, WebSocketError>(WebSocketError::BadOpcode),
            },
    {
        match b {
            0x0 => Ok(MessageType::Continuation),
            0x1 => Ok(MessageType::Text),
            0x2 => Ok(MessageType::Binary),
            0x8 => Ok(MessageType::Close),
            0x9 => Ok(MessageType::Ping),
            0xA => Ok(MessageType::Pong),
            _ => Err(WebSocketError::BadOpcode),
        }
    }
}

impl TryFrom<u8> for MessageType {
    type Error = WebSocketError;

    fn try_from(b: u8) -> (r: Result<MessageType, WebSocketError>) {
        MessageType::from_opcode(b)
    }
}

impl vstd::std_specs::convert::TryFromSpecImpl<u8> for MessageType {
    open spec fn obeys_try_from_spec() -> bool {
        true
    }

    open spec fn try_from_spec(b: u8) -> Result<MessageType, WebSocketError> {
        match type_of_opcode(b) {
            Some(t) => Ok(t),
            None => Err(WebSocketError::BadOpcode),
        }
    }
}

impl From<MessageType> for u8 {
    fn from(typ: MessageType) -> (b: u8) {
        typ.opcode()
    }
}

impl vstd::std_specs::convert::FromSpecImpl<MessageType> for u8 {
    open spec fn obeys_from_spec() -> bool {
        true
    }

    open spec fn from_spec(typ: MessageType) -> u8 {
        opcode_of(typ)
    }
}

/// Every message type survives the trip through its opcode.
pub proof fn lemma_opcode_round_trip(typ: MessageType)
    ensures
        type_of_opcode(opcode_of(typ)) == Some(typ),
        opcode_of(typ) < 16,
{
}

/// One logical WebSocket unit: a type tag and its payload.
#[derive(Debug, Clone, PartialEq, Eq)]
pub struct Message {
    pub typ: MessageType,
    pub contents: Vec<u8>,
}

/// A message as a mathematical value.
pub struct MessageView {
    pub typ: MessageType,
    pub contents: Seq<u8>,
}

impl View for Message {
    type V = MessageView;

    open spec fn view(&self) -> MessageView {
        MessageView { typ: self.typ, contents: self.contents@ }
    }
}

} // verus!
