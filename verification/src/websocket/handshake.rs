//! The upgrade handshake: a request that asks for the WebSocket protocol is
//! checked, and answered with the accept token that its key calls for.

use vstd::prelude::*;
use vstd::utf8::encode_utf8;
use crate::bytes::append;
use crate::bytes::same_bytes;
use crate::request::Request;
use crate::response::Response;
use crate::response::ResponseView;
use crate::response::respond;
use crate::response::response_bytes;
use crate::websocket::message::MessageType;
use crate::websocket::message::WebSocketError;
use crate::websocket::reader::MAX_PAYLOAD_SIZE;
use crate::websocket::reader::WebSocketReader;
use crate::websocket::writer::WebSocketWriter;

verus! {

/// The SHA-1 digest of a byte string.
pub uninterp spec fn sha1_digest(data: Seq<u8>) -> Seq<u8>;

/// The standard base64 encoding, with padding, of a byte string.
pub uninterp spec fn base64_standard(data: Seq<u8>) -> Seq<u8>;

/// Runs `sha1::Sha1::digest` (the `Digest` trait's one-shot function) on
/// `data`. The result is the SHA-1 digest, which has twenty bytes.
#[verifier::external_body]
fn sha1(data: &[u8]) -> (digest: Vec<u8>)
    ensures
        digest@ == sha1_digest(data@),
        digest@.len() == 20,
{
    <sha1::Sha1 as sha1::Digest>::digest(data).to_vec()
}

/// Runs `base64::encode` on `data` and hands out the bytes of its string.
/// The input is kept small enough for the size of the output to fit any
/// `usize`; `base64::encode` panics where it does not.
#[verifier::external_body]
fn base64(data: &[u8]) -> (text: Vec<u8>)
    requires
        data@.len() <= 0x2000_0000,
    ensures
        text@ == base64_standard(data@),
{
    base64::encode(data).into_bytes()
}

/// The identifier that every server appends to the key before hashing.
pub open spec fn websocket_guid() -> Seq<u8> {
    encode_utf8("258EAFA5-E914-47DA-95CA-C5AB0DC85B11"@)
}

/// The accept token for a key: the key followed by the identifier, hashed
/// with SHA-1, in base64.
pub open spec fn accept_token(key: Seq<u8>) -> Seq<u8> {
    base64_standard(sha1_digest(key + websocket_guid()))
}

/// The first value of the header, where the request has it.
pub open spec fn first_value(headers: Map<Seq<char>, Seq<Seq<u8>>>, name: Seq<char>) -> Option<
    Seq<u8>,
> {
    if headers.contains_key(name) {
        Some(headers[name][0])
    } else {
        None
    }
}

/// Checks the headers of an upgrade request, in this order: `Connection`
/// must be `Upgrade`, `Upgrade` must be `websocket`, `Sec-WebSocket-Version`
/// must be `13`, and `Sec-WebSocket-Key` must be there. Values are compared
/// byte for byte. The result is the key.
pub open spec fn check_upgrade(headers: Map<Seq<char>, Seq<Seq<u8>>>) -> Result<
    Seq<u8>,
    WebSocketError,
> {
    let connection = first_value(headers, "Connection"@);
    let upgrade = first_value(headers, "Upgrade"@);
    let version = first_value(headers, "Sec-WebSocket-Version"@);
    let key = first_value(headers, "Sec-WebSocket-Key"@);
    if connection is None {
        Err(WebSocketError::NoConnectionHeader)
    } else if connection->Some_0 != encode_utf8("Upgrade"@) {
        Err(WebSocketError::ConnectioNotUpgrade)
    } else if upgrade is None {
        Err(WebSocketError::NoUpgradeHeader)
    } else if upgrade->Some_0 != encode_utf8("websocket"@) {
        Err(WebSocketError::UpgradeNotToWebSocket)
    } else if version is None || version->Some_0 != encode_utf8("13"@) {
        Err(WebSocketError::WrongVersion)
    } else if key is None {
        Err(WebSocketError::NoKey)
    } else {
        Ok(key->Some_0)
    }
}

/// The response that completes the handshake for a key.
pub open spec fn switching_protocols(key: Seq<u8>) -> ResponseView {
    ResponseView {
        code: 101,
        reason: encode_utf8("Switching Protocols"@),
        headers: seq![
            (encode_utf8("Upgrade"@), encode_utf8("websocket"@)),
            (encode_utf8("Connection"@), encode_utf8("Upgrade"@)),
            (encode_utf8("Sec-WebSocket-Accept"@), accept_token(key)),
        ],
    }
}

/// Computes the accept token for a key.
pub fn accept_key(key: &[u8]) -> (token: Vec<u8>)
    ensures
        token@ == accept_token(key@),
{
    let mut input: Vec<u8> = Vec::new();
    append(&mut input, key);
    append(&mut input, "258EAFA5-E914-47DA-95CA-C5AB0DC85B11".as_bytes());
    let digest = sha1(input.as_slice());
    base64(digest.as_slice())
}

/// Tells whether the first value of the header is exactly `wanted`; `None`
/// where the request does not have the header.
fn header_is(req: &Request, name: &str, wanted: &str) -> (r: Option<bool>)
    ensures
        match first_value(req.headers@, name@) {
            Some(value) => r == Some(value == encode_utf8(wanted@)),
            None => r is None,
        },
{
    match req.headers.get(name) {
        Some(values) => {
            assert(values.all()[0] == values.first@);
            Some(same_bytes(values.first.as_slice(), wanted.as_bytes()))
        },
        None => None,
    }
}

/// Upgrades a connection to the WebSocket protocol. The request is checked
/// as `check_upgrade` says; each thing that is missing or wrong has an error
/// of its own, and nothing is written for it. Otherwise the response
/// `101 Switching Protocols` with the accept token is written behind what
/// `stream` holds, all of which the writer then has to send. The reader
/// starts without a fragment and with the default payload limit.
pub fn upgrade(req: &Request, stream: Vec<u8>) -> (r: Result<
    (WebSocketReader, WebSocketWriter),
    WebSocketError,
>)
    ensures
        match check_upgrade(req.headers@) {
            Ok(key) => {
                &&& r is Ok
                &&& r->Ok_0.0.buffered() == None::<(MessageType, Seq<u8>)>
                &&& r->Ok_0.0.max_payload() == MAX_PAYLOAD_SIZE
                &&& r->Ok_0.1.pending() == stream@ + response_bytes(switching_protocols(key))
            },
            Err(e) => r is Err && r->Err_0 == e,
        },
{
    let mut stream = stream;
    match header_is(req, "Connection", "Upgrade") {
        Some(same) => {
            if !same {
                return Err(WebSocketError::ConnectioNotUpgrade);
            }
        },
        None => { return Err(WebSocketError::NoConnectionHeader); },
    }
    match header_is(req, "Upgrade", "websocket") {
        Some(same) => {
            if !same {
                return Err(WebSocketError::UpgradeNotToWebSocket);
            }
        },
        None => { return Err(WebSocketError::NoUpgradeHeader); },
    }
    match header_is(req, "Sec-WebSocket-Version", "13") {
        Some(same) => {
            if !same {
                return Err(WebSocketError::WrongVersion);
            }
        },
        None => { return Err(WebSocketError::WrongVersion); },
    }
    let key = match req.headers.get("Sec-WebSocket-Key") {
        Some(values) => {
            assert(values.all()[0] == values.first@);
            &values.first
        },
        None => { return Err(WebSocketError::NoKey); },
    };
    let token = accept_key(key.as_slice());
    let mut headers: Vec<(String, Vec<u8>)> = Vec::new();
    let mut websocket: Vec<u8> = Vec::new();
    append(&mut websocket, "websocket".as_bytes());
    let mut upgrade: Vec<u8> = Vec::new();
    append(&mut upgrade, "Upgrade".as_bytes());
    headers.push(("Upgrade".to_owned(), websocket));
    headers.push(("Connection".to_owned(), upgrade));
    headers.push(("Sec-WebSocket-Accept".to_owned(), token));
    let response = Response { code: 101, reason: "Switching Protocols", headers, body: None };
    assert(response@.headers =~= switching_protocols(key@).headers);
    respond(&mut stream, response);
    Ok((WebSocketReader::new(MAX_PAYLOAD_SIZE), WebSocketWriter::new(stream)))
}

} // verus!
