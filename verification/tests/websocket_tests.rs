use oc_http::head::Limits;
use oc_http::request::http;
use oc_http::websocket::frame::{read_frame, unmask};
use oc_http::websocket::handshake::accept_key;
use oc_http::websocket::header::{read_header, read_header_internal, read_header_internal_bits};
use oc_http::websocket::reader::MAX_PAYLOAD_SIZE;
use oc_http::websocket::{
    handle_control, upgrade, Message, MessageType, WebSocketError, WebSocketHeader,
    WebSocketReader, WebSocketWriter,
};

fn header(fin: u8, opcode: u8, key: Option<[u8; 4]>, len: u64) -> WebSocketHeader {
    WebSocketHeader {
        fin,
        opcode,
        mask: if key.is_some() { 1 } else { 0 },
        payload_len: len,
        masking_key: key.map(|k| k.to_vec()).unwrap_or_default(),
    }
}

fn frame(fin: u8, typ: MessageType, key: Option<[u8; 4]>, payload: &[u8]) -> Vec<u8> {
    let mut out = header(fin, typ.opcode(), key, payload.len() as u64).to_vec();
    let mut body = payload.to_vec();
    if let Some(k) = key {
        unmask(&mut body, &k.to_vec());
    }
    out.extend_from_slice(&body);
    out
}

fn msg(typ: MessageType, contents: &[u8]) -> Message {
    Message { typ, contents: contents.to_vec() }
}

#[test]
fn opcodes_and_types() {
    let all = [
        (MessageType::Continuation, 0x0u8),
        (MessageType::Text, 0x1),
        (MessageType::Binary, 0x2),
        (MessageType::Close, 0x8),
        (MessageType::Ping, 0x9),
        (MessageType::Pong, 0xA),
    ];
    for (typ, op) in all {
        assert_eq!(typ.opcode(), op);
        assert_eq!(MessageType::from_opcode(op), Ok(typ));
    }
    for op in [3u8, 4, 5, 6, 7, 0xB, 0xC, 0xF, 16, 255] {
        assert_eq!(MessageType::from_opcode(op), Err(WebSocketError::BadOpcode));
    }
    assert!(MessageType::Ping.is_control());
    assert!(MessageType::Pong.is_control());
    assert!(MessageType::Close.is_control());
    assert!(!MessageType::Text.is_control());
    assert!(!MessageType::Binary.is_control());
    assert!(!MessageType::Continuation.is_control());
}

#[test]
fn header_wire_form_short() {
    assert_eq!(header(1, 1, None, 5).to_vec(), vec![0x81, 5]);
    assert_eq!(header(0, 2, None, 0).to_vec(), vec![0x02, 0]);
    assert_eq!(header(1, 9, None, 125).to_vec(), vec![0x89, 125]);
    assert_eq!(
        header(1, 1, Some([1, 2, 3, 4]), 5).to_vec(),
        vec![0x81, 0x85, 1, 2, 3, 4]
    );
}

#[test]
fn header_wire_form_sixteen_bit() {
    assert_eq!(header(1, 2, None, 126).to_vec(), vec![0x82, 126, 0, 126]);
    assert_eq!(header(1, 2, None, 0x1234).to_vec(), vec![0x82, 126, 0x12, 0x34]);
    assert_eq!(header(1, 2, None, 0xFFFE).to_vec(), vec![0x82, 126, 0xFF, 0xFE]);
    assert_eq!(
        header(1, 2, Some([9, 8, 7, 6]), 300).to_vec(),
        vec![0x82, 0xFE, 0x01, 0x2C, 9, 8, 7, 6]
    );
}

#[test]
fn header_wire_form_sixty_four_bit() {
    assert_eq!(
        header(1, 2, None, 0xFFFF).to_vec(),
        vec![0x82, 127, 0, 0, 0, 0, 0, 0, 0xFF, 0xFF]
    );
    assert_eq!(
        header(1, 2, None, 0x0102_0304_0506_0708).to_vec(),
        vec![0x82, 127, 1, 2, 3, 4, 5, 6, 7, 8]
    );
    assert_eq!(
        header(1, 2, None, 70_000).to_vec(),
        vec![0x82, 127, 0, 0, 0, 0, 0, 0x01, 0x11, 0x70]
    );
    assert_eq!(
        header(0, 0, Some([1, 1, 1, 1]), u64::MAX).to_vec(),
        vec![0x00, 0xFF, 255, 255, 255, 255, 255, 255, 255, 255, 1, 1, 1, 1]
    );
}

#[test]
fn header_is_read_back() {
    for len in [0u64, 1, 125, 126, 127, 0xFFFE, 0xFFFF, 0x10000, 0x0102_0304_0506_0708, u64::MAX] {
        for key in [None, Some([0xDE, 0xAD, 0xBE, 0xEF])] {
            for (fin, opcode) in [(0u8, 0u8), (1, 1), (1, 0xA), (0, 0xF)] {
                let h = header(fin, opcode, key, len);
                let mut bytes = h.to_vec();
                let size = bytes.len();
                bytes.extend_from_slice(b"tail");
                let (got, used) = read_header(&bytes).unwrap();
                assert_eq!(used, size);
                assert_eq!(got.fin, fin);
                assert_eq!(got.opcode, opcode);
                assert_eq!(got.mask, h.mask);
                assert_eq!(got.payload_len, len);
                assert_eq!(got.masking_key, h.masking_key);
            }
        }
    }
}

#[test]
fn header_reads_reserved_bits_away() {
    let (h, used) = read_header(&[0xF1, 0x03]).unwrap();
    assert_eq!((h.fin, h.opcode, h.mask, h.payload_len, used), (1, 1, 0, 3, 2));
    let base = read_header_internal(&[0x7A, 0xFF]).unwrap();
    assert_eq!((base.fin, base.opcode, base.mask, base.payload_len), (0, 0xA, 1, 127));
    assert!(base.masking_key.is_empty());
    assert_eq!(read_header_internal(&[0x81]).unwrap_err(), WebSocketError::ProtocolError);
    assert_eq!(read_header_internal(&[]).unwrap_err(), WebSocketError::ProtocolError);
}

#[test]
fn a_short_header_is_a_closed_connection() {
    assert_eq!(read_header(&[]).unwrap_err(), WebSocketError::ConnectionClosed);
    assert_eq!(read_header(&[0x81]).unwrap_err(), WebSocketError::ConnectionClosed);
    assert_eq!(read_header(&[0x81, 126, 0]).unwrap_err(), WebSocketError::ConnectionClosed);
    assert_eq!(
        read_header(&[0x81, 127, 0, 0, 0, 0, 0, 0, 0]).unwrap_err(),
        WebSocketError::ConnectionClosed
    );
    assert_eq!(read_header(&[0x81, 0x80, 1, 2, 3]).unwrap_err(), WebSocketError::ConnectionClosed);
    assert!(read_header(&[0x81, 0x80, 1, 2, 3, 4]).is_ok());
}

#[test]
fn masking_is_xor_with_the_key() {
    let key = vec![0x01, 0x02, 0x04, 0x08];
    let mut data = vec![0u8, 0, 0, 0, 0xFF, 0xFF, 0x10];
    unmask(&mut data, &key);
    assert_eq!(data, vec![0x01, 0x02, 0x04, 0x08, 0xFE, 0xFD, 0x14]);
    unmask(&mut data, &key);
    assert_eq!(data, vec![0u8, 0, 0, 0, 0xFF, 0xFF, 0x10]);
    let mut plain = b"abc".to_vec();
    unmask(&mut plain, &vec![]);
    assert_eq!(plain, b"abc");
}

#[test]
fn rfc_masked_hello_frame() {
    let bytes = [0x81, 0x85, 0x37, 0xfa, 0x21, 0x3d, 0x7f, 0x9f, 0x4d, 0x51, 0x58];
    let (h, payload, used) = read_frame(&bytes, 100).unwrap();
    assert_eq!(used, 11);
    assert_eq!((h.fin, h.opcode, h.mask, h.payload_len), (1, 1, 1, 5));
    assert_eq!(payload, b"Hello");
    let mut rdr = WebSocketReader::new(MAX_PAYLOAD_SIZE);
    assert_eq!(rdr.recv(&bytes), (11, Ok(msg(MessageType::Text, b"Hello"))));
}

#[test]
fn unmasked_frame_with_payload_is_read() {
    let bytes = [0x81, 0x05, 0x48, 0x65, 0x6c, 0x6c, 0x6f, 0x99];
    let mut rdr = WebSocketReader::new(MAX_PAYLOAD_SIZE);
    assert_eq!(rdr.recv(&bytes), (7, Ok(msg(MessageType::Text, b"Hello"))));
}

#[test]
fn payload_over_the_limit_is_too_big() {
    let mut rdr = WebSocketReader::new(4);
    assert_eq!(rdr.payload_limit(), 4);
    let ok = frame(1, MessageType::Binary, Some([1, 2, 3, 4]), b"1234");
    assert_eq!(rdr.recv(&ok), (ok.len(), Ok(msg(MessageType::Binary, b"1234"))));
    let big = frame(1, MessageType::Binary, Some([1, 2, 3, 4]), b"12345");
    assert_eq!(rdr.recv(&big), (0, Err(WebSocketError::TooBig)));
    // known from the header alone, before any payload has arrived
    assert_eq!(rdr.recv(&big[..6]), (0, Err(WebSocketError::TooBig)));
    assert_eq!(read_frame(&big, 4).unwrap_err(), WebSocketError::TooBig);
    let mut default = WebSocketReader::new(MAX_PAYLOAD_SIZE);
    assert_eq!(MAX_PAYLOAD_SIZE, 16_000);
    let huge = header(1, 2, None, 16_001).to_vec();
    assert_eq!(default.recv(&huge), (0, Err(WebSocketError::TooBig)));
}

#[test]
fn a_stream_that_ends_early_is_a_closed_connection() {
    let mut rdr = WebSocketReader::new(MAX_PAYLOAD_SIZE);
    assert_eq!(rdr.recv(&[]), (0, Err(WebSocketError::ConnectionClosed)));
    let whole = frame(1, MessageType::Text, Some([5, 6, 7, 8]), b"hello");
    for cut in 0..whole.len() {
        assert_eq!(rdr.recv(&whole[..cut]), (0, Err(WebSocketError::ConnectionClosed)));
    }
    assert_eq!(rdr.recv(&whole), (whole.len(), Ok(msg(MessageType::Text, b"hello"))));
}

#[test]
fn unknown_opcode_is_refused() {
    let mut rdr = WebSocketReader::new(MAX_PAYLOAD_SIZE);
    let bytes = [0x83, 0x01, 0x00];
    assert_eq!(rdr.recv(&bytes), (3, Err(WebSocketError::BadOpcode)));
}

#[test]
fn message_round_trip_masked() {
    let key = Some([0x12, 0x34, 0x56, 0x78]);
    for typ in [
        MessageType::Text,
        MessageType::Binary,
        MessageType::Ping,
        MessageType::Pong,
        MessageType::Close,
        MessageType::Continuation,
    ] {
        for payload in [&b""[..], b"a", b"hello world", &[0u8; 126], &[7u8; 1000]] {
            let bytes = frame(1, typ, key, payload);
            let mut rdr = WebSocketReader::new(MAX_PAYLOAD_SIZE);
            assert_eq!(rdr.recv(&bytes), (bytes.len(), Ok(msg(typ, payload))));
        }
    }
}

#[test]
fn written_messages_are_received() {
    let mut wrt = WebSocketWriter::new(Vec::new());
    let big = vec![0xABu8; 70_000];
    assert_eq!(wrt.write(&msg(MessageType::Text, b"one")), Ok(()));
    assert_eq!(wrt.write(&msg(MessageType::Binary, &big)), Ok(()));
    assert_eq!(wrt.write(&msg(MessageType::Ping, b"")), Ok(()));
    let bytes = wrt.flush();
    assert_eq!(&bytes[..5], &[0x81, 3, b'o', b'n', b'e']);
    assert_eq!(&bytes[5..15], &[0x82, 127, 0, 0, 0, 0, 0, 0x01, 0x11, 0x70]);
    assert!(wrt.flush().is_empty());
    let mut rdr = WebSocketReader::new(100_000);
    let (n1, m1) = rdr.recv(&bytes);
    assert_eq!((n1, m1), (5, Ok(msg(MessageType::Text, b"one"))));
    let (n2, m2) = rdr.recv(&bytes[n1..]);
    assert_eq!((n2, m2), (70_010, Ok(msg(MessageType::Binary, &big))));
    let (n3, m3) = rdr.recv(&bytes[n1 + n2..]);
    assert_eq!((n3, m3), (2, Ok(msg(MessageType::Ping, b""))));
    assert_eq!(n1 + n2 + n3, bytes.len());
}

#[test]
fn fragments_are_reassembled_in_order() {
    let key = Some([1, 2, 3, 4]);
    let mut stream = frame(0, MessageType::Text, key, b"Hel");
    stream.extend(frame(0, MessageType::Continuation, key, b"lo, "));
    stream.extend(frame(0, MessageType::Continuation, None, b""));
    stream.extend(frame(1, MessageType::Continuation, key, b"world"));
    let total = stream.len();
    stream.extend(frame(1, MessageType::Binary, key, b"next"));
    let mut rdr = WebSocketReader::new(MAX_PAYLOAD_SIZE);
    assert_eq!(rdr.recv(&stream), (total, Ok(msg(MessageType::Text, b"Hello, world"))));
    assert_eq!(
        rdr.recv(&stream[total..]),
        (stream.len() - total, Ok(msg(MessageType::Binary, b"next")))
    );
}

#[test]
fn fragments_survive_a_stream_that_arrives_in_pieces() {
    let mut stream = frame(0, MessageType::Binary, Some([9, 9, 9, 9]), b"ab");
    let first = stream.len();
    stream.extend(frame(1, MessageType::Continuation, Some([8, 8, 8, 8]), b"cd"));
    let mut rdr = WebSocketReader::new(MAX_PAYLOAD_SIZE);
    // the first frame and half of the second have arrived
    let (used, got) = rdr.recv(&stream[..first + 3]);
    assert_eq!((used, got), (first, Err(WebSocketError::ConnectionClosed)));
    // the rest arrives
    let (used, got) = rdr.recv(&stream[first..]);
    assert_eq!((used, got), (stream.len() - first, Ok(msg(MessageType::Binary, b"abcd"))));
}

#[test]
fn continuation_without_a_start_is_refused() {
    let bytes = frame(0, MessageType::Continuation, None, b"x");
    let mut rdr = WebSocketReader::new(MAX_PAYLOAD_SIZE);
    assert_eq!(rdr.recv(&bytes), (bytes.len(), Err(WebSocketError::BadOpcode)));
    assert_eq!(rdr.accept(0, 0, b"x".to_vec()), Some(Err(WebSocketError::BadOpcode)));
}

#[test]
fn control_frames_pass_between_fragments() {
    let key = Some([4, 3, 2, 1]);
    let ping = frame(1, MessageType::Ping, key, b"first");
    let start = frame(0, MessageType::Text, key, b"frag");
    let ping2 = frame(1, MessageType::Ping, key, b"second");
    let end = frame(1, MessageType::Continuation, key, b"ment");
    let stream = [ping.clone(), start.clone(), ping2.clone(), end.clone()].concat();
    let mut rdr = WebSocketReader::new(MAX_PAYLOAD_SIZE);
    let mut at = 0;
    let (n, got) = rdr.recv(&stream[at..]);
    assert_eq!((n, got), (ping.len(), Ok(msg(MessageType::Ping, b"first"))));
    at += n;
    let (n, got) = rdr.recv(&stream[at..]);
    assert_eq!((n, got), (start.len() + ping2.len(), Ok(msg(MessageType::Ping, b"second"))));
    at += n;
    let (n, got) = rdr.recv(&stream[at..]);
    assert_eq!((n, got), (end.len(), Ok(msg(MessageType::Text, b"fragment"))));
    assert_eq!(at + n, stream.len());
}

#[test]
fn close_in_the_middle_of_a_message_ends_the_loop() {
    let start = frame(0, MessageType::Text, Some([1, 1, 1, 1]), b"partial");
    let close = frame(1, MessageType::Close, Some([2, 2, 2, 2]), &[0x03, 0xE8]);
    let stream = [start, close].concat();
    let mut rdr = WebSocketReader::new(MAX_PAYLOAD_SIZE);
    let mut wrt = WebSocketWriter::new(Vec::new());
    let (n, got) = rdr.recv(&stream);
    assert_eq!(n, stream.len());
    let got = got.unwrap();
    assert_eq!(got, msg(MessageType::Close, &[0x03, 0xE8]));
    assert_eq!(handle_control(&got, &mut wrt), Err(WebSocketError::ConnectionClosed));
    assert!(wrt.flush().is_empty());
}

#[test]
fn accept_takes_frames_one_by_one() {
    let mut rdr = WebSocketReader::new(MAX_PAYLOAD_SIZE);
    assert_eq!(rdr.accept(0, 1, b"a".to_vec()), None);
    assert_eq!(rdr.accept(1, 9, b"ping".to_vec()), Some(Ok(msg(MessageType::Ping, b"ping"))));
    assert_eq!(rdr.accept(0, 0, b"b".to_vec()), None);
    assert_eq!(rdr.accept(1, 0, b"c".to_vec()), Some(Ok(msg(MessageType::Text, b"abc"))));
    assert_eq!(rdr.accept(1, 2, b"d".to_vec()), Some(Ok(msg(MessageType::Binary, b"d"))));
    assert_eq!(rdr.accept(1, 0, b"e".to_vec()), Some(Ok(msg(MessageType::Continuation, b"e"))));
    assert_eq!(rdr.accept(1, 7, b"".to_vec()), Some(Err(WebSocketError::BadOpcode)));
    // a new start replaces an unfinished message
    assert_eq!(rdr.accept(0, 1, b"old".to_vec()), None);
    assert_eq!(rdr.accept(0, 2, b"new".to_vec()), None);
    assert_eq!(rdr.accept(1, 0, b"!".to_vec()), Some(Ok(msg(MessageType::Binary, b"new!"))));
}

#[test]
fn control_responder() {
    let mut wrt = WebSocketWriter::new(Vec::new());
    assert_eq!(handle_control(&msg(MessageType::Pong, b"beat"), &mut wrt), Ok(true));
    assert_eq!(wrt.flush(), vec![0x8A, 4, b'b', b'e', b'a', b't']);
    assert_eq!(handle_control(&msg(MessageType::Text, b"hi"), &mut wrt), Ok(false));
    assert_eq!(handle_control(&msg(MessageType::Binary, b"hi"), &mut wrt), Ok(false));
    assert_eq!(handle_control(&msg(MessageType::Ping, b"hi"), &mut wrt), Ok(false));
    assert_eq!(handle_control(&msg(MessageType::Continuation, b""), &mut wrt), Ok(false));
    assert_eq!(
        handle_control(&msg(MessageType::Close, b""), &mut wrt),
        Err(WebSocketError::ConnectionClosed)
    );
    assert!(wrt.flush().is_empty());
}

#[test]
fn accept_token_of_the_sample_key() {
    assert_eq!(accept_key(b"dGhlIHNhbXBsZSBub25jZQ=="), b"s3pPLMBiTxaQ9kYGzzhZRbK+xOo=");
    assert_ne!(accept_key(b"dGhlIHNhbXBsZSBub25jZQ"), b"dGhlIHNhbXBsZSBub25jZQ");
}

fn upgrade_request(lines: &[&str]) -> Vec<u8> {
    let mut out = b"GET /ws HTTP/1.1\r\n".to_vec();
    for line in lines {
        out.extend_from_slice(line.as_bytes());
        out.extend_from_slice(b"\r\n");
    }
    out.extend_from_slice(b"\r\n");
    out
}

fn upgrade_error(lines: &[&str]) -> WebSocketError {
    let bytes = upgrade_request(lines);
    let req = http(&bytes, &Limits::default()).unwrap();
    match upgrade(&req, Vec::new()) {
        Ok(_) => panic!("upgraded"),
        Err(e) => e,
    }
}

#[test]
fn handshake_writes_the_accept_token() {
    let bytes = upgrade_request(&[
        "Host: x",
        "Connection: Upgrade",
        "Upgrade: websocket",
        "Sec-WebSocket-Version: 13",
        "Sec-WebSocket-Key: dGhlIHNhbXBsZSBub25jZQ==",
    ]);
    let req = http(&bytes, &Limits::default()).unwrap();
    let (rdr, mut wrt) = upgrade(&req, b"before".to_vec()).unwrap();
    assert_eq!(rdr.payload_limit(), 16_000);
    let sent = wrt.flush();
    let expected: &[u8] = b"beforeHTTP/1.1 101 Switching Protocols\r\nUpgrade: websocket\r\nConnection: Upgrade\r\nSec-WebSocket-Accept: s3pPLMBiTxaQ9kYGzzhZRbK+xOo=\r\n\r\n";
    assert_eq!(sent, expected);
}

#[test]
fn handshake_errors_come_in_order() {
    let conn = "Connection: Upgrade";
    let up = "Upgrade: websocket";
    let ver = "Sec-WebSocket-Version: 13";
    let key = "Sec-WebSocket-Key: abc";
    assert_eq!(upgrade_error(&[]), WebSocketError::NoConnectionHeader);
    assert_eq!(upgrade_error(&[up, ver, key]), WebSocketError::NoConnectionHeader);
    assert_eq!(
        upgrade_error(&["Connection: keep-alive", up, ver, key]),
        WebSocketError::ConnectioNotUpgrade
    );
    assert_eq!(
        upgrade_error(&["Connection: upgrade", up, ver, key]),
        WebSocketError::ConnectioNotUpgrade
    );
    assert_eq!(upgrade_error(&[conn, ver, key]), WebSocketError::NoUpgradeHeader);
    assert_eq!(
        upgrade_error(&[conn, "Upgrade: h2c", ver, key]),
        WebSocketError::UpgradeNotToWebSocket
    );
    assert_eq!(upgrade_error(&[conn, up, key]), WebSocketError::WrongVersion);
    assert_eq!(
        upgrade_error(&[conn, up, "Sec-WebSocket-Version: 8", key]),
        WebSocketError::WrongVersion
    );
    assert_eq!(upgrade_error(&[conn, up, ver]), WebSocketError::NoKey);
    assert_eq!(upgrade_error(&["connection: Upgrade", up, ver, key]), WebSocketError::NoConnectionHeader);
}

#[test]
fn fixed_bytes_are_taken_apart() {
    let h = read_header_internal_bits(0b1011_0010, 0b1000_0101);
    assert_eq!((h.fin, h.opcode, h.mask, h.payload_len), (1, 2, 1, 5));
    assert!(h.masking_key.is_empty());
    let h = read_header_internal_bits(0, 126);
    assert_eq!((h.fin, h.opcode, h.mask, h.payload_len), (0, 0, 0, 126));
}

#[test]
fn opcode_conversions_by_trait() {
    assert_eq!(MessageType::try_from(0x9u8), Ok(MessageType::Ping));
    assert_eq!(MessageType::try_from(0x3u8), Err(WebSocketError::BadOpcode));
    let op: u8 = MessageType::Close.into();
    assert_eq!(op, 0x8);
}

#[test]
fn transport_errors_are_kept_as_text() {
    let err = std::io::Error::new(std::io::ErrorKind::BrokenPipe, "pipe went away");
    match WebSocketError::from(err) {
        WebSocketError::IOError(text) => {
            assert!(text.contains("BrokenPipe"));
            assert!(text.contains("pipe went away"));
        }
        other => panic!("{:?}", other),
    }
    assert_eq!(
        WebSocketError::TooBig.to_string(),
        "problem establishing websocket connection"
    );
}
