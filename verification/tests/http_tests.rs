use oc_http::head::{scan_head, HttpError, Limits};
use oc_http::request::{http, request_from, ParseStatus, ParsedHead};
use oc_http::response::{respond, send_content, Response};

fn limits(max_line_len: usize, max_headers: usize) -> Limits {
    Limits { max_line_len, max_headers }
}

#[test]
fn test_hello_world() {
    let stream = b"GET / HTTP/1.1\r\nHost: localhost\r\nAccept: */*\r\n\r\n";
    let req = http(stream, &Limits::default()).unwrap();
    assert_eq!(req.method, "GET");
    assert_eq!(req.path, "/");
    let mut headers = vec![];
    headers.push(("Content-Type".into(), Vec::from("text/html; charset=utf-8".as_bytes())));
    let mut writer: Vec<u8> = Vec::new();
    respond(&mut writer, Response { code: 200, reason: "OK", headers, body: None });
    send_content(&mut writer, b"<h1>Hello world!</h1>");
    let mut parsed = [httparse::EMPTY_HEADER; 4];
    let mut res = httparse::Response::new(&mut parsed);
    let head_len = res.parse(&writer).unwrap().unwrap();
    assert_eq!(res.code, Some(200));
    assert_eq!(res.headers.len(), 1);
    assert_eq!(res.headers[0].name, "Content-Type");
    assert_eq!(res.headers[0].value, b"text/html; charset=utf-8");
    assert_eq!(&writer[head_len..], b"<h1>Hello world!</h1>");
}

#[test]
fn test_server_parses_headers() {
    let stream = b"GET / HTTP/1.1\r\nHost: localhost:8080\r\nUser-Agent: ureq\r\nAccept: */*\r\nTransfer-Encoding: chunked\r\n\r\n";
    let req = http(stream, &Limits::default()).unwrap();
    assert_eq!(req.method, "GET");
    assert_eq!(req.path, "/");
    assert_eq!(req.headers.len(), 4);
    let mut writer: Vec<u8> = Vec::new();
    respond(&mut writer, Response { code: 200, reason: "OK", headers: vec![], body: None });
    assert_eq!(writer, b"HTTP/1.1 200 OK\r\n\r\n");
}

#[test]
fn echo_request_is_parsed() {
    let req = http(b"GET /echo HTTP/1.1\r\nHost: x\r\n\r\n", &Limits::default()).unwrap();
    assert_eq!(req.method, "GET");
    assert_eq!(req.path, "/echo");
    assert_eq!(req.headers.len(), 1);
    let host = req.headers.get("Host").unwrap();
    assert_eq!(host.first, b"x");
    assert_eq!(host.others, None);
    assert!(req.headers.get("host").is_none());
    assert_eq!(req.body, b"");
}

#[test]
fn bytes_after_the_head_are_the_body() {
    let req = http(b"POST /p HTTP/1.0\nA: 1\n\nbody bytes", &Limits::default()).unwrap();
    assert_eq!(req.method, "POST");
    assert_eq!(req.path, "/p");
    assert_eq!(req.body, b"body bytes");
}

#[test]
fn repeated_headers_keep_every_value_in_order() {
    let stream = b"GET / HTTP/1.1\r\nA: 1\r\nB: x\r\nA: 2\r\nA: 3\r\n\r\n";
    let req = http(stream, &Limits::default()).unwrap();
    assert_eq!(req.headers.len(), 2);
    let a = req.headers.get("A").unwrap();
    assert_eq!(a.first, b"1");
    assert_eq!(a.others, Some(vec![b"2".to_vec(), b"3".to_vec()]));
    let b = req.headers.get("B").unwrap();
    assert_eq!(b.first, b"x");
    assert_eq!(b.others, None);
}

#[test]
fn scan_counts_lines_and_finds_the_end() {
    let l = Limits::default();
    assert_eq!(scan_head(b"GET / HTTP/1.1\r\nHost: x\r\n\r\nrest", &l), Ok((27, 2)));
    assert_eq!(scan_head(b"GET / HTTP/1.1\n\n", &l), Ok((16, 1)));
    assert_eq!(scan_head(b"GET / HTTP/1.1\r\nHost: x\r\n", &l), Err(HttpError::Incomplete));
    assert_eq!(scan_head(b"", &l), Err(HttpError::Incomplete));
    assert_eq!(scan_head(b"\r\nGET / HTTP/1.1\r\n\r\n", &l), Err(HttpError::NoRequestLine));
    assert_eq!(scan_head(b"\n", &l), Err(HttpError::NoRequestLine));
}

#[test]
fn a_line_over_the_limit_is_refused() {
    // "GET / HTTP/1.1\r\n" has 16 bytes
    let stream = b"GET / HTTP/1.1\r\nHost: x\r\n\r\n";
    assert_eq!(scan_head(stream, &limits(16, 8)), Ok((27, 2)));
    assert_eq!(scan_head(stream, &limits(15, 8)), Err(HttpError::LineTooLong));
    assert_eq!(http(stream, &limits(15, 8)).unwrap_err(), HttpError::LineTooLong);
    // decided as soon as the budget is used up, before the line ends
    assert_eq!(scan_head(b"GET / HTTP/1.1", &limits(14, 8)), Err(HttpError::LineTooLong));
    assert_eq!(scan_head(b"GET / HTTP/1.1", &limits(15, 8)), Err(HttpError::Incomplete));
}

#[test]
fn too_many_headers_are_refused() {
    let stream = b"GET / HTTP/1.1\r\nA: 1\r\nB: 2\r\nC: 3\r\n\r\nbody";
    assert_eq!(scan_head(stream, &limits(100, 3)), Ok((36, 4)));
    assert_eq!(scan_head(stream, &limits(100, 2)), Err(HttpError::TooManyHeaders));
    assert_eq!(http(stream, &limits(100, 2)).unwrap_err(), HttpError::TooManyHeaders);
    // decided at the end of the third header line, whatever follows
    assert_eq!(
        scan_head(b"GET / HTTP/1.1\r\nA: 1\r\nB: 2\r\nC: 3\r\n", &limits(100, 2)),
        Err(HttpError::TooManyHeaders)
    );
    assert!(http(b"GET / HTTP/1.1\r\n\r\n", &limits(100, 0)).is_ok());
}

#[test]
fn malformed_heads_are_refused() {
    let l = Limits::default();
    assert_eq!(http(b"GET /\r\n\r\n", &l).unwrap_err(), HttpError::Malformed);
    assert_eq!(http(b"GET / HTTP/2.0\r\n\r\n", &l).unwrap_err(), HttpError::Malformed);
    assert_eq!(http(b"GET / HTTP/1.1\r\nbad header\r\n\r\n", &l).unwrap_err(), HttpError::Malformed);
    assert_eq!(http(b"GET / HTTP/1.1\r\nHost: x\r\n", &l).unwrap_err(), HttpError::Incomplete);
}

fn parsed(status: ParseStatus, version: Option<u8>) -> ParsedHead {
    ParsedHead {
        status,
        method: Some("PUT".to_string()),
        path: None,
        version,
        headers: vec![("K".to_string(), b"v".to_vec()), ("K".to_string(), b"w".to_vec())],
    }
}

#[test]
fn a_tokenized_head_becomes_a_request() {
    let req = request_from(parsed(ParseStatus::Complete, Some(0)), b"tail").unwrap();
    assert_eq!(req.method, "PUT");
    assert_eq!(req.path, "/");
    assert_eq!(req.body, b"tail");
    let k = req.headers.get("K").unwrap();
    assert_eq!(k.first, b"v");
    assert_eq!(k.others, Some(vec![b"w".to_vec()]));
    assert!(request_from(parsed(ParseStatus::Complete, None), b"").is_ok());
    assert!(request_from(parsed(ParseStatus::Complete, Some(1)), b"").is_ok());
    assert_eq!(
        request_from(parsed(ParseStatus::Complete, Some(2)), b"").unwrap_err(),
        HttpError::UnsupportedVersion
    );
    assert_eq!(
        request_from(parsed(ParseStatus::Partial, Some(1)), b"").unwrap_err(),
        HttpError::Partial
    );
    assert_eq!(
        request_from(parsed(ParseStatus::Invalid, Some(1)), b"").unwrap_err(),
        HttpError::Malformed
    );
}

#[test]
fn response_head_has_the_wire_format() {
    let mut out: Vec<u8> = b"x".to_vec();
    let headers = vec![
        ("Content-Length".to_string(), b"0".to_vec()),
        ("X-Empty".to_string(), b"".to_vec()),
    ];
    respond(&mut out, Response { code: 404, reason: "NOT FOUND", headers, body: None });
    assert_eq!(out, b"xHTTP/1.1 404 NOT FOUND\r\nContent-Length: 0\r\nX-Empty: \r\n\r\n");
    let mut out: Vec<u8> = Vec::new();
    respond(&mut out, Response { code: 0, reason: "", headers: vec![], body: None });
    assert_eq!(out, b"HTTP/1.1 0 \r\n\r\n");
    let mut out: Vec<u8> = Vec::new();
    respond(&mut out, Response { code: 1234567890, reason: "Big", headers: vec![], body: None });
    assert_eq!(out, b"HTTP/1.1 1234567890 Big\r\n\r\n");
}

#[test]
fn default_response_is_200_ok() {
    let r = Response::default();
    assert_eq!(r.code, 200);
    assert_eq!(r.reason, "OK");
    assert!(r.headers.is_empty());
    assert!(r.body.is_none());
    let mut out: Vec<u8> = Vec::new();
    respond(&mut out, r);
    assert_eq!(out, b"HTTP/1.1 200 OK\r\n\r\n");
}

#[test]
fn response_round_trips_through_a_parser() {
    let headers = vec![
        ("Server".to_string(), b"oc".to_vec()),
        ("Set-Cookie".to_string(), b"a=1".to_vec()),
        ("Set-Cookie".to_string(), b"b=2".to_vec()),
    ];
    let mut out: Vec<u8> = Vec::new();
    respond(&mut out, Response { code: 301, reason: "Moved", headers, body: None });
    let mut parsed = [httparse::EMPTY_HEADER; 8];
    let mut res = httparse::Response::new(&mut parsed);
    assert_eq!(res.parse(&out), Ok(httparse::Status::Complete(out.len())));
    assert_eq!(res.code, Some(301));
    assert_eq!(res.reason, Some("Moved"));
    let got: Vec<(String, Vec<u8>)> =
        res.headers.iter().map(|h| (h.name.to_string(), h.value.to_vec())).collect();
    assert_eq!(
        got,
        vec![
            ("Server".to_string(), b"oc".to_vec()),
            ("Set-Cookie".to_string(), b"a=1".to_vec()),
            ("Set-Cookie".to_string(), b"b=2".to_vec()),
        ]
    );
}

#[test]
fn send_content_appends_everything() {
    let mut out: Vec<u8> = b"head".to_vec();
    send_content(&mut out, b" and body");
    assert_eq!(out, b"head and body");
    send_content(&mut out, b"");
    assert_eq!(out, b"head and body");
}
