//! Reading a request: the head is found within the limits, its lines are
//! tokenized, and the headers are gathered by name. The body is not read;
//! the bytes that follow the head are handed on untouched.

use vstd::prelude::*;
use crate::head::HttpError;
use crate::head::Limits;
use crate::head::count_newlines;
use crate::head::is_head;
use crate::head::is_head_shape;
use crate::head::lemma_scan_accepts_heads_within_limits;
use crate::head::lemma_scan_refuses_heads_over_the_limits;
use crate::head::lines_fit;
use crate::head::scan;
use crate::head::scan_head;
use crate::headers::Headers;
use crate::headers::grouped;
use crate::headers::lemma_grouped_push;

verus! {

/// How the tokenizer left a head.
#[derive(Debug, Clone, Copy, PartialEq, Eq, Structural)]
pub enum ParseStatus {
    /// The head was read to its end.
    Complete,
    /// The head ended before the tokenizer was done.
    Partial,
    /// The head is not valid HTTP.
    Invalid,
}

/// What the tokenizer found in a head.
#[derive(Debug)]
pub struct ParsedHead {
    pub status: ParseStatus,
    pub method: Option<String>,
    pub path: Option<String>,
    /// The minor version: 0 for HTTP/1.0, 1 for HTTP/1.1.
    pub version: Option<u8>,
    /// The header lines in order, each as a name and a value.
    pub headers: Vec<(String, Vec<u8>)>,
}

/// A tokenized head as a mathematical value.
pub struct ParsedHeadView {
    pub status: ParseStatus,
    pub method: Option<Seq<char>>,
    pub path: Option<Seq<char>>,
    pub version: Option<u8>,
    pub headers: Seq<(Seq<char>, Seq<u8>)>,
}

/// Header lines as pairs of sequences.
pub open spec fn lines_view(lines: Seq<(String, Vec<u8>)>) -> Seq<(Seq<char>, Seq<u8>)> {
    Seq::new(lines.len(), |i: int| (lines[i].0@, lines[i].1@))
}

/// A string that may be missing, as a sequence that may be missing.
pub open spec fn text_view(text: Option<String>) -> Option<Seq<char>> {
    match text {
        Some(s) => Some(s@),
        None => None,
    }
}

impl View for ParsedHead {
    type V = ParsedHeadView;

    open spec fn view(&self) -> ParsedHeadView {
        ParsedHeadView {
            status: self.status,
            method: text_view(self.method),
            path: text_view(self.path),
            version: self.version,
            headers: lines_view(self.headers@),
        }
    }
}

/// What `httparse` makes of a request head when it is given room for
/// `max_headers` header lines.
pub uninterp spec fn httparse_request(head: Seq<u8>, max_headers: nat) -> ParsedHeadView;

/// Runs `httparse::Request::parse` on `head` with room for `max_headers`
/// header lines, and copies out what it found. Nothing is claimed of the
/// outcome but that it depends on the two arguments alone.
#[verifier::external_body]
fn parse_head(head: &[u8], max_headers: usize) -> (r: ParsedHead)
    ensures
        r@ == httparse_request(head@, max_headers as nat),
{
    let mut raw = vec![httparse::EMPTY_HEADER; max_headers];
    let mut req = httparse::Request::new(&mut raw);
    let status = match req.parse(head) {
        Ok(httparse::Status::Complete(_)) => ParseStatus::Complete,
        Ok(httparse::Status::Partial) => ParseStatus::Partial,
        Err(_) => ParseStatus::Invalid,
    };
    let headers = req.headers.iter().map(|h| (String::from(h.name), h.value.to_vec())).collect();
    ParsedHead {
        status,
        method: req.method.map(String::from),
        path: req.path.map(String::from),
        version: req.version,
        headers,
    }
}

/// A request whose head has been read.
#[derive(Debug)]
pub struct Request<'a> {
    pub method: String,
    pub path: String,
    /// Each header name with its values.
    pub headers: Headers,
    /// The bytes that had arrived after the head: the start of the body.
    pub body: &'a [u8],
}

/// A request as a mathematical value.
pub struct RequestView {
    pub method: Seq<char>,
    pub path: Seq<char>,
    pub headers: Map<Seq<char>, Seq<Seq<u8>>>,
    pub body: Seq<u8>,
}

impl<'a> View for Request<'a> {
    type V = RequestView;

    open spec fn view(&self) -> RequestView {
        RequestView {
            method: self.method@,
            path: self.path@,
            headers: self.headers@,
            body: self.body@,
        }
    }
}

/// The request that a tokenized head stands for. Only a complete head of
/// HTTP/1.0 or HTTP/1.1 is one. A missing method reads as `GET`, a missing
/// path as `/`, a missing version as 1.1.
pub open spec fn request_of(parsed: ParsedHeadView, body: Seq<u8>) -> Result<
    RequestView,
    HttpError,
> {
    match parsed.status {
        ParseStatus::Invalid => Err(HttpError::Malformed),
        ParseStatus::Partial => Err(HttpError::Partial),
        ParseStatus::Complete => if parsed.version is Some && parsed.version->Some_0 > 1 {
            Err(HttpError::UnsupportedVersion)
        } else {
            Ok(
                RequestView {
                    method: match parsed.method {
                        Some(m) => m,
                        None => "GET"@,
                    },
                    path: match parsed.path {
                        Some(p) => p,
                        None => "/"@,
                    },
                    headers: grouped(parsed.headers),
                    body,
                },
            )
        },
    }
}

/// The request at the start of `bytes`: the head is found within the limits,
/// tokenized with room for as many header lines as it has, and turned into a
/// request whose body starts right after the head.
pub open spec fn http_spec(bytes: Seq<u8>, limits: Limits) -> Result<RequestView, HttpError> {
    match scan(bytes, limits) {
        Err(e) => Err(e),
        Ok((head_len, lines)) => request_of(
            httparse_request(bytes.subrange(0, head_len as int), (lines - 1) as nat),
            bytes.skip(head_len as int),
        ),
    }
}

/// Turns a tokenized head into a request, with `body` as the bytes that
/// follow the head.
pub fn request_from<'a>(parsed: ParsedHead, body: &'a [u8]) -> (r: Result<Request<'a>, HttpError>)
    ensures
        match request_of(parsed@, body@) {
            Ok(v) => r is Ok && r->Ok_0@ == v,
            Err(e) => r is Err && r->Err_0 == e,
        },
{
    match parsed.status {
        ParseStatus::Invalid => { return Err(HttpError::Malformed); },
        ParseStatus::Partial => { return Err(HttpError::Partial); },
        ParseStatus::Complete => {},
    }
    match parsed.version {
        Some(v) => {
            if v > 1 {
                return Err(HttpError::UnsupportedVersion);
            }
        },
        None => {},
    }
    let ghost all = lines_view(parsed.headers@);
    let ParsedHead { status: _, method, path, version: _, headers: lines } = parsed;
    let mut headers = Headers::new();
    let mut i: usize = 0;
    assert(all.take(0) =~= Seq::<(Seq<char>, Seq<u8>)>::empty());
    assert(grouped(all.take(0)) =~= Map::<Seq<char>, Seq<Seq<u8>>>::empty());
    while i < lines.len()
        invariant
            i <= lines@.len(),
            all == lines_view(lines@),
            headers@ == grouped(all.take(i as int)),
        decreases lines@.len() - i,
    {
        let name: String = lines[i].0.clone();
        let value: Vec<u8> = lines[i].1.clone();
        assert(value@ =~= lines@[i as int].1@);
        proof {
            lemma_grouped_push(all.take(i as int), name@, value@);
            assert(all.take(i as int).push((name@, value@)) =~= all.take(i + 1));
        }
        headers.add(name, value);
        i += 1;
    }
    assert(all.take(i as int) =~= all);
    let method: String = match method {
        Some(m) => m,
        None => "GET".to_owned(),
    };
    let path: String = match path {
        Some(p) => p,
        None => "/".to_owned(),
    };
    Ok(Request { method, path, headers, body })
}

/// Reads the request at the start of `stream`. The body is left alone: the
/// request holds whatever of it had arrived with the head. `Incomplete` says
/// that the head has not arrived in full; every other error is final, and is
/// decided without a look at what follows the head.
pub fn http<'a>(stream: &'a [u8], limits: &Limits) -> (r: Result<Request<'a>, HttpError>)
    ensures
        match http_spec(stream@, *limits) {
            Ok(v) => r is Ok && r->Ok_0@ == v,
            Err(e) => r is Err && r->Err_0 == e,
        },
{
    let (head_len, lines) = match scan_head(stream, limits) {
        Ok(found) => found,
        Err(e) => { return Err(e); },
    };
    let head = &stream[0..head_len];
    let body = &stream[head_len..stream.len()];
    assert(body@ == stream@.skip(head_len as int));
    let parsed = parse_head(head, lines - 1);
    request_from(parsed, body)
}

/// A request whose head is within the limits is handed to the tokenizer
/// whole; where the tokenizer reads it to its end as HTTP/1.0 or HTTP/1.1,
/// the request is parsed: its method, its path and its headers by name are
/// those that the tokenizer found, and its body starts right after the head.
pub proof fn lemma_request_within_limits_is_parsed(
    bytes: Seq<u8>,
    head_len: int,
    lines: nat,
    limits: Limits,
)
    requires
        is_head(bytes, head_len, lines, limits),
    ensures
        ({
            let parsed = httparse_request(bytes.subrange(0, head_len), (lines - 1) as nat);
            &&& http_spec(bytes, limits) == request_of(parsed, bytes.skip(head_len))
            &&& parsed.status == ParseStatus::Complete && (parsed.version is None
                || parsed.version->Some_0 <= 1) ==> http_spec(bytes, limits) == Ok::<
                RequestView,
                HttpError,
            >(
                RequestView {
                    method: match parsed.method {
                        Some(m) => m,
                        None => "GET"@,
                    },
                    path: match parsed.path {
                        Some(p) => p,
                        None => "/"@,
                    },
                    headers: grouped(parsed.headers),
                    body: bytes.skip(head_len),
                },
            )
        }),
{
    lemma_scan_accepts_heads_within_limits(bytes, head_len, lines, limits);
}

/// A request with a line over the length limit, or with more header lines
/// than allowed, fails for that reason, and does so whatever body follows
/// its head: no byte of the body is looked at.
pub proof fn lemma_request_over_the_limits_fails(
    bytes: Seq<u8>,
    blank: int,
    head_len: int,
    body: Seq<u8>,
    limits: Limits,
)
    requires
        is_head_shape(bytes, 0, blank, head_len),
        !lines_fit(bytes, 0, head_len, limits) || count_newlines(bytes, 0, blank)
            > limits.max_headers + 1,
    ensures
        http_spec(bytes + body, limits) == Err::<RequestView, HttpError>(HttpError::LineTooLong)
            || http_spec(bytes + body, limits) == Err::<RequestView, HttpError>(
            HttpError::TooManyHeaders,
        ),
{
    lemma_scan_refuses_heads_over_the_limits(bytes, blank, head_len, body, limits);
}

} // verus!
