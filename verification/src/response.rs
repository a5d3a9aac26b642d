//! Writing a response: the status line, the header lines and the blank line
//! that ends the head. The body is for the caller to send afterwards.

use vstd::prelude::*;
use vstd::utf8::encode_utf8;
use crate::bytes::COLON;
use crate::bytes::CR;
use crate::bytes::LF;
use crate::bytes::SPACE;
use crate::bytes::append;
use crate::bytes::decimal;
use crate::bytes::push_decimal;

verus! {

/// A response to send.
#[derive(Debug)]
pub struct Response {
    /// The status code.
    pub code: usize,
    /// The reason phrase that goes with the code.
    pub reason: &'static str,
    /// The header lines, in the order in which they are sent.
    pub headers: Vec<(String, Vec<u8>)>,
    /// The body, which the caller sends after the head.
    pub body: Option<Vec<u8>>,
}

impl Default for Response {
    fn default() -> (r: Response)
        ensures
            r.code == 200,
            r.reason@ == "OK"@,
            r.headers@.len() == 0,
            r.body is None,
    {
        Response { code: 200, reason: "OK", headers: Vec::new(), body: None }
    }
}

/// The head of a response as a mathematical value: names and the reason
/// phrase stand as the bytes that are sent for them.
pub struct ResponseView {
    pub code: nat,
    pub reason: Seq<u8>,
    pub headers: Seq<(Seq<u8>, Seq<u8>)>,
}

/// Header lines as pairs of byte strings.
pub open spec fn header_pairs(headers: Seq<(String, Vec<u8>)>) -> Seq<(Seq<u8>, Seq<u8>)> {
    Seq::new(headers.len(), |i: int| (encode_utf8(headers[i].0@), headers[i].1@))
}

impl View for Response {
    type V = ResponseView;

    open spec fn view(&self) -> ResponseView {
        ResponseView {
            code: self.code as nat,
            reason: encode_utf8(self.reason@),
            headers: header_pairs(self.headers@),
        }
    }
}

/// The bytes `HTTP/1.1` and a space, with which every status line starts.
pub open spec fn version_prefix() -> Seq<u8> {
    seq![72, 84, 84, 80, 47, 49, 46, 49, SPACE]
}

/// The end of a line: a carriage return and a line feed.
pub open spec fn line_end() -> Seq<u8> {
    seq![CR, LF]
}

/// The status line, without a line end.
pub open spec fn status_line(code: nat, reason: Seq<u8>) -> Seq<u8> {
    version_prefix() + decimal(code) + seq![SPACE] + reason
}

/// One header line, with the line end before it.
pub open spec fn header_line(name: Seq<u8>, value: Seq<u8>) -> Seq<u8> {
    line_end() + name + seq![COLON, SPACE] + value
}

/// The header lines one after the other.
pub open spec fn header_lines(headers: Seq<(Seq<u8>, Seq<u8>)>) -> Seq<u8>
    decreases headers.len(),
{
    if headers.len() == 0 {
        Seq::empty()
    } else {
        header_line(headers[0].0, headers[0].1) + header_lines(headers.drop_first())
    }
}

/// The head of a response on the wire: the status line, the header lines,
/// the end of the last line and a blank line.
pub open spec fn response_bytes(r: ResponseView) -> Seq<u8> {
    status_line(r.code, r.reason) + header_lines(r.headers) + line_end() + line_end()
}

/// One more header line goes behind the others.
pub proof fn lemma_header_lines_push(headers: Seq<(Seq<u8>, Seq<u8>)>, name: Seq<u8>, value: Seq<u8>)
    ensures
        header_lines(headers.push((name, value))) == header_lines(headers) + header_line(
            name,
            value,
        ),
    decreases headers.len(),
{
    let more = headers.push((name, value));
    if headers.len() == 0 {
        assert(more.drop_first() =~= Seq::<(Seq<u8>, Seq<u8>)>::empty());
        assert(header_lines(more.drop_first()) =~= Seq::<u8>::empty());
        assert(header_lines(more) =~= header_line(name, value));
    } else {
        assert(more.drop_first() =~= headers.drop_first().push((name, value)));
        lemma_header_lines_push(headers.drop_first(), name, value);
        assert(header_lines(more) =~= header_lines(headers) + header_line(name, value));
    }
}

/// Writes the head of the response to the stream. Call it before any of the
/// body is written; the body can then follow on the same stream.
pub fn respond(stream: &mut Vec<u8>, response: Response)
    ensures
        final(stream)@ == old(stream)@ + response_bytes(response@),
{
    let ghost start = stream@;
    let ghost pairs = header_pairs(response.headers@);
    stream.push(72);
    stream.push(84);
    stream.push(84);
    stream.push(80);
    stream.push(47);
    stream.push(49);
    stream.push(46);
    stream.push(49);
    stream.push(SPACE);
    assert(stream@ =~= start + version_prefix());
    push_decimal(stream, response.code);
    stream.push(SPACE);
    append(stream, response.reason.as_bytes());
    assert(stream@ =~= start + status_line(response.code as nat, encode_utf8(response.reason@)));
    let ghost status = stream@;
    let mut i: usize = 0;
    assert(pairs.take(0) =~= Seq::<(Seq<u8>, Seq<u8>)>::empty());
    while i < response.headers.len()
        invariant
            i <= response.headers@.len(),
            pairs == header_pairs(response.headers@),
            stream@ == status + header_lines(pairs.take(i as int)),
        decreases response.headers@.len() - i,
    {
        let ghost had = stream@;
        stream.push(CR);
        stream.push(LF);
        append(stream, response.headers[i].0.as_str().as_bytes());
        stream.push(COLON);
        stream.push(SPACE);
        append(stream, response.headers[i].1.as_slice());
        proof {
            let name = pairs[i as int].0;
            let value = pairs[i as int].1;
            assert(stream@ =~= had + header_line(name, value));
            lemma_header_lines_push(pairs.take(i as int), name, value);
            assert(pairs.take(i as int).push((name, value)) =~= pairs.take(i + 1));
        }
        i += 1;
    }
    assert(pairs.take(i as int) =~= pairs);
    stream.push(CR);
    stream.push(LF);
    stream.push(CR);
    stream.push(LF);
    assert(stream@ =~= start + response_bytes(response@));
}

/// Writes all of the contents to the stream: the way to send a body.
pub fn send_content(writer: &mut Vec<u8>, contents: &[u8])
    ensures
        final(writer)@ == old(writer)@ + contents@,
{
    append(writer, contents);
}

} // verus!
