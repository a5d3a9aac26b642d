//! Reading the head of a response back from its wire form.
//!
//! Nothing here runs: the reader is the yardstick for what `respond` writes.
//! A head that can be read back in one way only, as the response it was
//! written for, is a head that no peer can misread.

use vstd::prelude::*;
use crate::bytes::COLON;
use crate::bytes::CR;
use crate::bytes::LF;
use crate::bytes::SPACE;
use crate::bytes::ZERO;
use crate::bytes::decimal;
use crate::bytes::find_byte;
use crate::bytes::lemma_find_byte_at;
use crate::response::ResponseView;
use crate::response::header_line;
use crate::response::header_lines;
use crate::response::line_end;
use crate::response::response_bytes;
use crate::response::status_line;
use crate::response::version_prefix;

verus! {

/// The index of the first `a` at or after `from` that is followed by `b`, or
/// the length of `bytes` where there is none.
pub open spec fn find_pair(bytes: Seq<u8>, from: int, a: u8, b: u8) -> int
    decreases bytes.len() - from,
{
    if from + 1 >= bytes.len() {
        bytes.len() as int
    } else if bytes[from] == a && bytes[from + 1] == b {
        from
    } else {
        find_pair(bytes, from + 1, a, b)
    }
}

/// The search for a pair never goes back.
pub proof fn lemma_find_pair_bounds(bytes: Seq<u8>, from: int, a: u8, b: u8)
    ensures
        from <= bytes.len() ==> from <= find_pair(bytes, from, a, b) <= bytes.len(),
    decreases bytes.len() - from,
{
    if from + 1 < bytes.len() && !(bytes[from] == a && bytes[from + 1] == b) {
        lemma_find_pair_bounds(bytes, from + 1, a, b);
    }
}

/// A pair whose first byte does not occur before `at` is found at `at`.
pub proof fn lemma_find_pair_at(bytes: Seq<u8>, from: int, at: int, a: u8, b: u8)
    requires
        0 <= from <= at,
        at + 1 < bytes.len(),
        bytes[at] == a,
        bytes[at + 1] == b,
        forall|i: int| from <= i < at ==> bytes[i] != a,
    ensures
        find_pair(bytes, from, a, b) == at,
    decreases at - from,
{
    if from < at {
        lemma_find_pair_at(bytes, from + 1, at, a, b);
    }
}

/// The byte is a decimal digit.
pub open spec fn is_digit(b: u8) -> bool {
    ZERO <= b <= ZERO + 9
}

/// The number that decimal digits stand for; `None` for anything else.
pub open spec fn decimal_value(digits: Seq<u8>) -> Option<nat>
    decreases digits.len(),
{
    if digits.len() == 0 || !is_digit(digits.last()) {
        None
    } else if digits.len() == 1 {
        Some((digits[0] - ZERO) as nat)
    } else {
        match decimal_value(digits.drop_last()) {
            Some(v) => Some((v * 10 + (digits.last() - ZERO)) as nat),
            None => None,
        }
    }
}

/// A number written in decimal is digits only, and reads back as itself.
pub proof fn lemma_decimal_round_trip(n: nat)
    ensures
        decimal(n).len() >= 1,
        forall|i: int| 0 <= i < decimal(n).len() ==> is_digit(#[trigger] decimal(n)[i]),
        decimal_value(decimal(n)) == Some(n),
    decreases n,
{
    if n >= 10 {
        lemma_decimal_round_trip(n / 10);
        let d = decimal(n);
        assert(d.drop_last() =~= decimal(n / 10));
        assert(d.last() == (ZERO + n % 10) as u8);
    }
}

/// The header lines that start at `at`, where a line end is expected, up to
/// the blank line. Each line is split at its first colon and space.
pub open spec fn read_header_lines(bytes: Seq<u8>, at: int) -> Option<Seq<(Seq<u8>, Seq<u8>)>>
    decreases bytes.len() - at,
    via read_header_lines_decreases
{
    if at < 0 || at + 4 > bytes.len() {
        None
    } else if !(bytes[at] == CR && bytes[at + 1] == LF) {
        None
    } else if bytes[at + 2] == CR && bytes[at + 3] == LF {
        Some(Seq::empty())
    } else {
        let end = find_pair(bytes, at + 2, CR, LF);
        let line = bytes.subrange(at + 2, end);
        let colon = find_pair(line, 0, COLON, SPACE);
        if end >= bytes.len() || colon >= line.len() {
            None
        } else {
            match read_header_lines(bytes, end) {
                Some(rest) => Some(
                    seq![(line.subrange(0, colon), line.subrange(colon + 2, line.len() as int))]
                        + rest,
                ),
                None => None,
            }
        }
    }
}

#[via_fn]
proof fn read_header_lines_decreases(bytes: Seq<u8>, at: int) {
    lemma_find_pair_bounds(bytes, at + 2, CR, LF);
}

/// The response whose head stands at the start of `bytes`, or `None` where
/// there is no well-formed head.
pub open spec fn read_response(bytes: Seq<u8>) -> Option<ResponseView> {
    let space = find_byte(bytes, 9, SPACE);
    let end = find_pair(bytes, space + 1, CR, LF);
    if bytes.len() < 9 || bytes.subrange(0, 9) != version_prefix() || space >= bytes.len() || end
        >= bytes.len() {
        None
    } else {
        match (decimal_value(bytes.subrange(9, space)), read_header_lines(bytes, end)) {
            (Some(code), Some(headers)) => Some(
                ResponseView { code, reason: bytes.subrange(space + 1, end), headers },
            ),
            _ => None,
        }
    }
}

/// The byte string holds no carriage return and no line feed.
pub open spec fn one_line(s: Seq<u8>) -> bool {
    forall|i: int| 0 <= i < s.len() ==> s[i] != CR && s[i] != LF
}

/// The byte string holds no colon.
pub open spec fn no_colon(s: Seq<u8>) -> bool {
    forall|i: int| 0 <= i < s.len() ==> s[i] != COLON
}

/// The response can be sent as a head: the reason phrase, the names and the
/// values each stay on one line, and no name holds a colon.
pub open spec fn sendable(r: ResponseView) -> bool {
    &&& one_line(r.reason)
    &&& forall|i: int|
        0 <= i < r.headers.len() ==> {
            &&& one_line((#[trigger] r.headers[i]).0)
            &&& no_colon(r.headers[i].0)
            &&& one_line(r.headers[i].1)
        }
}

/// Header lines that were written after `before` and are followed by a blank
/// line are read back as they were, whatever comes after the blank line.
pub proof fn lemma_header_lines_round_trip(
    before: Seq<u8>,
    headers: Seq<(Seq<u8>, Seq<u8>)>,
    after: Seq<u8>,
)
    requires
        forall|i: int|
            0 <= i < headers.len() ==> {
                &&& one_line((#[trigger] headers[i]).0)
                &&& no_colon(headers[i].0)
                &&& one_line(headers[i].1)
            },
    ensures
        read_header_lines(
            before + header_lines(headers) + line_end() + line_end() + after,
            before.len() as int,
        ) == Some(headers),
    decreases headers.len(),
{
    let bytes = before + header_lines(headers) + line_end() + line_end() + after;
    let at = before.len() as int;
    if headers.len() == 0 {
        assert(header_lines(headers) =~= Seq::<u8>::empty());
        assert(bytes[at] == CR && bytes[at + 1] == LF);
        assert(bytes[at + 2] == CR && bytes[at + 3] == LF);
        assert(headers =~= Seq::<(Seq<u8>, Seq<u8>)>::empty());
    } else {
        let name = headers[0].0;
        let value = headers[0].1;
        let rest = headers.drop_first();
        let first = header_line(name, value);
        let content = name + seq![COLON, SPACE] + value;
        assert(first =~= line_end() + content);
        let next = before + first;
        assert(bytes =~= next + header_lines(rest) + line_end() + line_end() + after);
        let end = at + 2 + content.len();
        assert(next.len() == end);
        assert(bytes[at] == CR && bytes[at + 1] == LF);
        assert forall|i: int| at + 2 <= i < end implies bytes[i] != CR by {
            let k = i - (at + 2);
            assert(bytes[i] == content[k]);
            if k < name.len() {
                assert(content[k] == name[k]);
            } else if k >= name.len() + 2 {
                assert(content[k] == value[k - name.len() - 2]);
            }
        }
        assert(bytes[end] == CR && bytes[end + 1] == LF) by {
            if rest.len() == 0 {
                assert(header_lines(rest) =~= Seq::<u8>::empty());
            } else {
                assert(header_lines(rest) =~= header_line(rest[0].0, rest[0].1) + header_lines(
                    rest.drop_first(),
                ));
            }
        }
        lemma_find_pair_at(bytes, at + 2, end, CR, LF);
        let line = bytes.subrange(at + 2, end);
        assert(line =~= content);
        let colon = name.len() as int;
        assert(line[colon] == COLON && line[colon + 1] == SPACE);
        assert forall|i: int| 0 <= i < name.len() implies line[i] != COLON by {
            assert(line[i] == name[i]);
        }
        lemma_find_pair_at(line, 0, colon, COLON, SPACE);
        assert(line.subrange(0, colon) =~= name);
        assert(line.subrange(colon + 2, line.len() as int) =~= value);
        assert(bytes[at + 2] != CR);
        assert forall|i: int| 0 <= i < rest.len() implies {
            &&& one_line((#[trigger] rest[i]).0)
            &&& no_colon(rest[i].0)
            &&& one_line(rest[i].1)
        } by {
            assert(rest[i] == headers[i + 1]);
        }
        lemma_header_lines_round_trip(next, rest, after);
        assert(seq![(name, value)] + rest =~= headers);
    }
}

/// The head that `respond` writes for a sendable response is read back with
/// the same status code, the same reason phrase and the same header lines in
/// the same order, whatever body follows it.
pub proof fn lemma_response_round_trip(r: ResponseView, body: Seq<u8>)
    requires
        sendable(r),
    ensures
        read_response(response_bytes(r) + body) == Some(r),
{
    let digits = decimal(r.code);
    let status = status_line(r.code, r.reason);
    let bytes = response_bytes(r) + body;
    lemma_decimal_round_trip(r.code);
    assert(bytes =~= status + header_lines(r.headers) + line_end() + line_end() + body);
    assert(bytes.subrange(0, 9) =~= version_prefix());
    let space = 9 + digits.len() as int;
    assert(bytes[space] == SPACE);
    assert forall|i: int| 9 <= i < space implies bytes[i] != SPACE by {
        assert(bytes[i] == digits[i - 9]);
        assert(is_digit(digits[i - 9]));
    }
    lemma_find_byte_at(bytes, 9, space, SPACE);
    assert(bytes.subrange(9, space) =~= digits);
    let end = status.len() as int;
    assert(end == space + 1 + r.reason.len());
    assert forall|i: int| space + 1 <= i < end implies bytes[i] != CR by {
        assert(bytes[i] == r.reason[i - space - 1]);
    }
    assert(bytes[end] == CR && bytes[end + 1] == LF) by {
        if r.headers.len() == 0 {
            assert(header_lines(r.headers) =~= Seq::<u8>::empty());
        } else {
            assert(header_lines(r.headers) =~= header_line(r.headers[0].0, r.headers[0].1)
                + header_lines(r.headers.drop_first()));
        }
    }
    lemma_find_pair_at(bytes, space + 1, end, CR, LF);
    assert(bytes.subrange(space + 1, end) =~= r.reason);
    lemma_header_lines_round_trip(status, r.headers, body);
}

} // verus!
