//! Finding the end of a request head within fixed bounds.
//!
//! A head is a request line, then header lines, then a blank line. Lines end
//! in a line feed. Headers come from the peer, so both the length of a line
//! and the number of header lines are bounded, and a head that breaks a bound
//! is given up at the byte that breaks it.

use vstd::prelude::*;
use crate::bytes::CR;
use crate::bytes::LF;
use crate::bytes::find_byte;
use crate::bytes::lemma_find_byte_bounds;

verus! {

/// Why a request could not be read.
#[derive(Debug, Clone, Copy, PartialEq, Eq, Structural)]
pub enum HttpError {
    /// The bytes end before the blank line that closes the head.
    Incomplete,
    /// A line is longer than the limit.
    LineTooLong,
    /// There are more header lines than the limit.
    TooManyHeaders,
    /// The head starts with a blank line.
    NoRequestLine,
    /// The request line or a header line is not valid HTTP.
    Malformed,
    /// The tokenizer wanted more bytes although the whole head was there.
    Partial,
    /// The version of HTTP is not 1.0 or 1.1.
    UnsupportedVersion,
}

/// The line length allowed where no other limit is given.
pub const DEFAULT_MAX_LINE_LEN: usize = 8192;

/// The number of header lines allowed where no other limit is given.
pub const DEFAULT_MAX_HEADERS: usize = 64;

/// The bounds on a request head.
#[derive(Debug, Clone, Copy, PartialEq, Eq, Structural)]
pub struct Limits {
    /// The most bytes a line may have, its line feed included.
    pub max_line_len: usize,
    /// The most header lines a head may have.
    pub max_headers: usize,
}

impl Default for Limits {
    fn default() -> (r: Limits)
        ensures
            r.max_line_len == DEFAULT_MAX_LINE_LEN,
            r.max_headers == DEFAULT_MAX_HEADERS,
    {
        Limits { max_line_len: DEFAULT_MAX_LINE_LEN, max_headers: DEFAULT_MAX_HEADERS }
    }
}

/// The index of the first line feed at or after `start`, or the length of
/// `bytes` where there is none.
pub open spec fn first_newline(bytes: Seq<u8>, start: int) -> int {
    find_byte(bytes, start, LF)
}

/// The line that starts at `start` and has its line feed at `newline` holds
/// nothing else, but for a carriage return.
pub open spec fn is_blank_line(bytes: Seq<u8>, start: int, newline: int) -> bool {
    newline == start || (newline == start + 1 && bytes[start] == CR)
}

/// Reads lines from `start` on, after `lines` lines have been read: the
/// length of the head and the number of its lines, the blank one not counted,
/// or the reason why there is no head.
pub open spec fn scan_lines(bytes: Seq<u8>, start: int, lines: nat, limits: Limits) -> Result<
    (nat, nat),
    HttpError,
>
    decreases bytes.len() - start,
    via scan_lines_decreases
{
    let newline = first_newline(bytes, start);
    if newline - start >= limits.max_line_len {
        Err(HttpError::LineTooLong)
    } else if newline >= bytes.len() {
        Err(HttpError::Incomplete)
    } else if is_blank_line(bytes, start, newline) {
        if lines == 0 {
            Err(HttpError::NoRequestLine)
        } else {
            Ok(((newline + 1) as nat, lines))
        }
    } else if lines > limits.max_headers {
        Err(HttpError::TooManyHeaders)
    } else {
        scan_lines(bytes, newline + 1, lines + 1, limits)
    }
}

#[via_fn]
proof fn scan_lines_decreases(bytes: Seq<u8>, start: int, lines: nat, limits: Limits) {
    lemma_first_newline_bounds(bytes, start);
}

/// The head at the start of `bytes`.
pub open spec fn scan(bytes: Seq<u8>, limits: Limits) -> Result<(nat, nat), HttpError> {
    scan_lines(bytes, 0, 0, limits)
}

/// The first line feed is not before `start`, and there is none between.
pub proof fn lemma_first_newline_bounds(bytes: Seq<u8>, start: int)
    ensures
        start <= bytes.len() ==> start <= first_newline(bytes, start) <= bytes.len(),
        start >= bytes.len() ==> first_newline(bytes, start) == bytes.len(),
        0 <= start ==> forall|i: int| start <= i < first_newline(bytes, start) ==> bytes[i] != LF,
        0 <= start && first_newline(bytes, start) < bytes.len() ==> bytes[first_newline(
            bytes,
            start,
        )] == LF,
{
    lemma_find_byte_bounds(bytes, start, LF);
}

/// Finds the end of the head at the start of `stream`. `Ok` holds the length
/// of the head, its blank line included, and the number of lines before the
/// blank one. `Incomplete` says that the blank line has not arrived yet.
pub fn scan_head(stream: &[u8], limits: &Limits) -> (r: Result<(usize, usize), HttpError>)
    ensures
        match scan(stream@, *limits) {
            Ok((head_len, lines)) => r == Ok::<(usize, usize), HttpError>(
                (head_len as usize, lines as usize),
            ) && 1 <= lines < head_len <= stream@.len() && lines <= limits.max_headers + 1,
            Err(e) => r == Err::<(usize, usize), HttpError>(e),
        },
{
    let len: usize = stream.len();
    let mut line_start: usize = 0;
    let mut lines: usize = 0;
    let mut i: usize = 0;
    while i < len
        invariant
            len == stream@.len(),
            line_start <= i <= len,
            lines <= line_start,
            lines <= limits.max_headers + 1,
            first_newline(stream@, line_start as int) == first_newline(stream@, i as int),
            scan(stream@, *limits) == scan_lines(stream@, line_start as int, lines as nat, *limits),
        decreases len - i,
    {
        proof {
            lemma_first_newline_bounds(stream@, i as int);
        }
        if i - line_start >= limits.max_line_len {
            return Err(HttpError::LineTooLong);
        }
        if stream[i] == LF {
            let blank = i == line_start || (i == line_start + 1 && stream[line_start] == CR);
            if blank {
                if lines == 0 {
                    return Err(HttpError::NoRequestLine);
                }
                return Ok((i + 1, lines));
            }
            if lines > limits.max_headers {
                return Err(HttpError::TooManyHeaders);
            }
            lines = lines + 1;
            line_start = i + 1;
        }
        i = i + 1;
    }
    proof {
        lemma_first_newline_bounds(stream@, i as int);
    }
    if len - line_start >= limits.max_line_len {
        Err(HttpError::LineTooLong)
    } else {
        Err(HttpError::Incomplete)
    }
}

/// A line starts at the beginning of the bytes and after every line feed.
pub open spec fn is_line_start(bytes: Seq<u8>, at: int) -> bool {
    at == 0 || (0 < at <= bytes.len() && bytes[at - 1] == LF)
}

/// The first line feed at or after `start` stays where it is when bytes are
/// added, and without one the added bytes are searched next.
pub proof fn lemma_first_newline_extend(bytes: Seq<u8>, more: Seq<u8>, start: int)
    requires
        0 <= start <= bytes.len(),
    ensures
        first_newline(bytes, start) < bytes.len() ==> first_newline(bytes + more, start)
            == first_newline(bytes, start),
        first_newline(bytes, start) >= bytes.len() ==> first_newline(bytes + more, start)
            >= bytes.len(),
    decreases bytes.len() - start,
{
    let all = bytes + more;
    if start < bytes.len() {
        assert(all[start] == bytes[start]);
        if bytes[start] != LF {
            lemma_first_newline_extend(bytes, more, start + 1);
        }
    } else {
        lemma_first_newline_bounds(all, start);
    }
}

/// Whatever is decided of a head other than that it is incomplete stays
/// decided when more bytes arrive.
pub proof fn lemma_scan_lines_extend(
    bytes: Seq<u8>,
    more: Seq<u8>,
    start: int,
    lines: nat,
    limits: Limits,
)
    requires
        0 <= start <= bytes.len(),
        scan_lines(bytes, start, lines, limits) != Err::<(nat, nat), HttpError>(
            HttpError::Incomplete,
        ),
    ensures
        scan_lines(bytes + more, start, lines, limits) == scan_lines(bytes, start, lines, limits),
    decreases bytes.len() - start,
{
    let all = bytes + more;
    let newline = first_newline(bytes, start);
    lemma_first_newline_bounds(bytes, start);
    lemma_first_newline_extend(bytes, more, start);
    if newline - start >= limits.max_line_len {
    } else {
        assert(newline < bytes.len());
        assert(first_newline(all, start) == newline);
        if start < bytes.len() {
            assert(all[start] == bytes[start]);
        }
        if is_blank_line(bytes, start, newline) {
        } else if lines > limits.max_headers {
        } else {
            lemma_scan_lines_extend(bytes, more, newline + 1, lines + 1, limits);
        }
    }
}

/// A head is accepted or refused on the bytes up to the point of decision
/// alone: nothing that follows them, the body least of all, is looked at.
pub proof fn lemma_scan_ignores_what_follows(bytes: Seq<u8>, more: Seq<u8>, limits: Limits)
    requires
        scan(bytes, limits) != Err::<(nat, nat), HttpError>(HttpError::Incomplete),
    ensures
        scan(bytes + more, limits) == scan(bytes, limits),
{
    lemma_scan_lines_extend(bytes, more, 0, 0, limits);
}

/// The number of line feeds from `from` up to, and without, `to`.
pub open spec fn count_newlines(bytes: Seq<u8>, from: int, to: int) -> nat
    decreases to - from,
{
    if from >= to {
        0
    } else {
        count_newlines(bytes, from, to - 1) + (if bytes[to - 1] == LF { 1nat } else { 0nat })
    }
}

/// The line feeds of two stretches that meet add up.
pub proof fn lemma_count_newlines_split(bytes: Seq<u8>, from: int, mid: int, to: int)
    requires
        from <= mid <= to,
    ensures
        count_newlines(bytes, from, to) == count_newlines(bytes, from, mid) + count_newlines(
            bytes,
            mid,
            to,
        ),
    decreases to - mid,
{
    if mid < to {
        lemma_count_newlines_split(bytes, from, mid, to - 1);
    }
}

/// A stretch without a line feed counts none.
pub proof fn lemma_count_newlines_none(bytes: Seq<u8>, from: int, to: int)
    requires
        forall|i: int| from <= i < to ==> bytes[i] != LF,
    ensures
        count_newlines(bytes, from, to) == 0,
    decreases to - from,
{
    if from < to {
        lemma_count_newlines_none(bytes, from, to - 1);
    }
}

/// Every line that starts in the given stretch is within the length limit.
pub open spec fn lines_fit(bytes: Seq<u8>, from: int, to: int, limits: Limits) -> bool {
    forall|at: int|
        from <= at < to && is_line_start(bytes, at) ==> #[trigger] first_newline(bytes, at) - at
            < limits.max_line_len
}

/// No line that starts in the given stretch is blank.
pub open spec fn no_blank_line(bytes: Seq<u8>, from: int, to: int) -> bool {
    forall|at: int|
        from <= at < to && is_line_start(bytes, at) ==> !is_blank_line(
            bytes,
            at,
            #[trigger] first_newline(bytes, at),
        )
}

/// The bytes from `start` on, which is where a line starts, hold lines that
/// are not blank up to `blank`, and then a blank line that ends right before
/// `head_len`.
pub open spec fn is_head_shape(bytes: Seq<u8>, start: int, blank: int, head_len: int) -> bool {
    &&& 0 <= start <= blank < head_len <= bytes.len()
    &&& is_line_start(bytes, start)
    &&& is_line_start(bytes, blank)
    &&& bytes[head_len - 1] == LF
    &&& is_blank_line(bytes, blank, head_len - 1)
    &&& no_blank_line(bytes, start, blank)
}

/// The bytes from `start` on have the shape of a head, and all of its lines
/// fit.
pub open spec fn is_head_from(
    bytes: Seq<u8>,
    start: int,
    blank: int,
    head_len: int,
    limits: Limits,
) -> bool {
    &&& is_head_shape(bytes, start, blank, head_len)
    &&& lines_fit(bytes, start, head_len, limits)
}

/// The first `head_len` bytes are a head of `lines` lines within the limits:
/// a request line and header lines, none of them blank, none of them over
/// the length limit, the header lines no more than allowed, and then a blank
/// line.
pub open spec fn is_head(bytes: Seq<u8>, head_len: int, lines: nat, limits: Limits) -> bool {
    exists|blank: int|
        {
            &&& #[trigger] is_head_from(bytes, 0, blank, head_len, limits)
            &&& lines == count_newlines(bytes, 0, blank)
            &&& 1 <= lines <= limits.max_headers + 1
        }
}

/// Reading from a line start on, with `lines` lines read before it, accepts
/// what is a head from there on, and counts its lines.
pub proof fn lemma_scan_lines_complete(
    bytes: Seq<u8>,
    start: int,
    lines: nat,
    blank: int,
    head_len: int,
    limits: Limits,
)
    requires
        is_head_from(bytes, start, blank, head_len, limits),
        1 <= lines + count_newlines(bytes, start, blank) <= limits.max_headers + 1,
    ensures
        scan_lines(bytes, start, lines, limits) == Ok::<(nat, nat), HttpError>(
            (head_len as nat, lines + count_newlines(bytes, start, blank)),
        ),
    decreases blank - start,
{
    let newline = first_newline(bytes, start);
    lemma_first_newline_bounds(bytes, start);
    assert(newline - start < limits.max_line_len);
    if start == blank {
        assert(newline == head_len - 1);
    } else {
        assert(bytes[blank - 1] == LF);
        assert(newline < blank);
        assert(!is_blank_line(bytes, start, newline));
        lemma_count_newlines_none(bytes, start, newline);
        lemma_count_newlines_split(bytes, start, newline, newline + 1);
        lemma_count_newlines_split(bytes, start, newline + 1, blank);
        assert(count_newlines(bytes, start, blank) == 1 + count_newlines(
            bytes,
            newline + 1,
            blank,
        ));
        assert(is_line_start(bytes, newline + 1));
        lemma_scan_lines_complete(bytes, newline + 1, lines + 1, blank, head_len, limits);
    }
}

/// Where reading from a line start succeeds, what was read is a head from
/// there on, and its lines were counted. The result is where the blank line
/// starts.
pub proof fn lemma_scan_lines_sound(
    bytes: Seq<u8>,
    start: int,
    lines: nat,
    limits: Limits,
) -> (blank: int)
    requires
        0 <= start <= bytes.len(),
        is_line_start(bytes, start),
        scan_lines(bytes, start, lines, limits) is Ok,
    ensures
        ({
            let (head_len, total) = scan_lines(bytes, start, lines, limits)->Ok_0;
            &&& is_head_from(bytes, start, blank, head_len as int, limits)
            &&& total == lines + count_newlines(bytes, start, blank)
            &&& 1 <= total
            &&& lines <= limits.max_headers + 1 ==> total <= limits.max_headers + 1
        }),
    decreases bytes.len() - start,
{
    let newline = first_newline(bytes, start);
    lemma_first_newline_bounds(bytes, start);
    let (head_len, total) = scan_lines(bytes, start, lines, limits)->Ok_0;
    if is_blank_line(bytes, start, newline) {
        assert forall|at: int|
            start <= at < head_len && is_line_start(bytes, at) implies #[trigger] first_newline(
            bytes,
            at,
        ) - at < limits.max_line_len by {
            lemma_first_newline_bounds(bytes, at);
        }
        start
    } else {
        let blank = lemma_scan_lines_sound(bytes, newline + 1, lines + 1, limits);
        lemma_count_newlines_none(bytes, start, newline);
        lemma_count_newlines_split(bytes, start, newline, newline + 1);
        lemma_count_newlines_split(bytes, start, newline + 1, blank);
        assert forall|at: int|
            start <= at < head_len && is_line_start(bytes, at) implies #[trigger] first_newline(
            bytes,
            at,
        ) - at < limits.max_line_len by {
            if start < at <= newline {
                assert(bytes[at - 1] != LF);
            }
        }
        assert forall|at: int| start <= at < blank && is_line_start(bytes, at) implies !is_blank_line(
            bytes,
            at,
            #[trigger] first_newline(bytes, at),
        ) by {
            if start < at <= newline {
                assert(bytes[at - 1] != LF);
            }
        }
        blank
    }
}

/// A head is accepted exactly when it is within the limits: a request whose
/// lines all fit and whose header lines are no more than allowed is read to
/// the end of its head, and a request with a line over the length limit or
/// with too many header lines is never accepted.
pub proof fn lemma_scan_accepts_heads_within_limits(
    bytes: Seq<u8>,
    head_len: int,
    lines: nat,
    limits: Limits,
)
    ensures
        is_head(bytes, head_len, lines, limits) <==> scan(bytes, limits) == Ok::<
            (nat, nat),
            HttpError,
        >((head_len as nat, lines)) && head_len >= 0,
{
    if is_head(bytes, head_len, lines, limits) {
        let blank = choose|blank: int|
            {
                &&& #[trigger] is_head_from(bytes, 0, blank, head_len, limits)
                &&& lines == count_newlines(bytes, 0, blank)
                &&& 1 <= lines <= limits.max_headers + 1
            };
        lemma_scan_lines_complete(bytes, 0, 0, blank, head_len, limits);
    }
    if scan(bytes, limits) == Ok::<(nat, nat), HttpError>((head_len as nat, lines)) && head_len
        >= 0 {
        let blank = lemma_scan_lines_sound(bytes, 0, 0, limits);
        assert(is_head_from(bytes, 0, blank, head_len, limits));
    }
}

/// Reading from a line start on refuses what has the shape of a head from
/// there on but holds a line over the length limit or, with the lines read
/// before, more lines than allowed.
pub proof fn lemma_scan_lines_refuses(
    bytes: Seq<u8>,
    start: int,
    lines: nat,
    blank: int,
    head_len: int,
    limits: Limits,
)
    requires
        is_head_shape(bytes, start, blank, head_len),
        lines <= limits.max_headers + 1,
        !lines_fit(bytes, start, head_len, limits) || lines + count_newlines(bytes, start, blank)
            > limits.max_headers + 1,
    ensures
        scan_lines(bytes, start, lines, limits) == Err::<(nat, nat), HttpError>(
            HttpError::LineTooLong,
        ) || scan_lines(bytes, start, lines, limits) == Err::<(nat, nat), HttpError>(
            HttpError::TooManyHeaders,
        ),
    decreases blank - start,
{
    let newline = first_newline(bytes, start);
    lemma_first_newline_bounds(bytes, start);
    if newline - start >= limits.max_line_len {
    } else if start == blank {
        assert(newline == head_len - 1);
        assert forall|at: int|
            start <= at < head_len && is_line_start(bytes, at) implies #[trigger] first_newline(
            bytes,
            at,
        ) - at < limits.max_line_len by {
            if start < at {
                assert(bytes[at - 1] != LF);
            }
        }
    } else {
        assert(bytes[blank - 1] == LF);
        assert(newline < blank);
        assert(!is_blank_line(bytes, start, newline));
        if lines <= limits.max_headers {
            lemma_count_newlines_none(bytes, start, newline);
            lemma_count_newlines_split(bytes, start, newline, newline + 1);
            lemma_count_newlines_split(bytes, start, newline + 1, blank);
            assert(is_line_start(bytes, newline + 1));
            if !lines_fit(bytes, start, head_len, limits) {
                let at = choose|at: int|
                    start <= at < head_len && is_line_start(bytes, at) && !(#[trigger] first_newline(
                        bytes,
                        at,
                    ) - at < limits.max_line_len);
                if start < at <= newline {
                    assert(bytes[at - 1] != LF);
                }
                assert(newline + 1 <= at);
            }
            lemma_scan_lines_refuses(bytes, newline + 1, lines + 1, blank, head_len, limits);
        }
    }
}

/// A request with a header line over the length limit, or with more header
/// lines than allowed, is refused for that reason, whatever body follows
/// its head.
pub proof fn lemma_scan_refuses_heads_over_the_limits(
    bytes: Seq<u8>,
    blank: int,
    head_len: int,
    body: Seq<u8>,
    limits: Limits,
)
    requires
        is_head_shape(bytes, 0, blank, head_len),
        !lines_fit(bytes, 0, head_len, limits) || count_newlines(bytes, 0, blank)
            > limits.max_headers + 1,
    ensures
        scan(bytes + body, limits) == Err::<(nat, nat), HttpError>(HttpError::LineTooLong) || scan(
            bytes + body,
            limits,
        ) == Err::<(nat, nat), HttpError>(HttpError::TooManyHeaders),
{
    lemma_scan_lines_refuses(bytes, 0, 0, blank, head_len, limits);
    lemma_scan_ignores_what_follows(bytes, body, limits);
}

} // verus!
