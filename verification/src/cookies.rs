//! The cookies of a request, and the cookies to set with the response.
//!
//! A cookie is a name and a value here. Reading one out of a `Cookie` header
//! and writing one into a `Set-Cookie` header, percent-encoding included, is
//! the work of the `cookie` crate.

use vstd::prelude::*;
use vstd::utf8::encode_utf8;
use vstd::utf8::decode_utf8;
use vstd::utf8::valid_utf8;
use vstd::utf8::encode_utf8_decode_utf8;
use crate::bytes::append;
use crate::bytes::find_byte;
use crate::bytes::lemma_find_byte_bounds;
use crate::request::Request;
use crate::response::Response;
use crate::response::header_pairs;

verus! {

/// The byte that parts the cookies of a `Cookie` header.
pub const SEMICOLON: u8 = 59;

/// A cookie: a name and a value, both decoded.
#[derive(Debug, PartialEq, Eq)]
pub struct Cookie {
    pub name: String,
    pub value: String,
}

impl Cookie {
    /// A cookie with the given name and value.
    pub fn new(name: &str, value: &str) -> (c: Cookie)
        ensures
            c.name@ == name@,
            c.value@ == value@,
    {
        Cookie { name: name.to_owned(), value: value.to_owned() }
    }
}

impl Clone for Cookie {
    fn clone(&self) -> (c: Cookie)
        ensures
            c == *self,
    {
        Cookie { name: self.name.clone(), value: self.value.clone() }
    }
}

/// The name and the value that `cookie::Cookie::parse_encoded` reads out of
/// a text, both percent-decoded, or `None` where it finds no cookie.
pub uninterp spec fn cookie_parse_encoded(text: Seq<char>) -> Option<(Seq<char>, Seq<char>)>;

/// What `cookie::Cookie::encoded` prints for a cookie of the given name and
/// value that has nothing else set.
pub uninterp spec fn cookie_encoded(name: Seq<char>, value: Seq<char>) -> Seq<char>;

/// A pair of strings that may be missing, as sequences.
pub open spec fn pair_view(pair: Option<(String, String)>) -> Option<(Seq<char>, Seq<char>)> {
    match pair {
        Some((name, value)) => Some((name@, value@)),
        None => None,
    }
}

/// Runs `cookie::Cookie::parse_encoded` on `text`, and copies the name and
/// the value out of the cookie that it gives; an error becomes `None`.
#[verifier::external_body]
fn parse_pair(text: &str) -> (r: Option<(String, String)>)
    ensures
        pair_view(r) == cookie_parse_encoded(text@),
{
    match cookie::Cookie::parse_encoded(text) {
        Ok(c) => Some((String::from(c.name()), String::from(c.value()))),
        Err(_) => None,
    }
}

/// Makes a `cookie::Cookie` of the name and the value and prints what its
/// method `encoded` gives.
#[verifier::external_body]
fn encode_pair(name: &str, value: &str) -> (r: String)
    ensures
        r@ == cookie_encoded(name@, value@),
{
    format!("{}", cookie::Cookie::new(name, value).encoded())
}

/// Runs `core::str::from_utf8`: the bytes as a string where they are valid
/// UTF-8, and `None` where they are not.
#[verifier::external_body]
fn utf8_text(bytes: &[u8]) -> (r: Option<&str>)
    ensures
        r is Some <==> valid_utf8(bytes@),
        r matches Some(s) ==> encode_utf8(s@) == bytes@,
{
    core::str::from_utf8(bytes).ok()
}

/// The cookies by name after one more piece of a `Cookie` header: a piece
/// that is valid UTF-8 and reads as a cookie sets the value of its name; any
/// other piece is passed over.
pub open spec fn put_piece(jar: Map<Seq<char>, Seq<char>>, piece: Seq<u8>) -> Map<
    Seq<char>,
    Seq<char>,
> {
    if valid_utf8(piece) {
        match cookie_parse_encoded(decode_utf8(piece)) {
            Some((name, value)) => jar.insert(name, value),
            None => jar,
        }
    } else {
        jar
    }
}

/// The cookies by name after the pieces of `value` from `from` on, which
/// are parted by semicolons.
pub open spec fn jar_from(jar: Map<Seq<char>, Seq<char>>, value: Seq<u8>, from: int) -> Map<
    Seq<char>,
    Seq<char>,
>
    decreases value.len() - from,
    via jar_from_decreases
{
    let end = find_byte(value, from, SEMICOLON);
    if end >= value.len() {
        put_piece(jar, value.subrange(from, value.len() as int))
    } else {
        jar_from(put_piece(jar, value.subrange(from, end)), value, end + 1)
    }
}

#[via_fn]
proof fn jar_from_decreases(jar: Map<Seq<char>, Seq<char>>, value: Seq<u8>, from: int) {
    lemma_find_byte_bounds(value, from, SEMICOLON);
}

/// The cookies of a request by name: those of the first `Cookie` header,
/// a later cookie replacing an earlier one of the same name.
pub open spec fn request_jar(headers: Map<Seq<char>, Seq<Seq<u8>>>) -> Map<Seq<char>, Seq<char>> {
    if headers.contains_key("Cookie"@) {
        jar_from(Map::empty(), headers["Cookie"@][0], 0)
    } else {
        Map::empty()
    }
}

/// The cookies in a list by name, a later one replacing an earlier one.
pub open spec fn jar_of(list: Seq<Cookie>) -> Map<Seq<char>, Seq<char>>
    decreases list.len(),
{
    if list.len() == 0 {
        Map::empty()
    } else {
        jar_of(list.drop_last()).insert(list.last().name@, list.last().value@)
    }
}

/// The `Set-Cookie` header lines for the cookies in a list.
pub open spec fn set_cookie_lines(list: Seq<Cookie>) -> Seq<(Seq<u8>, Seq<u8>)> {
    Seq::new(
        list.len(),
        |i: int|
            (
                encode_utf8("Set-Cookie"@),
                encode_utf8(cookie_encoded(list[i].name@, list[i].value@)),
            ),
    )
}

/// The cookies of one exchange.
#[derive(Debug)]
pub struct Cookies {
    cookies: Vec<Cookie>,
    cookies_to_set: Vec<Cookie>,
}

impl Cookies {
    /// The value of each cookie by its name.
    pub closed spec fn jar(&self) -> Map<Seq<char>, Seq<char>> {
        jar_of(self.cookies@)
    }

    /// The cookies to set with the response, in the order in which they were
    /// added.
    pub closed spec fn to_set(&self) -> Seq<Cookie> {
        self.cookies_to_set@
    }

    /// Reads the cookies of a request. Pieces of the `Cookie` header that are
    /// no cookies are passed over.
    pub fn new(req: &Request) -> (r: Cookies)
        ensures
            r.jar() == request_jar(req.headers@),
            r.to_set() == Seq::<Cookie>::empty(),
    {
        let mut cookies: Vec<Cookie> = Vec::new();
        let value: &[u8] = match req.headers.get("Cookie") {
            Some(values) => {
                assert(values.all()[0] == values.first@);
                values.first.as_slice()
            },
            None => { return Cookies { cookies, cookies_to_set: Vec::new() }; },
        };
        let len: usize = value.len();
        let mut start: usize = 0;
        let mut i: usize = 0;
        loop
            invariant
                len == value@.len(),
                start <= i <= len,
                find_byte(value@, start as int, SEMICOLON) == find_byte(
                    value@,
                    i as int,
                    SEMICOLON,
                ),
                request_jar(req.headers@) == jar_from(jar_of(cookies@), value@, start as int),
            decreases len - i,
        {
            proof {
                lemma_find_byte_bounds(value@, i as int, SEMICOLON);
            }
            if i == len || value[i] == SEMICOLON {
                let piece = &value[start..i];
                let ghost before = cookies@;
                match utf8_text(piece) {
                    Some(text) => {
                        proof {
                            encode_utf8_decode_utf8(text@);
                        }
                        match parse_pair(text) {
                            Some((name, value)) => {
                                cookies.push(Cookie { name, value });
                                assert(cookies@.drop_last() == before);
                            },
                            None => {},
                        }
                    },
                    None => {},
                }
                assert(jar_of(cookies@) == put_piece(jar_of(before), piece@));
                if i == len {
                    return Cookies { cookies, cookies_to_set: Vec::new() };
                }
                start = i + 1;
            }
            i = i + 1;
        }
    }

    /// The cookie of the given name: the one that was read or added last.
    pub fn get(&self, s: &str) -> (r: Option<&Cookie>)
        ensures
            match r {
                Some(cookie) => self.jar().contains_key(s@) && cookie.name@ == s@ && cookie.value@
                    == self.jar()[s@],
                None => !self.jar().contains_key(s@),
            },
    {
        let wanted: String = s.to_owned();
        let mut i: usize = self.cookies.len();
        assert(self.cookies@.take(i as int) == self.cookies@);
        while i > 0
            invariant
                i <= self.cookies@.len(),
                wanted@ == s@,
                jar_of(self.cookies@).contains_key(s@) == jar_of(
                    self.cookies@.take(i as int),
                ).contains_key(s@),
                jar_of(self.cookies@).contains_key(s@) ==> jar_of(self.cookies@)[s@] == jar_of(
                    self.cookies@.take(i as int),
                )[s@],
            decreases i,
        {
            i = i - 1;
            assert(self.cookies@.take(i + 1).drop_last() == self.cookies@.take(i as int));
            if self.cookies[i].name == wanted {
                return Some(&self.cookies[i]);
            }
        }
        None
    }

    /// Adds a cookie: it is sent with the response, and `get` finds it.
    pub fn add_cookie(&mut self, cookie: Cookie)
        ensures
            final(self).jar() == old(self).jar().insert(cookie.name@, cookie.value@),
            final(self).to_set() == old(self).to_set().push(cookie),
    {
        let ghost before = self.cookies@;
        self.cookies_to_set.push(cookie.clone());
        self.cookies.push(cookie);
        assert(self.cookies@.drop_last() == before);
    }

    /// Adds one `Set-Cookie` header line to the response for each cookie
    /// that was added, in the order in which they were added.
    pub fn write_cookies(&self, resp: &mut Response)
        ensures
            final(resp)@.headers == old(resp)@.headers + set_cookie_lines(self.to_set()),
            final(resp).code == old(resp).code,
            final(resp).reason == old(resp).reason,
            final(resp).body == old(resp).body,
    {
        let ghost lines = set_cookie_lines(self.cookies_to_set@);
        let mut i: usize = 0;
        assert(resp@.headers =~= old(resp)@.headers + lines.take(0));
        while i < self.cookies_to_set.len()
            invariant
                i <= self.cookies_to_set@.len(),
                lines == set_cookie_lines(self.cookies_to_set@),
                resp@.headers == old(resp)@.headers + lines.take(i as int),
                resp.code == old(resp).code,
                resp.reason == old(resp).reason,
                resp.body == old(resp).body,
            decreases self.cookies_to_set@.len() - i,
        {
            let cookie = &self.cookies_to_set[i];
            let text = encode_pair(cookie.name.as_str(), cookie.value.as_str());
            let mut value: Vec<u8> = Vec::new();
            append(&mut value, text.as_str().as_bytes());
            let ghost had = resp@.headers;
            resp.headers.push(("Set-Cookie".to_owned(), value));
            assert(resp@.headers =~= had.push(lines[i as int]));
            assert(lines.take(i as int).push(lines[i as int]) =~= lines.take(i + 1));
            i += 1;
        }
        assert(lines.take(i as int) =~= lines);
    }
}

} // verus!
