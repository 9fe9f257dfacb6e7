//! Calls into other crates and into parts of std that have no specification of
//! their own. Nothing here is proved: each contract restates what the called
//! function documents.

use crate::http::{
    HeaderField, RequestHead, RequestView, ResponseHead, ResponseView, MAX_HEADERS,
};
use base64::Engine;
use std::time::{Duration, Instant};
use vstd::prelude::*;
use vstd::utf8::{decode_utf8, valid_utf8};

verus! {

/// `String::push`: appends one character and leaves the rest as it was.
pub assume_specification[ String::push ](s: &mut String, c: char)
    ensures
        final(s)@ == old(s)@.push(c),
;

/// `String::push_str`: appends `other` and leaves the rest as it was.
pub assume_specification[ String::push_str ](s: &mut String, other: &str)
    ensures
        final(s)@ == old(s)@ + other@,
;

/// `std::str::from_utf8`: the decoded text if the bytes are valid UTF-8, and
/// nothing otherwise.
#[verifier::external_body]
pub(crate) fn utf8_text(bytes: &[u8]) -> (r: Option<&str>)
    ensures
        r is Some == valid_utf8(bytes@),
        r matches Some(s) ==> s@ == decode_utf8(bytes@),
{
    std::str::from_utf8(bytes).ok()
}

/// The Base64 text of `bytes`: standard alphabet, with padding.
pub uninterp spec fn base64_standard(bytes: Seq<u8>) -> Seq<char>;

/// Whether `c` is a letter or digit, `+`, `/` or `=`.
pub open spec fn is_base64_char(c: char) -> bool {
    ||| 'A' <= c && c <= 'Z'
    ||| 'a' <= c && c <= 'z'
    ||| '0' <= c && c <= '9'
    ||| c == '+'
    ||| c == '/'
    ||| c == '='
}

/// `base64::engine::general_purpose::STANDARD.encode`: the result is a function
/// of the bytes, and holds four characters of the standard alphabet (or padding)
/// for every three bytes, the last group counted in full.
#[verifier::external_body]
pub(crate) fn base64_encode(bytes: &[u8]) -> (r: String)
    ensures
        r@ == base64_standard(bytes@),
        r@.len() == (bytes@.len() + 2) / 3 * 4,
        forall|i: int| 0 <= i < r@.len() ==> is_base64_char(#[trigger] r@[i]),
{
    base64::engine::general_purpose::STANDARD.encode(bytes)
}

/// `std::time::Instant`, a point in time by the machine's clock.
#[verifier::external_type_specification]
#[verifier::external_body]
pub struct ExInstant(std::time::Instant);

/// `Instant::now`: the current time, of which nothing is known.
#[verifier::external_body]
pub(crate) fn clock_now() -> Instant {
    Instant::now()
}

/// `Instant::elapsed`: the time from an instant until now. It depends on the
/// machine's clock, so nothing is claimed of the result.
pub assume_specification[ Instant::elapsed ](start: &Instant) -> (r: Duration);

/// `Duration::as_secs`: the whole seconds of a duration. What a duration holds
/// is not modelled, so nothing is claimed of the result.
pub assume_specification[ Duration::as_secs ](d: &Duration) -> (r: u64);

/// `httparse::Error`, the reason why a message head is malformed.
#[verifier::external_type_specification]
#[verifier::external_body]
pub struct ExHttparseError(httparse::Error);

/// What `httparse` reads from the start of `buf` as a request with at most
/// `max_headers` header fields; `None` for a malformed head.
pub uninterp spec fn request_at(buf: Seq<u8>, max_headers: usize) -> Option<RequestView>;

/// `httparse::Request::parse`: the result is a function of the bytes and of the
/// room for header fields. A complete head ends within the bytes and has a
/// method, a target and a version.
#[verifier::external_body]
pub(crate) fn parse_request(buf: &[u8], max_headers: usize) -> (r: Result<
    RequestHead,
    httparse::Error,
>)
    requires
        max_headers <= MAX_HEADERS,
    ensures
        match r {
            Ok(head) => {
                &&& request_at(buf@, max_headers) == Some(head@)
                &&& head.body_offset matches Some(n) ==> n <= buf@.len() && head.method is Some
                    && head.path is Some && head.version is Some
            },
            Err(_) => request_at(buf@, max_headers) is None,
        },
{
    let mut fields = vec![httparse::EMPTY_HEADER; max_headers];
    let mut req = httparse::Request::new(&mut fields);
    let body_offset = match req.parse(buf)? {
        httparse::Status::Complete(n) => Some(n),
        httparse::Status::Partial => None,
    };
    let to_field = |h: &httparse::Header| HeaderField {
        name: h.name.to_string(),
        value: h.value.to_vec(),
    };
    let headers = req.headers.iter().map(to_field).collect();
    let (method, path) = (req.method.map(String::from), req.path.map(String::from));
    Ok(RequestHead { body_offset, method, path, version: req.version, headers })
}

/// What `httparse` reads from the start of `buf` as a response with at most
/// `max_headers` header fields; `None` for a malformed head.
pub uninterp spec fn response_at(buf: Seq<u8>, max_headers: usize) -> Option<ResponseView>;

/// `httparse::Response::parse`: the result is a function of the bytes and of the
/// room for header fields. A complete head ends within the bytes and has a
/// version and a status code, and a status code has at most three digits.
#[verifier::external_body]
pub(crate) fn parse_response(buf: &[u8], max_headers: usize) -> (r: Result<
    ResponseHead,
    httparse::Error,
>)
    requires
        max_headers <= MAX_HEADERS,
    ensures
        match r {
            Ok(head) => {
                &&& response_at(buf@, max_headers) == Some(head@)
                &&& head.body_offset matches Some(n) ==> n <= buf@.len() && head.version is Some
                    && head.code is Some
                &&& head.code matches Some(c) ==> c <= 999
            },
            Err(_) => response_at(buf@, max_headers) is None,
        },
{
    let mut fields = vec![httparse::EMPTY_HEADER; max_headers];
    let mut resp = httparse::Response::new(&mut fields);
    let body_offset = match resp.parse(buf)? {
        httparse::Status::Complete(n) => Some(n),
        httparse::Status::Partial => None,
    };
    let to_field = |h: &httparse::Header| HeaderField {
        name: h.name.to_string(),
        value: h.value.to_vec(),
    };
    let headers = resp.headers.iter().map(to_field).collect();
    Ok(ResponseHead { body_offset, code: resp.code, version: resp.version, headers })
}

} // verus!
