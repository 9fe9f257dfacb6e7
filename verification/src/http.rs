//! HTTP/1.x message heads: what a request asks for and how a response is framed.

use crate::boundary::{parse_request, parse_response, request_at, response_at, utf8_text};
use crate::config::{host_and_port, split_host_port};
use crate::stream::{chunked_end, chunked_is_complete};
use crate::text::{
    chars_occur, chars_of, decimal, law_decimal_reads_back, lower, occurs, occurs_at,
    parse_unsigned, same_ignoring_case, to_lower, unsigned_value,
};
use vstd::prelude::*;
use vstd::slice::{slice_subrange, slice_to_vec};
use vstd::utf8::{decode_utf8, valid_utf8};

verus! {

/// Room for header fields in a request or a response.
pub const MAX_HEADERS: usize = 96;

/// Room for header fields in the reply to a CONNECT.
pub const MAX_CONNECT_REPLY_HEADERS: usize = 16;

/// The port of a CONNECT target that names none.
pub const DEFAULT_CONNECT_PORT: u16 = 443;

/// One header field; the value may be any bytes.
#[derive(Debug)]
pub struct HeaderField {
    pub name: String,
    pub value: Vec<u8>,
}

pub struct HeaderView {
    pub name: Seq<char>,
    pub value: Seq<u8>,
}

impl View for HeaderField {
    type V = HeaderView;

    open spec fn view(&self) -> HeaderView {
        HeaderView { name: self.name@, value: self.value@ }
    }
}

pub open spec fn header_views(headers: Seq<HeaderField>) -> Seq<HeaderView> {
    headers.map_values(|h: HeaderField| h@)
}

pub open spec fn text_view(t: Option<String>) -> Option<Seq<char>> {
    match t {
        Some(s) => Some(s@),
        None => None,
    }
}

/// A request head as far as it could be read. `body_offset` is where the body
/// starts, or `None` while the head is incomplete.
#[derive(Debug)]
pub struct RequestHead {
    pub body_offset: Option<usize>,
    pub method: Option<String>,
    pub path: Option<String>,
    pub version: Option<u8>,
    pub headers: Vec<HeaderField>,
}

pub struct RequestView {
    pub body_offset: Option<usize>,
    pub method: Option<Seq<char>>,
    pub path: Option<Seq<char>>,
    pub version: Option<u8>,
    pub headers: Seq<HeaderView>,
}

impl View for RequestHead {
    type V = RequestView;

    open spec fn view(&self) -> RequestView {
        RequestView {
            body_offset: self.body_offset,
            method: text_view(self.method),
            path: text_view(self.path),
            version: self.version,
            headers: header_views(self.headers@),
        }
    }
}

/// A response head as far as it could be read. `body_offset` is where the body
/// starts, or `None` while the head is incomplete.
#[derive(Debug)]
pub struct ResponseHead {
    pub body_offset: Option<usize>,
    pub code: Option<u16>,
    pub version: Option<u8>,
    pub headers: Vec<HeaderField>,
}

pub struct ResponseView {
    pub body_offset: Option<usize>,
    pub code: Option<u16>,
    pub version: Option<u8>,
    pub headers: Seq<HeaderView>,
}

impl View for ResponseHead {
    type V = ResponseView;

    open spec fn view(&self) -> ResponseView {
        ResponseView {
            body_offset: self.body_offset,
            code: self.code,
            version: self.version,
            headers: header_views(self.headers@),
        }
    }
}

/// Why a message cannot be handled.
#[derive(Debug, Clone, Copy, PartialEq, Eq, Structural)]
pub enum HttpError {
    /// The head is not well-formed.
    Malformed,
    /// The head does not end within the bytes at hand.
    Incomplete,
    MissingMethod,
    MissingPath,
    /// The target of a CONNECT has no host.
    InvalidConnectTarget,
    /// The reply to a CONNECT holds no status code.
    MissingStatus,
}

/// The value of the first header field of this name whose value is valid UTF-8.
/// Case does not matter in names.
pub open spec fn header_value(headers: Seq<HeaderView>, name: Seq<char>) -> Option<Seq<char>>
    decreases headers.len(),
{
    if headers.len() == 0 {
        None
    } else if lower(headers[0].name) == lower(name) && valid_utf8(headers[0].value) {
        Some(decode_utf8(headers[0].value))
    } else {
        header_value(headers.drop_first(), name)
    }
}

pub fn get_header<'a>(headers: &'a [HeaderField], name: &str) -> (r: Option<&'a str>)
    ensures
        match r {
            Some(v) => header_value(header_views(headers@), name@) == Some(v@),
            None => header_value(header_views(headers@), name@) is None,
        },
{
    let ghost all = header_views(headers@);
    let mut i: usize = 0;
    assert(all.skip(0) == all);
    while i < headers.len()
        invariant
            i <= headers@.len(),
            all == header_views(headers@),
            header_value(all.skip(i as int), name@) == header_value(all, name@),
        decreases headers@.len() - i,
    {
        let h = &headers[i];
        assert(all.skip(i as int)[0] == h@);
        assert(all.skip(i as int).drop_first() == all.skip(i + 1));
        if same_ignoring_case(h.name.as_str(), name) {
            let value = utf8_text(h.value.as_slice());
            if value.is_some() {
                return value;
            }
        }
        i += 1;
    }
    None
}

/// The body length that the header fields announce.
pub open spec fn announced_length(headers: Seq<HeaderView>) -> Option<u64> {
    match header_value(headers, "content-length"@) {
        Some(v) => match unsigned_value(v, u64::MAX as nat) {
            Some(n) => Some(n as u64),
            None => None,
        },
        None => None,
    }
}

pub fn content_length(headers: &[HeaderField]) -> (r: Option<u64>)
    ensures
        r == announced_length(header_views(headers@)),
{
    match get_header(headers, "content-length") {
        Some(v) => {
            let cs = chars_of(v);
            assert(cs@.skip(0) == v@);
            parse_unsigned(cs.as_slice(), 0, u64::MAX)
        },
        None => None,
    }
}

/// Whether `word` stands in `text`, ASCII case aside; `word` is in lower case.
pub open spec fn mentions(text: Seq<char>, word: Seq<char>) -> bool {
    occurs(lower(text), word)
}

fn text_mentions(text: &str, word: &str) -> (r: bool)
    ensures
        r == mentions(text@, word@),
{
    let cs = to_lower(chars_of(text).as_slice());
    let ws = chars_of(word);
    chars_occur(cs.as_slice(), ws.as_slice())
}

/// Whether the header fields announce a chunked body.
pub open spec fn announced_chunked(headers: Seq<HeaderView>) -> bool {
    match header_value(headers, "transfer-encoding"@) {
        Some(v) => mentions(v, "chunked"@),
        None => false,
    }
}

pub fn is_chunked(headers: &[HeaderField]) -> (r: bool)
    ensures
        r == announced_chunked(header_views(headers@)),
{
    match get_header(headers, "transfer-encoding") {
        Some(v) => text_mentions(v, "chunked"),
        None => false,
    }
}

/// Whether the sender of a head wants the connection to persist: as the
/// `Connection` field says, and else as the version does by default.
pub open spec fn persistent(headers: Seq<HeaderView>, version: u8) -> bool {
    match header_value(headers, "connection"@) {
        Some(v) => if mentions(v, "close"@) {
            false
        } else if mentions(v, "keep-alive"@) {
            true
        } else {
            version == 1
        },
        None => version == 1,
    }
}

pub fn wants_keep_alive(headers: &[HeaderField], version: u8) -> (r: bool)
    ensures
        r == persistent(header_views(headers@), version),
{
    match get_header(headers, "connection") {
        Some(v) => {
            if text_mentions(v, "close") {
                false
            } else if text_mentions(v, "keep-alive") {
                true
            } else {
                version == 1
            }
        },
        None => version == 1,
    }
}

/// Host and port of a CONNECT target.
pub fn parse_connect_target(authority: &str) -> (r: Result<(String, u16), HttpError>)
    ensures
        match r {
            Ok((host, port)) => host_and_port(authority@, DEFAULT_CONNECT_PORT) == Some(
                (host@, port),
            ),
            Err(e) => host_and_port(authority@, DEFAULT_CONNECT_PORT) is None && e
                == HttpError::InvalidConnectTarget,
        },
{
    match split_host_port(authority, DEFAULT_CONNECT_PORT) {
        Some(pair) => Ok(pair),
        None => Err(HttpError::InvalidConnectTarget),
    }
}

/// What a request asks for.
#[derive(Debug)]
pub enum RequestPlan {
    /// A tunnel to this host and port; its first bytes start at `body_offset`.
    Connect { host: String, port: u16, body_offset: usize },
    /// A request to forward.
    Forward(ForwardPlan),
}

/// How to forward a request.
#[derive(Debug)]
pub struct ForwardPlan {
    pub method: String,
    pub path: String,
    /// The value of the `Host` field.
    pub host: Option<String>,
    /// Where the body starts.
    pub body_offset: usize,
    pub content_length: Option<u64>,
    pub chunked: bool,
    /// Whether the client wants a persistent connection.
    pub keep_alive: bool,
}

pub enum RequestPlanView {
    Connect { host: Seq<char>, port: u16, body_offset: usize },
    Forward(ForwardView),
}

pub struct ForwardView {
    pub method: Seq<char>,
    pub path: Seq<char>,
    pub host: Option<Seq<char>>,
    pub body_offset: usize,
    pub content_length: Option<u64>,
    pub chunked: bool,
    pub keep_alive: bool,
}

impl View for ForwardPlan {
    type V = ForwardView;

    open spec fn view(&self) -> ForwardView {
        ForwardView {
            method: self.method@,
            path: self.path@,
            host: text_view(self.host),
            body_offset: self.body_offset,
            content_length: self.content_length,
            chunked: self.chunked,
            keep_alive: self.keep_alive,
        }
    }
}

impl View for RequestPlan {
    type V = RequestPlanView;

    open spec fn view(&self) -> RequestPlanView {
        match self {
            RequestPlan::Connect { host, port, body_offset } => RequestPlanView::Connect {
                host: host@,
                port: *port,
                body_offset: *body_offset,
            },
            RequestPlan::Forward(f) => RequestPlanView::Forward(f@),
        }
    }
}

pub open spec fn version_or_default(version: Option<u8>) -> u8 {
    match version {
        Some(v) => v,
        None => 1,
    }
}

/// What a request with this head asks for.
pub open spec fn request_plan(head: RequestView) -> Result<RequestPlanView, HttpError> {
    match (head.body_offset, head.method, head.path) {
        (None, _, _) => Err(HttpError::Incomplete),
        (_, None, _) => Err(HttpError::MissingMethod),
        (_, _, None) => Err(HttpError::MissingPath),
        (Some(body_offset), Some(method), Some(path)) => if lower(method) == lower("CONNECT"@) {
            match host_and_port(path, DEFAULT_CONNECT_PORT) {
                Some((host, port)) => Ok(RequestPlanView::Connect { host, port, body_offset }),
                None => Err(HttpError::InvalidConnectTarget),
            }
        } else {
            Ok(
                RequestPlanView::Forward(
                    ForwardView {
                        method,
                        path,
                        host: header_value(head.headers, "host"@),
                        body_offset,
                        content_length: announced_length(head.headers),
                        chunked: announced_chunked(head.headers),
                        keep_alive: persistent(head.headers, version_or_default(head.version)),
                    },
                ),
            )
        },
    }
}

/// Decides what the request with this head asks for.
pub fn interpret_request(head: RequestHead) -> (r: Result<RequestPlan, HttpError>)
    ensures
        match r {
            Ok(plan) => request_plan(head@) == Ok::<RequestPlanView, HttpError>(plan@),
            Err(e) => request_plan(head@) == Err::<RequestPlanView, HttpError>(e),
        },
{
    let body_offset: usize = match head.body_offset {
        Some(n) => n,
        None => return Err(HttpError::Incomplete),
    };
    let method = match head.method {
        Some(m) => m,
        None => return Err(HttpError::MissingMethod),
    };
    let path = match head.path {
        Some(p) => p,
        None => return Err(HttpError::MissingPath),
    };
    let version: u8 = match head.version {
        Some(v) => v,
        None => 1,
    };
    let content_length = content_length(head.headers.as_slice());
    let chunked = is_chunked(head.headers.as_slice());
    let keep_alive = wants_keep_alive(head.headers.as_slice(), version);
    if same_ignoring_case(method.as_str(), "CONNECT") {
        let (host, port) = match parse_connect_target(path.as_str()) {
            Ok(pair) => pair,
            Err(e) => return Err(e),
        };
        return Ok(RequestPlan::Connect { host, port, body_offset });
    }
    let host = match get_header(head.headers.as_slice(), "host") {
        Some(h) => Some(h.to_string()),
        None => None,
    };
    Ok(
        RequestPlan::Forward(
            ForwardPlan { method, path, host, body_offset, content_length, chunked, keep_alive },
        ),
    )
}

/// What the request that starts `buf` asks for.
pub open spec fn request_plan_at(buf: Seq<u8>) -> Result<RequestPlanView, HttpError> {
    match request_at(buf, MAX_HEADERS) {
        Some(head) => request_plan(head),
        None => Err(HttpError::Malformed),
    }
}

/// Reads the request head at the start of `buf` and decides what it asks for.
pub fn plan_request(buf: &[u8]) -> (r: Result<RequestPlan, HttpError>)
    ensures
        match r {
            Ok(plan) => request_plan_at(buf@) == Ok::<RequestPlanView, HttpError>(plan@),
            Err(e) => request_plan_at(buf@) == Err::<RequestPlanView, HttpError>(e),
        },
        r matches Ok(RequestPlan::Forward(f)) ==> f.body_offset <= buf@.len(),
        r matches Ok(RequestPlan::Connect { body_offset, .. }) ==> body_offset <= buf@.len(),
        r matches Err(e) ==> e == HttpError::Malformed || e == HttpError::Incomplete || e
            == HttpError::InvalidConnectTarget,
{
    match parse_request(buf, MAX_HEADERS) {
        Ok(head) => interpret_request(head),
        Err(_) => Err(HttpError::Malformed),
    }
}

/// How the rest of a body is transferred.
#[derive(Debug, Clone, Copy, PartialEq, Eq, Structural)]
pub enum BodyPlan {
    /// There is nothing left to transfer.
    Nothing,
    /// Exactly this many bytes.
    Exact(u64),
    /// A chunked stream up to its last chunk.
    Chunked,
    /// Everything until the sender closes the connection.
    UntilClose,
}

/// The bytes of a body of length `len` that are left when `already` were sent.
pub open spec fn remaining_body(len: u64, already: nat) -> BodyPlan {
    if len as nat > already {
        BodyPlan::Exact((len - already) as u64)
    } else {
        BodyPlan::Nothing
    }
}

fn body_rest(len: u64, already: u64) -> (r: BodyPlan)
    ensures
        r == remaining_body(len, already as nat),
{
    if len > already {
        BodyPlan::Exact(len - already)
    } else {
        BodyPlan::Nothing
    }
}

/// What is left of a chunked body that starts with the bytes `sent`.
pub open spec fn remaining_chunks(sent: Seq<u8>) -> BodyPlan {
    if chunked_end(sent) is Some {
        BodyPlan::Nothing
    } else {
        BodyPlan::Chunked
    }
}

fn chunks_rest(sent: &[u8]) -> (r: BodyPlan)
    ensures
        r == remaining_chunks(sent@),
{
    if chunked_is_complete(sent) {
        BodyPlan::Nothing
    } else {
        BodyPlan::Chunked
    }
}

/// What is left of a request body of which the bytes `sent` came with the head:
/// without an announced length or chunking a request has no body.
pub open spec fn request_body(
    content_length: Option<u64>,
    chunked: bool,
    sent: Seq<u8>,
) -> BodyPlan {
    match content_length {
        Some(len) => remaining_body(len, sent.len()),
        None => if chunked {
            remaining_chunks(sent)
        } else {
            BodyPlan::Nothing
        },
    }
}

/// Decides how the rest of a request body is forwarded when the bytes `sent` of it
/// came with the head.
pub fn plan_request_body(content_length: Option<u64>, chunked: bool, sent: &[u8]) -> (r: BodyPlan)
    ensures
        r == request_body(content_length, chunked, sent@),
{
    match content_length {
        Some(len) => body_rest(len, sent.len() as u64),
        None => {
            if chunked {
                chunks_rest(sent)
            } else {
                BodyPlan::Nothing
            }
        },
    }
}

/// How to forward a response.
#[derive(Debug, Clone, Copy, PartialEq, Eq, Structural)]
pub struct ResponsePlan {
    /// Where the body starts.
    pub body_offset: usize,
    pub status: u16,
    pub body: BodyPlan,
    /// Whether the client connection may persist afterwards.
    pub keep_alive: bool,
}

/// Whether a response to this method with this status has a body.
pub open spec fn response_has_body(method: Seq<char>, status: u16) -> bool {
    lower(method) != lower("HEAD"@) && status != 204 && status != 304 && !(100 <= status < 200)
}

/// The bytes of `buf` behind a head that ends at `body_offset`.
pub open spec fn behind(buf: Seq<u8>, body_offset: usize) -> Seq<u8> {
    if body_offset <= buf.len() {
        buf.skip(body_offset as int)
    } else {
        Seq::empty()
    }
}

fn bytes_behind(buf: &[u8], body_offset: usize) -> (r: &[u8])
    ensures
        r@ == behind(buf@, body_offset),
{
    if body_offset <= buf.len() {
        slice_subrange(buf, body_offset, buf.len())
    } else {
        slice_subrange(buf, 0, 0)
    }
}

/// How the response with this head, which starts `buf`, is forwarded.
pub open spec fn response_plan(head: ResponseView, buf: Seq<u8>, method: Seq<char>) -> Result<
    ResponsePlan,
    HttpError,
> {
    match head.body_offset {
        None => Err(HttpError::Incomplete),
        Some(body_offset) => {
            let status: u16 = match head.code {
                Some(c) => c,
                None => 0,
            };
            let sent = behind(buf, body_offset);
            let body = if !response_has_body(method, status) {
                BodyPlan::Nothing
            } else {
                match announced_length(head.headers) {
                    Some(n) => remaining_body(n, sent.len()),
                    None => if announced_chunked(head.headers) {
                        remaining_chunks(sent)
                    } else {
                        BodyPlan::UntilClose
                    },
                }
            };
            Ok(
                ResponsePlan {
                    body_offset,
                    status,
                    body,
                    keep_alive: body != BodyPlan::UntilClose && persistent(
                        head.headers,
                        version_or_default(head.version),
                    ),
                },
            )
        },
    }
}

/// Decides how the response with this head, which starts `buf`, is forwarded.
pub fn interpret_response(head: ResponseHead, buf: &[u8], req_method: &str) -> (r: Result<
    ResponsePlan,
    HttpError,
>)
    ensures
        r == response_plan(head@, buf@, req_method@),
{
    let body_offset: usize = match head.body_offset {
        Some(n) => n,
        None => return Err(HttpError::Incomplete),
    };
    let status: u16 = match head.code {
        Some(c) => c,
        None => 0,
    };
    let version: u8 = match head.version {
        Some(v) => v,
        None => 1,
    };
    let content_length = content_length(head.headers.as_slice());
    let chunked = is_chunked(head.headers.as_slice());
    let upstream_keep_alive = wants_keep_alive(head.headers.as_slice(), version);
    let sent = bytes_behind(buf, body_offset);
    let has_body = !same_ignoring_case(req_method, "HEAD") && status != 204 && status != 304 && !(
    100 <= status && status < 200);
    let body = if !has_body {
        BodyPlan::Nothing
    } else {
        match content_length {
            Some(n) => body_rest(n, sent.len() as u64),
            None => {
                if chunked {
                    chunks_rest(sent)
                } else {
                    BodyPlan::UntilClose
                }
            },
        }
    };
    let keep_alive = match body {
        BodyPlan::UntilClose => false,
        _ => upstream_keep_alive,
    };
    Ok(ResponsePlan { body_offset, status, body, keep_alive })
}

/// How the response that starts `buf` is forwarded.
pub open spec fn response_plan_at(buf: Seq<u8>, method: Seq<char>) -> Result<
    ResponsePlan,
    HttpError,
> {
    match response_at(buf, MAX_HEADERS) {
        Some(head) => response_plan(head, buf, method),
        None => Err(HttpError::Malformed),
    }
}

/// Reads the response head at the start of `buf` and decides how the response
/// to a request with this method is forwarded.
pub fn plan_response(buf: &[u8], req_method: &str) -> (r: Result<ResponsePlan, HttpError>)
    ensures
        r == response_plan_at(buf@, req_method@),
        r matches Ok(plan) ==> plan.body_offset <= buf@.len(),
{
    match parse_response(buf, MAX_HEADERS) {
        Ok(head) => interpret_response(head, buf, req_method),
        Err(_) => Err(HttpError::Malformed),
    }
}

/// The status code of a response; the head need not be complete.
pub open spec fn reply_status(head: ResponseView) -> Result<u16, HttpError> {
    match head.code {
        Some(c) => Ok(c),
        None => Err(HttpError::MissingStatus),
    }
}

pub fn interpret_status(head: &ResponseHead) -> (r: Result<u16, HttpError>)
    ensures
        r == reply_status(head@),
{
    match head.code {
        Some(c) => Ok(c),
        None => Err(HttpError::MissingStatus),
    }
}

/// The reply of an upstream to a CONNECT.
#[derive(Debug)]
pub struct ConnectReply {
    pub status: u16,
    /// The bytes behind the head: where a tunnel is up they are its first ones.
    pub early: Vec<u8>,
}

pub struct ConnectReplyView {
    pub status: u16,
    pub early: Seq<u8>,
}

impl View for ConnectReply {
    type V = ConnectReplyView;

    open spec fn view(&self) -> ConnectReplyView {
        ConnectReplyView { status: self.status, early: self.early@ }
    }
}

/// The reply with this head, which starts `buf`.
pub open spec fn connect_reply(head: ResponseView, buf: Seq<u8>) -> Result<
    ConnectReplyView,
    HttpError,
> {
    match reply_status(head) {
        Ok(status) => Ok(
            ConnectReplyView {
                status,
                early: match head.body_offset {
                    Some(n) => behind(buf, n),
                    None => Seq::empty(),
                },
            },
        ),
        Err(e) => Err(e),
    }
}

/// Takes apart the reply with this head, which starts `buf`.
pub fn interpret_connect_reply(head: &ResponseHead, buf: &[u8]) -> (r: Result<
    ConnectReply,
    HttpError,
>)
    ensures
        match r {
            Ok(reply) => connect_reply(head@, buf@) == Ok::<ConnectReplyView, HttpError>(reply@),
            Err(e) => connect_reply(head@, buf@) == Err::<ConnectReplyView, HttpError>(e),
        },
{
    match interpret_status(head) {
        Ok(status) => {
            let early = match head.body_offset {
                Some(n) => slice_to_vec(bytes_behind(buf, n)),
                None => Vec::new(),
            };
            Ok(ConnectReply { status, early })
        },
        Err(e) => Err(e),
    }
}

/// The reply to a CONNECT that starts `buf`.
pub open spec fn connect_reply_at(buf: Seq<u8>) -> Result<ConnectReplyView, HttpError> {
    match response_at(buf, MAX_CONNECT_REPLY_HEADERS) {
        Some(head) => connect_reply(head, buf),
        None => Err(HttpError::Malformed),
    }
}

/// Reads the reply of an upstream to a CONNECT.
pub fn read_connect_reply(buf: &[u8]) -> (r: Result<ConnectReply, HttpError>)
    ensures
        match r {
            Ok(reply) => connect_reply_at(buf@) == Ok::<ConnectReplyView, HttpError>(reply@)
                && reply.status <= 999,
            Err(e) => connect_reply_at(buf@) == Err::<ConnectReplyView, HttpError>(e),
        },
{
    match parse_response(buf, MAX_CONNECT_REPLY_HEADERS) {
        Ok(head) => interpret_connect_reply(&head, buf),
        Err(_) => Err(HttpError::Malformed),
    }
}

/// The first field of a name whose value is text decides; names are the same up to
/// case. Without such a field there is no value.
pub proof fn law_first_field_decides(headers: Seq<HeaderView>, name: Seq<char>, k: int)
    requires
        0 <= k <= headers.len(),
        forall|j: int|
            0 <= j < k ==> !(lower((#[trigger] headers[j]).name) == lower(name) && valid_utf8(
                headers[j].value,
            )),
        k < headers.len() ==> lower(headers[k].name) == lower(name) && valid_utf8(
            headers[k].value,
        ),
    ensures
        k < headers.len() ==> header_value(headers, name) == Some(decode_utf8(headers[k].value)),
        k == headers.len() ==> header_value(headers, name) is None,
    decreases headers.len(),
{
    if headers.len() > 0 && k > 0 {
        let rest = headers.drop_first();
        assert(!(lower(headers[0].name) == lower(name) && valid_utf8(headers[0].value)));
        assert forall|j: int| 0 <= j < k - 1 implies !(lower((#[trigger] rest[j]).name) == lower(
            name,
        ) && valid_utf8(rest[j].value)) by {
            assert(rest[j] == headers[j + 1]);
        }
        law_first_field_decides(rest, name, k - 1);
    }
}

/// Bodies are of the length that `Content-Length` gives in decimal; a value that is
/// no number, and a missing field, give none.
pub proof fn law_announced_length(headers: Seq<HeaderView>, n: nat)
    ensures
        header_value(headers, "content-length"@) is None ==> announced_length(headers) is None,
        header_value(headers, "content-length"@) == Some(decimal(n)) && n <= u64::MAX
            ==> announced_length(headers) == Some(n as u64),
        header_value(headers, "content-length"@) matches Some(v) ==> match announced_length(headers) {
            Some(len) => unsigned_value(v, 0xffff_ffff_ffff_ffff) == Some(len as nat),
            None => unsigned_value(v, 0xffff_ffff_ffff_ffff) is None,
        },
{
    if n <= u64::MAX {
        law_decimal_reads_back(n, u64::MAX as nat);
    }
}

/// A body is chunked just if the word stands in the value of `Transfer-Encoding`, in
/// whatever case.
pub proof fn law_announced_chunked(headers: Seq<HeaderView>)
    ensures
        announced_chunked(headers) <==> (header_value(headers, "transfer-encoding"@) matches Some(v)
            && exists|i: int|
            0 <= i && i + 7 <= v.len() && #[trigger] lower(v).subrange(i, i + 7) == "chunked"@),
{
    reveal_strlit("chunked");
    match header_value(headers, "transfer-encoding"@) {
        Some(v) => {
            if occurs(lower(v), "chunked"@) {
                let i = choose|i: int| occurs_at(lower(v), "chunked"@, i);
                assert(lower(v).subrange(i, i + 7) == "chunked"@);
            }
            if exists|i: int|
                0 <= i && i + 7 <= v.len() && #[trigger] lower(v).subrange(i, i + 7) == "chunked"@ {
                let i = choose|i: int|
                    0 <= i && i + 7 <= v.len() && #[trigger] lower(v).subrange(i, i + 7)
                        == "chunked"@;
                assert(occurs_at(lower(v), "chunked"@, i));
            }
        },
        None => {},
    }
}

/// Whether a connection persists: not where `Connection` says `close`, and where it
/// does not, but says `keep-alive`; where it says neither, or is missing, just with
/// HTTP/1.1.
pub proof fn law_persistence(headers: Seq<HeaderView>, version: u8)
    ensures
        header_value(headers, "connection"@) is None ==> persistent(headers, version) == (version
            == 1),
        header_value(headers, "connection"@) matches Some(v) ==> {
            &&& occurs(lower(v), "close"@) ==> !persistent(headers, version)
            &&& !occurs(lower(v), "close"@) && occurs(lower(v), "keep-alive"@) ==> persistent(
                headers,
                version,
            )
            &&& !occurs(lower(v), "close"@) && !occurs(lower(v), "keep-alive"@) ==> persistent(
                headers,
                version,
            ) == (version == 1)
        },
{
}

proof fn lemma_lower_words()
    ensures
        lower("HEAD"@) == "head"@,
        lower("CONNECT"@) == "connect"@,
{
    reveal_strlit("HEAD");
    reveal_strlit("head");
    reveal_strlit("CONNECT");
    reveal_strlit("connect");
    assert(lower("HEAD"@) =~= "head"@);
    assert(lower("CONNECT"@) =~= "connect"@);
}

/// A response has no body if it answers HEAD or its status is 204, 304 or below 200
/// (but 100 or more). Every other one is forwarded as it is framed: the rest of the
/// announced length, the rest of the chunks, or everything until the upstream closes.
/// In the last case the client connection cannot persist; else it does if the
/// upstream lets it.
pub proof fn law_response_framing(
    head: ResponseView,
    buf: Seq<u8>,
    method: Seq<char>,
    offset: usize,
    status: u16,
)
    requires
        head.body_offset == Some(offset),
        offset <= buf.len(),
        head.code == Some(status) || (head.code is None && status == 0),
    ensures
        ({
            let plan = response_plan(head, buf, method)->Ok_0;
            let k = buf.len() - offset;
            let bodyless = lower(method) == "head"@ || status == 204 || status == 304 || (100
                <= status && status <= 199);
            &&& response_plan(head, buf, method) is Ok
            &&& plan.body_offset == offset
            &&& plan.status == status
            &&& bodyless ==> plan.body == BodyPlan::Nothing
            &&& !bodyless ==> match announced_length(head.headers) {
                Some(n) => if k < n {
                    plan.body == BodyPlan::Exact((n - k) as u64)
                } else {
                    plan.body == BodyPlan::Nothing
                },
                None => if !announced_chunked(head.headers) {
                    plan.body == BodyPlan::UntilClose
                } else if chunked_end(buf.skip(offset as int)) is Some {
                    plan.body == BodyPlan::Nothing
                } else {
                    plan.body == BodyPlan::Chunked
                },
            }
            &&& plan.body == BodyPlan::UntilClose ==> !plan.keep_alive
            &&& plan.body != BodyPlan::UntilClose ==> match head.version {
                Some(version) => plan.keep_alive == persistent(head.headers, version),
                None => plan.keep_alive == persistent(head.headers, 1),
            }
        }),
{
    lemma_lower_words();
}

/// A response whose head is not complete is not forwarded.
pub proof fn law_incomplete_response(head: ResponseView, buf: Seq<u8>, method: Seq<char>)
    requires
        head.body_offset is None,
    ensures
        response_plan(head, buf, method) == Err::<ResponsePlan, HttpError>(HttpError::Incomplete),
{
}

/// A request body is forwarded as it is framed: the rest of the announced length, or
/// the rest of the chunks; a request that announces neither has none.
pub proof fn law_request_framing(content_length: Option<u64>, chunked: bool, sent: Seq<u8>)
    ensures
        content_length matches Some(n) ==> {
            &&& sent.len() < n ==> request_body(content_length, chunked, sent) == BodyPlan::Exact(
                (n - sent.len()) as u64,
            )
            &&& sent.len() >= n ==> request_body(content_length, chunked, sent) == BodyPlan::Nothing
        },
        content_length is None && !chunked ==> request_body(content_length, chunked, sent)
            == BodyPlan::Nothing,
        content_length is None && chunked ==> request_body(content_length, chunked, sent) == (
        if chunked_end(sent) is Some {
            BodyPlan::Nothing
        } else {
            BodyPlan::Chunked
        }),
{
}

/// A request is a request for a tunnel just if its method is CONNECT, in whatever
/// case; the tunnel goes to the host and the port that its target names, by default
/// to port 443. Any other request is forwarded with what its head says.
pub proof fn law_request_kinds(
    head: RequestView,
    offset: usize,
    method: Seq<char>,
    path: Seq<char>,
)
    requires
        head.body_offset == Some(offset),
        head.method == Some(method),
        head.path == Some(path),
    ensures
        lower(method) == "connect"@ ==> match host_and_port(path, 443) {
            Some((host, port)) => request_plan(head) == Ok::<RequestPlanView, HttpError>(
                RequestPlanView::Connect { host, port, body_offset: offset },
            ),
            None => request_plan(head) == Err::<RequestPlanView, HttpError>(
                HttpError::InvalidConnectTarget,
            ),
        },
        lower(method) != "connect"@ ==> (request_plan(head) matches Ok(RequestPlanView::Forward(f))
            && {
            &&& f.method == method
            &&& f.path == path
            &&& f.host == header_value(head.headers, "host"@)
            &&& f.body_offset == offset
            &&& f.content_length == announced_length(head.headers)
            &&& f.chunked == announced_chunked(head.headers)
            &&& match head.version {
                Some(version) => f.keep_alive == persistent(head.headers, version),
                None => f.keep_alive == persistent(head.headers, 1),
            }
        }),
{
    lemma_lower_words();
}

/// A request whose head is not complete, or has no method or no target, is not
/// handled.
pub proof fn law_incomplete_request(head: RequestView)
    ensures
        head.body_offset is None ==> request_plan(head) == Err::<RequestPlanView, HttpError>(
            HttpError::Incomplete,
        ),
        head.body_offset is Some && head.method is None ==> request_plan(head) == Err::<
            RequestPlanView,
            HttpError,
        >(HttpError::MissingMethod),
        head.body_offset is Some && head.method is Some && head.path is None ==> request_plan(head)
            == Err::<RequestPlanView, HttpError>(HttpError::MissingPath),
{
}

/// The reply to a CONNECT has the status of its head, and every byte behind the head
/// belongs to the tunnel.
pub proof fn law_connect_reply(head: ResponseView, buf: Seq<u8>, status: u16, offset: usize)
    requires
        head.body_offset == Some(offset),
        offset <= buf.len(),
    ensures
        head.code == Some(status) ==> (connect_reply(head, buf) matches Ok(reply) && reply.status
            == status && reply.early == buf.skip(offset as int)),
        head.code is None ==> connect_reply(head, buf) == Err::<ConnectReplyView, HttpError>(
            HttpError::MissingStatus,
        ),
{
}

/// A head is read with room for 96 header fields, and the reply to a CONNECT with
/// room for 16; what cannot be read is malformed, and everything else is decided by
/// what was read.
pub proof fn law_room_for_fields(buf: Seq<u8>, method: Seq<char>)
    ensures
        match request_at(buf, 96) {
            Some(head) => request_plan_at(buf) == request_plan(head),
            None => request_plan_at(buf) == Err::<RequestPlanView, HttpError>(HttpError::Malformed),
        },
        match response_at(buf, 96) {
            Some(head) => response_plan_at(buf, method) == response_plan(head, buf, method),
            None => response_plan_at(buf, method) == Err::<ResponsePlan, HttpError>(
                HttpError::Malformed,
            ),
        },
        match response_at(buf, 16) {
            Some(head) => connect_reply_at(buf) == connect_reply(head, buf),
            None => connect_reply_at(buf) == Err::<ConnectReplyView, HttpError>(
                HttpError::Malformed,
            ),
        },
{
}

/// No byte of a response with an announced length is lost: what came with the head
/// and what is still transferred make up that length.
pub proof fn law_no_byte_is_lost(
    head: ResponseHead,
    buf: &[u8],
    method: &str,
    r: Result<ResponsePlan, HttpError>,
    n: u64,
)
    requires
        call_ensures(interpret_response, (head, buf, method), r),
        head.body_offset matches Some(offset) && offset <= buf@.len(),
        head.code matches Some(status) && status >= 200 && status != 204 && status != 304,
        lower(method@) != "head"@,
        announced_length(header_views(head.headers@)) == Some(n),
    ensures
        r matches Ok(plan) && {
            let came = buf@.len() - head.body_offset->0;
            match plan.body {
                BodyPlan::Exact(rest) => rest > 0 && came + rest == n,
                BodyPlan::Nothing => came >= n,
                _ => false,
            }
        },
{
    law_response_framing(head@, buf@, method@, head.body_offset->0, head.code->0);
}

/// Of the running code: requests, responses and replies to a CONNECT are decided on
/// by what was read of their bytes, with room for 96, 96 and 16 header fields, and by
/// nothing else.
pub proof fn law_messages_are_decided_by_their_bytes(
    buf: &[u8],
    method: &str,
    request: Result<RequestPlan, HttpError>,
    response: Result<ResponsePlan, HttpError>,
    reply: Result<ConnectReply, HttpError>,
)
    ensures
        call_ensures(plan_request, (buf,), request) ==> match request_at(buf@, 96) {
            Some(head) => match request {
                Ok(plan) => request_plan(head) == Ok::<RequestPlanView, HttpError>(plan@),
                Err(e) => request_plan(head) == Err::<RequestPlanView, HttpError>(e),
            },
            None => request matches Err(e) && e == HttpError::Malformed,
        },
        call_ensures(plan_response, (buf, method), response) ==> match response_at(buf@, 96) {
            Some(head) => response == response_plan(head, buf@, method@),
            None => response matches Err(e) && e == HttpError::Malformed,
        },
        call_ensures(read_connect_reply, (buf,), reply) ==> match response_at(buf@, 16) {
            Some(head) => match reply {
                Ok(r) => connect_reply(head, buf@) == Ok::<ConnectReplyView, HttpError>(r@),
                Err(e) => connect_reply(head, buf@) == Err::<ConnectReplyView, HttpError>(e),
            },
            None => reply matches Err(e) && e == HttpError::Malformed,
        },
{
}

/// Of the running code: what is left of a request body is as it is framed.
pub proof fn law_body_plans(content_length: Option<u64>, chunked: bool, sent: &[u8], r: BodyPlan)
    requires
        call_ensures(plan_request_body, (content_length, chunked, sent), r),
    ensures
        match (content_length, r) {
            (Some(n), BodyPlan::Exact(rest)) => rest > 0 && sent@.len() + rest == n,
            (Some(n), BodyPlan::Nothing) => sent@.len() >= n,
            (None, BodyPlan::Chunked) => chunked && chunked_end(sent@) is None,
            (None, BodyPlan::Nothing) => !chunked || chunked_end(sent@) is Some,
            _ => false,
        },
{
}

/// Of the running code: what header fields say.
pub proof fn law_fields_are_looked_up(
    headers: &[HeaderField],
    version: u8,
    length: Option<u64>,
    chunked: bool,
    keep_alive: bool,
)
    ensures
        call_ensures(content_length, (headers,), length) ==> length == announced_length(
            header_views(headers@),
        ),
        call_ensures(is_chunked, (headers,), chunked) ==> chunked == announced_chunked(
            header_views(headers@),
        ),
        call_ensures(wants_keep_alive, (headers, version), keep_alive) ==> keep_alive == persistent(
            header_views(headers@),
            version,
        ),
{
}

/// The views of messages leave nothing out.
pub proof fn law_views_of_messages(
    q: RequestHead,
    s: ResponseHead,
    f: ForwardPlan,
    c: ConnectReply,
    i: int,
)
    ensures
        q@.body_offset == q.body_offset && q@.version == q.version,
        q@.headers.len() == q.headers@.len(),
        0 <= i < q.headers@.len() ==> q@.headers[i].name == q.headers@[i].name@
            && q@.headers[i].value == q.headers@[i].value@,
        q.method matches Some(m) ==> q@.method == Some(m@),
        q.method is None ==> q@.method is None,
        q.path matches Some(m) ==> q@.path == Some(m@),
        q.path is None ==> q@.path is None,
        s@.body_offset == s.body_offset && s@.code == s.code && s@.version == s.version,
        s@.headers.len() == s.headers@.len(),
        0 <= i < s.headers@.len() ==> s@.headers[i].name == s.headers@[i].name@
            && s@.headers[i].value == s.headers@[i].value@,
        f@.method == f.method@ && f@.path == f.path@ && f@.body_offset == f.body_offset,
        f@.content_length == f.content_length && f@.chunked == f.chunked && f@.keep_alive
            == f.keep_alive,
        f.host matches Some(h) ==> f@.host == Some(h@),
        f.host is None ==> f@.host is None,
        c@.status == c.status && c@.early == c.early@,
{
}

/// The view of a plan leaves nothing out.
pub proof fn law_view_of_plans(plan: RequestPlan)
    ensures
        match plan {
            RequestPlan::Connect { host, port, body_offset } => plan@
                == (RequestPlanView::Connect { host: host@, port, body_offset }),
            RequestPlan::Forward(f) => plan@ == RequestPlanView::Forward(f@),
        },
{
}

} // verus!
