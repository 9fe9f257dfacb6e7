//! Message heads that the proxy writes itself, or rewrites on the way.

use crate::http::text_view;
use crate::text::{
    bytes_occur_at, crlf, decimal, find_line_end, lemma_line_end_bound, line_end, lower_bytes,
    occurs_at, push_bytes, push_decimal, split_lines, to_lower_bytes,
};
use vstd::prelude::*;
use vstd::slice::slice_subrange;
use vstd::utf8::encode_utf8;

verus! {

/// Every line followed by CRLF.
pub open spec fn terminated(lines: Seq<Seq<u8>>) -> Seq<u8>
    decreases lines.len(),
{
    if lines.len() == 0 {
        Seq::empty()
    } else {
        lines[0] + crlf() + terminated(lines.drop_first())
    }
}

/// Whether a header line is a `Proxy-Authorization` field.
pub open spec fn is_proxy_authorization(line: Seq<u8>) -> bool {
    occurs_at(lower_bytes(line), encode_utf8("proxy-authorization:"@), 0)
}

/// The header line that carries the credentials for the upstream, if there are any.
pub open spec fn auth_lines(auth: Option<Seq<char>>) -> Seq<Seq<u8>> {
    match auth {
        Some(a) => seq![encode_utf8("Proxy-Authorization: "@ + a)],
        None => Seq::empty(),
    }
}

/// The header lines to forward in place of `fields`: those before the first
/// empty line but for any `Proxy-Authorization`; where there is such an empty
/// line, the upstream's own credentials and the empty line follow.
pub open spec fn forwarded_fields(fields: Seq<Seq<u8>>, auth: Option<Seq<char>>) -> Seq<Seq<u8>>
    decreases fields.len(),
{
    if fields.len() == 0 {
        Seq::empty()
    } else if fields[0].len() == 0 {
        auth_lines(auth).push(Seq::empty())
    } else if is_proxy_authorization(fields[0]) {
        forwarded_fields(fields.drop_first(), auth)
    } else {
        seq![fields[0]] + forwarded_fields(fields.drop_first(), auth)
    }
}

/// The lines to forward in place of `head`: the request line as it is, byte for
/// byte, and the header lines to forward.
pub open spec fn forwarded_lines(head: Seq<u8>, auth: Option<Seq<char>>) -> Seq<Seq<u8>> {
    let lines = split_lines(head);
    seq![lines[0]] + forwarded_fields(lines.drop_first(), auth)
}

pub open spec fn opt_view(t: Option<&str>) -> Option<Seq<char>> {
    match t {
        Some(s) => Some(s@),
        None => None,
    }
}

fn borrowed(t: &Option<String>) -> (r: Option<&str>)
    ensures
        opt_view(r) == text_view(*t),
{
    match t {
        Some(s) => Some(s.as_str()),
        None => None,
    }
}

pub proof fn lemma_split_step(s: Seq<u8>)
    ensures
        split_lines(s).len() > 0,
        line_end(s) < s.len() ==> split_lines(s)[0] == s.take(line_end(s)) && split_lines(
            s,
        ).drop_first() == split_lines(s.skip(line_end(s) + 2)),
        line_end(s) >= s.len() ==> split_lines(s)[0] == s && split_lines(s).drop_first()
            == Seq::<Seq<u8>>::empty(),
{
    lemma_line_end_bound(s);
    if line_end(s) < s.len() {
        assert(split_lines(s).drop_first() == split_lines(s.skip(line_end(s) + 2)));
    } else {
        assert(split_lines(s).drop_first() == Seq::<Seq<u8>>::empty());
    }
}

pub(crate) fn push_crlf(out: &mut Vec<u8>)
    ensures
        final(out)@ == old(out)@ + crlf(),
{
    out.push(13);
    out.push(10);
}

fn is_proxy_authorization_line(line: &[u8]) -> (r: bool)
    ensures
        r == is_proxy_authorization(line@),
{
    bytes_occur_at(to_lower_bytes(line).as_slice(), "proxy-authorization:".as_bytes(), 0)
}

/// Appends what is to be forwarded of the header lines in `bs[from..]`.
pub(crate) fn push_fields(out: &mut Vec<u8>, bs: &[u8], from: usize, auth: Option<&str>)
    requires
        from <= bs@.len(),
    ensures
        final(out)@ == old(out)@ + terminated(
            forwarded_fields(split_lines(bs@.skip(from as int)), opt_view(auth)),
        ),
{
    let ghost target = old(out)@ + terminated(
        forwarded_fields(split_lines(bs@.skip(from as int)), opt_view(auth)),
    );
    let mut pos: usize = from;
    loop
        invariant_except_break
            out@ + terminated(
                forwarded_fields(split_lines(bs@.skip(pos as int)), opt_view(auth)),
            ) == target,
        invariant
            from <= pos <= bs@.len(),
        ensures
            out@ == target,
        decreases bs@.len() - pos,
    {
        let end = find_line_end(bs, pos);
        let ghost rest = bs@.skip(pos as int);
        let ghost fields = split_lines(rest);
        proof {
            lemma_split_step(rest);
            assert(fields[0] == bs@.subrange(pos as int, end as int));
            if end < bs@.len() {
                assert(rest.skip(line_end(rest) + 2) == bs@.skip(end + 2));
            }
        }
        let ghost before = out@;
        if end == pos {
            match auth {
                Some(a) => {
                    let mut line = String::new();
                    line.push_str("Proxy-Authorization: ");
                    line.push_str(a);
                    assert(line@ == "Proxy-Authorization: "@ + a@);
                    push_bytes(out, line.as_str().as_bytes());
                    push_crlf(out);
                },
                None => {},
            }
            push_crlf(out);
            proof {
                lemma_terminated_push(auth_lines(opt_view(auth)), Seq::empty());
                match auth {
                    Some(a) => {
                        let l = encode_utf8("Proxy-Authorization: "@ + a@);
                        lemma_terminated_push(Seq::empty(), l);
                        assert(auth_lines(opt_view(auth)) == Seq::<Seq<u8>>::empty().push(l));
                    },
                    None => {},
                }
            }
            break;
        }
        let line = slice_subrange(bs, pos, end);
        if !is_proxy_authorization_line(line) {
            push_bytes(out, line);
            push_crlf(out);
            proof {
                let tail = forwarded_fields(fields.drop_first(), opt_view(auth));
                assert((seq![fields[0]] + tail).drop_first() == tail);
                assert(before + (fields[0] + crlf() + terminated(tail)) == before + fields[0]
                    + crlf() + terminated(tail));
            }
        }
        if end == bs.len() {
            assert(forwarded_fields(fields.drop_first(), opt_view(auth)) == Seq::<
                Seq<u8>,
            >::empty());
            assert(out@ + Seq::<u8>::empty() == out@);
            break;
        }
        pos = end + 2;
    }
}

/// One more line adds itself and a CRLF.
pub proof fn lemma_terminated_push(lines: Seq<Seq<u8>>, line: Seq<u8>)
    ensures
        terminated(lines.push(line)) == terminated(lines) + line + crlf(),
    decreases lines.len(),
{
    if lines.len() > 0 {
        assert(lines.push(line).drop_first() == lines.drop_first().push(line));
        lemma_terminated_push(lines.drop_first(), line);
        let rest = terminated(lines.drop_first());
        assert(lines[0] + crlf() + (rest + line + crlf()) == lines[0] + crlf() + rest + line
            + crlf());
    } else {
        assert(lines.push(line).drop_first() == Seq::<Seq<u8>>::empty());
        assert(terminated(Seq::empty()) == Seq::<u8>::empty());
        assert(terminated(lines.push(line)) == line + crlf() + Seq::<u8>::empty());
        assert(line + crlf() + Seq::<u8>::empty() == Seq::<u8>::empty() + line + crlf());
    }
}

/// Appends what is to be forwarded of the header lines of `head`, whose first line
/// ends at `end`.
pub(crate) fn push_fields_after(
    out: &mut Vec<u8>,
    head: &[u8],
    end: usize,
    auth: Option<&str>,
)
    requires
        end <= head@.len(),
        end == line_end(head@),
        end < head@.len() ==> end + 2 <= head@.len(),
    ensures
        final(out)@ == old(out)@ + terminated(
            forwarded_fields(split_lines(head@).drop_first(), opt_view(auth)),
        ),
{
    proof {
        lemma_split_step(head@);
    }
    if end < head.len() {
        push_fields(out, head, end + 2, auth);
    } else {
        assert(terminated(Seq::<Seq<u8>>::empty()) == Seq::<u8>::empty());
        assert(out@ + Seq::<u8>::empty() == out@);
    }
}

/// Rewrite request headers for forwarding through an upstream proxy:
/// * Keeps the request line verbatim (absolute URI is already correct for a
///   proxy-to-proxy hop).
/// * Removes `Proxy-Authorization` from the client to avoid leaking
///   the client's upstream credentials to the next hop.
/// * Injects our upstream's `Proxy-Authorization` if required.
pub fn rewrite_request_headers(raw: &[u8], body_offset: usize, proxy_auth: Option<String>) -> (r:
    Vec<u8>)
    requires
        body_offset <= raw@.len(),
    ensures
        r@ == terminated(
            forwarded_lines(raw@.take(body_offset as int), text_view(proxy_auth)),
        ),
{
    let head = slice_subrange(raw, 0, body_offset);
    let ghost lines = forwarded_lines(head@, text_view(proxy_auth));
    assert(head@ == raw@.take(body_offset as int));
    let end = find_line_end(head, 0);
    assert(head@.skip(0) == head@);
    let mut out: Vec<u8> = Vec::new();
    push_bytes(&mut out, slice_subrange(head, 0, end));
    push_crlf(&mut out);
    push_fields_after(&mut out, head, end, borrowed(&proxy_auth));
    proof {
        lemma_split_step(head@);
        assert(head@.subrange(0, end as int) == split_lines(head@)[0]);
        assert(lines.drop_first() == forwarded_fields(
            split_lines(head@).drop_first(),
            text_view(proxy_auth),
        ));
        assert(out@ == lines[0] + crlf() + terminated(lines.drop_first()));
    }
    out
}

/// `host:port`.
pub open spec fn authority_text(host: Seq<char>, port: u16) -> Seq<char> {
    host + ":"@ + decimal(port as nat)
}

/// Appends `host:port`.
pub fn push_authority(out: &mut String, host: &str, port: u16)
    ensures
        final(out)@ == old(out)@ + authority_text(host@, port),
{
    out.push_str(host);
    out.push_str(":");
    push_decimal(out, port as u64);
    assert(out@ == old(out)@ + authority_text(host@, port));
}

/// The CONNECT request to an upstream.
pub open spec fn connect_request(
    host: Seq<char>,
    port: u16,
    auth: Option<Seq<char>>,
) -> Seq<char> {
    "CONNECT "@ + authority_text(host, port) + " HTTP/1.1\r\nHost: "@ + authority_text(host, port)
        + "\r\n"@ + (match auth {
        Some(a) => "Proxy-Authorization: "@ + a + "\r\n"@,
        None => Seq::empty(),
    }) + "\r\n"@
}

pub fn build_upstream_connect(host: &str, port: u16, proxy_auth: Option<String>) -> (r: String)
    ensures
        r@ == connect_request(host@, port, text_view(proxy_auth)),
{
    let mut req = String::new();
    req.push_str("CONNECT ");
    push_authority(&mut req, host, port);
    req.push_str(" HTTP/1.1\r\nHost: ");
    push_authority(&mut req, host, port);
    req.push_str("\r\n");
    match proxy_auth {
        Some(auth) => {
            req.push_str("Proxy-Authorization: ");
            req.push_str(auth.as_str());
            req.push_str("\r\n");
        },
        None => {},
    }
    req.push_str("\r\n");
    assert(req@ =~= connect_request(host@, port, text_view(proxy_auth)));
    req
}

/// A response without a body, after which the connection is closed.
pub open spec fn status_text(code: u16, msg: Seq<char>) -> Seq<char> {
    "HTTP/1.1 "@ + decimal(code as nat) + " "@ + msg
        + "\r\nContent-Length: 0\r\nConnection: close\r\n\r\n"@
}

pub fn status_response(code: u16, msg: &str) -> (r: String)
    ensures
        r@ == status_text(code, msg@),
{
    let mut r = String::new();
    r.push_str("HTTP/1.1 ");
    push_decimal(&mut r, code as u64);
    r.push_str(" ");
    r.push_str(msg);
    r.push_str("\r\nContent-Length: 0\r\nConnection: close\r\n\r\n");
    assert(r@ =~= status_text(code, msg@));
    r
}

} // verus!
