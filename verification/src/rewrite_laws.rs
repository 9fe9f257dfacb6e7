//! Laws of header rewriting.

use crate::config::host_and_port;
use crate::rewrite::{
    auth_lines, authority_text, build_upstream_connect, connect_request, forwarded_fields,
    forwarded_lines, is_proxy_authorization, lemma_split_step, lemma_terminated_push,
    rewrite_request_headers, status_response, status_text, terminated,
};
use crate::text::{
    crlf, crlf_at, decimal, law_decimal_reads_back, law_lower_case_of_bytes, law_occurrence,
    lemma_first_index, lemma_line_end, lemma_line_end_bound, line_end, lower_bytes, split_lines,
    unsigned_value,
};
use vstd::prelude::*;
use vstd::utf8::{char_u32_cast, encode_scalar, encode_utf8, is_ascii_chars_encode_utf8};

verus! {

/// Whether `a` is text without a carriage return, as every value of a
/// `Proxy-Authorization` field is.
pub open spec fn is_credentials(a: Seq<char>) -> bool {
    forall|i: int| 0 <= i < a.len() ==> #[trigger] a[i] != '\r'
}

/// Whether no CRLF stands in the line.
pub open spec fn is_one_line(line: Seq<u8>) -> bool {
    forall|i: int| !crlf_at(line, i)
}

proof fn lemma_field_name_is_not_empty()
    ensures
        encode_utf8("proxy-authorization:"@).len() > 0,
{
    reveal_strlit("proxy-authorization:");
    is_ascii_chars_encode_utf8("proxy-authorization:"@);
}

pub proof fn lemma_fields_hide_credentials(fields: Seq<Seq<u8>>, auth: Option<Seq<char>>, k: int)
    requires
        0 <= k < forwarded_fields(fields, auth).len(),
        is_proxy_authorization(forwarded_fields(fields, auth)[k]),
    ensures
        auth_lines(auth).contains(forwarded_fields(fields, auth)[k]),
    decreases fields.len(),
{
    lemma_field_name_is_not_empty();
    let all = forwarded_fields(fields, auth);
    if fields.len() == 0 {
    } else if fields[0].len() == 0 {
        if k < auth_lines(auth).len() {
            assert(all[k] == auth_lines(auth)[k]);
        } else {
            assert(all[k].len() == 0);
        }
    } else {
        let tail = forwarded_fields(fields.drop_first(), auth);
        if is_proxy_authorization(fields[0]) {
            lemma_fields_hide_credentials(fields.drop_first(), auth, k);
        } else if k > 0 {
            assert(all[k] == tail[k - 1]);
            lemma_fields_hide_credentials(fields.drop_first(), auth, k - 1);
        }
    }
}

/// No `Proxy-Authorization` of the client is forwarded: the only such header
/// line behind the request line is the one with the upstream's own credentials.
pub proof fn law_client_credentials_are_dropped(
    head: Seq<u8>,
    auth: Option<Seq<char>>,
    k: int,
)
    requires
        1 <= k < forwarded_lines(head, auth).len(),
        is_proxy_authorization(forwarded_lines(head, auth)[k]),
    ensures
        auth_lines(auth).contains(forwarded_lines(head, auth)[k]),
{
    let fields = split_lines(head).drop_first();
    assert(forwarded_lines(head, auth)[k] == forwarded_fields(fields, auth)[k - 1]);
    lemma_fields_hide_credentials(fields, auth, k - 1);
}

/// The request line is forwarded verbatim.
pub proof fn law_request_line_is_kept(head: Seq<u8>, auth: Option<Seq<char>>)
    ensures
        forwarded_lines(head, auth)[0] == split_lines(head)[0],
{
}

/// Every header line before the first empty one that is no `Proxy-Authorization`
/// is forwarded, in order; behind them stand the upstream's credentials, if there
/// are any, and the empty line.
pub proof fn law_other_fields_are_kept(
    fields: Seq<Seq<u8>>,
    auth: Option<Seq<char>>,
    end: int,
)
    requires
        0 <= end <= fields.len(),
        end < fields.len() ==> fields[end].len() == 0,
        forall|i: int| 0 <= i < end ==> (#[trigger] fields[i]).len() > 0,
    ensures
        forwarded_fields(fields, auth) == fields.take(end).filter(
            |line: Seq<u8>| !is_proxy_authorization(line),
        ) + (if end < fields.len() {
            auth_lines(auth).push(Seq::empty())
        } else {
            Seq::empty()
        }),
    decreases fields.len(),
{
    let keep = |line: Seq<u8>| !is_proxy_authorization(line);
    reveal(Seq::filter);
    if end == 0 {
        assert(fields.take(0).filter(keep) == Seq::<Seq<u8>>::empty());
    } else {
        let rest = fields.drop_first();
        assert(fields[0].len() > 0);
        assert forall|i: int| 0 <= i < end - 1 implies (#[trigger] rest[i]).len() > 0 by {
            assert(fields[i + 1].len() > 0);
        }
        law_other_fields_are_kept(rest, auth, end - 1);
        assert(fields.take(end) == seq![fields[0]] + rest.take(end - 1));
        Seq::filter_distributes_over_add(seq![fields[0]], rest.take(end - 1), keep);
        assert(seq![fields[0]].drop_last() == Seq::<Seq<u8>>::empty());
        assert(seq![fields[0]].drop_last().filter(keep) == Seq::<Seq<u8>>::empty());
        if keep(fields[0]) {
            assert(seq![fields[0]].filter(keep) == seq![fields[0]]);
        } else {
            assert(seq![fields[0]].filter(keep) == Seq::<Seq<u8>>::empty());
        }
    }
}

/// What is split at CRLFs holds no CRLF in any piece.
proof fn lemma_pieces_are_lines(s: Seq<u8>, k: int)
    requires
        0 <= k < split_lines(s).len(),
    ensures
        is_one_line(split_lines(s)[k]),
    decreases s.len(),
{
    lemma_line_end_bound(s);
    let end = line_end(s);
    if end < s.len() {
        if k == 0 {
            let line = s.take(end);
            assert forall|i: int| !crlf_at(line, i) by {
                if crlf_at(line, i) {
                    assert(crlf_at(s, i));
                }
            }
        } else {
            lemma_pieces_are_lines(s.skip(end + 2), k - 1);
        }
    } else {
        assert forall|i: int| !crlf_at(s, i) by {}
    }
}

proof fn lemma_scalar_without_cr(c: u32)
    requires
        c != 13,
    ensures
        forall|i: int| 0 <= i < encode_scalar(c).len() ==> #[trigger] encode_scalar(c)[i] != 13,
{
    assert(c <= 0x7f && c != 13 ==> (c & 0x7f) as u8 != 13) by (bit_vector);
    assert(forall|b: u8| #[trigger] (0xc0u8 | b) != 13) by (bit_vector);
    assert(forall|b: u8| #[trigger] (0xe0u8 | b) != 13) by (bit_vector);
    assert(forall|b: u8| #[trigger] (0xf0u8 | b) != 13) by (bit_vector);
    assert(forall|b: u8| #[trigger] (0x80u8 | b) != 13) by (bit_vector);
}

/// UTF-8 has the byte of a carriage return only where the text has one.
proof fn lemma_no_cr_in_utf8(text: Seq<char>)
    requires
        is_credentials(text),
    ensures
        forall|i: int| 0 <= i < encode_utf8(text).len() ==> #[trigger] encode_utf8(text)[i] != 13,
    decreases text.len(),
{
    if text.len() > 0 {
        let rest = text.drop_first();
        let head = encode_scalar(text[0] as u32);
        assert forall|i: int| 0 <= i < rest.len() implies #[trigger] rest[i] != '\r' by {
            assert(text[i + 1] != '\r');
        }
        lemma_no_cr_in_utf8(rest);
        assert(text[0] as u32 != 13) by {
            char_u32_cast(text[0], text[0] as u32);
            assert(text[0] != '\r');
        }
        lemma_scalar_without_cr(text[0] as u32);
        assert forall|i: int| 0 <= i < encode_utf8(text).len() implies #[trigger] encode_utf8(
            text,
        )[i] != 13 by {
            if i < head.len() {
                assert(encode_utf8(text)[i] == head[i]);
            } else {
                assert(encode_utf8(text)[i] == encode_utf8(rest)[i - head.len()]);
            }
        }
    }
}

proof fn lemma_forwarded_fields_are_lines(
    fields: Seq<Seq<u8>>,
    auth: Option<Seq<char>>,
    k: int,
)
    requires
        forall|i: int| 0 <= i < fields.len() ==> is_one_line(#[trigger] fields[i]),
        auth matches Some(a) ==> is_credentials(a),
        0 <= k < forwarded_fields(fields, auth).len(),
    ensures
        is_one_line(forwarded_fields(fields, auth)[k]),
    decreases fields.len(),
{
    let all = forwarded_fields(fields, auth);
    if fields[0].len() == 0 {
        if k < auth_lines(auth).len() {
            reveal_strlit("Proxy-Authorization: ");
            let line = all[k];
            let a = auth->0;
            let text = "Proxy-Authorization: "@ + a;
            assert(line == encode_utf8(text));
            assert forall|i: int| 0 <= i < text.len() implies #[trigger] text[i] != '\r' by {
                if i >= "Proxy-Authorization: "@.len() {
                    assert(a[i - "Proxy-Authorization: "@.len()] != '\r');
                }
            }
            lemma_no_cr_in_utf8(text);
            assert forall|i: int| !crlf_at(line, i) by {
                if 0 <= i < line.len() {
                    assert(line[i] != 13);
                }
            }
        } else {
            assert(all[k].len() == 0);
        }
    } else {
        let rest = fields.drop_first();
        assert forall|i: int| 0 <= i < rest.len() implies is_one_line(#[trigger] rest[i]) by {
            assert(is_one_line(fields[i + 1]));
        }
        if is_proxy_authorization(fields[0]) {
            lemma_forwarded_fields_are_lines(rest, auth, k);
        } else if k > 0 {
            assert(all[k] == forwarded_fields(rest, auth)[k - 1]);
            lemma_forwarded_fields_are_lines(rest, auth, k - 1);
        }
    }
}

/// Lines that were terminated are found again by splitting.
pub proof fn law_split_undoes_terminate(lines: Seq<Seq<u8>>)
    requires
        forall|i: int| 0 <= i < lines.len() ==> is_one_line(#[trigger] lines[i]),
    ensures
        split_lines(terminated(lines)) == lines.push(Seq::empty()),
    decreases lines.len(),
{
    if lines.len() == 0 {
        assert(split_lines(Seq::empty()) == seq![Seq::<u8>::empty()]);
        assert(lines.push(Seq::empty()) == seq![Seq::<u8>::empty()]);
    } else {
        let rest = lines.drop_first();
        assert forall|i: int| 0 <= i < rest.len() implies is_one_line(#[trigger] rest[i]) by {
            assert(is_one_line(lines[i + 1]));
        }
        law_split_undoes_terminate(rest);
        let line = lines[0];
        let tail = terminated(rest);
        let s = line + crlf() + tail;
        let n = line.len() as int;
        assert(is_one_line(lines[0]));
        assert forall|j: int| 0 <= j < n implies !crlf_at(s, j) by {
            if crlf_at(s, j) {
                if j + 1 < n {
                    assert(crlf_at(line, j));
                } else {
                    assert(s[n] == '\r');
                }
            }
        }
        assert(crlf_at(s, n));
        lemma_line_end(s, n);
        assert(s.take(n) == line);
        assert(s.skip(n + 2) == tail);
        assert(seq![line] + rest.push(Seq::empty()) == lines.push(Seq::empty()));
    }
}

/// The forwarded head, read again, has exactly the lines that were to be
/// forwarded: nothing in the client's head, and no credentials without a carriage
/// return, can add a line of its own.
pub proof fn law_forwarded_head_reads_back(head: Seq<u8>, auth: Option<Seq<char>>)
    requires
        auth matches Some(a) ==> is_credentials(a),
    ensures
        split_lines(terminated(forwarded_lines(head, auth))) == forwarded_lines(head, auth).push(
            Seq::empty(),
        ),
{
    let lines = split_lines(head);
    let fields = lines.drop_first();
    let all = forwarded_lines(head, auth);
    assert forall|i: int| 0 <= i < fields.len() implies is_one_line(#[trigger] fields[i]) by {
        lemma_pieces_are_lines(head, i + 1);
    }
    assert forall|i: int| 0 <= i < all.len() implies is_one_line(#[trigger] all[i]) by {
        if i == 0 {
            lemma_line_end_bound(head);
            lemma_pieces_are_lines(head, 0);
        } else {
            assert(all[i] == forwarded_fields(fields, auth)[i - 1]);
            lemma_forwarded_fields_are_lines(fields, auth, i - 1);
        }
    }
    law_split_undoes_terminate(all);
}

/// A target that is written into a request is read from it again: a host without
/// a colon, and the port.
pub proof fn law_authority_reads_back(host: Seq<char>, port: u16, default_port: u16)
    requires
        host.len() > 0,
        forall|i: int| 0 <= i < host.len() ==> #[trigger] host[i] != ':',
    ensures
        host_and_port(authority_text(host, port), default_port) == Some((host, port)),
{
    reveal_strlit(":");
    let text = authority_text(host, port);
    assert forall|j: int| 0 <= j < host.len() implies text[j] != ':' by {
        assert(text[j] == host[j]);
    }
    assert(text[host.len() as int] == ':');
    lemma_first_index(text, ':', host.len() as int);
    assert(text.take(host.len() as int) == host);
    assert(text.skip(host.len() as int + 1) == decimal(port as nat));
    law_decimal_reads_back(port as nat, u16::MAX as nat);
}

/// Whether a header line names the field `Proxy-Authorization`: its first twenty
/// bytes are that name, in whatever case, and a colon.
pub open spec fn names_proxy_authorization(line: Seq<u8>) -> bool {
    let name = seq![
        112u8,
        114u8,
        111u8,
        120u8,
        121u8,
        45u8,
        97u8,
        117u8,
        116u8,
        104u8,
        111u8,
        114u8,
        105u8,
        122u8,
        97u8,
        116u8,
        105u8,
        111u8,
        110u8,
        58u8,
    ];
    line.len() >= 20 && forall|k: int|
        0 <= k < 20 ==> line[k] == #[trigger] name[k] || (97 <= name[k] <= 122 && line[k] == name[k]
            - 32)
}

proof fn lemma_proxy_authorization_bytes(line: Seq<u8>)
    ensures
        is_proxy_authorization(line) == names_proxy_authorization(line),
{
    let text = "proxy-authorization:"@;
    let bytes = encode_utf8(text);
    reveal_strlit("proxy-authorization:");
    is_ascii_chars_encode_utf8(text);
    assert(bytes.len() == 20);
    assert(forall|k: int| 0 <= k < 20 ==> #[trigger] bytes[k] == text[k] as u8);
    let name = seq![
        112u8,
        114u8,
        111u8,
        120u8,
        121u8,
        45u8,
        97u8,
        117u8,
        116u8,
        104u8,
        111u8,
        114u8,
        105u8,
        122u8,
        97u8,
        116u8,
        105u8,
        111u8,
        110u8,
        58u8,
    ];
    assert(bytes =~= name);
    let low = lower_bytes(line);
    law_occurrence(low, bytes, 0);
    if is_proxy_authorization(line) {
        assert forall|k: int| 0 <= k < 20 implies line[k] == #[trigger] name[k] || (97 <= name[k]
            <= 122 && line[k] == name[k] - 32) by {
            assert(low[0 + k] == bytes[k]);
            law_lower_case_of_bytes(line, k);
        }
    }
    if names_proxy_authorization(line) {
        assert forall|k: int| 0 <= k < bytes.len() implies low[0 + k] == #[trigger] bytes[k] by {
            law_lower_case_of_bytes(line, k);
            assert(line[k] == name[k] || (97 <= name[k] <= 122 && line[k] == name[k] - 32));
        }
    }
}

/// Of the header lines before the empty one, those that name `Proxy-Authorization`
/// are dropped and all others are forwarded, in order and byte for byte. The line
/// with the upstream's credentials follows, where there are any, and the empty line
/// ends the head; what stands behind it is not looked at.
pub proof fn law_forwarded_fields(
    fields: Seq<Seq<u8>>,
    behind: Seq<Seq<u8>>,
    auth: Option<Seq<char>>,
)
    requires
        forall|i: int| 0 <= i < fields.len() ==> (#[trigger] fields[i]).len() > 0,
    ensures
        forwarded_fields(fields.push(Seq::empty()) + behind, auth) == fields.filter(
            |line: Seq<u8>| !names_proxy_authorization(line),
        ) + (match auth {
            Some(a) => seq![encode_utf8("Proxy-Authorization: "@ + a), Seq::empty()],
            None => seq![Seq::empty()],
        }),
        forwarded_fields(fields, auth) == fields.filter(
            |line: Seq<u8>| !names_proxy_authorization(line),
        ),
    decreases fields.len(),
{
    let all = fields.push(Seq::empty()) + behind;
    let keep = |line: Seq<u8>| !names_proxy_authorization(line);
    reveal(Seq::filter);
    if fields.len() == 0 {
        assert(all[0].len() == 0);
        assert(fields.filter(keep) == Seq::<Seq<u8>>::empty());
    } else {
        let rest = fields.drop_first();
        lemma_proxy_authorization_bytes(fields[0]);
        assert(fields[0].len() > 0);
        assert(all[0] == fields[0]);
        assert(all.drop_first() == rest.push(Seq::empty()) + behind);
        assert forall|i: int| 0 <= i < rest.len() implies (#[trigger] rest[i]).len() > 0 by {
            assert(fields[i + 1].len() > 0);
        }
        law_forwarded_fields(rest, behind, auth);
        assert(fields == seq![fields[0]] + rest);
        Seq::filter_distributes_over_add(seq![fields[0]], rest, keep);
        assert(seq![fields[0]].drop_last() == Seq::<Seq<u8>>::empty());
        assert(seq![fields[0]].drop_last().filter(keep) == Seq::<Seq<u8>>::empty());
        if keep(fields[0]) {
            assert(seq![fields[0]].filter(keep) == seq![fields[0]]);
        } else {
            assert(seq![fields[0]].filter(keep) == Seq::<Seq<u8>>::empty());
        }
    }
}

/// Every header line of another name stands in the forwarded head.
pub proof fn law_other_lines_stand(
    fields: Seq<Seq<u8>>,
    behind: Seq<Seq<u8>>,
    auth: Option<Seq<char>>,
    i: int,
)
    requires
        forall|k: int| 0 <= k < fields.len() ==> (#[trigger] fields[k]).len() > 0,
        0 <= i < fields.len(),
        !names_proxy_authorization(fields[i]),
    ensures
        forwarded_fields(fields.push(Seq::empty()) + behind, auth).contains(fields[i]),
{
    let keep = |line: Seq<u8>| !names_proxy_authorization(line);
    law_forwarded_fields(fields, behind, auth);
    assert(fields.filter(keep).contains(fields[i])) by {
        broadcast use vstd::seq_lib::group_filter_ensures;

        assert(fields.contains(fields[i]));
    }
    let k = fields.filter(keep).index_of(fields[i]);
    assert(forwarded_fields(fields.push(Seq::empty()) + behind, auth)[k] == fields[i]);
}

/// A head of a request line and header lines, rewritten for an upstream, is that
/// request line, the header lines of other names, and the upstream's credentials,
/// each followed by CRLF, and an empty line.
#[verifier::spinoff_prover]
pub proof fn law_rewritten_head(
    request_line: Seq<u8>,
    fields: Seq<Seq<u8>>,
    auth: Option<Seq<char>>,
)
    requires
        is_one_line(request_line),
        forall|i: int|
            0 <= i < fields.len() ==> (#[trigger] fields[i]).len() > 0 && is_one_line(fields[i]),
    ensures
        ({
            let head = with_crlfs((seq![request_line] + fields).push(Seq::empty()));
            let kept = fields.filter(|line: Seq<u8>| !names_proxy_authorization(line));
            let own = match auth {
                Some(a) => seq![encode_utf8("Proxy-Authorization: "@ + a)],
                None => Seq::empty(),
            };
            terminated(forwarded_lines(head, auth)) == with_crlfs(
                (seq![request_line] + kept + own).push(Seq::empty()),
            )
        }),
{
    let lines = (seq![request_line] + fields).push(Seq::empty());
    assert forall|i: int| 0 <= i < lines.len() implies is_one_line(#[trigger] lines[i]) by {
        if 0 < i < lines.len() - 1 {
            assert(lines[i] == fields[i - 1]);
        }
    }
    law_split_undoes_terminate(lines);
    lemma_with_crlfs(lines);
    let head = with_crlfs(lines);
    let pieces = split_lines(head);
    assert(pieces == lines.push(Seq::empty()));
    assert(pieces.drop_first() == fields.push(Seq::empty()) + seq![Seq::<u8>::empty()]);
    law_forwarded_fields(fields, seq![Seq::<u8>::empty()], auth);
    let kept = fields.filter(|line: Seq<u8>| !names_proxy_authorization(line));
    let own = match auth {
        Some(a) => seq![encode_utf8("Proxy-Authorization: "@ + a)],
        None => Seq::empty(),
    };
    let target = (seq![request_line] + kept + own).push(Seq::empty());
    assert(forwarded_lines(head, auth) =~= target);
    lemma_with_crlfs(target);
}

/// Each line, with a CRLF behind it.
pub open spec fn with_crlfs(lines: Seq<Seq<u8>>) -> Seq<u8>
    decreases lines.len(),
{
    if lines.len() == 0 {
        Seq::empty()
    } else {
        with_crlfs(lines.drop_last()) + lines.last() + seq![13u8, 10u8]
    }
}

proof fn lemma_with_crlfs(lines: Seq<Seq<u8>>)
    ensures
        terminated(lines) == with_crlfs(lines),
    decreases lines.len(),
{
    if lines.len() > 0 {
        let front = lines.drop_last();
        lemma_with_crlfs(front);
        lemma_terminated_push(front, lines.last());
        assert(front.push(lines.last()) == lines);
    }
}

/// The request line is forwarded byte for byte: what is sent starts with the bytes
/// of the head up to its first CRLF, and that CRLF.
pub proof fn law_request_line_is_verbatim(head: Seq<u8>, auth: Option<Seq<char>>, n: int)
    requires
        0 <= n,
        n + 1 < head.len(),
        head[n] == 13,
        head[n + 1] == 10,
        forall|i: int| 0 <= i < n ==> !(#[trigger] head[i] == 13 && head[i + 1] == 10),
    ensures
        terminated(forwarded_lines(head, auth)).len() >= n + 2,
        terminated(forwarded_lines(head, auth)).take(n + 2) == head.take(n + 2),
{
    assert(crlf_at(head, n));
    assert forall|j: int| 0 <= j < n implies !crlf_at(head, j) by {
        assert(!(head[j] == 13 && head[j + 1] == 10));
    }
    lemma_line_end(head, n);
    lemma_split_step(head);
    let all = forwarded_lines(head, auth);
    assert(all[0] == head.take(n));
    assert(terminated(all) == all[0] + crlf() + terminated(all.drop_first()));
    assert(terminated(all).take(n + 2) =~= head.take(n + 2));
}

/// A status response is a status line with the version, the code and the message,
/// and says that there is no body and that the connection is closed.
pub proof fn law_status_response(code: u16, msg: Seq<char>)
    ensures
        ({
            let t = status_text(code, msg);
            let n = decimal(code as nat).len() as int;
            let end = 10 + n + msg.len();
            &&& t.len() >= end
            &&& t.take(9) == "HTTP/1.1 "@
            &&& unsigned_value(t.subrange(9, 9 + n), 65535) == Some(code as nat)
            &&& t[9 + n] == ' '
            &&& t.subrange(10 + n, end) == msg
            &&& t.skip(end) == "\r\nContent-Length: 0\r\nConnection: close\r\n\r\n"@
        }),
{
    reveal_strlit("HTTP/1.1 ");
    reveal_strlit(" ");
    law_decimal_reads_back(code as nat, 65535);
    let t = status_text(code, msg);
    let n = decimal(code as nat).len() as int;
    let end = 10 + n + msg.len();
    assert(t.take(9) =~= "HTTP/1.1 "@);
    assert(t.subrange(9, 9 + n) =~= decimal(code as nat));
    assert(t.subrange(10 + n, end) =~= msg);
    assert(t.skip(end) =~= "\r\nContent-Length: 0\r\nConnection: close\r\n\r\n"@);
}

/// The CONNECT request names the target in its request line and in its `Host`
/// field, and carries the credentials for the upstream in one more line, where there
/// are any; nothing else stands in it.
#[verifier::spinoff_prover]
pub proof fn law_connect_request(host: Seq<char>, port: u16, auth: Option<Seq<char>>)
    ensures
        ({
            let t = connect_request(host, port, auth);
            let target = host + seq![':'] + decimal(port as nat);
            let own = match auth {
                Some(a) => "Proxy-Authorization: "@ + a + seq!['\r', '\n'],
                None => Seq::empty(),
            };
            let line = 8 + target.len() as int;
            let field = line + 17 + target.len();
            &&& t.len() == field + 2 + own.len() + 2
            &&& t.take(8) == "CONNECT "@
            &&& t.subrange(8, line) == target
            &&& t.subrange(line, line + 17) == " HTTP/1.1\r\nHost: "@
            &&& t.subrange(line + 17, field) == target
            &&& t.subrange(field, field + 2) == seq!['\r', '\n']
            &&& t.subrange(field + 2, field + 2 + own.len()) == own
            &&& t.skip(field + 2 + own.len()) == seq!['\r', '\n']
        }),
{
    reveal_strlit("CONNECT ");
    reveal_strlit(" HTTP/1.1\r\nHost: ");
    reveal_strlit("\r\n");
    reveal_strlit(":");
    let t = connect_request(host, port, auth);
    let target = host + seq![':'] + decimal(port as nat);
    assert(authority_text(host, port) =~= target);
    assert("\r\n"@ =~= seq!['\r', '\n']);
    let own = match auth {
        Some(a) => "Proxy-Authorization: "@ + a + seq!['\r', '\n'],
        None => Seq::empty(),
    };
    let line = 8 + target.len() as int;
    let field = line + 17 + target.len();
    assert(t.take(8) =~= "CONNECT "@);
    assert(t.subrange(8, line) =~= target);
    assert(t.subrange(line, line + 17) =~= " HTTP/1.1\r\nHost: "@);
    assert(t.subrange(line + 17, field) =~= target);
    assert(t.subrange(field, field + 2) =~= seq!['\r', '\n']);
    assert(t.subrange(field + 2, field + 2 + own.len()) =~= own);
    assert(t.skip(field + 2 + own.len()) =~= seq!['\r', '\n']);
}

/// Of the running code: what is sent in place of a head is that head rewritten, and
/// what is written for a CONNECT and for a status is as described.
pub proof fn law_written_heads(
    raw: &[u8],
    body_offset: usize,
    auth: Option<String>,
    head: Vec<u8>,
    host: &str,
    port: u16,
    request: String,
    code: u16,
    msg: &str,
    response: String,
)
    ensures
        body_offset <= raw@.len() && call_ensures(
            rewrite_request_headers,
            (raw, body_offset, auth),
            head,
        ) ==> head@ == terminated(
            forwarded_lines(
                raw@.take(body_offset as int),
                match auth {
                    Some(a) => Some(a@),
                    None => None,
                },
            ),
        ),
        call_ensures(build_upstream_connect, (host, port, auth), request) ==> request@
            == connect_request(
            host@,
            port,
            match auth {
                Some(a) => Some(a@),
                None => None,
            },
        ),
        call_ensures(status_response, (code, msg), response) ==> response@ == status_text(
            code,
            msg@,
        ),
{
}

} // verus!
