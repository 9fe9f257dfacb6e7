//! Domain policy: which requests go through an upstream and which go straight to
//! their target, and how a request is addressed to its target.

use crate::config::{host_and_port, split_host_port, DomainPolicyConfig, DomainPolicyMode};
use crate::http::{text_view, ForwardPlan};
use crate::rewrite::{
    forwarded_fields, is_proxy_authorization, lemma_split_step, push_crlf, push_fields_after,
    terminated,
};
use crate::rewrite_laws::{
    law_forwarded_fields, lemma_fields_hide_credentials, names_proxy_authorization,
};
use crate::text::{
    after_last, chars_occur_at, chars_of, crlf, find_byte, find_char, find_line_end, first_index,
    last_start, law_after_last, law_first_index, law_occurrence, lemma_first_index, lower,
    occurs_at, push_bytes, split_lines, text_of, to_lower,
};
use vstd::prelude::*;
use vstd::slice::slice_subrange;
use vstd::utf8::encode_utf8;

verus! {

/// The port of an `http` URL that names none.
pub const DEFAULT_HTTP_PORT: u16 = 80;

/// Whether `host` is `domain` or lies below it. Both are in lower case.
pub open spec fn is_within(host: Seq<char>, domain: Seq<char>) -> bool {
    ||| host == domain
    ||| occurs_at(host, "."@ + domain, host.len() - domain.len() - 1)
}

/// Whether the expression of a policy matches `host`: `domain:d` matches `d`
/// alone; `suffix:d`, `*.d`, `.d` and plain `d` match `d` and everything below
/// it. ASCII case does not matter in domain names.
pub open spec fn expression_matches(expr: Seq<char>, host: Seq<char>) -> bool {
    let h = lower(host);
    if occurs_at(expr, "domain:"@, 0) {
        h == lower(expr.skip(7))
    } else if occurs_at(expr, "suffix:"@, 0) {
        is_within(h, lower(expr.skip(7)))
    } else if occurs_at(expr, "*."@, 0) {
        is_within(h, lower(expr.skip(2)))
    } else if occurs_at(expr, "."@, 0) {
        is_within(h, lower(expr.skip(1)))
    } else {
        is_within(h, lower(expr))
    }
}

/// Whether one of the expressions matches `host`.
pub open spec fn is_listed(domains: Seq<String>, host: Seq<char>) -> bool {
    exists|i: int| 0 <= i < domains.len() && expression_matches(#[trigger] domains[i]@, host)
}

/// The way of a request.
#[derive(Debug, Clone, Copy, PartialEq, Eq, Structural)]
pub enum Route {
    /// Through one of the upstream proxies.
    Upstream,
    /// Straight to the target.
    Direct,
}

/// The way of a request to `host` under a policy.
pub open spec fn policy_route(
    mode: DomainPolicyMode,
    domains: Seq<String>,
    host: Seq<char>,
) -> Route {
    match mode {
        DomainPolicyMode::Off => Route::Upstream,
        DomainPolicyMode::Blacklist => if is_listed(domains, host) {
            Route::Direct
        } else {
            Route::Upstream
        },
        DomainPolicyMode::Whitelist => if is_listed(domains, host) {
            Route::Upstream
        } else {
            Route::Direct
        },
    }
}

fn within(host: &[char], domain: &[char]) -> (r: bool)
    ensures
        r == is_within(host@, domain@),
{
    proof {
        reveal_strlit(".");
    }
    let ghost tail = "."@ + domain@;
    if host.len() == domain.len() {
        assert(host@.subrange(0, domain@.len() as int) == host@);
        return chars_occur_at(host, domain, 0);
    }
    if host.len() < domain.len() {
        return false;
    }
    let start: usize = host.len() - domain.len();
    let below = host[start - 1] == '.' && chars_occur_at(host, domain, start);
    proof {
        let at = start - 1;
        let piece = host@.subrange(at, at + tail.len());
        assert(at + tail.len() == host@.len());
        assert(tail[0] == '.');
        assert(tail.skip(1) == domain@);
        assert(piece.skip(1) == host@.subrange(start as int, start + domain@.len()));
        if below {
            assert(piece =~= tail) by {
                assert forall|k: int| 0 <= k < tail.len() implies piece[k] == tail[k] by {
                    if k > 0 {
                        assert(piece.skip(1)[k - 1] == tail.skip(1)[k - 1]);
                    }
                }
            }
        }
    }
    below
}

/// Whether the expression of a policy matches `host`.
pub fn matches_expression(expr: &str, host: &str) -> (r: bool)
    ensures
        r == expression_matches(expr@, host@),
{
    proof {
        reveal_strlit("domain:");
        reveal_strlit("suffix:");
        reveal_strlit("*.");
        reveal_strlit(".");
    }
    let e = chars_of(expr);
    let h = to_lower(chars_of(host).as_slice());
    let mut exact = false;
    let mut skipped: usize = 0;
    if chars_occur_at(e.as_slice(), chars_of("domain:").as_slice(), 0) {
        exact = true;
        skipped = 7;
    } else if chars_occur_at(e.as_slice(), chars_of("suffix:").as_slice(), 0) {
        skipped = 7;
    } else if chars_occur_at(e.as_slice(), chars_of("*.").as_slice(), 0) {
        skipped = 2;
    } else if chars_occur_at(e.as_slice(), chars_of(".").as_slice(), 0) {
        skipped = 1;
    }
    let d = to_lower(slice_subrange(e.as_slice(), skipped, e.len()));
    assert(e@.subrange(skipped as int, e@.len() as int) == expr@.skip(skipped as int));
    assert(expr@.skip(0) == expr@);
    if exact {
        assert(h@.len() == d@.len() ==> h@.subrange(0, d@.len() as int) == h@);
        h.len() == d.len() && chars_occur_at(h.as_slice(), d.as_slice(), 0)
    } else {
        within(h.as_slice(), d.as_slice())
    }
}

fn lists(domains: &[String], host: &str) -> (r: bool)
    ensures
        r == is_listed(domains@, host@),
{
    let mut i: usize = 0;
    while i < domains.len()
        invariant
            i <= domains@.len(),
            forall|k: int| 0 <= k < i ==> !expression_matches(#[trigger] domains@[k]@, host@),
        decreases domains@.len() - i,
    {
        if matches_expression(domains[i].as_str(), host) {
            return true;
        }
        i += 1;
    }
    false
}

impl DomainPolicyConfig {
    /// The way of a request to `host`.
    pub fn route(&self, host: &str) -> (r: Route)
        ensures
            r == policy_route(self.mode, self.domains@, host@),
    {
        match self.mode {
            DomainPolicyMode::Off => Route::Upstream,
            DomainPolicyMode::Blacklist => {
                if lists(self.domains.as_slice(), host) {
                    Route::Direct
                } else {
                    Route::Upstream
                }
            },
            DomainPolicyMode::Whitelist => {
                if lists(self.domains.as_slice(), host) {
                    Route::Upstream
                } else {
                    Route::Direct
                }
            },
        }
    }
}

/// Where a plain HTTP request is addressed to.
#[derive(Debug)]
pub struct HttpTarget {
    pub host: String,
    pub port: u16,
    /// The request target in the form that an origin server expects.
    pub origin: String,
}

pub struct HttpTargetView {
    pub host: Seq<char>,
    pub port: u16,
    pub origin: Seq<char>,
}

impl View for HttpTarget {
    type V = HttpTargetView;

    open spec fn view(&self) -> HttpTargetView {
        HttpTargetView { host: self.host@, port: self.port, origin: self.origin@ }
    }
}

/// Whether `path` is an absolute `http` URL.
pub open spec fn is_absolute(path: Seq<char>) -> bool {
    occurs_at(lower(path), "http://"@, 0)
}

/// Where the authority ends in what follows the scheme of a URL: at the first
/// slash or question mark, or at the end.
pub open spec fn authority_end(rest: Seq<char>) -> int {
    let slash = first_index(rest, '/');
    let question = first_index(rest, '?');
    if question < slash {
        question
    } else {
        slash
    }
}

/// Where a request with this target and this `Host` field is addressed to. The
/// host and the port of an absolute URL stand in its authority, behind any user
/// information, which ends at the last `@`; the rest of the URL is the path at the
/// origin. Any other target is a path at the host that the `Host` field names.
pub open spec fn http_target(path: Seq<char>, host: Option<Seq<char>>) -> Option<HttpTargetView> {
    let (authority, origin) = if is_absolute(path) {
        let rest = path.skip(7);
        let end = authority_end(rest);
        (
            Some(after_last(rest.take(end), '@')),
            if end < rest.len() && rest[end] == '/' {
                rest.skip(end)
            } else {
                "/"@ + rest.skip(end)
            },
        )
    } else {
        (host, path)
    };
    match authority {
        None => None,
        Some(a) => match host_and_port(a, DEFAULT_HTTP_PORT) {
            None => None,
            Some((host, port)) => Some(HttpTargetView { host, port, origin }),
        },
    }
}

/// Finds out where a request is addressed to.
pub fn find_http_target(path: &str, host: &Option<String>) -> (r: Option<HttpTarget>)
    ensures
        match r {
            Some(t) => http_target(path@, text_view(*host)) == Some(t@),
            None => http_target(path@, text_view(*host)) is None,
        },
{
    proof {
        reveal_strlit("http://");
    }
    let cs = chars_of(path);
    let low = to_lower(cs.as_slice());
    if chars_occur_at(low.as_slice(), chars_of("http://").as_slice(), 0) {
        let slash = find_char(cs.as_slice(), 7, '/');
        let question = find_char(cs.as_slice(), 7, '?');
        let end: usize = if question < slash {
            question
        } else {
            slash
        };
        let start = last_start(cs.as_slice(), 7, end, '@');
        let authority = text_of(cs.as_slice(), start, end);
        let path_there = text_of(cs.as_slice(), end, cs.len());
        let ghost rest = path@.skip(7);
        assert(cs@.subrange(7, end as int) == rest.take(end - 7));
        assert(path_there@ == rest.skip(end - 7));
        let origin = if end < cs.len() && cs[end] == '/' {
            path_there
        } else {
            let mut o = "/".to_string();
            o.push_str(path_there.as_str());
            o
        };
        match split_host_port(authority.as_str(), DEFAULT_HTTP_PORT) {
            Some((host, port)) => Some(HttpTarget { host, port, origin }),
            None => None,
        }
    } else {
        match host {
            Some(h) => match split_host_port(h.as_str(), DEFAULT_HTTP_PORT) {
                Some((host, port)) => Some(HttpTarget { host, port, origin: path.to_string() }),
                None => None,
            },
            None => None,
        }
    }
}

/// Finds out whether the request that `plan` describes goes straight to its target,
/// and to which one. A request without a target goes through an upstream.
pub fn route_forward(plan: &ForwardPlan, policy: &DomainPolicyConfig) -> (r: Option<HttpTarget>)
    ensures
        match r {
            Some(t) => http_target(plan.path@, text_view(plan.host)) == Some(t@) && policy_route(
                policy.mode,
                policy.domains@,
                t.host@,
            ) == Route::Direct,
            None => match http_target(plan.path@, text_view(plan.host)) {
                Some(v) => policy_route(policy.mode, policy.domains@, v.host) == Route::Upstream,
                None => true,
            },
        },
{
    match find_http_target(plan.path.as_str(), &plan.host) {
        Some(target) => match policy.route(target.host.as_str()) {
            Route::Direct => Some(target),
            Route::Upstream => None,
        },
        None => None,
    }
}

/// A request line with its target replaced by `origin`; the target stands
/// between the first two spaces.
pub open spec fn origin_line(line: Seq<u8>, origin: Seq<u8>) -> Seq<u8> {
    let first = first_index(line, 32u8);
    if first >= line.len() {
        line
    } else {
        let second = first + 1 + first_index(line.skip(first + 1), 32u8);
        line.take(first + 1) + origin + line.skip(second)
    }
}

/// The lines to send to the origin server in place of `head`: the request line
/// with the target in origin form, and the header lines but for any
/// `Proxy-Authorization`.
pub open spec fn direct_lines(head: Seq<u8>, origin: Seq<char>) -> Seq<Seq<u8>> {
    let lines = split_lines(head);
    seq![origin_line(lines[0], encode_utf8(origin))] + forwarded_fields(lines.drop_first(), None)
}

fn push_origin_line(out: &mut Vec<u8>, line: &[u8], origin: &[u8])
    ensures
        final(out)@ == old(out)@ + origin_line(line@, origin@),
{
    let first = find_byte(line, 0, 32);
    assert(line@.skip(0) == line@);
    if first >= line.len() {
        push_bytes(out, line);
    } else {
        let second = find_byte(line, first + 1, 32);
        push_bytes(out, slice_subrange(line, 0, first + 1));
        push_bytes(out, origin);
        push_bytes(out, slice_subrange(line, second, line.len()));
        assert(line@.subrange(0, first + 1) == line@.take(first + 1));
        assert(line@.subrange(second as int, line@.len() as int) == line@.skip(second as int));
        assert(out@ == old(out)@ + (line@.take(first + 1) + origin@ + line@.skip(
            second as int,
        )));
    }
}

/// Rewrites the request head in `raw[..body_offset]` for the origin server.
pub fn rewrite_for_origin(raw: &[u8], body_offset: usize, origin: &str) -> (r: Vec<u8>)
    requires
        body_offset <= raw@.len(),
    ensures
        r@ == terminated(direct_lines(raw@.take(body_offset as int), origin@)),
{
    let head = slice_subrange(raw, 0, body_offset);
    let ghost lines = direct_lines(head@, origin@);
    assert(head@ == raw@.take(body_offset as int));
    let end = find_line_end(head, 0);
    assert(head@.skip(0) == head@);
    let line = slice_subrange(head, 0, end);
    let mut out: Vec<u8> = Vec::new();
    push_origin_line(&mut out, line, origin.as_bytes());
    push_crlf(&mut out);
    push_fields_after(&mut out, head, end, None);
    proof {
        lemma_split_step(head@);
        assert(line@ == split_lines(head@)[0]);
        assert(lines.drop_first() == forwarded_fields(split_lines(head@).drop_first(), None));
        assert(out@ == lines[0] + crlf() + terminated(lines.drop_first()));
    }
    out
}

/// A request that goes straight to its target carries no `Proxy-Authorization`.
pub proof fn law_direct_head_has_no_credentials(head: Seq<u8>, origin: Seq<char>, k: int)
    requires
        1 <= k < direct_lines(head, origin).len(),
    ensures
        !is_proxy_authorization(direct_lines(head, origin)[k]),
{
    let fields = split_lines(head).drop_first();
    let line = direct_lines(head, origin)[k];
    assert(line == forwarded_fields(fields, None)[k - 1]);
    if is_proxy_authorization(line) {
        lemma_fields_hide_credentials(fields, None, k - 1);
    }
}

/// Without a policy every request goes through an upstream.
pub proof fn law_off_means_upstream(domains: Seq<String>, host: Seq<char>)
    ensures
        policy_route(DomainPolicyMode::Off, domains, host) == Route::Upstream,
{
}

/// A blacklist and a whitelist of the same domains send every host different ways.
pub proof fn law_lists_are_complementary(domains: Seq<String>, host: Seq<char>)
    ensures
        policy_route(DomainPolicyMode::Blacklist, domains, host) != policy_route(
            DomainPolicyMode::Whitelist,
            domains,
            host,
        ),
{
}

/// ASCII case does not matter in the host name.
pub proof fn law_host_case_is_ignored(mode: DomainPolicyMode, domains: Seq<String>, host: Seq<char>)
    ensures
        policy_route(mode, domains, lower(host)) == policy_route(mode, domains, host),
{
    assert(lower(lower(host)) == lower(host));
    assert forall|e: Seq<char>| expression_matches(e, lower(host)) == #[trigger] expression_matches(
        e,
        host,
    ) by {
    }
    assert(is_listed(domains, lower(host)) == is_listed(domains, host)) by {
        if is_listed(domains, host) {
            let i = choose|i: int|
                0 <= i < domains.len() && expression_matches(#[trigger] domains[i]@, host);
            assert(expression_matches(domains[i]@, lower(host)));
        }
        if is_listed(domains, lower(host)) {
            let i = choose|i: int|
                0 <= i < domains.len() && expression_matches(#[trigger] domains[i]@, lower(host));
            assert(expression_matches(domains[i]@, host));
        }
    }
}

proof fn lemma_prefixed(p: Seq<char>, d: Seq<char>)
    ensures
        occurs_at(p + d, p, 0),
        (p + d).skip(p.len() as int) == d,
{
    assert((p + d).subrange(0, p.len() as int) == p);
}

/// `suffix:d`, `*.d` and `.d` say the same, and so does plain `d` where it is not
/// itself one of the prefixed forms.
pub proof fn law_suffix_forms_agree(d: Seq<char>, host: Seq<char>)
    ensures
        expression_matches("suffix:"@ + d, host) == is_within(lower(host), lower(d)),
        expression_matches("*."@ + d, host) == is_within(lower(host), lower(d)),
        expression_matches("."@ + d, host) == is_within(lower(host), lower(d)),
        !occurs_at(d, "domain:"@, 0) && !occurs_at(d, "suffix:"@, 0) && !occurs_at(d, "*."@, 0)
            && !occurs_at(d, "."@, 0) ==> expression_matches(d, host) == is_within(
            lower(host),
            lower(d),
        ),
{
    reveal_strlit("domain:");
    reveal_strlit("suffix:");
    reveal_strlit("*.");
    reveal_strlit(".");
    lemma_prefixed("suffix:"@, d);
    lemma_prefixed("*."@, d);
    lemma_prefixed("."@, d);
    lemma_first_chars_differ("suffix:"@ + d, "domain:"@);
    lemma_first_chars_differ("*."@ + d, "domain:"@);
    lemma_first_chars_differ("*."@ + d, "suffix:"@);
    lemma_first_chars_differ("."@ + d, "domain:"@);
    lemma_first_chars_differ("."@ + d, "suffix:"@);
    lemma_first_chars_differ("."@ + d, "*."@);
}

proof fn lemma_first_chars_differ(s: Seq<char>, p: Seq<char>)
    requires
        s.len() > 0,
        p.len() > 0,
        s[0] != p[0],
    ensures
        !occurs_at(s, p, 0),
{
    if occurs_at(s, p, 0) {
        assert(s.subrange(0, p.len() as int)[0] == s[0]);
    }
}

/// `domain:d` matches `d` and nothing else; so whatever it matches is also
/// matched by `suffix:d`.
pub proof fn law_exact_form(d: Seq<char>, host: Seq<char>)
    ensures
        expression_matches("domain:"@ + d, host) == (lower(host) == lower(d)),
        expression_matches("domain:"@ + d, host) ==> expression_matches("suffix:"@ + d, host),
{
    reveal_strlit("domain:");
    lemma_prefixed("domain:"@, d);
    law_suffix_forms_agree(d, host);
}

/// A name with a label in front of `d` lies within `d`, and is not matched by
/// `domain:d`.
pub proof fn law_suffix_covers_subdomains(label: Seq<char>, d: Seq<char>)
    ensures
        expression_matches("suffix:"@ + d, label + "."@ + d),
        !expression_matches("domain:"@ + d, label + "."@ + d),
{
    reveal_strlit(".");
    let host = label + "."@ + d;
    law_suffix_forms_agree(d, host);
    law_exact_form(d, host);
    let h = lower(host);
    let tail = "."@ + lower(d);
    let at = h.len() - lower(d).len() - 1;
    assert(at == label.len());
    assert(h.subrange(at, at + tail.len()) =~= tail) by {
        assert forall|k: int| 0 <= k < tail.len() implies h.subrange(at, at + tail.len())[k]
            == tail[k] by {
            if k > 0 {
                assert(host[at + k] == d[k - 1]);
            } else {
                assert(host[at] == '.');
            }
        }
    }
    assert(lower(host).len() != lower(d).len());
}

/// A host lies within a domain just if it is the domain, or ends with it behind a
/// dot.
pub proof fn law_within_a_domain(host: Seq<char>, domain: Seq<char>)
    ensures
        is_within(host, domain) <==> host == domain || (host.len() > domain.len() && host[host.len()
            - domain.len() - 1] == '.' && host.skip(host.len() - domain.len()) == domain),
{
    reveal_strlit(".");
    let tail = "."@ + domain;
    let at = host.len() - domain.len() - 1;
    law_occurrence(host, tail, at);
    if occurs_at(host, tail, at) {
        assert(host[at + 0] == tail[0]);
        assert forall|k: int| 0 <= k < domain.len() implies host[at + 1 + k] == domain[k] by {
            assert(host[at + (k + 1)] == tail[k + 1]);
        }
        assert(host.skip(at + 1) =~= domain);
    }
    if host.len() > domain.len() && host[at] == '.' && host.skip(at + 1) == domain {
        assert forall|k: int| 0 <= k < tail.len() implies host[at + k] == #[trigger] tail[k] by {
            if k > 0 {
                assert(host.skip(at + 1)[k - 1] == domain[k - 1]);
            }
        }
    }
}

/// What each form of an expression means: `domain:` stands for that host alone, and
/// every other form for the domain with all that lies below it, whatever the case of
/// the letters.
pub proof fn law_forms_of_expressions(d: Seq<char>, host: Seq<char>)
    ensures
        ({
            let h = lower(host);
            let l = lower(d);
            let below = h == l || (h.len() > l.len() && h[h.len() - l.len() - 1] == '.' && h.skip(
                h.len() - l.len(),
            ) == l);
            &&& expression_matches("domain:"@ + d, host) == (h == l)
            &&& expression_matches("suffix:"@ + d, host) == below
            &&& expression_matches("*."@ + d, host) == below
            &&& expression_matches("."@ + d, host) == below
            &&& d.len() > 0 && d[0] != '.' && d[0] != '*' && !d.contains(':') ==> expression_matches(
                d,
                host,
            ) == below
        }),
{
    law_within_a_domain(lower(host), lower(d));
    law_exact_form(d, host);
    law_suffix_forms_agree(d, host);
    reveal_strlit("domain:");
    reveal_strlit("suffix:");
    reveal_strlit("*.");
    reveal_strlit(".");
    if d.len() > 0 && d[0] != '.' && d[0] != '*' && !d.contains(':') {
        lemma_first_chars_differ(d, "*."@);
        lemma_first_chars_differ(d, "."@);
        if occurs_at(d, "domain:"@, 0) {
            assert(d.subrange(0, 7)[6] == ':');
            assert(d.contains(d[6]));
        }
        if occurs_at(d, "suffix:"@, 0) {
            assert(d.subrange(0, 7)[6] == ':');
            assert(d.contains(d[6]));
        }
    }
}

/// A blacklist sends just the listed hosts straight to their target, and a whitelist
/// just the others. A host is listed if any one of the expressions matches it.
pub proof fn law_policies(domains: Seq<String>, host: Seq<char>, k: int)
    ensures
        0 <= k < domains.len() && expression_matches(domains[k]@, host) ==> policy_route(
            DomainPolicyMode::Blacklist,
            domains,
            host,
        ) == Route::Direct && policy_route(DomainPolicyMode::Whitelist, domains, host)
            == Route::Upstream,
        (forall|i: int|
            0 <= i < domains.len() ==> !expression_matches(#[trigger] domains[i]@, host))
            ==> policy_route(DomainPolicyMode::Blacklist, domains, host) == Route::Upstream
            && policy_route(DomainPolicyMode::Whitelist, domains, host) == Route::Direct,
        policy_route(DomainPolicyMode::Off, domains, host) == Route::Upstream,
{
}

/// An absolute URL is addressed to the host and the port that stand in it, behind any
/// user information, by default to port 80; the server there is asked for the rest of
/// the URL, which starts with a slash.
#[verifier::spinoff_prover]
pub proof fn law_absolute_target(
    scheme: Seq<char>,
    user: Seq<char>,
    authority: Seq<char>,
    rest: Seq<char>,
    field: Option<Seq<char>>,
)
    requires
        lower(scheme) == "http://"@,
        user.len() > 0 ==> user.last() == '@',
        forall|i: int| 0 <= i < user.len() ==> #[trigger] user[i] != '/' && user[i] != '?',
        forall|i: int|
            0 <= i < authority.len() ==> #[trigger] authority[i] != '/' && authority[i] != '?'
                && authority[i] != '@',
        rest.len() > 0 ==> rest[0] == '/' || rest[0] == '?',
    ensures
        http_target(scheme + user + authority + rest, field) == (match host_and_port(
            authority,
            80,
        ) {
            Some((host, port)) => Some(
                HttpTargetView {
                    host,
                    port,
                    origin: if rest.len() > 0 && rest[0] == '/' {
                        rest
                    } else {
                        seq!['/'] + rest
                    },
                },
            ),
            None => None,
        }),
{
    reveal_strlit("http://");
    reveal_strlit("/");
    let path = scheme + user + authority + rest;
    let front = user + authority;
    let n = front.len() as int;
    assert(scheme.len() == 7) by {
        assert(lower(scheme).len() == scheme.len());
    }
    assert(lower(path).subrange(0, 7) =~= lower(scheme));
    assert(is_absolute(path));
    let tail = path.skip(7);
    assert(tail =~= front + rest);
    assert forall|j: int| 0 <= j < n implies tail[j] != '/' && tail[j] != '?' by {
        if j < user.len() {
            assert(tail[j] == user[j]);
        } else {
            assert(tail[j] == authority[j - user.len()]);
        }
    }
    lemma_authority_end(tail, n);
    assert(authority_end(tail) == n);
    assert(tail.take(n) =~= front);
    assert(tail.skip(n) =~= rest);
    law_after_last(front, '@');
    let r = after_last(front, '@');
    let start = front.len() - r.len();
    assert(start == user.len()) by {
        if start > user.len() {
            assert(front[start - 1] == authority[start - 1 - user.len()]);
        } else if start < user.len() {
            assert(r[user.len() - 1 - start] == front[user.len() - 1]);
            assert(front[user.len() - 1] == user.last());
        }
    }
    assert(r =~= authority);
    assert("/"@ =~= seq!['/']);
}

proof fn lemma_authority_end(tail: Seq<char>, n: int)
    requires
        0 <= n <= tail.len(),
        n < tail.len() ==> tail[n] == '/' || tail[n] == '?',
        forall|j: int| 0 <= j < n ==> #[trigger] tail[j] != '/' && tail[j] != '?',
    ensures
        authority_end(tail) == n,
{
    let slash = first_index(tail, '/');
    let question = first_index(tail, '?');
    law_first_index(tail, '/');
    law_first_index(tail, '?');
    assert(slash >= n && question >= n) by {
        if slash < n {
            assert(tail[slash] == '/');
        }
        if question < n {
            assert(tail[question] == '?');
        }
    }
    if n < tail.len() {
        assert(slash == n || question == n) by {
            if slash > n && question > n {
                assert(tail[n] != '/' && tail[n] != '?');
            }
        }
    }
}

/// Any other target is a path at the host that the `Host` field names, by default at
/// port 80; without the field there is nowhere to go to.
pub proof fn law_relative_target(path: Seq<char>, field: Option<Seq<char>>)
    requires
        path.len() < 7 || lower(path).take(7) != "http://"@,
    ensures
        field is None ==> http_target(path, field) is None,
        field matches Some(name) ==> http_target(path, field) == (match host_and_port(name, 80) {
            Some((host, port)) => Some(HttpTargetView { host, port, origin: path }),
            None => None,
        }),
{
    reveal_strlit("http://");
    if is_absolute(path) {
        assert(lower(path).subrange(0, 7) == lower(path).take(7));
    }
}

/// In a request line of method, target and version, the target alone is replaced.
pub proof fn law_origin_line(
    method: Seq<u8>,
    target: Seq<u8>,
    version: Seq<u8>,
    origin: Seq<u8>,
)
    requires
        forall|i: int| 0 <= i < method.len() ==> #[trigger] method[i] != 32,
        forall|i: int| 0 <= i < target.len() ==> #[trigger] target[i] != 32,
    ensures
        origin_line(method + seq![32u8] + target + seq![32u8] + version, origin) == method
            + seq![32u8] + origin + seq![32u8] + version,
{
    let line = method + seq![32u8] + target + seq![32u8] + version;
    let n = method.len() as int;
    assert forall|j: int| 0 <= j < n implies line[j] != 32 by {
        assert(line[j] == method[j]);
    }
    lemma_first_index(line, 32u8, n);
    let rest = line.skip(n + 1);
    let m = target.len() as int;
    assert forall|j: int| 0 <= j < m implies rest[j] != 32 by {
        assert(rest[j] == target[j]);
    }
    assert(rest[m] == 32);
    lemma_first_index(rest, 32u8, m);
    assert(line.take(n + 1) =~= method + seq![32u8]);
    assert(line.skip(n + 1 + m) =~= seq![32u8] + version);
    assert(origin_line(line, origin) =~= method + seq![32u8] + origin + seq![32u8] + version);
}

/// What a target gets of a request that goes straight to it: the request line with
/// the target in origin form, and every header line but those that name
/// `Proxy-Authorization`, in order and byte for byte.
pub proof fn law_direct_head(head: Seq<u8>, fields: Seq<Seq<u8>>, line: Seq<u8>, origin: Seq<char>)
    requires
        split_lines(head) == (seq![line] + fields).push(Seq::empty()).push(Seq::empty()),
        forall|i: int| 0 <= i < fields.len() ==> (#[trigger] fields[i]).len() > 0,
    ensures
        direct_lines(head, origin) == (seq![origin_line(line, encode_utf8(origin))] + fields.filter(
            |f: Seq<u8>| !names_proxy_authorization(f),
        )).push(Seq::empty()),
{
    let pieces = split_lines(head);
    assert(pieces.drop_first() =~= fields.push(Seq::empty()) + seq![Seq::<u8>::empty()]);
    law_forwarded_fields(fields, seq![Seq::<u8>::empty()], None);
    let kept = fields.filter(|f: Seq<u8>| !names_proxy_authorization(f));
    assert(direct_lines(head, origin) =~= (seq![origin_line(line, encode_utf8(origin))]
        + kept).push(Seq::empty()));
}

/// Of the running code: hosts are matched and routed, and requests addressed, as
/// described here.
pub proof fn law_requests_are_routed(
    policy: DomainPolicyConfig,
    host: &str,
    expr: &str,
    field: &Option<String>,
    matched: bool,
    route: Route,
    target: Option<HttpTarget>,
)
    ensures
        call_ensures(matches_expression, (expr, host), matched) ==> matched == expression_matches(
            expr@,
            host@,
        ),
        call_ensures(DomainPolicyConfig::route, (&policy, host), route) ==> route == policy_route(
            policy.mode,
            policy.domains@,
            host@,
        ),
        call_ensures(find_http_target, (host, field), target) ==> ({
            let named = http_target(
                host@,
                match *field {
                    Some(f) => Some(f@),
                    None => None,
                },
            );
            match target {
                Some(t) => named matches Some(v) && v.host == t.host@ && v.port == t.port && v.origin
                    == t.origin@,
                None => named is None,
            }
        }),
{
}

/// Of the running code: a plain request goes straight to its target just if the policy
/// sends the host of that target there.
pub proof fn law_plain_requests_are_routed(
    plan: ForwardPlan,
    policy: DomainPolicyConfig,
    r: Option<HttpTarget>,
    named: HttpTargetView,
)
    requires
        call_ensures(route_forward, (&plan, &policy), r),
        http_target(
            plan.path@,
            match plan.host {
                Some(f) => Some(f@),
                None => None,
            },
        ) == Some(named),
    ensures
        r is Some <==> policy_route(policy.mode, policy.domains@, named.host) == Route::Direct,
        r matches Some(t) ==> t.host@ == named.host && t.port == named.port && t.origin@
            == named.origin,
{
}

/// Of the running code: the head for an origin server is made of these lines.
pub proof fn law_heads_for_origin_servers(
    raw: &[u8],
    body_offset: usize,
    origin: &str,
    r: Vec<u8>,
)
    requires
        body_offset <= raw@.len(),
        call_ensures(rewrite_for_origin, (raw, body_offset, origin), r),
    ensures
        r@ == terminated(direct_lines(raw@.take(body_offset as int), origin@)),
{
}

} // verus!
