use http_proxy_lb::config::{DomainPolicyConfig, DomainPolicyMode};
use http_proxy_lb::domain::{
    find_http_target, matches_expression, rewrite_for_origin, route_forward, Route,
};
use http_proxy_lb::http::{plan_request, ForwardPlan, RequestPlan};

fn policy(mode: DomainPolicyMode, domains: &[&str]) -> DomainPolicyConfig {
    DomainPolicyConfig {
        mode,
        domains: domains.iter().map(|d| d.to_string()).collect(),
    }
}

#[test]
fn exact_expression() {
    assert!(matches_expression("domain:example.com", "Example.COM"));
    assert!(!matches_expression("domain:example.com", "www.example.com"));
    assert!(!matches_expression("domain:example.com", "example.org"));
    assert!(!matches_expression("domain:example.com", "badexample.com"));
}

#[test]
fn suffix_expressions() {
    for e in ["suffix:example.com", "*.example.com", ".example.com", "example.com", "EXAMPLE.com"] {
        assert!(matches_expression(e, "example.com"), "{e}");
        assert!(matches_expression(e, "a.b.example.com"), "{e}");
        assert!(!matches_expression(e, "badexample.com"), "{e}");
        assert!(!matches_expression(e, "com"), "{e}");
        assert!(!matches_expression(e, "example.com.org"), "{e}");
        assert!(!matches_expression(e, ""), "{e}");
    }
}

#[test]
fn policy_off_uses_upstream() {
    let p = policy(DomainPolicyMode::Off, &["example.com"]);
    assert_eq!(p.route("example.com"), Route::Upstream);
    assert_eq!(p.route("other.org"), Route::Upstream);
}

#[test]
fn blacklisted_domains_go_direct() {
    let p = policy(DomainPolicyMode::Blacklist, &["a.org", "domain:example.com"]);
    assert_eq!(p.route("example.com"), Route::Direct);
    assert_eq!(p.route("x.a.org"), Route::Direct);
    assert_eq!(p.route("www.example.com"), Route::Upstream);
    assert_eq!(policy(DomainPolicyMode::Blacklist, &[]).route("x"), Route::Upstream);
}

#[test]
fn whitelisted_domains_use_upstream() {
    let p = policy(DomainPolicyMode::Whitelist, &["a.org", "domain:example.com"]);
    assert_eq!(p.route("example.com"), Route::Upstream);
    assert_eq!(p.route("X.A.org"), Route::Upstream);
    assert_eq!(p.route("www.example.com"), Route::Direct);
    assert_eq!(policy(DomainPolicyMode::Whitelist, &[]).route("x"), Route::Direct);
}

#[test]
fn targets_of_plain_requests() {
    let t = find_http_target("http://h:81/p?q", &None).unwrap();
    assert_eq!((t.host.as_str(), t.port, t.origin.as_str()), ("h", 81, "/p?q"));
    let t = find_http_target("HTTP://h", &Some("other".to_string())).unwrap();
    assert_eq!((t.host.as_str(), t.port, t.origin.as_str()), ("h", 80, "/"));
    let t = find_http_target("/p", &Some("h:8080".to_string())).unwrap();
    assert_eq!((t.host.as_str(), t.port, t.origin.as_str()), ("h", 8080, "/p"));
    let t = find_http_target("http://h?q=/", &None).unwrap();
    assert_eq!((t.host.as_str(), t.port, t.origin.as_str()), ("h", 80, "/?q=/"));
    assert!(find_http_target("/p", &None).is_none());
    assert!(find_http_target("http:///p", &Some("h".to_string())).is_none());
    assert!(find_http_target("/p", &Some(":80".to_string())).is_none());
}

#[test]
fn user_information_is_not_the_host() {
    let t = find_http_target("http://u:p@e.com/x@y", &None).unwrap();
    assert_eq!((t.host.as_str(), t.port, t.origin.as_str()), ("e.com", 80, "/x@y"));
    let t = find_http_target("http://a@b@e.com:81", &None).unwrap();
    assert_eq!((t.host.as_str(), t.port, t.origin.as_str()), ("e.com", 81, "/"));
    assert!(find_http_target("http://u@/", &None).is_none());
    let policy = policy(DomainPolicyMode::Blacklist, &["e.com"]);
    let t = find_http_target("http://u:p@e.com/", &None).unwrap();
    assert_eq!(policy.route(&t.host), Route::Direct);
}

#[test]
fn head_for_the_origin_server() {
    let rewrite = |head: &str| {
        String::from_utf8(rewrite_for_origin(head.as_bytes(), head.len(), "/p")).unwrap()
    };
    assert_eq!(
        rewrite("GET http://h/p HTTP/1.1\r\nHost: h\r\nProxy-Authorization: x\r\nA: b\r\n\r\n"),
        "GET /p HTTP/1.1\r\nHost: h\r\nA: b\r\n\r\n"
    );
    assert_eq!(rewrite("nonsense"), "nonsense\r\n");
    assert_eq!(rewrite("GET x"), "GET /p\r\n");
    let raw = b"GET http://h HTTP/1.0\r\nA: \xff\r\n\r\nbody";
    assert_eq!(
        rewrite_for_origin(raw, raw.len() - 4, "/"),
        b"GET / HTTP/1.0\r\nA: \xff\r\n\r\n".to_vec()
    );
}

fn plan(raw: &[u8]) -> ForwardPlan {
    match plan_request(raw) {
        Ok(RequestPlan::Forward(plan)) => plan,
        other => panic!("{other:?}"),
    }
}

#[test]
fn ways_of_plain_requests() {
    let black = policy(DomainPolicyMode::Blacklist, &["h.org"]);
    let white = policy(DomainPolicyMode::Whitelist, &["h.org"]);
    let listed = plan(b"GET http://h.org:81/p HTTP/1.1\r\n\r\n");
    let t = route_forward(&listed, &black).unwrap();
    assert_eq!((t.host.as_str(), t.port, t.origin.as_str()), ("h.org", 81, "/p"));
    assert!(route_forward(&listed, &white).is_none());
    let other = plan(b"GET /q HTTP/1.1\r\nHost: x.com\r\n\r\n");
    assert!(route_forward(&other, &black).is_none());
    let t = route_forward(&other, &white).unwrap();
    assert_eq!((t.host.as_str(), t.port, t.origin.as_str()), ("x.com", 80, "/q"));
    let nowhere = plan(b"GET /q HTTP/1.1\r\n\r\n");
    assert!(route_forward(&nowhere, &black).is_none());
    assert!(route_forward(&nowhere, &white).is_none());
}
