use http_proxy_lb::config::{
    BalanceMode, Config, DomainPolicyConfig, HealthCheckConfig, LimitsConfig, UpstreamConfig,
};
use http_proxy_lb::health::{build_probe_request, finish_probe, probe_offline, probe_status};
use http_proxy_lb::http::HttpError;
use http_proxy_lb::json::escape_json;
use http_proxy_lb::limits::timeout_response;
use http_proxy_lb::reload::ReloadWatcher;
use http_proxy_lb::text::{
    bytes_occur, chars_of, escape_label, push_decimal, push_signed_decimal, same_ignoring_case,
};
use http_proxy_lb::upstream::UpstreamPool;

fn config(urls: &[&str]) -> Config {
    Config {
        listen: "127.0.0.1:8080".to_string(),
        admin_listen: None,
        mode: BalanceMode::RoundRobin,
        reload_interval_secs: 0,
        health_check: HealthCheckConfig::default(),
        domain_policy: DomainPolicyConfig::default(),
        limits: LimitsConfig::default(),
        access_log: false,
        upstream: urls
            .iter()
            .map(|u| UpstreamConfig {
                url: u.to_string(),
                weight: 1,
                priority: 100,
                username: None,
                password: None,
            })
            .collect(),
    }
}

#[test]
fn probe_request_text() {
    assert_eq!(
        build_probe_request(None),
        "GET http://connectivitycheck.gstatic.com/generate_204 HTTP/1.1\r\n\
         Host: connectivitycheck.gstatic.com\r\nConnection: close\r\n\r\n"
    );
    assert_eq!(
        build_probe_request(Some("Basic x".to_string())),
        "GET http://connectivitycheck.gstatic.com/generate_204 HTTP/1.1\r\n\
         Host: connectivitycheck.gstatic.com\r\nProxy-Authorization: Basic x\r\n\
         Connection: close\r\n\r\n"
    );
}

#[test]
fn offline_upstreams_are_probed() {
    let mut pool = UpstreamPool::from_config(&config(&["http://a:1", "http://b:2", "http://:3"]));
    assert!(probe_offline(&pool).is_empty());
    pool.entries[1].mark_offline();
    pool.entries[2].mark_offline();
    let probes = probe_offline(&pool);
    assert_eq!(probes.len(), 1);
    assert_eq!((probes[0].host.as_str(), probes[0].port), ("b", 2));
    assert_eq!(probes[0].lease.id, 1);
    assert_eq!(probes[0].request, build_probe_request(None));
    let lease = probes[0].lease;
    assert!(!finish_probe(&mut pool, lease, None));
    assert!(!finish_probe(&mut pool, lease, Some(200)));
    assert!(!pool.entries[1].is_online());
    assert!(finish_probe(&mut pool, lease, Some(204)));
    assert!(pool.entries[1].is_online());
}

#[test]
fn probes_of_one_url_listed_twice() {
    let cfg = config(&["http://a:1", "http://a:1"]);
    let mut pool = UpstreamPool::from_config(&cfg);
    pool.reload(&cfg);
    pool.entries[0].mark_offline();
    pool.entries[1].mark_offline();
    let probes = probe_offline(&pool);
    assert_eq!(probes.len(), 2);
    assert!(finish_probe(&mut pool, probes[0].lease, Some(204)));
    assert!(!finish_probe(&mut pool, probes[1].lease, None));
    assert!(pool.entries[0].is_online());
    assert!(!pool.entries[1].is_online());
}

#[test]
fn probe_answers() {
    assert_eq!(probe_status(b"HTTP/1.1 204 No Content\r\n\r\n"), Ok(204));
    assert_eq!(probe_status(b"HTTP/1.1 502 Bad Gateway\r\n\r\n"), Ok(502));
    assert_eq!(probe_status(b"\x00\r\n\r\n"), Err(HttpError::Malformed));
    assert_eq!(probe_status(b""), Err(HttpError::MissingStatus));
}

#[test]
fn reload_follows_the_file() {
    let mut pool = UpstreamPool::from_config(&config(&["http://a:1"]));
    let mut w = ReloadWatcher::new(Some(1));
    assert!(!w.is_stale(Some(1)));
    assert!(w.is_stale(Some(2)));
    assert!(w.is_stale(None));
    assert!(!w.update(&mut pool, Some(1), Some(&config(&["http://x:1"]))));
    assert_eq!(pool.entries[0].config.url, "http://a:1");
    // a file that cannot be loaded is tried again
    assert!(!w.update(&mut pool, Some(2), None));
    assert!(w.is_stale(Some(2)));
    assert!(w.update(&mut pool, Some(2), Some(&config(&["http://b:1"]))));
    assert!(!w.is_stale(Some(2)));
    assert_eq!(pool.entries[0].config.url, "http://b:1");
    assert!(!ReloadWatcher::new(None).is_stale(None));
}

#[test]
fn connections_are_limited() {
    let mut limits = LimitsConfig::default();
    assert!(limits.refusal(u64::MAX).is_none());
    assert_eq!(limits.request_timeout(), None);
    limits.max_connections = 2;
    limits.request_timeout_secs = 9;
    assert!(limits.refusal(1).is_none());
    let text =
        "HTTP/1.1 503 Service Unavailable\r\nContent-Length: 0\r\nConnection: close\r\n\r\n";
    assert_eq!(limits.refusal(2).unwrap(), text);
    assert_eq!(limits.refusal(3).unwrap(), text);
    assert_eq!(limits.request_timeout(), Some(9));
    assert_eq!(limits.shutdown_timeout(), Some(30));
    limits.shutdown_timeout_secs = 0;
    assert_eq!(limits.shutdown_timeout(), None);
    assert_eq!(
        timeout_response(),
        "HTTP/1.1 504 Gateway Timeout\r\nContent-Length: 0\r\nConnection: close\r\n\r\n"
    );
}

#[test]
fn numbers_and_text() {
    let mut s = String::new();
    push_decimal(&mut s, u64::MAX);
    s.push(' ');
    push_decimal(&mut s, 0);
    s.push(' ');
    push_signed_decimal(&mut s, i64::MIN);
    s.push(' ');
    push_signed_decimal(&mut s, 1020);
    assert_eq!(s, "18446744073709551615 0 -9223372036854775808 1020");
    assert_eq!(escape_label("a\"\nb\\"), "a\\\"\\nb\\\\");
    assert_eq!(escape_json("a\"\n\u{1b}b\\"), "a\\\"\\u000a\\u001bb\\\\");
    assert_eq!(chars_of("a\u{20ac}"), vec!['a', '\u{20ac}']);
    assert!(same_ignoring_case("aBc\u{c9}", "AbC\u{c9}"));
    assert!(!same_ignoring_case("\u{e9}", "\u{c9}"));
    assert!(!same_ignoring_case("a", "ab"));
    assert!(bytes_occur(b"abcabd", b"abd"));
    assert!(!bytes_occur(b"abcab", b"abd"));
    assert!(bytes_occur(b"", b""));
}
