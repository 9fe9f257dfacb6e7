use http_proxy_lb::config::{
    BalanceMode, Config, DomainPolicyConfig, HealthCheckConfig, LimitsConfig, UpstreamConfig,
};
use http_proxy_lb::http::{plan_request, BodyPlan, ConnectReply, RequestPlan};
use http_proxy_lb::session::{
    ConnectAction, ConnectEvent, ConnectSession, ConnectStage, ForwardAction, ForwardEvent,
    ForwardSession, ForwardStage, Outcome,
};
use http_proxy_lb::upstream::UpstreamPool;

fn config(urls: &[&str]) -> Config {
    let upstream = urls
        .iter()
        .map(|u| UpstreamConfig {
            url: u.to_string(),
            weight: 1,
            priority: 100,
            username: Some("u".to_string()),
            password: Some("p".to_string()),
        })
        .collect();
    Config {
        listen: "127.0.0.1:8080".to_string(),
        admin_listen: None,
        mode: BalanceMode::RoundRobin,
        reload_interval_secs: 0,
        health_check: HealthCheckConfig::default(),
        domain_policy: DomainPolicyConfig::default(),
        limits: LimitsConfig::default(),
        access_log: false,
        upstream,
    }
}

fn make_pool(urls: &[&str]) -> UpstreamPool {
    UpstreamPool::from_config(&config(urls))
}

fn connect(pool: &UpstreamPool) -> ConnectSession {
    ConnectSession::new(
        "target".to_string(),
        443,
        b"hi".to_vec(),
        BalanceMode::Priority,
        pool,
    )
}

fn reply(status: u16) -> ConnectReply {
    ConnectReply {
        status,
        early: b"hello".to_vec(),
    }
}

fn forward(pool: &UpstreamPool, raw: &[u8]) -> ForwardSession {
    match plan_request(raw) {
        Ok(RequestPlan::Forward(plan)) => {
            ForwardSession::new(raw.to_vec(), &plan, BalanceMode::Priority, pool)
        }
        other => panic!("{other:?}"),
    }
}

fn assert_connect_dial(action: ConnectAction, expected: &str) {
    match action {
        ConnectAction::Dial { host, .. } => assert_eq!(host, expected),
        other => panic!("{other:?}"),
    }
}

fn assert_connect_refusal(action: ConnectAction, code: u16, message: &str) {
    match action {
        ConnectAction::Refuse(text) => assert_eq!(
            text,
            format!("HTTP/1.1 {code} {message}\r\nContent-Length: 0\r\nConnection: close\r\n\r\n")
        ),
        other => panic!("{other:?}"),
    }
}

fn assert_forward_dial(action: ForwardAction, expected: &str) {
    match action {
        ForwardAction::Dial { host, .. } => assert_eq!(host, expected),
        other => panic!("{other:?}"),
    }
}

fn assert_forward_refusal(action: ForwardAction, code: u16, message: &str) {
    match action {
        ForwardAction::Refuse(text) => assert_eq!(
            text,
            format!("HTTP/1.1 {code} {message}\r\nContent-Length: 0\r\nConnection: close\r\n\r\n")
        ),
        other => panic!("{other:?}"),
    }
}

const NOT_STARTED: ForwardEvent = ForwardEvent::UpstreamFailed {
    response_started: false,
};

const GET: &[u8] = b"GET http://t/ HTTP/1.1\r\nHost: t\r\n\r\n";

#[test]
fn tunnel_is_set_up_and_accounted_for() {
    let mut pool = make_pool(&["http://a:1"]);
    let mut s = connect(&pool);
    match s.step(&mut pool, ConnectEvent::Begin) {
        ConnectAction::Dial { host, port } => assert_eq!((host.as_str(), port), ("a", 1)),
        other => panic!("{other:?}"),
    }
    match s.step(&mut pool, ConnectEvent::Dialed) {
        ConnectAction::SendRequest(text) => assert_eq!(
            text,
            "CONNECT target:443 HTTP/1.1\r\nHost: target:443\r\n\
             Proxy-Authorization: Basic dTpw\r\n\r\n"
        ),
        other => panic!("{other:?}"),
    }
    assert!(matches!(
        s.step(&mut pool, ConnectEvent::RequestSent),
        ConnectAction::AwaitReply
    ));
    match s.step(&mut pool, ConnectEvent::Replied(reply(200))) {
        ConnectAction::Acknowledge(text) => {
            assert_eq!(text, "HTTP/1.1 200 Connection Established\r\n\r\n")
        }
        other => panic!("{other:?}"),
    }
    assert_eq!(pool.entries[0].active_conns, 0);
    match s.step(&mut pool, ConnectEvent::ClientAcked) {
        ConnectAction::Tunnel {
            to_client,
            to_upstream,
        } => {
            assert_eq!(to_client, b"hello".to_vec());
            assert_eq!(to_upstream, b"hi".to_vec());
        }
        other => panic!("{other:?}"),
    }
    assert_eq!(pool.entries[0].active_conns, 1);
    assert_eq!(s.outcome(), None);
    assert!(matches!(
        s.step(&mut pool, ConnectEvent::TunnelEnded(80)),
        ConnectAction::Close
    ));
    assert_eq!(pool.entries[0].active_conns, 0);
    assert_eq!(pool.entries[0].latency_ema_ms, 80);
    assert!(matches!(s.stage, ConnectStage::Finished(_)));
    assert_eq!(s.outcome(), Some(Outcome::Success));
    assert!(matches!(
        s.step(&mut pool, ConnectEvent::Begin),
        ConnectAction::Close
    ));
}

#[test]
fn connect_fails_over_to_other_upstreams() {
    let mut pool = make_pool(&["http://a:1", "http://b:2", "http://c:3", "http://d:4"]);
    let mut s = connect(&pool);
    assert_connect_dial(s.step(&mut pool, ConnectEvent::Begin), "a");
    assert_connect_dial(s.step(&mut pool, ConnectEvent::UpstreamFailed), "b");
    s.step(&mut pool, ConnectEvent::Dialed);
    assert_connect_dial(s.step(&mut pool, ConnectEvent::UpstreamFailed), "c");
    s.step(&mut pool, ConnectEvent::Dialed);
    s.step(&mut pool, ConnectEvent::RequestSent);
    assert_connect_refusal(
        s.step(&mut pool, ConnectEvent::UpstreamFailed),
        502,
        "Bad Gateway",
    );
    let online: Vec<bool> = pool.entries.iter().map(|e| e.is_online()).collect();
    assert_eq!(online, vec![false, false, false, true]);
    assert_eq!(pool.entries[2].consec_failures, 1);
    assert_eq!(s.attempts.tried, vec![0, 1, 2]);
}

#[test]
fn connect_without_upstreams_is_refused() {
    let mut pool = make_pool(&[]);
    let mut s = connect(&pool);
    assert_connect_refusal(
        s.step(&mut pool, ConnectEvent::Begin),
        502,
        "No upstream available",
    );
}

#[test]
fn connect_with_an_invalid_url_is_closed() {
    let mut pool = make_pool(&["http://:1"]);
    let mut s = connect(&pool);
    assert!(matches!(
        s.step(&mut pool, ConnectEvent::Begin),
        ConnectAction::Close
    ));
}

#[test]
fn rejected_connect_is_passed_on() {
    let mut pool = make_pool(&["http://a:1", "http://b:2"]);
    let mut s = connect(&pool);
    s.step(&mut pool, ConnectEvent::Begin);
    s.step(&mut pool, ConnectEvent::Dialed);
    s.step(&mut pool, ConnectEvent::RequestSent);
    assert_connect_refusal(
        s.step(&mut pool, ConnectEvent::Replied(reply(407))),
        407,
        "Upstream rejected CONNECT",
    );
    assert!(pool.entries[0].is_online());
}

#[test]
fn client_that_leaves_ends_the_connect() {
    let mut pool = make_pool(&["http://a:1"]);
    let mut s = connect(&pool);
    s.step(&mut pool, ConnectEvent::Begin);
    s.step(&mut pool, ConnectEvent::Dialed);
    s.step(&mut pool, ConnectEvent::RequestSent);
    s.step(&mut pool, ConnectEvent::Replied(reply(200)));
    assert!(matches!(
        s.step(&mut pool, ConnectEvent::ClientGone),
        ConnectAction::Close
    ));
    assert_eq!(pool.entries[0].active_conns, 0);
}

#[test]
fn connect_that_takes_too_long() {
    let mut pool = make_pool(&["http://a:1"]);
    let mut s = connect(&pool);
    s.step(&mut pool, ConnectEvent::Begin);
    assert_connect_refusal(
        s.step(&mut pool, ConnectEvent::TimedOut),
        504,
        "Gateway Timeout",
    );
    assert!(!pool.entries[0].is_online());
    assert_eq!(pool.entries[0].consec_failures, 1);
}

#[test]
fn request_is_forwarded_and_accounted_for() {
    let mut pool = make_pool(&["http://a:1"]);
    let raw = b"POST http://t/ HTTP/1.1\r\nContent-Length: 6\r\n\r\nab";
    let mut s = forward(&pool, raw);
    assert_forward_dial(s.step(&mut pool, ForwardEvent::Begin), "a");
    match s.step(&mut pool, ForwardEvent::Dialed) {
        ForwardAction::SendHead(head) => assert_eq!(
            head,
            b"POST http://t/ HTTP/1.1\r\nContent-Length: 6\r\n\
              Proxy-Authorization: Basic dTpw\r\n\r\n"
                .to_vec()
        ),
        other => panic!("{other:?}"),
    }
    assert!(matches!(
        s.step(&mut pool, ForwardEvent::Sent),
        ForwardAction::SendBuffered
    ));
    assert!(matches!(
        s.step(&mut pool, ForwardEvent::Sent),
        ForwardAction::SendBody(BodyPlan::Exact(4))
    ));
    assert!(matches!(
        s.step(&mut pool, ForwardEvent::BodySent),
        ForwardAction::AwaitResponse
    ));
    assert_eq!(pool.entries[0].active_conns, 1);
    let done = ForwardEvent::Responded {
        keep_alive: true,
        elapsed_ms: 30,
    };
    assert!(matches!(
        s.step(&mut pool, done),
        ForwardAction::Finish { keep_alive: true }
    ));
    assert_eq!(pool.entries[0].active_conns, 0);
    assert_eq!(pool.entries[0].latency_ema_ms, 30);
    assert!(matches!(s.stage, ForwardStage::Finished(_)));
    assert_eq!(s.outcome(), Some(Outcome::Success));
}

#[test]
fn connection_persists_only_if_both_sides_agree() {
    for (head, upstream_keeps, expected) in [
        ("GET / HTTP/1.1\r\n\r\n", true, true),
        ("GET / HTTP/1.1\r\n\r\n", false, false),
        ("GET / HTTP/1.0\r\n\r\n", true, false),
    ] {
        let mut pool = make_pool(&["http://a:1"]);
        let mut s = forward(&pool, head.as_bytes());
        s.step(&mut pool, ForwardEvent::Begin);
        s.step(&mut pool, ForwardEvent::Dialed);
        assert!(matches!(
            s.step(&mut pool, ForwardEvent::Sent),
            ForwardAction::SendBody(BodyPlan::Nothing)
        ));
        s.step(&mut pool, ForwardEvent::BodySent);
        let done = ForwardEvent::Responded {
            keep_alive: upstream_keeps,
            elapsed_ms: 1,
        };
        match s.step(&mut pool, done) {
            ForwardAction::Finish { keep_alive } => assert_eq!(keep_alive, expected),
            other => panic!("{other:?}"),
        }
    }
}

#[test]
fn forwarding_fails_over_to_other_upstreams() {
    let mut pool = make_pool(&["http://a:1", "http://b:2", "http://c:3"]);
    let mut s = forward(&pool, GET);
    assert_forward_dial(s.step(&mut pool, ForwardEvent::Begin), "a");
    assert_forward_dial(s.step(&mut pool, NOT_STARTED), "b");
    s.step(&mut pool, ForwardEvent::Dialed);
    assert_forward_dial(s.step(&mut pool, NOT_STARTED), "c");
    s.step(&mut pool, ForwardEvent::Dialed);
    s.step(&mut pool, ForwardEvent::Sent);
    s.step(&mut pool, ForwardEvent::BodySent);
    assert_eq!(pool.entries[2].active_conns, 1);
    // the client may have got a part of the response, so it is not told
    assert!(matches!(
        s.step(&mut pool, NOT_STARTED),
        ForwardAction::Finish { keep_alive: false }
    ));
    assert_eq!(pool.entries[2].active_conns, 0);
    assert!(!pool.entries[2].is_online());
}

#[test]
fn forwarding_gives_up_with_a_502() {
    let mut pool = make_pool(&["http://a:1"]);
    let mut s = forward(&pool, GET);
    s.step(&mut pool, ForwardEvent::Begin);
    assert_forward_refusal(
        s.step(&mut pool, NOT_STARTED),
        502,
        "Bad Gateway",
    );
    let mut s = forward(&pool, GET);
    assert_forward_refusal(
        s.step(&mut pool, ForwardEvent::Begin),
        502,
        "No upstream available",
    );
    let mut pool = make_pool(&["https://"]);
    let mut s = forward(&pool, GET);
    assert!(matches!(
        s.step(&mut pool, ForwardEvent::Begin),
        ForwardAction::Finish { keep_alive: false }
    ));
}

#[test]
fn client_that_breaks_off_its_body() {
    let mut pool = make_pool(&["http://a:1", "http://b:2"]);
    let raw = b"POST / HTTP/1.1\r\nTransfer-Encoding: chunked\r\n\r\n";
    let mut s = forward(&pool, raw);
    s.step(&mut pool, ForwardEvent::Begin);
    s.step(&mut pool, ForwardEvent::Dialed);
    assert!(matches!(
        s.step(&mut pool, ForwardEvent::Sent),
        ForwardAction::SendBody(BodyPlan::Chunked)
    ));
    assert!(matches!(
        s.step(&mut pool, ForwardEvent::BodyFailed),
        ForwardAction::Finish { keep_alive: false }
    ));
    assert!(pool.entries[0].is_online());
}

#[test]
fn request_that_takes_too_long() {
    for started in [false, true] {
        let mut pool = make_pool(&["http://a:1"]);
        let mut s = forward(&pool, GET);
        s.step(&mut pool, ForwardEvent::Begin);
        s.step(&mut pool, ForwardEvent::Dialed);
        s.step(&mut pool, ForwardEvent::Sent);
        s.step(&mut pool, ForwardEvent::BodySent);
        assert_eq!(pool.entries[0].active_conns, 1);
        let over = ForwardEvent::TimedOut {
            response_started: started,
        };
        let action = s.step(&mut pool, over);
        if started {
            assert!(matches!(action, ForwardAction::Finish { keep_alive: false }));
        } else {
            assert_forward_refusal(action, 504, "Gateway Timeout");
        }
        assert_eq!(pool.entries[0].is_online(), started);
        assert_eq!(s.outcome(), Some(Outcome::Failure));
        assert_eq!(pool.entries[0].active_conns, 0);
    }
}

#[test]
fn reload_during_a_tunnel_keeps_the_count() {
    let mut pool = make_pool(&["http://a:1"]);
    let mut s = connect(&pool);
    s.step(&mut pool, ConnectEvent::Begin);
    s.step(&mut pool, ConnectEvent::Dialed);
    s.step(&mut pool, ConnectEvent::RequestSent);
    s.step(&mut pool, ConnectEvent::Replied(reply(200)));
    s.step(&mut pool, ConnectEvent::ClientAcked);
    let cfg = Config {
        listen: String::new(),
        admin_listen: None,
        mode: BalanceMode::Best,
        reload_interval_secs: 0,
        health_check: HealthCheckConfig::default(),
        domain_policy: DomainPolicyConfig::default(),
        limits: LimitsConfig::default(),
        access_log: false,
        upstream: vec![pool.entries[0].config.clone()],
    };
    pool.reload(&cfg);
    assert_eq!(pool.entries[0].active_conns, 1);
    s.step(&mut pool, ConnectEvent::TunnelEnded(5));
    assert_eq!(pool.entries[0].active_conns, 0);
    assert_eq!(pool.entries[0].latency_ema_ms, 5);
}

#[test]
fn retry_after_a_reload_is_another_upstream() {
    let mut pool = make_pool(&["http://a:1", "http://b:2"]);
    let mut s = connect(&pool);
    assert_connect_dial(s.step(&mut pool, ConnectEvent::Begin), "a");
    let mut swapped = pool.entries.iter().map(|e| e.config.clone()).collect::<Vec<_>>();
    swapped.reverse();
    let cfg = Config {
        listen: String::new(),
        admin_listen: None,
        mode: BalanceMode::Best,
        reload_interval_secs: 0,
        health_check: HealthCheckConfig::default(),
        domain_policy: DomainPolicyConfig::default(),
        limits: LimitsConfig::default(),
        access_log: false,
        upstream: swapped,
    };
    pool.reload(&cfg);
    assert_connect_dial(s.step(&mut pool, ConnectEvent::UpstreamFailed), "b");
    assert!(!pool.entries[1].is_online());
}

#[test]
fn nothing_is_sent_twice() {
    let partial: &[u8] = b"POST / HTTP/1.1\r\nContent-Length: 6\r\n\r\nab";
    let whole: &[u8] = b"POST / HTTP/1.1\r\nContent-Length: 2\r\n\r\nab";
    for (raw, started, retried) in [
        (partial, false, false),
        (whole, false, true),
        (whole, true, false),
        (GET, true, false),
        (GET, false, true),
    ] {
        let mut pool = make_pool(&["http://a:1", "http://b:2"]);
        let mut s = forward(&pool, raw);
        s.step(&mut pool, ForwardEvent::Begin);
        s.step(&mut pool, ForwardEvent::Dialed);
        if let ForwardAction::SendBuffered = s.step(&mut pool, ForwardEvent::Sent) {
            s.step(&mut pool, ForwardEvent::Sent);
        }
        s.step(&mut pool, ForwardEvent::BodySent);
        let failed = ForwardEvent::UpstreamFailed {
            response_started: started,
        };
        let action = s.step(&mut pool, failed);
        if retried {
            assert_forward_dial(action, "b");
        } else {
            assert!(matches!(action, ForwardAction::Finish { keep_alive: false }));
        }
        assert!(!pool.entries[0].is_online());
        assert_eq!(pool.entries[0].active_conns, 0);
    }
}

#[test]
fn untried_upstream_stays_online() {
    let cfg = config(&["http://a:1", "http://a:1", "http://b:2", "http://c:3"]);
    let mut pool = UpstreamPool::from_config(&cfg);
    pool.reload(&cfg);
    let mut s = forward(&pool, GET);
    assert_forward_dial(s.step(&mut pool, ForwardEvent::Begin), "a");
    assert_forward_dial(s.step(&mut pool, NOT_STARTED), "a");
    assert_forward_dial(s.step(&mut pool, NOT_STARTED), "b");
    assert_forward_refusal(s.step(&mut pool, NOT_STARTED), 502, "Bad Gateway");
    for e in &pool.entries[..3] {
        assert!(!e.is_online());
        assert_eq!(e.consec_failures, 1);
    }
    assert!(pool.entries[3].is_online());
    assert_eq!(pool.entries[3].consec_failures, 0);
}

#[test]
fn tunnel_counts_for_one_upstream_only() {
    let cfg = config(&["http://a:1", "http://a:1"]);
    let mut pool = UpstreamPool::from_config(&cfg);
    pool.reload(&cfg);
    let mut s = connect(&pool);
    s.step(&mut pool, ConnectEvent::Begin);
    s.step(&mut pool, ConnectEvent::Dialed);
    s.step(&mut pool, ConnectEvent::RequestSent);
    s.step(&mut pool, ConnectEvent::Replied(reply(200)));
    s.step(&mut pool, ConnectEvent::ClientAcked);
    assert_eq!(pool.entries[0].active_conns, 1);
    assert_eq!(pool.entries[1].active_conns, 0);
    s.step(&mut pool, ConnectEvent::TunnelEnded(5));
    assert_eq!(pool.entries[0].active_conns, 0);
    assert_eq!(pool.entries[1].active_conns, 0);
    assert_eq!(pool.entries[1].latency_ema_ms, 0);
}
