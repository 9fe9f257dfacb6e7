use http_proxy_lb::admin::{
    build_prometheus_metrics, build_status_json, find_admin_page, handle_admin_request,
    render_admin_page, render_prometheus, render_status, AdminPage, Counters, Metrics, RequestKind,
};
use http_proxy_lb::session::Outcome;
use http_proxy_lb::upstream::{UpstreamPool, UpstreamStatus};

fn empty_pool() -> UpstreamPool {
    UpstreamPool {
        entries: Vec::new(),
        rr_counter: 0,
        next_id: 0,
    }
}

fn some_counters() -> Counters {
    Counters {
        requests_total: 150000,
        requests_success: 149500,
        requests_failed: 500,
        connect_requests: 1,
        http_requests: 2,
        direct_connections: 3,
        bytes_received: 4,
        bytes_sent: 5,
        active_connections: 42,
        health_checks_total: 6,
        health_checks_success: 7,
        hot_reloads: 8,
    }
}

fn some_upstream() -> UpstreamStatus {
    UpstreamStatus {
        url: "http://proxy1:8080".to_string(),
        online: true,
        active_conns: 20,
        latency_ema_ms: 23,
        consec_failures: 0,
        weight: 1,
        priority: 10,
    }
}

#[test]
fn test_metrics_increment() {
    let mut m = Metrics::new();
    assert_eq!(m.requests_total, 0);
    m.inc_requests_total();
    m.inc_requests_total();
    assert_eq!(m.requests_total, 2);
}

#[test]
fn test_metrics_active_connections() {
    let mut m = Metrics::new();
    m.inc_active();
    m.inc_active();
    assert_eq!(m.active_connections, 2);
    m.dec_active();
    assert_eq!(m.active_connections, 1);
}

#[test]
fn every_counter_has_its_own_increment() {
    let mut m = Metrics::default();
    m.inc_requests_total();
    m.inc_requests_success();
    m.inc_requests_success();
    m.inc_requests_failed();
    m.inc_connect();
    m.inc_http();
    m.inc_direct();
    m.add_bytes_received(10);
    m.add_bytes_received(5);
    m.add_bytes_sent(7);
    m.inc_active();
    m.inc_health_check();
    m.inc_health_check_success();
    m.inc_hot_reload();
    assert_eq!(
        m.snapshot(),
        Counters {
            requests_total: 1,
            requests_success: 2,
            requests_failed: 1,
            connect_requests: 1,
            http_requests: 1,
            direct_connections: 1,
            bytes_received: 15,
            bytes_sent: 7,
            active_connections: 1,
            health_checks_total: 1,
            health_checks_success: 1,
            hot_reloads: 1,
        }
    );
    assert!(m.uptime_secs() < 3600);
}

#[test]
fn counters_wrap_around() {
    let mut m = Metrics::new();
    m.dec_active();
    assert_eq!(m.active_connections, u64::MAX);
    m.inc_active();
    assert_eq!(m.active_connections, 0);
    m.add_bytes_sent(u64::MAX);
    m.add_bytes_sent(2);
    assert_eq!(m.bytes_sent, 1);
}

#[test]
fn metrics_document_is_exact() {
    let expected = concat_lines(&[
        "# HELP http_proxy_lb_uptime_seconds Time since proxy started",
        "# TYPE http_proxy_lb_uptime_seconds gauge",
        "http_proxy_lb_uptime_seconds 3600",
        "# HELP http_proxy_lb_requests_total Total number of requests received",
        "# TYPE http_proxy_lb_requests_total counter",
        "http_proxy_lb_requests_total 150000",
        "# HELP http_proxy_lb_requests_success Total number of successful requests",
        "# TYPE http_proxy_lb_requests_success counter",
        "http_proxy_lb_requests_success 149500",
        "# HELP http_proxy_lb_requests_failed Total number of failed requests",
        "# TYPE http_proxy_lb_requests_failed counter",
        "http_proxy_lb_requests_failed 500",
        "# HELP http_proxy_lb_connect_requests Total number of CONNECT requests",
        "# TYPE http_proxy_lb_connect_requests counter",
        "http_proxy_lb_connect_requests 1",
        "# HELP http_proxy_lb_http_requests Total number of HTTP requests",
        "# TYPE http_proxy_lb_http_requests counter",
        "http_proxy_lb_http_requests 2",
        "# HELP http_proxy_lb_direct_connections Total number of direct (non-proxy) connections",
        "# TYPE http_proxy_lb_direct_connections counter",
        "http_proxy_lb_direct_connections 3",
        "# HELP http_proxy_lb_bytes_received Total bytes received from clients",
        "# TYPE http_proxy_lb_bytes_received counter",
        "http_proxy_lb_bytes_received 4",
        "# HELP http_proxy_lb_bytes_sent Total bytes sent to clients",
        "# TYPE http_proxy_lb_bytes_sent counter",
        "http_proxy_lb_bytes_sent 5",
        "# HELP http_proxy_lb_active_connections Current number of active connections",
        "# TYPE http_proxy_lb_active_connections gauge",
        "http_proxy_lb_active_connections 42",
        "# HELP http_proxy_lb_health_checks_total Total health check probes",
        "# TYPE http_proxy_lb_health_checks_total counter",
        "http_proxy_lb_health_checks_total 6",
        "# HELP http_proxy_lb_health_checks_success Successful health check probes",
        "# TYPE http_proxy_lb_health_checks_success counter",
        "http_proxy_lb_health_checks_success 7",
        "# HELP http_proxy_lb_hot_reloads Total config hot reloads",
        "# TYPE http_proxy_lb_hot_reloads counter",
        "http_proxy_lb_hot_reloads 8",
        "# HELP http_proxy_lb_upstream_online Whether upstream is online (1) or offline (0)",
        "# TYPE http_proxy_lb_upstream_online gauge",
        "# HELP http_proxy_lb_upstream_active_connections Active connections per upstream",
        "# TYPE http_proxy_lb_upstream_active_connections gauge",
        "# HELP http_proxy_lb_upstream_latency_ms Latency EMA in milliseconds per upstream",
        "# TYPE http_proxy_lb_upstream_latency_ms gauge",
        "# HELP http_proxy_lb_upstream_consecutive_failures Consecutive failures per upstream",
        "# TYPE http_proxy_lb_upstream_consecutive_failures gauge",
        "http_proxy_lb_upstream_online{url=\"http://proxy1:8080\"} 1",
        "http_proxy_lb_upstream_active_connections{url=\"http://proxy1:8080\"} 20",
        "http_proxy_lb_upstream_latency_ms{url=\"http://proxy1:8080\"} 23",
        "http_proxy_lb_upstream_consecutive_failures{url=\"http://proxy1:8080\"} 0",
        "http_proxy_lb_upstream_online{url=\"a\\\"b\"} 0",
        "http_proxy_lb_upstream_active_connections{url=\"a\\\"b\"} -1",
        "http_proxy_lb_upstream_latency_ms{url=\"a\\\"b\"} 0",
        "http_proxy_lb_upstream_consecutive_failures{url=\"a\\\"b\"} 9",
    ]);
    let second = UpstreamStatus {
        url: "a\"b".to_string(),
        online: false,
        active_conns: -1,
        latency_ema_ms: 0,
        consec_failures: 9,
        weight: 1,
        priority: 1,
    };
    let text = render_prometheus(&some_counters(), 3600, &[some_upstream(), second]);
    assert_eq!(text, expected);
}

fn concat_lines(lines: &[&str]) -> String {
    let mut out = String::new();
    for line in lines {
        out.push_str(line);
        out.push('\n');
    }
    out
}

#[test]
fn status_document_is_exact() {
    let second = UpstreamStatus {
        url: "a\"b".to_string(),
        online: false,
        active_conns: i64::MIN,
        latency_ema_ms: u64::MAX,
        consec_failures: 9,
        weight: 2,
        priority: 3,
    };
    let head = "{\"uptime_seconds\":3600,\"requests_total\":150000,\"requests_success\":149500,\
                \"requests_failed\":500,\"connect_requests\":1,\"http_requests\":2,\
                \"direct_connections\":3,\"bytes_received\":4,\"bytes_sent\":5,\
                \"active_connections\":42,\"health_checks_total\":6,\
                \"health_checks_success\":7,\"hot_reloads\":8,\"upstreams\":[";
    let first_json = "{\"url\":\"http://proxy1:8080\",\"online\":true,\"active_connections\":20,\
                      \"latency_ms\":23,\"consecutive_failures\":0,\"weight\":1,\"priority\":10}";
    let second_json = "{\"url\":\"a\\\"b\",\"online\":false,\
                       \"active_connections\":-9223372036854775808,\
                       \"latency_ms\":18446744073709551615,\"consecutive_failures\":9,\
                       \"weight\":2,\"priority\":3}";
    let c = some_counters();
    assert_eq!(render_status(&c, 3600, &[]), format!("{head}]}}"));
    assert_eq!(
        render_status(&c, 3600, &[some_upstream()]),
        format!("{head}{first_json}]}}")
    );
    assert_eq!(
        render_status(&c, 3600, &[some_upstream(), second]),
        format!("{head}{first_json},{second_json}]}}")
    );
}

#[test]
fn documents_of_a_fresh_server() {
    let pool = empty_pool();
    let mut metrics = Metrics::new();
    metrics.inc_requests_total();
    let text = build_prometheus_metrics(&pool, &metrics);
    assert!(text.contains("\nhttp_proxy_lb_requests_total 1\n"));
    let json = build_status_json(&pool, &metrics);
    assert!(json.contains("\"requests_total\":1,"));
    assert!(json.ends_with("\"upstreams\":[]}"));
}

#[test]
fn pages_are_found_by_the_first_line() {
    assert_eq!(find_admin_page(b"GET /metrics HTTP/1.1\r\n\r\n"), AdminPage::Metrics);
    assert_eq!(find_admin_page(b"GET /status?x\n"), AdminPage::Status);
    assert_eq!(find_admin_page(b"GET /healthz"), AdminPage::Health);
    assert_eq!(find_admin_page(b"GET / HTTP/1.1\r\nGET /metrics"), AdminPage::NotFound);
    assert_eq!(find_admin_page(b"POST /metrics HTTP/1.1"), AdminPage::NotFound);
    assert_eq!(find_admin_page(b""), AdminPage::NotFound);
    assert_eq!(find_admin_page(b"\nGET /metrics"), AdminPage::NotFound);
    assert_eq!(find_admin_page(b"GET /metrics\xff"), AdminPage::Metrics);
}

#[test]
fn urls_are_escaped_in_both_documents() {
    let odd = UpstreamStatus {
        url: "\\\n\u{1f}\"".to_string(),
        ..some_upstream()
    };
    let again = UpstreamStatus {
        url: "\\\n\u{1f}\"".to_string(),
        ..some_upstream()
    };
    let json = render_status(&some_counters(), 1, &[odd]);
    assert!(json.contains(r#"{"url":"\\\u000a\u001f\"","online":true,"#));
    // YAML reads JSON too
    let v: yaml_serde::Value = yaml_serde::from_str(&json).unwrap();
    let url = v.get("upstreams").unwrap().get(0).unwrap().get("url").unwrap();
    assert_eq!(url.as_str(), Some("\\\n\u{1f}\""));
    assert_eq!(v.get("bytes_sent").unwrap().as_u64(), Some(5));
    let text = render_prometheus(&some_counters(), 1, &[again]);
    assert!(text.contains("http_proxy_lb_upstream_online{url=\"\\\\\\n\u{1f}\\\"\"} 1\n"));
}

#[test]
fn requests_are_counted_by_kind_and_outcome() {
    let mut m = Metrics::new();
    m.begin_request(RequestKind::Connect);
    m.begin_request(RequestKind::Http);
    m.begin_request(RequestKind::Http);
    m.begin_request(RequestKind::Unknown);
    m.finish_request(Outcome::Success);
    m.finish_request(Outcome::Failure);
    m.finish_request(Outcome::Failure);
    let c = m.snapshot();
    assert_eq!((c.requests_total, c.connect_requests, c.http_requests), (4, 1, 2));
    assert_eq!((c.requests_success, c.requests_failed), (1, 2));
}

#[test]
fn admin_responses() {
    let pool = empty_pool();
    let metrics = Metrics::new();
    assert!(handle_admin_request(b"", &pool, &metrics).is_none());
    assert_eq!(
        handle_admin_request(b"GET /health HTTP/1.1\r\n\r\n", &pool, &metrics).unwrap(),
        "HTTP/1.1 200 OK\r\nContent-Type: application/json\r\nContent-Length: 15\r\n\
         Connection: close\r\n\r\n{\"status\":\"ok\"}"
    );
    assert_eq!(
        handle_admin_request(b"GET /nothing HTTP/1.1\r\n\r\n", &pool, &metrics).unwrap(),
        "HTTP/1.1 404 Not Found\r\nContent-Type: text/plain\r\nContent-Length: 9\r\n\
         Connection: close\r\n\r\nNot Found"
    );
    assert_eq!(
        handle_admin_request(b"\xffGET /health", &pool, &metrics).unwrap(),
        handle_admin_request(b"GET /", &pool, &metrics).unwrap()
    );
    let page = handle_admin_request(b"GET /status HTTP/1.1\r\n\r\n", &pool, &metrics).unwrap();
    assert!(page.starts_with("HTTP/1.1 200 OK\r\nContent-Type: application/json\r\n"));
    let page = handle_admin_request(b"GET /metrics HTTP/1.1\r\n\r\n", &pool, &metrics).unwrap();
    assert!(page.starts_with("HTTP/1.1 200 OK\r\nContent-Type: text/plain; charset=utf-8\r\n"));
}

#[test]
fn announced_length_counts_bytes() {
    let upstream = UpstreamStatus {
        url: "http://\u{e9}\u{20ac}:1".to_string(),
        ..some_upstream()
    };
    for page in [AdminPage::Metrics, AdminPage::Status] {
        let text = render_admin_page(page, &some_counters(), 1, &[UpstreamStatus {
            url: upstream.url.clone(),
            ..some_upstream()
        }]);
        let (head, body) = text.split_once("\r\n\r\n").unwrap();
        assert!(head.contains(&format!("\r\nContent-Length: {}\r\n", body.len())));
        assert_ne!(body.len(), body.chars().count());
    }
}
