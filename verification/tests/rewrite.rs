use http_proxy_lb::http::{plan_request, RequestPlan};
use http_proxy_lb::rewrite::{
    build_upstream_connect, rewrite_request_headers, status_response,
};

fn rewrite_head(head: &str, auth: Option<&str>) -> String {
    let out = rewrite_request_headers(head.as_bytes(), head.len(), auth.map(String::from));
    String::from_utf8(out).unwrap()
}

#[test]
fn client_credentials_are_replaced() {
    let raw = b"GET http://h/ HTTP/1.1\r\nHost: h\r\nproxy-AUTHORIZATION: Basic x\r\n\
                Accept: */*\r\n\r\nbody";
    let out = rewrite_request_headers(raw, raw.len() - 4, Some("Basic y".to_string()));
    assert_eq!(
        out,
        b"GET http://h/ HTTP/1.1\r\nHost: h\r\nAccept: */*\r\nProxy-Authorization: Basic y\r\n\r\n"
            .to_vec()
    );
    let out = rewrite_request_headers(raw, raw.len() - 4, None);
    assert_eq!(
        out,
        b"GET http://h/ HTTP/1.1\r\nHost: h\r\nAccept: */*\r\n\r\n".to_vec()
    );
}

#[test]
fn request_line_is_never_dropped() {
    assert_eq!(
        rewrite_head("Proxy-Authorization: x\r\n\r\n", None),
        "Proxy-Authorization: x\r\n\r\n"
    );
}

#[test]
fn heads_without_an_end() {
    assert_eq!(rewrite_head("GET /", Some("a")), "GET /\r\n");
    assert_eq!(rewrite_head("", Some("a")), "\r\n");
    assert_eq!(rewrite_head("GET /\r\nA: b", Some("a")), "GET /\r\nA: b\r\n");
    assert_eq!(
        rewrite_head("GET /\r\n", Some("a")),
        "GET /\r\nProxy-Authorization: a\r\n\r\n"
    );
    assert_eq!(rewrite_head("GET /\r\n\r\nA: b\r\n\r\n", None), "GET /\r\n\r\n");
}

#[test]
fn bytes_that_are_no_text_are_kept() {
    let raw = b"GET /\xff HTTP/1.1\r\n\r\n";
    assert_eq!(rewrite_request_headers(raw, raw.len(), None), raw.to_vec());
    let raw = b"GET / HTTP/1.1\r\nA: \xff\r\n\r\n";
    assert_eq!(rewrite_request_headers(raw, raw.len(), None), raw.to_vec());
}

#[test]
fn connect_request_text() {
    assert_eq!(
        build_upstream_connect("h", 443, None),
        "CONNECT h:443 HTTP/1.1\r\nHost: h:443\r\n\r\n"
    );
    assert_eq!(
        build_upstream_connect("h", 1, Some("Basic x".to_string())),
        "CONNECT h:1 HTTP/1.1\r\nHost: h:1\r\nProxy-Authorization: Basic x\r\n\r\n"
    );
}

#[test]
fn status_response_text() {
    assert_eq!(
        status_response(502, "Bad Gateway"),
        "HTTP/1.1 502 Bad Gateway\r\nContent-Length: 0\r\nConnection: close\r\n\r\n"
    );
    assert_eq!(
        status_response(0, ""),
        "HTTP/1.1 0 \r\nContent-Length: 0\r\nConnection: close\r\n\r\n"
    );
}

#[test]
fn forwarded_head_reads_back() {
    let head = "GET http://h/ HTTP/1.1\r\nA: b\r\nProxy-Authorization: x\r\nC: d\r\n\r\n";
    let out = rewrite_head(head, Some("Basic y"));
    let lines: Vec<&str> = out.split("\r\n").collect();
    assert_eq!(
        lines,
        vec![
            "GET http://h/ HTTP/1.1",
            "A: b",
            "C: d",
            "Proxy-Authorization: Basic y",
            "",
            "",
        ]
    );
}

#[test]
fn connect_request_reads_back() {
    let text = build_upstream_connect("some.host", 8443, None);
    match plan_request(text.as_bytes()) {
        Ok(RequestPlan::Connect { host, port, .. }) => {
            assert_eq!((host.as_str(), port), ("some.host", 8443))
        }
        other => panic!("{other:?}"),
    }
}

#[test]
fn credentials_beyond_ascii_stay_on_their_line() {
    assert_eq!(
        rewrite_head("GET / HTTP/1.1\r\n\r\n", Some("\u{e9}\u{20ac}\n")),
        "GET / HTTP/1.1\r\nProxy-Authorization: \u{e9}\u{20ac}\n\r\n\r\n"
    );
}
