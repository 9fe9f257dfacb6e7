use http_proxy_lb::http::{
    content_length, get_header, interpret_connect_reply, interpret_request, interpret_response,
    is_chunked, parse_connect_target, plan_request, plan_request_body, plan_response,
    read_connect_reply, wants_keep_alive, BodyPlan, ForwardPlan, HeaderField, HttpError,
    RequestHead, RequestPlan, ResponseHead, ResponsePlan,
};

fn field(name: &str, value: &[u8]) -> HeaderField {
    HeaderField {
        name: name.to_string(),
        value: value.to_vec(),
    }
}

fn forward(buf: &[u8]) -> ForwardPlan {
    match plan_request(buf) {
        Ok(RequestPlan::Forward(f)) => f,
        other => panic!("not a request to forward: {other:?}"),
    }
}

#[test]
fn headers_are_found_without_regard_to_case() {
    let h = [
        field("A", b"\xff"),
        field("a", b"first"),
        field("A", b"second"),
    ];
    assert_eq!(get_header(&h, "a"), Some("first"));
    assert_eq!(get_header(&h, "b"), None);
    assert_eq!(get_header(&[], "a"), None);
}

#[test]
fn content_length_values() {
    let n = |v: &[u8]| content_length(&[field("Content-Length", v)]);
    assert_eq!(n(b"0"), Some(0));
    assert_eq!(n(b"18446744073709551615"), Some(u64::MAX));
    assert_eq!(n(b"18446744073709551616"), None);
    assert_eq!(n(b"+7"), Some(7));
    assert_eq!(n(b"-7"), None);
    assert_eq!(n(b""), None);
    assert_eq!(n(b"+"), None);
    assert_eq!(n(b"7 "), None);
    assert_eq!(content_length(&[]), None);
}

#[test]
fn chunking_is_recognised() {
    assert!(is_chunked(&[field("transfer-encoding", b"gzip, Chunked")]));
    assert!(!is_chunked(&[field("transfer-encoding", b"gzip")]));
    assert!(!is_chunked(&[]));
}

#[test]
fn keep_alive_rules() {
    let keep = |v: &[u8], version: u8| wants_keep_alive(&[field("Connection", v)], version);
    assert!(!keep(b"Close", 1));
    assert!(keep(b"Keep-Alive", 0));
    assert!(!keep(b"keep-alive, close", 1));
    assert!(keep(b"upgrade", 1));
    assert!(!keep(b"upgrade", 0));
    assert!(wants_keep_alive(&[], 1));
    assert!(!wants_keep_alive(&[], 0));
}

#[test]
fn connect_targets() {
    assert_eq!(parse_connect_target("h:8443").unwrap(), ("h".to_string(), 8443));
    assert_eq!(parse_connect_target("h").unwrap(), ("h".to_string(), 443));
    assert_eq!(parse_connect_target("h:none").unwrap(), ("h".to_string(), 443));
    assert!(matches!(
        parse_connect_target(":443"),
        Err(HttpError::InvalidConnectTarget)
    ));
    assert!(matches!(
        parse_connect_target(""),
        Err(HttpError::InvalidConnectTarget)
    ));
}

#[test]
fn plain_request_is_planned() {
    let buf = b"POST http://h/x HTTP/1.1\r\nHost: h\r\nContent-Length: 5\r\n\r\nab";
    let f = forward(buf);
    assert_eq!(f.method, "POST");
    assert_eq!(f.path, "http://h/x");
    assert_eq!(f.host.as_deref(), Some("h"));
    assert_eq!(f.body_offset, buf.len() - 2);
    assert_eq!(f.content_length, Some(5));
    assert!(!f.chunked);
    assert!(f.keep_alive);
    let f = forward(b"GET / HTTP/1.0\r\nTransfer-Encoding: chunked\r\n\r\n");
    assert!(f.chunked && !f.keep_alive && f.host.is_none() && f.content_length.is_none());
}

#[test]
fn connect_request_is_planned() {
    match plan_request(b"connect h:1 HTTP/1.1\r\nHost: h\r\n\r\nearly") {
        Ok(RequestPlan::Connect {
            host,
            port,
            body_offset,
        }) => {
            assert_eq!(host, "h");
            assert_eq!(port, 1);
            assert_eq!(body_offset, 33);
        }
        other => panic!("not a tunnel: {other:?}"),
    }
    assert!(matches!(
        plan_request(b"CONNECT :1 HTTP/1.1\r\n\r\n"),
        Err(HttpError::InvalidConnectTarget)
    ));
}

#[test]
fn bad_requests_are_rejected() {
    assert!(matches!(
        plan_request(b"GET / HTTP/1.1\r\nHost"),
        Err(HttpError::Incomplete)
    ));
    assert!(matches!(plan_request(b"\x00\r\n\r\n"), Err(HttpError::Malformed)));
    let mut many = b"GET / HTTP/1.1\r\n".to_vec();
    for _ in 0..97 {
        many.extend_from_slice(b"a: b\r\n");
    }
    many.extend_from_slice(b"\r\n");
    assert!(matches!(plan_request(&many), Err(HttpError::Malformed)));
    let mut enough = b"GET / HTTP/1.1\r\n".to_vec();
    for _ in 0..96 {
        enough.extend_from_slice(b"a: b\r\n");
    }
    enough.extend_from_slice(b"\r\n");
    assert!(plan_request(&enough).is_ok());
}

#[test]
fn incomplete_heads_are_told_apart() {
    let head = |body_offset, method: Option<&str>, path: Option<&str>| RequestHead {
        body_offset,
        method: method.map(String::from),
        path: path.map(String::from),
        version: None,
        headers: Vec::new(),
    };
    assert!(matches!(
        interpret_request(head(None, Some("GET"), Some("/"))),
        Err(HttpError::Incomplete)
    ));
    assert!(matches!(
        interpret_request(head(Some(1), None, Some("/"))),
        Err(HttpError::MissingMethod)
    ));
    assert!(matches!(
        interpret_request(head(Some(1), Some("GET"), None)),
        Err(HttpError::MissingPath)
    ));
    match interpret_request(head(Some(1), Some("GET"), Some("/"))) {
        Ok(RequestPlan::Forward(f)) => assert!(f.keep_alive),
        other => panic!("{other:?}"),
    }
}

#[test]
fn request_bodies() {
    assert_eq!(plan_request_body(Some(10), true, b"abcd"), BodyPlan::Exact(6));
    assert_eq!(plan_request_body(Some(4), false, b"abcd"), BodyPlan::Nothing);
    assert_eq!(plan_request_body(Some(3), false, b"abcd"), BodyPlan::Nothing);
    assert_eq!(plan_request_body(None, true, b"4\r\nab"), BodyPlan::Chunked);
    assert_eq!(plan_request_body(None, true, b""), BodyPlan::Chunked);
    assert_eq!(plan_request_body(None, true, b"2\r\nab\r\n0\r\n\r\n"), BodyPlan::Nothing);
    assert_eq!(plan_request_body(None, false, b""), BodyPlan::Nothing);
}

#[test]
fn chunked_response_that_came_with_its_head() {
    let buf = b"HTTP/1.1 200 OK\r\nTransfer-Encoding: chunked\r\n\r\n0\r\n\r\n";
    let plan = plan_response(buf, "GET").unwrap();
    assert_eq!(plan.body, BodyPlan::Nothing);
    assert!(plan.keep_alive);
    assert_eq!(plan_response(&buf[..buf.len() - 1], "GET").unwrap().body, BodyPlan::Chunked);
}

#[test]
fn responses_are_planned() {
    let buf = b"HTTP/1.1 200 OK\r\nContent-Length: 5\r\n\r\nab";
    assert_eq!(
        plan_response(buf, "GET"),
        Ok(ResponsePlan {
            body_offset: buf.len() - 2,
            status: 200,
            body: BodyPlan::Exact(3),
            keep_alive: true,
        })
    );
    let body = |head: &[u8], method: &str| plan_response(head, method).unwrap().body;
    assert_eq!(body(buf, "head"), BodyPlan::Nothing);
    assert_eq!(body(b"HTTP/1.1 204 No\r\n\r\n", "GET"), BodyPlan::Nothing);
    assert_eq!(body(b"HTTP/1.1 304 No\r\n\r\n", "GET"), BodyPlan::Nothing);
    assert_eq!(body(b"HTTP/1.1 100 Go\r\n\r\n", "GET"), BodyPlan::Nothing);
    assert_eq!(body(b"HTTP/1.1 199 Go\r\n\r\n", "GET"), BodyPlan::Nothing);
    assert_eq!(
        body(b"HTTP/1.1 200 OK\r\nTransfer-Encoding: chunked\r\n\r\n", "GET"),
        BodyPlan::Chunked
    );
    let open = plan_response(b"HTTP/1.1 200 OK\r\n\r\n", "GET").unwrap();
    assert_eq!(open.body, BodyPlan::UntilClose);
    assert!(!open.keep_alive);
    let closing = plan_response(
        b"HTTP/1.1 200 OK\r\nContent-Length: 0\r\nConnection: close\r\n\r\n",
        "GET",
    )
    .unwrap();
    assert_eq!(closing.body, BodyPlan::Nothing);
    assert!(!closing.keep_alive);
}

#[test]
fn bad_responses_are_rejected() {
    assert_eq!(plan_response(b"HTTP/1.1 200 OK\r\n", "GET"), Err(HttpError::Incomplete));
    assert_eq!(plan_response(b"HTTX\r\n\r\n", "GET"), Err(HttpError::Malformed));
    let bare = ResponseHead {
        body_offset: Some(9),
        code: None,
        version: None,
        headers: Vec::new(),
    };
    assert_eq!(
        interpret_response(bare, b"abc", "GET"),
        Ok(ResponsePlan {
            body_offset: 9,
            status: 0,
            body: BodyPlan::UntilClose,
            keep_alive: false,
        })
    );
}

#[test]
fn connect_replies() {
    let reply = read_connect_reply(b"HTTP/1.1 200 Yes\r\n\r\nhello").unwrap();
    assert_eq!((reply.status, reply.early), (200, b"hello".to_vec()));
    let reply = read_connect_reply(b"HTTP/1.0 407 No\r\na: b\r\n\r\n").unwrap();
    assert_eq!((reply.status, reply.early.len()), (407, 0));
    assert!(matches!(read_connect_reply(b"nonsense\r\n\r\n"), Err(HttpError::Malformed)));
    let mut many = b"HTTP/1.1 200 OK\r\n".to_vec();
    for _ in 0..17 {
        many.extend_from_slice(b"a: b\r\n");
    }
    many.extend_from_slice(b"\r\n");
    assert!(matches!(read_connect_reply(&many), Err(HttpError::Malformed)));
    let mut head = ResponseHead {
        body_offset: None,
        code: None,
        version: Some(1),
        headers: Vec::new(),
    };
    assert!(matches!(
        interpret_connect_reply(&head, b""),
        Err(HttpError::MissingStatus)
    ));
    head.code = Some(200);
    assert!(interpret_connect_reply(&head, b"abc").unwrap().early.is_empty());
    head.body_offset = Some(1);
    assert_eq!(interpret_connect_reply(&head, b"abc").unwrap().early, b"bc".to_vec());
}
