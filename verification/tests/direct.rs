use http_proxy_lb::direct::{DirectConnect, DirectForward};
use http_proxy_lb::domain::find_http_target;
use http_proxy_lb::http::{plan_request, BodyPlan, RequestPlan};
use http_proxy_lb::session::{ConnectAction, ConnectEvent, ForwardAction, ForwardEvent, Outcome};

fn connect() -> DirectConnect {
    DirectConnect::new("h".to_string(), 443, b"early".to_vec())
}

fn forward(raw: &[u8]) -> DirectForward {
    match plan_request(raw) {
        Ok(RequestPlan::Forward(plan)) => {
            let target = find_http_target(&plan.path, &plan.host).unwrap();
            DirectForward::new(raw.to_vec(), &plan, target)
        }
        other => panic!("{other:?}"),
    }
}

fn status_line(text: &str) -> &str {
    text.split("\r\n").next().unwrap()
}

#[test]
fn direct_tunnel() {
    let mut s = connect();
    match s.step(ConnectEvent::Begin) {
        ConnectAction::Dial { host, port } => assert_eq!((host.as_str(), port), ("h", 443)),
        other => panic!("{other:?}"),
    }
    match s.step(ConnectEvent::Dialed) {
        ConnectAction::Acknowledge(text) => {
            assert_eq!(text, "HTTP/1.1 200 Connection Established\r\n\r\n")
        }
        other => panic!("{other:?}"),
    }
    match s.step(ConnectEvent::ClientAcked) {
        ConnectAction::Tunnel {
            to_client,
            to_upstream,
        } => {
            assert!(to_client.is_empty());
            assert_eq!(to_upstream, b"early".to_vec());
        }
        other => panic!("{other:?}"),
    }
    assert_eq!(s.outcome(), None);
    assert!(matches!(s.step(ConnectEvent::TunnelEnded(3)), ConnectAction::Close));
    assert_eq!(s.outcome(), Some(Outcome::Success));
}

#[test]
fn direct_tunnel_that_fails() {
    for (event, line) in [
        (ConnectEvent::UpstreamFailed, "HTTP/1.1 502 Bad Gateway"),
        (ConnectEvent::TimedOut, "HTTP/1.1 504 Gateway Timeout"),
    ] {
        let mut s = connect();
        s.step(ConnectEvent::Begin);
        match s.step(event) {
            ConnectAction::Refuse(text) => assert_eq!(status_line(&text), line),
            other => panic!("{other:?}"),
        }
        assert_eq!(s.outcome(), Some(Outcome::Failure));
    }
    let mut s = connect();
    s.step(ConnectEvent::Begin);
    s.step(ConnectEvent::Dialed);
    assert!(matches!(s.step(ConnectEvent::ClientGone), ConnectAction::Close));
    assert_eq!(s.outcome(), Some(Outcome::Failure));
}

#[test]
fn direct_request() {
    let raw = b"POST http://h:81/p HTTP/1.1\r\nHost: h\r\nContent-Length: 3\r\n\r\na";
    let mut s = forward(raw);
    match s.step(ForwardEvent::Begin) {
        ForwardAction::Dial { host, port } => assert_eq!((host.as_str(), port), ("h", 81)),
        other => panic!("{other:?}"),
    }
    match s.step(ForwardEvent::Dialed) {
        ForwardAction::SendHead(head) => assert_eq!(
            head,
            b"POST /p HTTP/1.1\r\nHost: h\r\nContent-Length: 3\r\n\r\n".to_vec()
        ),
        other => panic!("{other:?}"),
    }
    assert!(matches!(s.step(ForwardEvent::Sent), ForwardAction::SendBuffered));
    assert!(matches!(
        s.step(ForwardEvent::Sent),
        ForwardAction::SendBody(BodyPlan::Exact(2))
    ));
    assert!(matches!(s.step(ForwardEvent::BodySent), ForwardAction::AwaitResponse));
    let done = ForwardEvent::Responded {
        keep_alive: true,
        elapsed_ms: 1,
    };
    assert!(matches!(s.step(done), ForwardAction::Finish { keep_alive: true }));
    assert_eq!(s.outcome(), Some(Outcome::Success));
    assert!(matches!(
        s.step(ForwardEvent::TimedOut {
            response_started: false
        }),
        ForwardAction::Finish { keep_alive: false }
    ));
}

#[test]
fn direct_request_that_fails() {
    for started in [false, true] {
        for (event, line) in [
            (
                ForwardEvent::UpstreamFailed {
                    response_started: started,
                },
                "HTTP/1.1 502 Bad Gateway",
            ),
            (
                ForwardEvent::TimedOut {
                    response_started: started,
                },
                "HTTP/1.1 504 Gateway Timeout",
            ),
        ] {
            let mut s = forward(b"GET http://h/ HTTP/1.1\r\n\r\n");
            s.step(ForwardEvent::Begin);
            s.step(ForwardEvent::Dialed);
            assert!(matches!(
                s.step(ForwardEvent::Sent),
                ForwardAction::SendBody(BodyPlan::Nothing)
            ));
            s.step(ForwardEvent::BodySent);
            match s.step(event) {
                ForwardAction::Refuse(text) => {
                    assert!(!started);
                    assert_eq!(status_line(&text), line);
                }
                ForwardAction::Finish { keep_alive } => assert!(started && !keep_alive),
                other => panic!("{other:?}"),
            }
            assert_eq!(s.outcome(), Some(Outcome::Failure));
        }
    }
    let mut s = forward(b"POST http://h/ HTTP/1.1\r\nContent-Length: 3\r\n\r\n");
    s.step(ForwardEvent::Begin);
    s.step(ForwardEvent::Dialed);
    s.step(ForwardEvent::Sent);
    assert!(matches!(
        s.step(ForwardEvent::BodyFailed),
        ForwardAction::Finish { keep_alive: false }
    ));
    assert_eq!(s.outcome(), Some(Outcome::Failure));
}
