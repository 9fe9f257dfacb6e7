//! Requests that go straight to their target, past the upstreams. Each is a state
//! machine with the events and the actions of the sessions through an upstream.

use crate::domain::{direct_lines, rewrite_for_origin, HttpTarget, HttpTargetView};
use crate::http::{plan_request_body, request_body, BodyPlan, ForwardPlan};
use crate::limits::timeout_response;
use crate::rewrite::{status_response, status_text, terminated};
use crate::session::{
    ConnectAction, ConnectActionView, ConnectEvent, ForwardAction, ForwardActionView,
    ForwardEvent, Outcome,
};
use vstd::prelude::*;
use vstd::slice::{slice_subrange, slice_to_vec};

verus! {

/// How far a tunnel to its target has come.
#[derive(Debug, Clone, Copy, PartialEq, Eq, Structural)]
pub enum DirectConnectStage {
    Start,
    Dialing,
    Acknowledging,
    Tunneling,
    Finished(Outcome),
}

/// A client's request for a tunnel that goes straight to its target.
#[derive(Debug)]
pub struct DirectConnect {
    pub host: String,
    pub port: u16,
    /// The bytes that the client sent behind its head.
    pub early: Vec<u8>,
    pub stage: DirectConnectStage,
}

pub struct DirectConnectView {
    pub host: Seq<char>,
    pub port: u16,
    pub early: Seq<u8>,
    pub stage: DirectConnectStage,
}

impl View for DirectConnect {
    type V = DirectConnectView;

    open spec fn view(&self) -> DirectConnectView {
        DirectConnectView {
            host: self.host@,
            port: self.port,
            early: self.early@,
            stage: self.stage,
        }
    }
}

impl DirectConnectView {
    pub open spec fn at(self, stage: DirectConnectStage) -> DirectConnectView {
        DirectConnectView { stage, ..self }
    }

    /// What follows on `event`. An event that does not belong to the stage changes nothing.
    pub open spec fn step(self, event: ConnectEvent) -> (DirectConnectView, ConnectActionView) {
        match (self.stage, event) {
            (DirectConnectStage::Start, ConnectEvent::Begin) => (
                self.at(DirectConnectStage::Dialing),
                ConnectActionView::Dial { host: self.host, port: self.port },
            ),
            (DirectConnectStage::Dialing, ConnectEvent::Dialed) => (
                self.at(DirectConnectStage::Acknowledging),
                ConnectActionView::Acknowledge("HTTP/1.1 200 Connection Established\r\n\r\n"@),
            ),
            (DirectConnectStage::Dialing, ConnectEvent::UpstreamFailed) => (
                self.at(DirectConnectStage::Finished(Outcome::Failure)),
                ConnectActionView::Refuse(status_text(502, "Bad Gateway"@)),
            ),
            (DirectConnectStage::Dialing, ConnectEvent::TimedOut) => (
                self.at(DirectConnectStage::Finished(Outcome::Failure)),
                ConnectActionView::Refuse(status_text(504, "Gateway Timeout"@)),
            ),
            (DirectConnectStage::Acknowledging, ConnectEvent::ClientAcked) => (
                self.at(DirectConnectStage::Tunneling),
                ConnectActionView::Tunnel { to_client: Seq::empty(), to_upstream: self.early },
            ),
            (DirectConnectStage::Acknowledging, ConnectEvent::ClientGone) => (
                self.at(DirectConnectStage::Finished(Outcome::Failure)),
                ConnectActionView::Close,
            ),
            (DirectConnectStage::Tunneling, ConnectEvent::TunnelEnded(_)) => (
                self.at(DirectConnectStage::Finished(Outcome::Success)),
                ConnectActionView::Close,
            ),
            _ => (self, ConnectActionView::Close),
        }
    }
}

impl DirectConnect {
    pub fn new(host: String, port: u16, early: Vec<u8>) -> (r: Self)
        ensures
            r@ == (DirectConnectView {
                host: host@,
                port,
                early: early@,
                stage: DirectConnectStage::Start,
            }),
    {
        DirectConnect { host, port, early, stage: DirectConnectStage::Start }
    }

    /// How the tunnel came out, if it is over.
    pub fn outcome(&self) -> (r: Option<Outcome>)
        ensures
            r == (match self@.stage {
                DirectConnectStage::Finished(outcome) => Some(outcome),
                _ => None,
            }),
    {
        match self.stage {
            DirectConnectStage::Finished(outcome) => Some(outcome),
            _ => None,
        }
    }

    /// Takes in what happened and says what to do next.
    pub fn step(&mut self, event: ConnectEvent) -> (r: ConnectAction)
        ensures
            (final(self)@, r@) == old(self)@.step(event),
    {
        match (self.stage, event) {
            (DirectConnectStage::Start, ConnectEvent::Begin) => {
                self.stage = DirectConnectStage::Dialing;
                ConnectAction::Dial { host: self.host.clone(), port: self.port }
            },
            (DirectConnectStage::Dialing, ConnectEvent::Dialed) => {
                self.stage = DirectConnectStage::Acknowledging;
                ConnectAction::Acknowledge(
                    "HTTP/1.1 200 Connection Established\r\n\r\n".to_string(),
                )
            },
            (DirectConnectStage::Dialing, ConnectEvent::UpstreamFailed) => {
                self.stage = DirectConnectStage::Finished(Outcome::Failure);
                ConnectAction::Refuse(status_response(502, "Bad Gateway"))
            },
            (DirectConnectStage::Dialing, ConnectEvent::TimedOut) => {
                self.stage = DirectConnectStage::Finished(Outcome::Failure);
                ConnectAction::Refuse(timeout_response())
            },
            (DirectConnectStage::Acknowledging, ConnectEvent::ClientAcked) => {
                self.stage = DirectConnectStage::Tunneling;
                let to_upstream = slice_to_vec(self.early.as_slice());
                ConnectAction::Tunnel { to_client: Vec::new(), to_upstream }
            },
            (DirectConnectStage::Acknowledging, ConnectEvent::ClientGone) => {
                self.stage = DirectConnectStage::Finished(Outcome::Failure);
                ConnectAction::Close
            },
            (DirectConnectStage::Tunneling, ConnectEvent::TunnelEnded(_)) => {
                self.stage = DirectConnectStage::Finished(Outcome::Success);
                ConnectAction::Close
            },
            _ => ConnectAction::Close,
        }
    }
}

/// How far a request to its target has come.
#[derive(Debug, Clone, Copy, PartialEq, Eq, Structural)]
pub enum DirectForwardStage {
    Start,
    Dialing,
    SendingHead,
    SendingBuffered,
    SendingBody,
    AwaitingResponse,
    Finished(Outcome),
}

/// A request that goes straight to its target.
#[derive(Debug)]
pub struct DirectForward {
    pub target: HttpTarget,
    /// The bytes of the head and what of the body was read with it.
    pub raw: Vec<u8>,
    /// Where the body starts in `raw`.
    pub body_offset: usize,
    pub content_length: Option<u64>,
    pub chunked: bool,
    /// Whether the client wants a persistent connection.
    pub keep_alive: bool,
    pub stage: DirectForwardStage,
}

pub struct DirectForwardView {
    pub target: HttpTargetView,
    pub raw: Seq<u8>,
    pub body_offset: usize,
    pub content_length: Option<u64>,
    pub chunked: bool,
    pub keep_alive: bool,
    pub stage: DirectForwardStage,
}

impl View for DirectForward {
    type V = DirectForwardView;

    open spec fn view(&self) -> DirectForwardView {
        DirectForwardView {
            target: self.target@,
            raw: self.raw@,
            body_offset: self.body_offset,
            content_length: self.content_length,
            chunked: self.chunked,
            keep_alive: self.keep_alive,
            stage: self.stage,
        }
    }
}

impl DirectForwardView {
    /// The head ends within the bytes at hand.
    pub open spec fn wf(self) -> bool {
        self.body_offset <= self.raw.len()
    }

    /// The body bytes that were read with the head.
    pub open spec fn buffered(self) -> Seq<u8> {
        self.raw.skip(self.body_offset as int)
    }

    pub open spec fn at(self, stage: DirectForwardStage) -> DirectForwardView {
        DirectForwardView { stage, ..self }
    }

    /// The rest of the body comes next.
    pub open spec fn send_body(self) -> (DirectForwardView, ForwardActionView) {
        (
            self.at(DirectForwardStage::SendingBody),
            ForwardActionView::SendBody(
                request_body(self.content_length, self.chunked, self.buffered()),
            ),
        )
    }

    /// The request cannot be finished. The client is told as long as it has got
    /// nothing of the response.
    pub open spec fn give_up(self, response_started: bool, text: Seq<char>) -> (
        DirectForwardView,
        ForwardActionView,
    ) {
        (
            self.at(DirectForwardStage::Finished(Outcome::Failure)),
            if response_started {
                ForwardActionView::Finish { keep_alive: false }
            } else {
                ForwardActionView::Refuse(text)
            },
        )
    }

    /// Whether the target is in use.
    pub open spec fn active(self) -> bool {
        !(self.stage is Start) && !(self.stage is Finished)
    }

    /// What follows on `event`. An event that does not belong to the stage changes nothing.
    pub open spec fn step(self, event: ForwardEvent) -> (DirectForwardView, ForwardActionView) {
        match (self.stage, event) {
            (DirectForwardStage::Start, ForwardEvent::Begin) => (
                self.at(DirectForwardStage::Dialing),
                ForwardActionView::Dial { host: self.target.host, port: self.target.port },
            ),
            (DirectForwardStage::Dialing, ForwardEvent::Dialed) => (
                self.at(DirectForwardStage::SendingHead),
                ForwardActionView::SendHead(
                    terminated(
                        direct_lines(self.raw.take(self.body_offset as int), self.target.origin),
                    ),
                ),
            ),
            (DirectForwardStage::SendingHead, ForwardEvent::Sent) => if self.buffered().len() > 0 {
                (
                    self.at(DirectForwardStage::SendingBuffered),
                    ForwardActionView::SendBuffered,
                )
            } else {
                self.send_body()
            },
            (DirectForwardStage::SendingBuffered, ForwardEvent::Sent) => self.send_body(),
            (DirectForwardStage::SendingBody, ForwardEvent::BodySent) => (
                self.at(DirectForwardStage::AwaitingResponse),
                ForwardActionView::AwaitResponse,
            ),
            (DirectForwardStage::SendingBody, ForwardEvent::BodyFailed) => (
                self.at(DirectForwardStage::Finished(Outcome::Failure)),
                ForwardActionView::Finish { keep_alive: false },
            ),
            (
                DirectForwardStage::AwaitingResponse,
                ForwardEvent::Responded { keep_alive, .. },
            ) => (
                self.at(DirectForwardStage::Finished(Outcome::Success)),
                ForwardActionView::Finish { keep_alive: self.keep_alive && keep_alive },
            ),
            (_, ForwardEvent::UpstreamFailed { response_started }) => if self.active() {
                self.give_up(response_started, status_text(502, "Bad Gateway"@))
            } else {
                (self, ForwardActionView::Finish { keep_alive: false })
            },
            (_, ForwardEvent::TimedOut { response_started }) => if self.active() {
                self.give_up(response_started, status_text(504, "Gateway Timeout"@))
            } else {
                (self, ForwardActionView::Finish { keep_alive: false })
            },
            _ => (self, ForwardActionView::Finish { keep_alive: false }),
        }
    }
}

impl DirectForward {
    /// A request in `raw` that `plan` describes, to this target.
    pub fn new(raw: Vec<u8>, plan: &ForwardPlan, target: HttpTarget) -> (r: Self)
        requires
            plan.body_offset <= raw@.len(),
        ensures
            r@.wf(),
            r@ == (DirectForwardView {
                target: target@,
                raw: raw@,
                body_offset: plan.body_offset,
                content_length: plan.content_length,
                chunked: plan.chunked,
                keep_alive: plan.keep_alive,
                stage: DirectForwardStage::Start,
            }),
    {
        DirectForward {
            target,
            raw,
            body_offset: plan.body_offset,
            content_length: plan.content_length,
            chunked: plan.chunked,
            keep_alive: plan.keep_alive,
            stage: DirectForwardStage::Start,
        }
    }

    /// How the request came out, if it is over.
    pub fn outcome(&self) -> (r: Option<Outcome>)
        ensures
            r == (match self@.stage {
                DirectForwardStage::Finished(outcome) => Some(outcome),
                _ => None,
            }),
    {
        match self.stage {
            DirectForwardStage::Finished(outcome) => Some(outcome),
            _ => None,
        }
    }

    fn send_body(&mut self) -> (r: ForwardAction)
        requires
            old(self)@.wf(),
        ensures
            (final(self)@, r@) == old(self)@.send_body(),
    {
        let buffered = slice_subrange(self.raw.as_slice(), self.body_offset, self.raw.len());
        assert(buffered@ == self@.buffered());
        let body: BodyPlan = plan_request_body(self.content_length, self.chunked, buffered);
        self.stage = DirectForwardStage::SendingBody;
        ForwardAction::SendBody(body)
    }

    fn give_up(&mut self, response_started: bool, text: String) -> (r: ForwardAction)
        ensures
            (final(self)@, r@) == old(self)@.give_up(response_started, text@),
    {
        self.stage = DirectForwardStage::Finished(Outcome::Failure);
        if response_started {
            ForwardAction::Finish { keep_alive: false }
        } else {
            ForwardAction::Refuse(text)
        }
    }

    fn is_active(&self) -> (r: bool)
        ensures
            r == self@.active(),
    {
        match self.stage {
            DirectForwardStage::Start => false,
            DirectForwardStage::Finished(_) => false,
            _ => true,
        }
    }

    /// Takes in what happened and says what to do next.
    pub fn step(&mut self, event: ForwardEvent) -> (r: ForwardAction)
        requires
            old(self)@.wf(),
        ensures
            final(self)@.wf(),
            (final(self)@, r@) == old(self)@.step(event),
    {
        match (self.stage, event) {
            (DirectForwardStage::Start, ForwardEvent::Begin) => {
                self.stage = DirectForwardStage::Dialing;
                ForwardAction::Dial { host: self.target.host.clone(), port: self.target.port }
            },
            (DirectForwardStage::Dialing, ForwardEvent::Dialed) => {
                self.stage = DirectForwardStage::SendingHead;
                ForwardAction::SendHead(
                    rewrite_for_origin(
                        self.raw.as_slice(),
                        self.body_offset,
                        self.target.origin.as_str(),
                    ),
                )
            },
            (DirectForwardStage::SendingHead, ForwardEvent::Sent) => {
                if self.raw.len() > self.body_offset {
                    self.stage = DirectForwardStage::SendingBuffered;
                    ForwardAction::SendBuffered
                } else {
                    self.send_body()
                }
            },
            (DirectForwardStage::SendingBuffered, ForwardEvent::Sent) => self.send_body(),
            (DirectForwardStage::SendingBody, ForwardEvent::BodySent) => {
                self.stage = DirectForwardStage::AwaitingResponse;
                ForwardAction::AwaitResponse
            },
            (DirectForwardStage::SendingBody, ForwardEvent::BodyFailed) => {
                self.stage = DirectForwardStage::Finished(Outcome::Failure);
                ForwardAction::Finish { keep_alive: false }
            },
            (
                DirectForwardStage::AwaitingResponse,
                ForwardEvent::Responded { keep_alive, .. },
            ) => {
                self.stage = DirectForwardStage::Finished(Outcome::Success);
                ForwardAction::Finish { keep_alive: self.keep_alive && keep_alive }
            },
            (_, ForwardEvent::UpstreamFailed { response_started }) => {
                if self.is_active() {
                    self.give_up(response_started, status_response(502, "Bad Gateway"))
                } else {
                    ForwardAction::Finish { keep_alive: false }
                }
            },
            (_, ForwardEvent::TimedOut { response_started }) => {
                if self.is_active() {
                    self.give_up(response_started, timeout_response())
                } else {
                    ForwardAction::Finish { keep_alive: false }
                }
            },
            _ => ForwardAction::Finish { keep_alive: false },
        }
    }
}

/// A tunnel that goes straight to its target: the target is dialled; once it is
/// connected the client is told, and the tunnel starts with what the client sent
/// early; when the tunnel ends it was a success.
pub proof fn law_direct_tunnel(s: DirectConnectView, ms: u64)
    ensures
        s.stage is Start ==> s.step(ConnectEvent::Begin) == (
            DirectConnectView { stage: DirectConnectStage::Dialing, ..s },
            ConnectActionView::Dial { host: s.host, port: s.port },
        ),
        s.stage is Dialing ==> s.step(ConnectEvent::Dialed) == (
            DirectConnectView { stage: DirectConnectStage::Acknowledging, ..s },
            ConnectActionView::Acknowledge("HTTP/1.1 200 Connection Established\r\n\r\n"@),
        ),
        s.stage is Acknowledging ==> s.step(ConnectEvent::ClientAcked) == (
            DirectConnectView { stage: DirectConnectStage::Tunneling, ..s },
            ConnectActionView::Tunnel { to_client: Seq::empty(), to_upstream: s.early },
        ),
        s.stage is Tunneling ==> s.step(ConnectEvent::TunnelEnded(ms)) == (
            DirectConnectView { stage: DirectConnectStage::Finished(Outcome::Success), ..s },
            ConnectActionView::Close,
        ),
{
}

/// A target that does not connect, or not in time, is a failure of which the client
/// is told: with 502 or 504. A client that could not be told ends it too.
pub proof fn law_direct_tunnel_fails(s: DirectConnectView)
    ensures
        ({
            let over = DirectConnectView {
                stage: DirectConnectStage::Finished(Outcome::Failure),
                ..s
            };
            &&& s.stage is Dialing ==> s.step(ConnectEvent::UpstreamFailed) == (
                over,
                ConnectActionView::Refuse(status_text(502, "Bad Gateway"@)),
            )
            &&& s.stage is Dialing ==> s.step(ConnectEvent::TimedOut) == (
                over,
                ConnectActionView::Refuse(status_text(504, "Gateway Timeout"@)),
            )
            &&& s.stage is Acknowledging ==> s.step(ConnectEvent::ClientGone) == (
                over,
                ConnectActionView::Close,
            )
        }),
{
}

/// Whether a tunnel at this stage waits for this event.
pub open spec fn direct_connect_awaits(stage: DirectConnectStage, event: ConnectEvent) -> bool {
    match stage {
        DirectConnectStage::Start => event is Begin,
        DirectConnectStage::Dialing => event is Dialed || event is UpstreamFailed
            || event is TimedOut,
        DirectConnectStage::Acknowledging => event is ClientAcked || event is ClientGone,
        DirectConnectStage::Tunneling => event is TunnelEnded,
        DirectConnectStage::Finished(_) => false,
    }
}

/// An event that a tunnel does not wait for changes nothing.
pub proof fn law_direct_tunnel_stray_events(s: DirectConnectView, event: ConnectEvent)
    ensures
        !direct_connect_awaits(s.stage, event) ==> s.step(event) == (s, ConnectActionView::Close),
{
}

/// A request that goes straight to its target: the target is dialled and gets the
/// head in origin form, the body bytes that came with it, and the rest of the body;
/// after its response the request was a success, and the client connection persists
/// if both sides let it.
pub proof fn law_direct_request(s: DirectForwardView, keep_alive: bool, elapsed_ms: u64)
    requires
        s.body_offset <= s.raw.len(),
    ensures
        s.stage is Start ==> s.step(ForwardEvent::Begin) == (
            DirectForwardView { stage: DirectForwardStage::Dialing, ..s },
            ForwardActionView::Dial { host: s.target.host, port: s.target.port },
        ),
        s.stage is Dialing ==> s.step(ForwardEvent::Dialed) == (
            DirectForwardView { stage: DirectForwardStage::SendingHead, ..s },
            ForwardActionView::SendHead(
                terminated(direct_lines(s.raw.take(s.body_offset as int), s.target.origin)),
            ),
        ),
        s.stage is SendingHead && s.raw.len() > s.body_offset ==> s.step(ForwardEvent::Sent) == (
            DirectForwardView { stage: DirectForwardStage::SendingBuffered, ..s },
            ForwardActionView::SendBuffered,
        ),
        (s.stage is SendingHead && s.raw.len() == s.body_offset) || s.stage is SendingBuffered
            ==> s.step(ForwardEvent::Sent) == (
            DirectForwardView { stage: DirectForwardStage::SendingBody, ..s },
            ForwardActionView::SendBody(
                request_body(s.content_length, s.chunked, s.raw.skip(s.body_offset as int)),
            ),
        ),
        s.stage is SendingBody ==> s.step(ForwardEvent::BodySent) == (
            DirectForwardView { stage: DirectForwardStage::AwaitingResponse, ..s },
            ForwardActionView::AwaitResponse,
        ),
        s.stage is AwaitingResponse ==> s.step(
            ForwardEvent::Responded { keep_alive, elapsed_ms },
        ) == (
            DirectForwardView { stage: DirectForwardStage::Finished(Outcome::Success), ..s },
            ForwardActionView::Finish { keep_alive: s.keep_alive && keep_alive },
        ),
{
}

/// A request that fails on its way ends as a failure. The client gets a 502, or a 504
/// where it took too long, unless it has got a part of the response. A body that
/// could not be forwarded ends the request without one.
pub proof fn law_direct_request_fails(s: DirectForwardView, started: bool)
    requires
        !(s.stage is Start) && !(s.stage is Finished),
    ensures
        ({
            let over = DirectForwardView {
                stage: DirectForwardStage::Finished(Outcome::Failure),
                ..s
            };
            let failed = ForwardEvent::UpstreamFailed { response_started: started };
            let timed_out = ForwardEvent::TimedOut { response_started: started };
            &&& s.step(failed).0 == over
            &&& s.step(timed_out).0 == over
            &&& started ==> s.step(failed).1 == (ForwardActionView::Finish { keep_alive: false })
            &&& started ==> s.step(timed_out).1 == (ForwardActionView::Finish { keep_alive: false })
            &&& !started ==> s.step(failed).1 == ForwardActionView::Refuse(
                status_text(502, "Bad Gateway"@),
            )
            &&& !started ==> s.step(timed_out).1 == ForwardActionView::Refuse(
                status_text(504, "Gateway Timeout"@),
            )
            &&& s.stage is SendingBody ==> s.step(ForwardEvent::BodyFailed) == (
                over,
                ForwardActionView::Finish { keep_alive: false },
            )
        }),
{
}

/// Whether a request at this stage waits for this event.
pub open spec fn direct_forward_awaits(stage: DirectForwardStage, event: ForwardEvent) -> bool {
    match stage {
        DirectForwardStage::Start => event is Begin,
        DirectForwardStage::Finished(_) => false,
        DirectForwardStage::Dialing => event is Dialed || event is UpstreamFailed
            || event is TimedOut,
        DirectForwardStage::SendingHead => event is Sent || event is UpstreamFailed
            || event is TimedOut,
        DirectForwardStage::SendingBuffered => event is Sent || event is UpstreamFailed
            || event is TimedOut,
        DirectForwardStage::SendingBody => event is BodySent || event is BodyFailed
            || event is UpstreamFailed || event is TimedOut,
        DirectForwardStage::AwaitingResponse => event is Responded || event is UpstreamFailed
            || event is TimedOut,
    }
}

/// An event that a request does not wait for changes nothing.
pub proof fn law_direct_request_stray_events(s: DirectForwardView, event: ForwardEvent)
    ensures
        !direct_forward_awaits(s.stage, event) ==> s.step(event) == (
            s,
            ForwardActionView::Finish { keep_alive: false },
        ),
{
}

/// What is said of a session that is over is how it came out, and nothing before.
pub proof fn law_direct_outcomes(c: DirectConnect, f: DirectForward, r: Option<Outcome>)
    ensures
        call_ensures(DirectConnect::outcome, (&c,), r) ==> (r matches Some(o) ==> c.stage
            == DirectConnectStage::Finished(o)) && (r is None ==> !(c.stage is Finished)),
        call_ensures(DirectForward::outcome, (&f,), r) ==> (r matches Some(o) ==> f.stage
            == DirectForwardStage::Finished(o)) && (r is None ==> !(f.stage is Finished)),
{
}

/// Of the running code: sessions past the upstreams step as described here, and start
/// with just what they are given.
pub proof fn law_direct_sessions_run(
    c: ConnectEvent,
    action: ConnectAction,
    f: ForwardEvent,
    forward: ForwardAction,
)
    ensures
        forall|s: &mut DirectConnect| #[trigger]
            call_ensures(DirectConnect::step, (s, c), action) ==> ((*final(s))@, action@)
                == (*s)@.step(c),
        forall|s: &mut DirectForward|
            (*s)@.wf() && #[trigger] call_ensures(DirectForward::step, (s, f), forward) ==> (
                (*final(s))@,
                forward@,
            ) == (*s)@.step(f),
{
}

/// Of the running code: sessions past the upstreams start with just what they are
/// given, and their views leave nothing out.
pub proof fn law_direct_sessions_start(
    host: String,
    port: u16,
    early: Vec<u8>,
    c: DirectConnect,
    raw: Vec<u8>,
    plan: &ForwardPlan,
    target: HttpTarget,
    f: DirectForward,
)
    ensures
        call_ensures(DirectConnect::new, (host, port, early), c) ==> c.host@ == host@ && c.port
            == port && c.early@ == early@ && c.stage is Start,
        plan.body_offset <= raw@.len() && call_ensures(DirectForward::new, (raw, plan, target), f)
            ==> {
            &&& f.raw@ == raw@ && f.body_offset == plan.body_offset && f.stage is Start
            &&& f.content_length == plan.content_length && f.chunked == plan.chunked
            &&& f.keep_alive == plan.keep_alive
            &&& f.target.host@ == target.host@ && f.target.port == target.port
            &&& f.target.origin@ == target.origin@
        },
        c@.host == c.host@ && c@.port == c.port && c@.early == c.early@ && c@.stage == c.stage,
        f@.raw == f.raw@ && f@.body_offset == f.body_offset && f@.keep_alive == f.keep_alive,
        f@.content_length == f.content_length && f@.chunked == f.chunked && f@.stage == f.stage,
        f@.target.host == f.target.host@ && f@.target.port == f.target.port,
        f@.target.origin == f.target.origin@,
{
}

} // verus!
