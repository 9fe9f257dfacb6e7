//! How a request makes its way through the upstreams: which one is dialled, what
//! is sent, and what happens when an upstream fails. Each session is a state
//! machine that is told what happened and says what to do next.

use crate::config::BalanceMode;
use crate::http::{
    plan_request_body, request_body, text_view, BodyPlan, ConnectReply, ForwardPlan,
};
use crate::limits::timeout_response;
use crate::rewrite::{
    build_upstream_connect, connect_request, forwarded_lines, rewrite_request_headers,
    status_response, status_text, terminated,
};
use crate::upstream::{EntryEvent, PoolView, UpstreamPool};
use vstd::prelude::*;
use vstd::slice::{slice_subrange, slice_to_vec};

verus! {

/// Maximum number of upstream retry attempts per request.
pub const MAX_RETRIES: usize = 3;

/// The upstream that a request uses, by its id: no other entry of the pool has the
/// same, and a reload hands it on to the first upstream with the same URL.
#[derive(Debug, Clone, Copy, PartialEq, Eq, Structural)]
pub struct Lease {
    pub id: u64,
}

/// How a request came out.
#[derive(Debug, Clone, Copy, PartialEq, Eq, Structural)]
pub enum Outcome {
    /// A response was forwarded, or a tunnel was up.
    Success,
    Failure,
}

/// The way to one upstream.
#[derive(Debug)]
pub struct Hop {
    pub lease: Lease,
    pub host: String,
    pub port: u16,
    /// The `Proxy-Authorization` value for this upstream.
    pub auth: Option<String>,
}

pub struct HopView {
    pub lease: Lease,
    pub host: Seq<char>,
    pub port: u16,
    pub auth: Option<Seq<char>>,
}

impl View for Hop {
    type V = HopView;

    open spec fn view(&self) -> HopView {
        HopView {
            lease: self.lease,
            host: self.host@,
            port: self.port,
            auth: text_view(self.auth),
        }
    }
}

/// The upstreams that were tried for one request, by their ids.
#[derive(Debug)]
pub struct Attempts {
    pub mode: BalanceMode,
    pub tried: Vec<u64>,
    pub max_retries: usize,
}

pub struct AttemptsView {
    pub mode: BalanceMode,
    pub tried: Seq<u64>,
    pub max_retries: usize,
}

impl View for Attempts {
    type V = AttemptsView;

    open spec fn view(&self) -> AttemptsView {
        AttemptsView { mode: self.mode, tried: self.tried@, max_retries: self.max_retries }
    }
}

/// The next upstream to try, if there is one.
#[derive(Debug)]
pub enum Pick {
    /// No upstream is left.
    Unavailable,
    /// The URL of the selected upstream is not valid.
    InvalidUrl,
    Dial(Hop),
}

pub enum PickView {
    Unavailable,
    InvalidUrl,
    Dial(HopView),
}

impl View for Pick {
    type V = PickView;

    open spec fn view(&self) -> PickView {
        match self {
            Pick::Unavailable => PickView::Unavailable,
            Pick::InvalidUrl => PickView::InvalidUrl,
            Pick::Dial(hop) => PickView::Dial(hop@),
        }
    }
}

impl AttemptsView {
    /// The attempts for a new request: at most one for each upstream, and at most
    /// `MAX_RETRIES`.
    pub open spec fn fresh(mode: BalanceMode, pool_len: nat) -> AttemptsView {
        AttemptsView {
            mode,
            tried: Seq::empty(),
            max_retries: if pool_len < MAX_RETRIES {
                pool_len as usize
            } else {
                MAX_RETRIES
            },
        }
    }

    /// The next upstream: the pool's choice among those that were not tried.
    pub open spec fn pick(self, p: PoolView) -> (AttemptsView, PoolView, PickView) {
        match p.choice(self.mode, p.positions(self.tried)) {
            None => (self, p, PickView::Unavailable),
            Some(i) => (
                AttemptsView { tried: self.tried.push(p.entries[i].id), ..self },
                p.after_selection(self.mode, p.positions(self.tried)),
                match p.entries[i].config.address() {
                    None => PickView::InvalidUrl,
                    Some((host, port)) => PickView::Dial(
                        HopView {
                            lease: Lease { id: p.entries[i].id },
                            host,
                            port,
                            auth: p.entries[i].config.auth_header(),
                        },
                    ),
                },
            ),
        }
    }

    /// Whether a failure is not followed by another attempt.
    pub open spec fn exhausted(self) -> bool {
        self.tried.len() >= self.max_retries
    }
}

impl PoolView {
    /// The pool after `event` at the leased entry.
    pub open spec fn on(self, lease: Lease, event: EntryEvent) -> PoolView {
        self.after(lease.id, event)
    }

    /// The pool after a failed attempt: the upstream is offline and has one more failure.
    pub open spec fn failed(self, lease: Lease) -> PoolView {
        self.on(lease, EntryEvent::WentOffline).on(lease, EntryEvent::Failed)
    }
}

impl Attempts {
    pub fn new(mode: BalanceMode, pool: &UpstreamPool) -> (r: Self)
        ensures
            r@ == AttemptsView::fresh(mode, pool.entries@.len()),
    {
        let n = pool.len();
        let max_retries: usize = if n < MAX_RETRIES {
            n
        } else {
            MAX_RETRIES
        };
        Attempts { mode, tried: Vec::new(), max_retries }
    }

    /// Selects the next upstream.
    pub fn pick(&mut self, pool: &mut UpstreamPool) -> (r: Pick)
        ensures
            (final(self)@, final(pool)@, r@) == old(self)@.pick(old(pool)@),
            old(pool)@.wf() ==> final(pool)@.wf(),
    {
        let exclude = pool.find_positions(self.tried.as_slice());
        match pool.select(self.mode, exclude.as_slice()) {
            Some((_, entry)) => {
                self.tried.push(entry.id);
                match entry.host_port() {
                    Ok((host, port)) => {
                        let lease = Lease { id: entry.id };
                        Pick::Dial(Hop { lease, host, port, auth: entry.config.proxy_auth_header() })
                    },
                    Err(_) => Pick::InvalidUrl,
                }
            },
            None => Pick::Unavailable,
        }
    }

    /// Whether a failure is not followed by another attempt.
    pub fn is_exhausted(&self) -> (r: bool)
        ensures
            r == self@.exhausted(),
    {
        self.tried.len() >= self.max_retries
    }
}

pub(crate) fn apply(pool: &mut UpstreamPool, lease: Lease, event: EntryEvent)
    ensures
        final(pool)@ == old(pool)@.on(lease, event),
        old(pool)@.wf() ==> final(pool)@.wf(),
{
    let _known = pool.apply(lease.id, event);
}

fn mark_failed(pool: &mut UpstreamPool, lease: Lease)
    ensures
        final(pool)@ == old(pool)@.failed(lease),
        old(pool)@.wf() ==> final(pool)@.wf(),
{
    apply(pool, lease, EntryEvent::WentOffline);
    apply(pool, lease, EntryEvent::Failed);
}

/// What happened in a CONNECT session.
#[derive(Debug)]
pub enum ConnectEvent {
    Begin,
    /// The connection to the upstream is up.
    Dialed,
    /// The request was written to the upstream.
    RequestSent,
    /// The upstream replied.
    Replied(ConnectReply),
    /// The upstream did not connect, broke off, or did not reply properly.
    UpstreamFailed,
    /// The client was told that the tunnel is up.
    ClientAcked,
    /// The client could not be told.
    ClientGone,
    /// The time allowed for the request is over.
    TimedOut,
    /// The tunnel was closed after this many milliseconds.
    TunnelEnded(u64),
}

/// What to do next in a CONNECT session.
#[derive(Debug)]
pub enum ConnectAction {
    /// Connect to this upstream.
    Dial { host: String, port: u16 },
    /// Write this to the upstream.
    SendRequest(String),
    /// Read the reply of the upstream.
    AwaitReply,
    /// Send this to the client: the tunnel is up.
    Acknowledge(String),
    /// Send these first bytes, which came with the heads, and copy in both
    /// directions until one side closes.
    Tunnel { to_client: Vec<u8>, to_upstream: Vec<u8> },
    /// Send this to the client, and close.
    Refuse(String),
    Close,
}

pub enum ConnectActionView {
    Dial { host: Seq<char>, port: u16 },
    SendRequest(Seq<char>),
    AwaitReply,
    Acknowledge(Seq<char>),
    Tunnel { to_client: Seq<u8>, to_upstream: Seq<u8> },
    Refuse(Seq<char>),
    Close,
}

impl View for ConnectAction {
    type V = ConnectActionView;

    open spec fn view(&self) -> ConnectActionView {
        match self {
            ConnectAction::Dial { host, port } => ConnectActionView::Dial {
                host: host@,
                port: *port,
            },
            ConnectAction::SendRequest(text) => ConnectActionView::SendRequest(text@),
            ConnectAction::AwaitReply => ConnectActionView::AwaitReply,
            ConnectAction::Acknowledge(text) => ConnectActionView::Acknowledge(text@),
            ConnectAction::Tunnel { to_client, to_upstream } => ConnectActionView::Tunnel {
                to_client: to_client@,
                to_upstream: to_upstream@,
            },
            ConnectAction::Refuse(text) => ConnectActionView::Refuse(text@),
            ConnectAction::Close => ConnectActionView::Close,
        }
    }
}

/// How far a CONNECT session has come.
#[derive(Debug)]
pub enum ConnectStage {
    Start,
    Dialing(Hop),
    Requesting(Lease),
    AwaitingReply(Lease),
    /// The reply came with these first bytes of the tunnel.
    Acknowledging { lease: Lease, early: Vec<u8> },
    Tunneling(Lease),
    Finished(Outcome),
}

pub enum ConnectStageView {
    Start,
    Dialing(HopView),
    Requesting(Lease),
    AwaitingReply(Lease),
    Acknowledging { lease: Lease, early: Seq<u8> },
    Tunneling(Lease),
    Finished(Outcome),
}

impl View for ConnectStage {
    type V = ConnectStageView;

    open spec fn view(&self) -> ConnectStageView {
        match self {
            ConnectStage::Start => ConnectStageView::Start,
            ConnectStage::Dialing(hop) => ConnectStageView::Dialing(hop@),
            ConnectStage::Requesting(lease) => ConnectStageView::Requesting(*lease),
            ConnectStage::AwaitingReply(lease) => ConnectStageView::AwaitingReply(*lease),
            ConnectStage::Acknowledging { lease, early } => ConnectStageView::Acknowledging {
                lease: *lease,
                early: early@,
            },
            ConnectStage::Tunneling(lease) => ConnectStageView::Tunneling(*lease),
            ConnectStage::Finished(outcome) => ConnectStageView::Finished(*outcome),
        }
    }
}

/// A client's request for a tunnel.
#[derive(Debug)]
pub struct ConnectSession {
    pub host: String,
    pub port: u16,
    /// The bytes that the client sent behind its head.
    pub early: Vec<u8>,
    pub attempts: Attempts,
    pub stage: ConnectStage,
}

pub struct ConnectView {
    pub host: Seq<char>,
    pub port: u16,
    pub early: Seq<u8>,
    pub attempts: AttemptsView,
    pub stage: ConnectStageView,
}

impl View for ConnectSession {
    type V = ConnectView;

    open spec fn view(&self) -> ConnectView {
        ConnectView {
            host: self.host@,
            port: self.port,
            early: self.early@,
            attempts: self.attempts@,
            stage: self.stage@,
        }
    }
}

impl ConnectView {
    /// On to the next upstream.
    pub open spec fn advance(self, p: PoolView) -> (ConnectView, PoolView, ConnectActionView) {
        let (attempts, q, pick) = self.attempts.pick(p);
        match pick {
            PickView::Unavailable => (
                ConnectView { attempts, stage: ConnectStageView::Finished(Outcome::Failure), ..self },
                q,
                ConnectActionView::Refuse(status_text(502, "No upstream available"@)),
            ),
            PickView::InvalidUrl => (
                ConnectView { attempts, stage: ConnectStageView::Finished(Outcome::Failure), ..self },
                q,
                ConnectActionView::Close,
            ),
            PickView::Dial(hop) => (
                ConnectView { attempts, stage: ConnectStageView::Dialing(hop), ..self },
                q,
                ConnectActionView::Dial { host: hop.host, port: hop.port },
            ),
        }
    }

    /// The leased upstream failed: on to the next one, unless this was the last attempt.
    pub open spec fn fail(self, p: PoolView, lease: Lease) -> (
        ConnectView,
        PoolView,
        ConnectActionView,
    ) {
        if self.attempts.exhausted() {
            (
                ConnectView { stage: ConnectStageView::Finished(Outcome::Failure), ..self },
                p.failed(lease),
                ConnectActionView::Refuse(status_text(502, "Bad Gateway"@)),
            )
        } else {
            self.advance(p.failed(lease))
        }
    }

    /// The session ends because the leased upstream took too long: it has failed.
    pub open spec fn time_out(self, p: PoolView, lease: Lease) -> (
        ConnectView,
        PoolView,
        ConnectActionView,
    ) {
        (
            ConnectView { stage: ConnectStageView::Finished(Outcome::Failure), ..self },
            p.failed(lease),
            ConnectActionView::Refuse(status_text(504, "Gateway Timeout"@)),
        )
    }

    /// What follows on `event`. An event that does not belong to the stage changes nothing.
    pub open spec fn step(self, p: PoolView, event: ConnectEvent) -> (
        ConnectView,
        PoolView,
        ConnectActionView,
    ) {
        match (self.stage, event) {
            (ConnectStageView::Start, ConnectEvent::Begin) => self.advance(p),
            (ConnectStageView::Dialing(hop), ConnectEvent::Dialed) => (
                ConnectView { stage: ConnectStageView::Requesting(hop.lease), ..self },
                p,
                ConnectActionView::SendRequest(connect_request(self.host, self.port, hop.auth)),
            ),
            (ConnectStageView::Dialing(hop), ConnectEvent::UpstreamFailed) => self.fail(
                p,
                hop.lease,
            ),
            (ConnectStageView::Requesting(lease), ConnectEvent::RequestSent) => (
                ConnectView { stage: ConnectStageView::AwaitingReply(lease), ..self },
                p,
                ConnectActionView::AwaitReply,
            ),
            (ConnectStageView::Requesting(lease), ConnectEvent::UpstreamFailed) => self.fail(
                p,
                lease,
            ),
            (ConnectStageView::AwaitingReply(lease), ConnectEvent::Replied(reply)) => if reply.status
                == 200 {
                (
                    ConnectView {
                        stage: ConnectStageView::Acknowledging { lease, early: reply.early@ },
                        ..self
                    },
                    p,
                    ConnectActionView::Acknowledge(
                        "HTTP/1.1 200 Connection Established\r\n\r\n"@,
                    ),
                )
            } else {
                (
                    ConnectView { stage: ConnectStageView::Finished(Outcome::Failure), ..self },
                    p,
                    ConnectActionView::Refuse(
                        status_text(reply.status, "Upstream rejected CONNECT"@),
                    ),
                )
            },
            (ConnectStageView::AwaitingReply(lease), ConnectEvent::UpstreamFailed) => self.fail(
                p,
                lease,
            ),
            (ConnectStageView::Acknowledging { lease, early }, ConnectEvent::ClientAcked) => (
                ConnectView { stage: ConnectStageView::Tunneling(lease), ..self },
                p.on(lease, EntryEvent::Opened),
                ConnectActionView::Tunnel { to_client: early, to_upstream: self.early },
            ),
            (ConnectStageView::Acknowledging { .. }, ConnectEvent::ClientGone) => (
                ConnectView { stage: ConnectStageView::Finished(Outcome::Failure), ..self },
                p,
                ConnectActionView::Close,
            ),
            (ConnectStageView::Dialing(hop), ConnectEvent::TimedOut) => self.time_out(
                p,
                hop.lease,
            ),
            (ConnectStageView::Requesting(lease), ConnectEvent::TimedOut) => self.time_out(
                p,
                lease,
            ),
            (ConnectStageView::AwaitingReply(lease), ConnectEvent::TimedOut) => self.time_out(
                p,
                lease,
            ),
            (ConnectStageView::Tunneling(lease), ConnectEvent::TunnelEnded(ms)) => (
                ConnectView { stage: ConnectStageView::Finished(Outcome::Success), ..self },
                p.on(lease, EntryEvent::Closed).on(lease, EntryEvent::Succeeded(ms)),
                ConnectActionView::Close,
            ),
            _ => (self, p, ConnectActionView::Close),
        }
    }
}

impl ConnectSession {
    /// A session for a tunnel to this host and port; the client sent the bytes
    /// `early` behind its head.
    pub fn new(
        host: String,
        port: u16,
        early: Vec<u8>,
        mode: BalanceMode,
        pool: &UpstreamPool,
    ) -> (r: Self)
        ensures
            r@ == (ConnectView {
                host: host@,
                port,
                early: early@,
                attempts: AttemptsView::fresh(mode, pool.entries@.len()),
                stage: ConnectStageView::Start,
            }),
    {
        ConnectSession {
            host,
            port,
            early,
            attempts: Attempts::new(mode, pool),
            stage: ConnectStage::Start,
        }
    }

    /// How the session came out, if it is over.
    pub fn outcome(&self) -> (r: Option<Outcome>)
        ensures
            r == (match self@.stage {
                ConnectStageView::Finished(outcome) => Some(outcome),
                _ => None,
            }),
    {
        match &self.stage {
            ConnectStage::Finished(outcome) => Some(*outcome),
            _ => None,
        }
    }

    fn advance(&mut self, pool: &mut UpstreamPool) -> (r: ConnectAction)
        ensures
            (final(self)@, final(pool)@, r@) == old(self)@.advance(old(pool)@),
            old(pool)@.wf() ==> final(pool)@.wf(),
    {
        match self.attempts.pick(pool) {
            Pick::Unavailable => {
                self.stage = ConnectStage::Finished(Outcome::Failure);
                ConnectAction::Refuse(status_response(502, "No upstream available"))
            },
            Pick::InvalidUrl => {
                self.stage = ConnectStage::Finished(Outcome::Failure);
                ConnectAction::Close
            },
            Pick::Dial(hop) => {
                let host = hop.host.clone();
                let port: u16 = hop.port;
                self.stage = ConnectStage::Dialing(hop);
                ConnectAction::Dial { host, port }
            },
        }
    }

    fn fail(&mut self, pool: &mut UpstreamPool, lease: Lease) -> (r: ConnectAction)
        ensures
            (final(self)@, final(pool)@, r@) == old(self)@.fail(old(pool)@, lease),
            old(pool)@.wf() ==> final(pool)@.wf(),
    {
        mark_failed(pool, lease);
        if self.attempts.is_exhausted() {
            self.stage = ConnectStage::Finished(Outcome::Failure);
            return ConnectAction::Refuse(status_response(502, "Bad Gateway"));
        }
        self.advance(pool)
    }

    fn time_out(&mut self, pool: &mut UpstreamPool, lease: Lease) -> (r: ConnectAction)
        ensures
            (final(self)@, final(pool)@, r@) == old(self)@.time_out(old(pool)@, lease),
            old(pool)@.wf() ==> final(pool)@.wf(),
    {
        mark_failed(pool, lease);
        self.stage = ConnectStage::Finished(Outcome::Failure);
        ConnectAction::Refuse(timeout_response())
    }

    /// Takes in what happened and says what to do next.
    pub fn step(&mut self, pool: &mut UpstreamPool, event: ConnectEvent) -> (r: ConnectAction)
        ensures
            (final(self)@, final(pool)@, r@) == old(self)@.step(old(pool)@, event),
            old(pool)@.wf() ==> final(pool)@.wf(),
    {
        match (&self.stage, event) {
            (ConnectStage::Start, ConnectEvent::Begin) => self.advance(pool),
            (ConnectStage::Dialing(hop), ConnectEvent::Dialed) => {
                let lease = hop.lease;
                let auth = match &hop.auth {
                    Some(a) => Some(a.clone()),
                    None => None,
                };
                let request = build_upstream_connect(self.host.as_str(), self.port, auth);
                self.stage = ConnectStage::Requesting(lease);
                ConnectAction::SendRequest(request)
            },
            (ConnectStage::Dialing(hop), ConnectEvent::UpstreamFailed) => {
                let lease = hop.lease;
                self.fail(pool, lease)
            },
            (ConnectStage::Requesting(lease), ConnectEvent::RequestSent) => {
                self.stage = ConnectStage::AwaitingReply(*lease);
                ConnectAction::AwaitReply
            },
            (ConnectStage::Requesting(lease), ConnectEvent::UpstreamFailed) => {
                let lease = *lease;
                self.fail(pool, lease)
            },
            (ConnectStage::AwaitingReply(lease), ConnectEvent::Replied(reply)) => {
                if reply.status == 200 {
                    self.stage = ConnectStage::Acknowledging { lease: *lease, early: reply.early };
                    ConnectAction::Acknowledge(
                        "HTTP/1.1 200 Connection Established\r\n\r\n".to_string(),
                    )
                } else {
                    self.stage = ConnectStage::Finished(Outcome::Failure);
                    ConnectAction::Refuse(status_response(reply.status, "Upstream rejected CONNECT"))
                }
            },
            (ConnectStage::AwaitingReply(lease), ConnectEvent::UpstreamFailed) => {
                let lease = *lease;
                self.fail(pool, lease)
            },
            (ConnectStage::Acknowledging { lease, early }, ConnectEvent::ClientAcked) => {
                let lease = *lease;
                let to_client = slice_to_vec(early.as_slice());
                let to_upstream = slice_to_vec(self.early.as_slice());
                apply(pool, lease, EntryEvent::Opened);
                self.stage = ConnectStage::Tunneling(lease);
                ConnectAction::Tunnel { to_client, to_upstream }
            },
            (ConnectStage::Acknowledging { .. }, ConnectEvent::ClientGone) => {
                self.stage = ConnectStage::Finished(Outcome::Failure);
                ConnectAction::Close
            },
            (ConnectStage::Dialing(hop), ConnectEvent::TimedOut) => {
                let lease = hop.lease;
                self.time_out(pool, lease)
            },
            (ConnectStage::Requesting(lease), ConnectEvent::TimedOut) => {
                let lease = *lease;
                self.time_out(pool, lease)
            },
            (ConnectStage::AwaitingReply(lease), ConnectEvent::TimedOut) => {
                let lease = *lease;
                self.time_out(pool, lease)
            },
            (ConnectStage::Tunneling(lease), ConnectEvent::TunnelEnded(ms)) => {
                apply(pool, *lease, EntryEvent::Closed);
                apply(pool, *lease, EntryEvent::Succeeded(ms));
                self.stage = ConnectStage::Finished(Outcome::Success);
                ConnectAction::Close
            },
            _ => ConnectAction::Close,
        }
    }
}

/// What happened in the forwarding of a request.
#[derive(Debug, Clone, Copy, PartialEq, Eq, Structural)]
pub enum ForwardEvent {
    Begin,
    /// The connection to the upstream is up.
    Dialed,
    /// The head, or the buffered start of the body, was written to the upstream.
    Sent,
    /// The rest of the body was forwarded.
    BodySent,
    /// The rest of the body could not be forwarded.
    BodyFailed,
    /// The upstream did not connect, broke off, or did not respond properly; the
    /// client may have got a part of the response.
    UpstreamFailed { response_started: bool },
    /// The response was forwarded after `elapsed_ms` milliseconds, and the
    /// connection may persist if `keep_alive`.
    Responded { keep_alive: bool, elapsed_ms: u64 },
    /// The time allowed for the request is over; the client may have got a part
    /// of the response.
    TimedOut { response_started: bool },
}

/// What to do next in the forwarding of a request.
#[derive(Debug)]
pub enum ForwardAction {
    /// Connect to this upstream.
    Dial { host: String, port: u16 },
    /// Write this head to the upstream.
    SendHead(Vec<u8>),
    /// Write the bytes behind the head that were read with it.
    SendBuffered,
    /// Forward the rest of the body.
    SendBody(BodyPlan),
    /// Forward the response.
    AwaitResponse,
    /// Send this to the client, and close.
    Refuse(String),
    /// The request is done; keep the client connection if so.
    Finish { keep_alive: bool },
}

pub enum ForwardActionView {
    Dial { host: Seq<char>, port: u16 },
    SendHead(Seq<u8>),
    SendBuffered,
    SendBody(BodyPlan),
    AwaitResponse,
    Refuse(Seq<char>),
    Finish { keep_alive: bool },
}

impl View for ForwardAction {
    type V = ForwardActionView;

    open spec fn view(&self) -> ForwardActionView {
        match self {
            ForwardAction::Dial { host, port } => ForwardActionView::Dial {
                host: host@,
                port: *port,
            },
            ForwardAction::SendHead(bytes) => ForwardActionView::SendHead(bytes@),
            ForwardAction::SendBuffered => ForwardActionView::SendBuffered,
            ForwardAction::SendBody(plan) => ForwardActionView::SendBody(*plan),
            ForwardAction::AwaitResponse => ForwardActionView::AwaitResponse,
            ForwardAction::Refuse(text) => ForwardActionView::Refuse(text@),
            ForwardAction::Finish { keep_alive } => ForwardActionView::Finish {
                keep_alive: *keep_alive,
            },
        }
    }
}

/// How far the forwarding of a request has come.
#[derive(Debug)]
pub enum ForwardStage {
    Start,
    Dialing(Hop),
    SendingHead(Lease),
    SendingBuffered(Lease),
    SendingBody(Lease),
    AwaitingResponse(Lease),
    Finished(Outcome),
}

pub enum ForwardStageView {
    Start,
    Dialing(HopView),
    SendingHead(Lease),
    SendingBuffered(Lease),
    SendingBody(Lease),
    AwaitingResponse(Lease),
    Finished(Outcome),
}

impl View for ForwardStage {
    type V = ForwardStageView;

    open spec fn view(&self) -> ForwardStageView {
        match self {
            ForwardStage::Start => ForwardStageView::Start,
            ForwardStage::Dialing(hop) => ForwardStageView::Dialing(hop@),
            ForwardStage::SendingHead(lease) => ForwardStageView::SendingHead(*lease),
            ForwardStage::SendingBuffered(lease) => ForwardStageView::SendingBuffered(*lease),
            ForwardStage::SendingBody(lease) => ForwardStageView::SendingBody(*lease),
            ForwardStage::AwaitingResponse(lease) => ForwardStageView::AwaitingResponse(*lease),
            ForwardStage::Finished(outcome) => ForwardStageView::Finished(*outcome),
        }
    }
}

/// A request that is forwarded.
#[derive(Debug)]
pub struct ForwardSession {
    /// The bytes of the head and what of the body was read with it.
    pub raw: Vec<u8>,
    /// Where the body starts in `raw`.
    pub body_offset: usize,
    pub content_length: Option<u64>,
    pub chunked: bool,
    /// Whether the client wants a persistent connection.
    pub keep_alive: bool,
    pub attempts: Attempts,
    pub stage: ForwardStage,
}

pub struct ForwardSessionView {
    pub raw: Seq<u8>,
    pub body_offset: usize,
    pub content_length: Option<u64>,
    pub chunked: bool,
    pub keep_alive: bool,
    pub attempts: AttemptsView,
    pub stage: ForwardStageView,
}

impl View for ForwardSession {
    type V = ForwardSessionView;

    open spec fn view(&self) -> ForwardSessionView {
        ForwardSessionView {
            raw: self.raw@,
            body_offset: self.body_offset,
            content_length: self.content_length,
            chunked: self.chunked,
            keep_alive: self.keep_alive,
            attempts: self.attempts@,
            stage: self.stage@,
        }
    }
}

impl ForwardSessionView {
    /// The head ends within the bytes at hand.
    pub open spec fn wf(self) -> bool {
        self.body_offset <= self.raw.len()
    }

    /// The body bytes that were read with the head.
    pub open spec fn buffered(self) -> Seq<u8> {
        self.raw.skip(self.body_offset as int)
    }

    /// What is left of the body behind the buffered bytes.
    pub open spec fn body_left(self) -> BodyPlan {
        request_body(self.content_length, self.chunked, self.buffered())
    }

    /// The head to send to an upstream with these credentials.
    pub open spec fn head_for(self, auth: Option<Seq<char>>) -> Seq<u8> {
        terminated(forwarded_lines(self.raw.take(self.body_offset as int), auth))
    }

    /// On to the next upstream.
    pub open spec fn advance(self, p: PoolView) -> (
        ForwardSessionView,
        PoolView,
        ForwardActionView,
    ) {
        let (attempts, q, pick) = self.attempts.pick(p);
        match pick {
            PickView::Unavailable => (
                ForwardSessionView { attempts, stage: ForwardStageView::Finished(Outcome::Failure), ..self },
                q,
                ForwardActionView::Refuse(status_text(502, "No upstream available"@)),
            ),
            PickView::InvalidUrl => (
                ForwardSessionView { attempts, stage: ForwardStageView::Finished(Outcome::Failure), ..self },
                q,
                ForwardActionView::Finish { keep_alive: false },
            ),
            PickView::Dial(hop) => (
                ForwardSessionView { attempts, stage: ForwardStageView::Dialing(hop), ..self },
                q,
                ForwardActionView::Dial { host: hop.host, port: hop.port },
            ),
        }
    }

    /// The leased upstream failed: on to the next one, unless this was the last
    /// attempt. The client is told only as long as nothing of the body was sent.
    pub open spec fn fail(self, p: PoolView, lease: Lease, tell_client: bool) -> (
        ForwardSessionView,
        PoolView,
        ForwardActionView,
    ) {
        if self.attempts.exhausted() {
            (
                ForwardSessionView { stage: ForwardStageView::Finished(Outcome::Failure), ..self },
                p.failed(lease),
                if tell_client {
                    ForwardActionView::Refuse(status_text(502, "Bad Gateway"@))
                } else {
                    ForwardActionView::Finish { keep_alive: false }
                },
            )
        } else {
            self.advance(p.failed(lease))
        }
    }

    /// The rest of the body comes next.
    pub open spec fn send_body(self, p: PoolView, lease: Lease) -> (
        ForwardSessionView,
        PoolView,
        ForwardActionView,
    ) {
        (
            ForwardSessionView { stage: ForwardStageView::SendingBody(lease), ..self },
            p,
            ForwardActionView::SendBody(self.body_left()),
        )
    }

    /// The leased upstream failed to respond. Nothing more can be tried once the
    /// client has got a part of the response, nor where a part of the body was
    /// taken from the client and cannot be sent again.
    pub open spec fn fail_response(self, p: PoolView, lease: Lease, response_started: bool) -> (
        ForwardSessionView,
        PoolView,
        ForwardActionView,
    ) {
        if response_started || self.body_left() != BodyPlan::Nothing {
            (
                ForwardSessionView {
                    stage: ForwardStageView::Finished(Outcome::Failure),
                    ..self
                },
                p.failed(lease),
                ForwardActionView::Finish { keep_alive: false },
            )
        } else {
            self.fail(p, lease, false)
        }
    }

    /// The request ends because it took too long. The client is told as long as
    /// it has got nothing of the response.
    pub open spec fn time_out(self, p: PoolView, response_started: bool) -> (
        ForwardSessionView,
        PoolView,
        ForwardActionView,
    ) {
        (
            ForwardSessionView { stage: ForwardStageView::Finished(Outcome::Failure), ..self },
            p,
            if response_started {
                ForwardActionView::Finish { keep_alive: false }
            } else {
                ForwardActionView::Refuse(status_text(504, "Gateway Timeout"@))
            },
        )
    }

    /// What follows on `event`. An event that does not belong to the stage changes nothing.
    pub open spec fn step(self, p: PoolView, event: ForwardEvent) -> (
        ForwardSessionView,
        PoolView,
        ForwardActionView,
    ) {
        match (self.stage, event) {
            (ForwardStageView::Start, ForwardEvent::Begin) => self.advance(p),
            (ForwardStageView::Dialing(hop), ForwardEvent::Dialed) => (
                ForwardSessionView { stage: ForwardStageView::SendingHead(hop.lease), ..self },
                p,
                ForwardActionView::SendHead(self.head_for(hop.auth)),
            ),
            (ForwardStageView::Dialing(hop), ForwardEvent::UpstreamFailed { .. }) => self.fail(
                p,
                hop.lease,
                true,
            ),
            (ForwardStageView::SendingHead(lease), ForwardEvent::Sent) => if self.buffered().len()
                > 0 {
                (
                    ForwardSessionView { stage: ForwardStageView::SendingBuffered(lease), ..self },
                    p,
                    ForwardActionView::SendBuffered,
                )
            } else {
                self.send_body(p, lease)
            },
            (ForwardStageView::SendingHead(lease), ForwardEvent::UpstreamFailed { .. }) => self.fail(
                p,
                lease,
                true,
            ),
            (ForwardStageView::SendingBuffered(lease), ForwardEvent::Sent) => self.send_body(
                p,
                lease,
            ),
            (ForwardStageView::SendingBuffered(lease), ForwardEvent::UpstreamFailed { .. }) => self.fail(
                p,
                lease,
                false,
            ),
            (ForwardStageView::SendingBody(lease), ForwardEvent::BodySent) => (
                ForwardSessionView { stage: ForwardStageView::AwaitingResponse(lease), ..self },
                p.on(lease, EntryEvent::Opened),
                ForwardActionView::AwaitResponse,
            ),
            (ForwardStageView::SendingBody(lease), ForwardEvent::BodyFailed) => (
                ForwardSessionView { stage: ForwardStageView::Finished(Outcome::Failure), ..self },
                p,
                ForwardActionView::Finish { keep_alive: false },
            ),
            (
                ForwardStageView::AwaitingResponse(lease),
                ForwardEvent::Responded { keep_alive, elapsed_ms },
            ) => (
                ForwardSessionView { stage: ForwardStageView::Finished(Outcome::Success), ..self },
                p.on(lease, EntryEvent::Closed).on(lease, EntryEvent::Succeeded(elapsed_ms)),
                ForwardActionView::Finish { keep_alive: self.keep_alive && keep_alive },
            ),
            (
                ForwardStageView::AwaitingResponse(lease),
                ForwardEvent::UpstreamFailed { response_started },
            ) => self.fail_response(p.on(lease, EntryEvent::Closed), lease, response_started),
            (ForwardStageView::Dialing(hop), ForwardEvent::TimedOut { .. }) => self.time_out(
                p.failed(hop.lease),
                false,
            ),
            (ForwardStageView::SendingHead(lease), ForwardEvent::TimedOut { .. }) => self.time_out(
                p.failed(lease),
                false,
            ),
            (
                ForwardStageView::SendingBuffered(lease),
                ForwardEvent::TimedOut { .. },
            ) => self.time_out(p.failed(lease), false),
            (ForwardStageView::SendingBody(_), ForwardEvent::TimedOut { .. }) => self.time_out(
                p,
                false,
            ),
            (
                ForwardStageView::AwaitingResponse(lease),
                ForwardEvent::TimedOut { response_started },
            ) => self.time_out(
                if response_started {
                    p.on(lease, EntryEvent::Closed)
                } else {
                    p.on(lease, EntryEvent::Closed).failed(lease)
                },
                response_started,
            ),
            _ => (self, p, ForwardActionView::Finish { keep_alive: false }),
        }
    }
}

impl ForwardSession {
    /// A session for the request in `raw` that `plan` describes.
    pub fn new(raw: Vec<u8>, plan: &ForwardPlan, mode: BalanceMode, pool: &UpstreamPool) -> (r:
        Self)
        requires
            plan.body_offset <= raw@.len(),
        ensures
            r@.wf(),
            r@ == (ForwardSessionView {
                raw: raw@,
                body_offset: plan.body_offset,
                content_length: plan.content_length,
                chunked: plan.chunked,
                keep_alive: plan.keep_alive,
                attempts: AttemptsView::fresh(mode, pool.entries@.len()),
                stage: ForwardStageView::Start,
            }),
    {
        ForwardSession {
            raw,
            body_offset: plan.body_offset,
            content_length: plan.content_length,
            chunked: plan.chunked,
            keep_alive: plan.keep_alive,
            attempts: Attempts::new(mode, pool),
            stage: ForwardStage::Start,
        }
    }

    /// How the request came out, if it is over.
    pub fn outcome(&self) -> (r: Option<Outcome>)
        ensures
            r == (match self@.stage {
                ForwardStageView::Finished(outcome) => Some(outcome),
                _ => None,
            }),
    {
        match &self.stage {
            ForwardStage::Finished(outcome) => Some(*outcome),
            _ => None,
        }
    }

    fn advance(&mut self, pool: &mut UpstreamPool) -> (r: ForwardAction)
        ensures
            (final(self)@, final(pool)@, r@) == old(self)@.advance(old(pool)@),
            old(pool)@.wf() ==> final(pool)@.wf(),
            final(self)@.wf() == old(self)@.wf(),
    {
        match self.attempts.pick(pool) {
            Pick::Unavailable => {
                self.stage = ForwardStage::Finished(Outcome::Failure);
                ForwardAction::Refuse(status_response(502, "No upstream available"))
            },
            Pick::InvalidUrl => {
                self.stage = ForwardStage::Finished(Outcome::Failure);
                ForwardAction::Finish { keep_alive: false }
            },
            Pick::Dial(hop) => {
                let host = hop.host.clone();
                let port: u16 = hop.port;
                self.stage = ForwardStage::Dialing(hop);
                ForwardAction::Dial { host, port }
            },
        }
    }

    fn fail(&mut self, pool: &mut UpstreamPool, lease: Lease, tell_client: bool) -> (r:
        ForwardAction)
        ensures
            (final(self)@, final(pool)@, r@) == old(self)@.fail(old(pool)@, lease, tell_client),
            old(pool)@.wf() ==> final(pool)@.wf(),
            final(self)@.wf() == old(self)@.wf(),
    {
        mark_failed(pool, lease);
        if self.attempts.is_exhausted() {
            self.stage = ForwardStage::Finished(Outcome::Failure);
            if tell_client {
                return ForwardAction::Refuse(status_response(502, "Bad Gateway"));
            }
            return ForwardAction::Finish { keep_alive: false };
        }
        self.advance(pool)
    }

    fn plan_body(&self) -> (r: BodyPlan)
        requires
            self@.wf(),
        ensures
            r == self@.body_left(),
    {
        let buffered = slice_subrange(self.raw.as_slice(), self.body_offset, self.raw.len());
        assert(buffered@ == self@.buffered());
        plan_request_body(self.content_length, self.chunked, buffered)
    }

    fn fail_response(
        &mut self,
        pool: &mut UpstreamPool,
        lease: Lease,
        response_started: bool,
    ) -> (r: ForwardAction)
        requires
            old(self)@.wf(),
        ensures
            (final(self)@, final(pool)@, r@) == old(self)@.fail_response(
                old(pool)@,
                lease,
                response_started,
            ),
            final(self)@.wf(),
            old(pool)@.wf() ==> final(pool)@.wf(),
    {
        if response_started || self.plan_body() != BodyPlan::Nothing {
            mark_failed(pool, lease);
            self.stage = ForwardStage::Finished(Outcome::Failure);
            return ForwardAction::Finish { keep_alive: false };
        }
        self.fail(pool, lease, false)
    }

    fn send_body(&mut self, lease: Lease) -> (r: ForwardAction)
        requires
            old(self)@.wf(),
        ensures
            final(self)@ == (ForwardSessionView {
                stage: ForwardStageView::SendingBody(lease),
                ..old(self)@
            }),
            r@ == ForwardActionView::SendBody(old(self)@.body_left()),
    {
        let plan = self.plan_body();
        self.stage = ForwardStage::SendingBody(lease);
        ForwardAction::SendBody(plan)
    }

    fn time_out(&mut self, response_started: bool) -> (r: ForwardAction)
        ensures
            final(self)@ == (ForwardSessionView {
                stage: ForwardStageView::Finished(Outcome::Failure),
                ..old(self)@
            }),
            r@ == (if response_started {
                ForwardActionView::Finish { keep_alive: false }
            } else {
                ForwardActionView::Refuse(status_text(504, "Gateway Timeout"@))
            }),
    {
        self.stage = ForwardStage::Finished(Outcome::Failure);
        if response_started {
            ForwardAction::Finish { keep_alive: false }
        } else {
            ForwardAction::Refuse(timeout_response())
        }
    }

    /// Takes in what happened and says what to do next.
    pub fn step(&mut self, pool: &mut UpstreamPool, event: ForwardEvent) -> (r: ForwardAction)
        requires
            old(self)@.wf(),
        ensures
            final(self)@.wf(),
            (final(self)@, final(pool)@, r@) == old(self)@.step(old(pool)@, event),
            old(pool)@.wf() ==> final(pool)@.wf(),
    {
        match (&self.stage, event) {
            (ForwardStage::Start, ForwardEvent::Begin) => self.advance(pool),
            (ForwardStage::Dialing(hop), ForwardEvent::Dialed) => {
                let lease = hop.lease;
                let auth = match &hop.auth {
                    Some(a) => Some(a.clone()),
                    None => None,
                };
                let head = rewrite_request_headers(self.raw.as_slice(), self.body_offset, auth);
                self.stage = ForwardStage::SendingHead(lease);
                ForwardAction::SendHead(head)
            },
            (ForwardStage::Dialing(hop), ForwardEvent::UpstreamFailed { .. }) => {
                let lease = hop.lease;
                self.fail(pool, lease, true)
            },
            (ForwardStage::SendingHead(lease), ForwardEvent::Sent) => {
                let lease = *lease;
                if self.raw.len() > self.body_offset {
                    self.stage = ForwardStage::SendingBuffered(lease);
                    ForwardAction::SendBuffered
                } else {
                    self.send_body(lease)
                }
            },
            (ForwardStage::SendingHead(lease), ForwardEvent::UpstreamFailed { .. }) => {
                let lease = *lease;
                self.fail(pool, lease, true)
            },
            (ForwardStage::SendingBuffered(lease), ForwardEvent::Sent) => {
                let lease = *lease;
                self.send_body(lease)
            },
            (ForwardStage::SendingBuffered(lease), ForwardEvent::UpstreamFailed { .. }) => {
                let lease = *lease;
                self.fail(pool, lease, false)
            },
            (ForwardStage::SendingBody(lease), ForwardEvent::BodySent) => {
                let lease = *lease;
                apply(pool, lease, EntryEvent::Opened);
                self.stage = ForwardStage::AwaitingResponse(lease);
                ForwardAction::AwaitResponse
            },
            (ForwardStage::SendingBody(_), ForwardEvent::BodyFailed) => {
                self.stage = ForwardStage::Finished(Outcome::Failure);
                ForwardAction::Finish { keep_alive: false }
            },
            (
                ForwardStage::AwaitingResponse(lease),
                ForwardEvent::Responded { keep_alive, elapsed_ms },
            ) => {
                let lease = *lease;
                apply(pool, lease, EntryEvent::Closed);
                apply(pool, lease, EntryEvent::Succeeded(elapsed_ms));
                self.stage = ForwardStage::Finished(Outcome::Success);
                ForwardAction::Finish { keep_alive: self.keep_alive && keep_alive }
            },
            (
                ForwardStage::AwaitingResponse(lease),
                ForwardEvent::UpstreamFailed { response_started },
            ) => {
                let lease = *lease;
                apply(pool, lease, EntryEvent::Closed);
                self.fail_response(pool, lease, response_started)
            },
            (ForwardStage::Dialing(hop), ForwardEvent::TimedOut { .. }) => {
                mark_failed(pool, hop.lease);
                self.time_out(false)
            },
            (ForwardStage::SendingHead(lease), ForwardEvent::TimedOut { .. }) => {
                mark_failed(pool, *lease);
                self.time_out(false)
            },
            (ForwardStage::SendingBuffered(lease), ForwardEvent::TimedOut { .. }) => {
                mark_failed(pool, *lease);
                self.time_out(false)
            },
            (ForwardStage::SendingBody(_), ForwardEvent::TimedOut { .. }) => self.time_out(false),
            (
                ForwardStage::AwaitingResponse(lease),
                ForwardEvent::TimedOut { response_started },
            ) => {
                apply(pool, *lease, EntryEvent::Closed);
                if !response_started {
                    mark_failed(pool, *lease);
                }
                self.time_out(response_started)
            },
            _ => ForwardAction::Finish { keep_alive: false },
        }
    }
}

} // verus!
