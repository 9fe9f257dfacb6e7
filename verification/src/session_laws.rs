//! Laws of failover: what every request keeps to on its way through the upstreams.

use crate::balance_laws::law_choice_is_eligible;
use crate::config::{BalanceMode, UpstreamConfig};
use crate::http::{request_body, BodyPlan, ConnectReply, ForwardPlan};
use crate::rewrite::{connect_request, forwarded_lines, status_text, terminated};
use crate::rewrite_laws::law_status_response;
use crate::session::{
    AttemptsView, ConnectAction, ConnectActionView, ConnectEvent, ConnectSession, ConnectStage,
    ConnectStageView, ConnectView, ForwardAction, ForwardActionView, ForwardEvent, ForwardSession,
    ForwardSessionView, ForwardStage, ForwardStageView, Hop, HopView, Lease, Outcome, PickView,
    MAX_RETRIES,
};
use crate::text::{decimal, unsigned_value};
use crate::upstream::{
    eligible, first_listed, lemma_positions, position_of_url, EntryEvent, PoolView, UpstreamPool,
};
use vstd::prelude::*;

verus! {

/// The most attempts that a request may make.
pub open spec fn attempt_limit(a: AttemptsView) -> nat {
    if a.max_retries == 0 {
        1
    } else {
        a.max_retries as nat
    }
}

/// Whether the upstream with this id is online.
pub open spec fn is_online(p: PoolView, id: u64) -> bool {
    exists|i: int|
        0 <= i < p.entries.len() && (#[trigger] p.entries[i]).id == id && p.entries[i].online
}

/// No upstream is tried twice, and not more of them than allowed.
pub open spec fn attempts_ok(a: AttemptsView) -> bool {
    &&& a.max_retries <= MAX_RETRIES
    &&& a.tried.no_duplicates()
    &&& a.tried.len() <= attempt_limit(a)
}

proof fn lemma_pick(a: AttemptsView, p: PoolView)
    requires
        attempts_ok(a),
        a.tried.len() < attempt_limit(a),
        p.entries.len() <= usize::MAX,
    ensures
        attempts_ok(a.pick(p).0),
        a.pick(p).0.max_retries == a.max_retries,
        a.pick(p).0.tried.len() <= a.tried.len() + 1,
        a.pick(p).2 matches PickView::Dial(hop) ==> a.pick(p).0.tried == a.tried.push(hop.lease.id)
            && !a.tried.contains(hop.lease.id) && is_online(p, hop.lease.id),
        a.pick(p).1.entries == p.entries,
{
    let exclude = p.positions(a.tried);
    law_choice_is_eligible(p, a.mode, exclude);
    match p.choice(a.mode, exclude) {
        None => {},
        Some(i) => {
            let id = p.entries[i].id;
            let t = a.tried.push(id);
            assert(eligible(p.entries, exclude, i));
            lemma_positions(p.entries, a.tried, p.entries.len() as int, i);
            assert(!a.tried.contains(id));
            assert forall|x: int, y: int| 0 <= x < t.len() && 0 <= y < t.len() && x != y implies t[x]
                != t[y] by {
                if x == a.tried.len() {
                    assert(a.tried[y] != id);
                } else if y == a.tried.len() {
                    assert(a.tried[x] != id);
                }
            }
        },
    }
}

/// The lease of the upstream that a CONNECT session is using.
pub open spec fn connect_lease(stage: ConnectStageView) -> Option<Lease> {
    match stage {
        ConnectStageView::Dialing(hop) => Some(hop.lease),
        ConnectStageView::Requesting(lease) => Some(lease),
        ConnectStageView::AwaitingReply(lease) => Some(lease),
        ConnectStageView::Acknowledging { lease, .. } => Some(lease),
        ConnectStageView::Tunneling(lease) => Some(lease),
        _ => None,
    }
}

/// What holds of a CONNECT session at all times.
pub open spec fn connect_ok(s: ConnectView) -> bool {
    &&& attempts_ok(s.attempts)
    &&& s.stage is Start ==> s.attempts.tried.len() == 0
    &&& connect_lease(s.stage) matches Some(lease) ==> s.attempts.tried.contains(
        lease.id,
    )
}

/// The lease of the upstream that a forwarded request is using.
pub open spec fn forward_lease(stage: ForwardStageView) -> Option<Lease> {
    match stage {
        ForwardStageView::Dialing(hop) => Some(hop.lease),
        ForwardStageView::SendingHead(lease) => Some(lease),
        ForwardStageView::SendingBuffered(lease) => Some(lease),
        ForwardStageView::SendingBody(lease) => Some(lease),
        ForwardStageView::AwaitingResponse(lease) => Some(lease),
        _ => None,
    }
}

/// What holds of a forwarded request at all times.
pub open spec fn forward_ok(s: ForwardSessionView) -> bool {
    &&& s.wf()
    &&& attempts_ok(s.attempts)
    &&& s.stage is Start ==> s.attempts.tried.len() == 0
    &&& forward_lease(s.stage) matches Some(lease) ==> s.attempts.tried.contains(
        lease.id,
    )
}

proof fn lemma_contains_last(t: Seq<u64>, x: u64)
    ensures
        t.push(x).contains(x),
{
    assert(t.push(x)[t.len() as int] == x);
}

proof fn lemma_connect_advance(s: ConnectView, p: PoolView)
    requires
        attempts_ok(s.attempts),
        s.attempts.tried.len() < attempt_limit(s.attempts),
        p.entries.len() <= usize::MAX,
    ensures
        connect_ok(s.advance(p).0),
        s.advance(p).0.attempts.max_retries == s.attempts.max_retries,
        s.advance(p).2 is Dial ==> s.advance(p).0.attempts.tried.len() == s.attempts.tried.len()
            + 1,
        s.advance(p).0.attempts.tried.len() >= s.attempts.tried.len(),
        s.advance(p).2 is Dial <==> s.advance(p).0.stage is Dialing,
        connect_lease(s.advance(p).0.stage) matches Some(l)
            ==> !s.attempts.tried.contains(l.id) && is_online(p, l.id),
{
    lemma_pick(s.attempts, p);
    match s.attempts.pick(p).2 {
        PickView::Dial(hop) => {
            lemma_contains_last(s.attempts.tried, hop.lease.id);
        },
        _ => {},
    }
}

/// Whatever happens, and in whatever pool, a CONNECT session never tries an
/// upstream twice, nor more upstreams than allowed.
pub proof fn law_connect_session_stays_ok(s: ConnectView, p: PoolView, event: ConnectEvent)
    requires
        connect_ok(s),
        p.entries.len() <= usize::MAX,
    ensures
        connect_ok(s.step(p, event).0),
        s.step(p, event).0.attempts.max_retries == s.attempts.max_retries,
        s.step(p, event).0.attempts.tried.len() >= s.attempts.tried.len() + (if s.step(
            p,
            event,
        ).2 is Dial {
            1int
        } else {
            0
        }),
{
    match (s.stage, event) {
        (ConnectStageView::Start, ConnectEvent::Begin) => lemma_connect_advance(s, p),
        (_, ConnectEvent::UpstreamFailed) => {
            if connect_lease(s.stage) is Some && !s.attempts.exhausted() {
                lemma_connect_advance(s, p.failed(connect_lease(s.stage)->0));
            }
        },
        _ => {},
    }
}

proof fn lemma_forward_advance(s: ForwardSessionView, p: PoolView)
    requires
        s.wf(),
        attempts_ok(s.attempts),
        s.attempts.tried.len() < attempt_limit(s.attempts),
        p.entries.len() <= usize::MAX,
    ensures
        forward_ok(s.advance(p).0),
        s.advance(p).0.attempts.max_retries == s.attempts.max_retries,
        s.advance(p).2 is Dial ==> s.advance(p).0.attempts.tried.len() == s.attempts.tried.len()
            + 1,
        s.advance(p).0.attempts.tried.len() >= s.attempts.tried.len(),
        s.advance(p).2 is Dial <==> s.advance(p).0.stage is Dialing,
        forward_lease(s.advance(p).0.stage) matches Some(l)
            ==> !s.attempts.tried.contains(l.id) && is_online(p, l.id),
{
    lemma_pick(s.attempts, p);
    match s.attempts.pick(p).2 {
        PickView::Dial(hop) => {
            lemma_contains_last(s.attempts.tried, hop.lease.id);
        },
        _ => {},
    }
}

/// The pool in which a forwarded request looks for its next upstream.
pub open spec fn forward_failed_pool(s: ForwardSessionView, p: PoolView, lease: Lease) -> PoolView {
    if s.stage is AwaitingResponse {
        p.on(lease, EntryEvent::Closed).failed(lease)
    } else {
        p.failed(lease)
    }
}

/// Whatever happens, and in whatever pool, a forwarded request never tries an
/// upstream twice, nor more upstreams than allowed.
pub proof fn law_forward_session_stays_ok(
    s: ForwardSessionView,
    p: PoolView,
    event: ForwardEvent,
)
    requires
        forward_ok(s),
        p.entries.len() <= usize::MAX,
    ensures
        forward_ok(s.step(p, event).0),
        s.step(p, event).0.attempts.max_retries == s.attempts.max_retries,
        s.step(p, event).0.attempts.tried.len() >= s.attempts.tried.len() + (if s.step(
            p,
            event,
        ).2 is Dial {
            1int
        } else {
            0
        }),
{
    match (s.stage, event) {
        (ForwardStageView::Start, ForwardEvent::Begin) => lemma_forward_advance(s, p),
        (_, ForwardEvent::UpstreamFailed { .. }) => {
            if forward_lease(s.stage) is Some && !(s.stage is SendingBody)
                && !s.attempts.exhausted() {
                let lease = forward_lease(s.stage)->0;
                lemma_forward_advance(s, forward_failed_pool(s, p, lease));
            }
        },
        _ => {},
    }
}

/// A new request starts out within its limits.
pub proof fn law_new_attempts_are_ok(mode: BalanceMode, pool_len: nat)
    ensures
        attempts_ok(AttemptsView::fresh(mode, pool_len)),
        AttemptsView::fresh(mode, pool_len).max_retries == (if pool_len < 3 {
            pool_len
        } else {
            3
        }),
{
}

/// Whether every upstream URL in the pool is valid.
pub open spec fn urls_valid(p: PoolView) -> bool {
    forall|i: int| 0 <= i < p.entries.len() ==> (#[trigger] p.entries[i]).config.address() is Some
}

/// Whether the text is one of the two ways in which a 502 is sent.
pub open spec fn is_bad_gateway(text: Seq<char>) -> bool {
    text == status_text(502, "Bad Gateway"@) || text == status_text(502, "No upstream available"@)
}

proof fn lemma_failed_keeps_urls(p: PoolView, lease: Lease)
    requires
        urls_valid(p),
    ensures
        urls_valid(p.failed(lease)),
        urls_valid(p.on(lease, EntryEvent::Closed)),
{
    let q = p.failed(lease);
    let r = p.on(lease, EntryEvent::Closed);
    assert forall|i: int| 0 <= i < q.entries.len() implies (
    #[trigger] q.entries[i]).config.address() is Some by {
        assert(q.entries[i].config == p.entries[i].config);
    }
    assert forall|i: int| 0 <= i < r.entries.len() implies (
    #[trigger] r.entries[i]).config.address() is Some by {
        assert(r.entries[i].config == p.entries[i].config);
    }
}

/// Whether an upstream is left to go on with: one that was not tried and is online.
pub open spec fn untried_online(a: AttemptsView, p: PoolView) -> bool {
    exists|i: int|
        0 <= i < p.entries.len() && (#[trigger] p.entries[i]).online && !a.tried.contains(
            p.entries[i].id,
        )
}

proof fn lemma_untried_is_eligible(a: AttemptsView, p: PoolView)
    requires
        p.entries.len() <= usize::MAX,
    ensures
        p.any_eligible(p.positions(a.tried)) == untried_online(a, p),
{
    let exclude = p.positions(a.tried);
    if untried_online(a, p) {
        let i = choose|i: int|
            0 <= i < p.entries.len() && (#[trigger] p.entries[i]).online && !a.tried.contains(
                p.entries[i].id,
            );
        lemma_positions(p.entries, a.tried, p.entries.len() as int, i);
        assert(eligible(p.entries, exclude, i));
    }
    if p.any_eligible(exclude) {
        let i = choose|i: int| eligible(p.entries, exclude, i);
        lemma_positions(p.entries, a.tried, p.entries.len() as int, i);
        assert(p.entries[i].online && !a.tried.contains(p.entries[i].id));
    }
}

/// A CONNECT session whose upstream failed goes on with an upstream that was not
/// tried before and that is online. Where every upstream URL is valid it goes on
/// just if there is such an upstream and an attempt is left; if not, the client
/// gets a 502.
pub proof fn law_connect_fails_over(s: ConnectView, p: PoolView)
    requires
        connect_ok(s),
        connect_lease(s.stage) is Some,
        !(s.stage is Acknowledging) && !(s.stage is Tunneling),
        p.entries.len() <= usize::MAX,
    ensures
        ({
            let lease = connect_lease(s.stage)->0;
            let (t, q, action) = s.step(p, ConnectEvent::UpstreamFailed);
            &&& connect_lease(t.stage) matches Some(next) ==> next != lease
                && !s.attempts.tried.contains(next.id) && is_online(p.failed(lease), next.id)
                && action is Dial
            &&& connect_lease(t.stage) is None ==> t.stage is Finished
            &&& connect_lease(t.stage) is None && urls_valid(p) ==> (action matches
                ConnectActionView::Refuse(text) && is_bad_gateway(text))
            &&& urls_valid(p) ==> (action is Dial <==> !s.attempts.exhausted() && untried_online(
                s.attempts,
                p.failed(lease),
            ))
        }),
{
    let lease = connect_lease(s.stage)->0;
    if !s.attempts.exhausted() {
        lemma_connect_advance(s, p.failed(lease));
        lemma_untried_is_eligible(s.attempts, p.failed(lease));
        if urls_valid(p) {
            lemma_failed_keeps_urls(p, lease);
            law_valid_urls_are_dialled(s.attempts, p.failed(lease));
        }
    }
}

/// A forwarded request whose upstream failed goes on with an upstream that was
/// not tried before and that is online. Where every upstream URL is valid it goes
/// on just if there is such an upstream, an attempt is left, and the client has
/// neither got a part of the response nor sent what cannot be sent again. If it
/// does not, and nothing of the body was sent, the client gets a 502.
pub proof fn law_forward_fails_over(s: ForwardSessionView, p: PoolView, response_started: bool)
    requires
        forward_ok(s),
        forward_lease(s.stage) is Some,
        !(s.stage is SendingBody),
        p.entries.len() <= usize::MAX,
    ensures
        ({
            let lease = forward_lease(s.stage)->0;
            let (t, q, action) = s.step(p, ForwardEvent::UpstreamFailed { response_started });
            &&& forward_lease(t.stage) matches Some(next) ==> next != lease
                && !s.attempts.tried.contains(next.id) && is_online(p.failed(lease), next.id)
                && action is Dial
            &&& forward_lease(t.stage) is None ==> t.stage is Finished
            &&& forward_lease(t.stage) is None && urls_valid(p) && (s.stage is Dialing
                || s.stage is SendingHead) ==> (action matches ForwardActionView::Refuse(text)
                && is_bad_gateway(text))
            &&& urls_valid(p) ==> (action is Dial <==> !s.attempts.exhausted() && untried_online(
                s.attempts,
                p.failed(lease),
            ) && !(s.stage is AwaitingResponse && (response_started || s.body_left()
                != BodyPlan::Nothing)))
        }),
{
    let lease = forward_lease(s.stage)->0;
    if !s.attempts.exhausted() {
        let q = forward_failed_pool(s, p, lease);
        lemma_forward_advance(s, q);
        lemma_untried_is_eligible(s.attempts, q);
        lemma_untried_despite_close(s.attempts, p, lease);
        match forward_lease(s.advance(q).0.stage) {
            Some(next) => lemma_online_despite_close(p, lease, next.id),
            None => {},
        }
        if urls_valid(p) {
            lemma_failed_keeps_urls(p, lease);
            lemma_failed_keeps_urls(p.on(lease, EntryEvent::Closed), lease);
            law_valid_urls_are_dialled(s.attempts, q);
        }
    }
}

proof fn lemma_untried_despite_close(a: AttemptsView, p: PoolView, lease: Lease)
    ensures
        untried_online(a, p.on(lease, EntryEvent::Closed).failed(lease)) == untried_online(
            a,
            p.failed(lease),
        ),
{
    let q = p.failed(lease);
    let r = p.on(lease, EntryEvent::Closed).failed(lease);
    assert forall|i: int| 0 <= i < p.entries.len() implies (#[trigger] r.entries[i]).online
        == q.entries[i].online && r.entries[i].id == q.entries[i].id by {}
    if untried_online(a, q) {
        let i = choose|i: int|
            0 <= i < q.entries.len() && (#[trigger] q.entries[i]).online && !a.tried.contains(
                q.entries[i].id,
            );
        assert(r.entries[i].online);
    }
    if untried_online(a, r) {
        let i = choose|i: int|
            0 <= i < r.entries.len() && (#[trigger] r.entries[i]).online && !a.tried.contains(
                r.entries[i].id,
            );
        assert(q.entries[i].online);
    }
}

proof fn lemma_online_despite_close(p: PoolView, lease: Lease, id: u64)
    requires
        is_online(p.on(lease, EntryEvent::Closed).failed(lease), id) || is_online(
            p.failed(lease),
            id,
        ),
    ensures
        is_online(p.failed(lease), id),
{
    let q = p.failed(lease);
    let r = p.on(lease, EntryEvent::Closed).failed(lease);
    if is_online(r, id) {
        let i = choose|i: int|
            0 <= i < r.entries.len() && (#[trigger] r.entries[i]).id == id && r.entries[i].online;
        assert(q.entries[i].id == id && q.entries[i].online);
    }
}

/// A request of which the client has got a part of the response, or whose body
/// was taken from the client and cannot be sent again, is not tried again.
pub proof fn law_nothing_is_sent_twice(s: ForwardSessionView, p: PoolView, response_started: bool)
    requires
        s.stage is AwaitingResponse,
        response_started || s.body_left() != BodyPlan::Nothing,
    ensures
        ({
            let (t, q, action) = s.step(p, ForwardEvent::UpstreamFailed { response_started });
            &&& t.stage == ForwardStageView::Finished(Outcome::Failure)
            &&& action == ForwardActionView::Finish { keep_alive: false }
        }),
{
}

/// An upstream that takes too long to connect, or to reply to a CONNECT, is
/// offline at once.
pub proof fn law_connect_timeout_is_a_failure(s: ConnectView, p: PoolView)
    requires
        s.stage is Dialing || s.stage is Requesting || s.stage is AwaitingReply,
    ensures
        s.step(p, ConnectEvent::TimedOut).1 == p.failed(connect_lease(s.stage)->0),
{
}

/// An upstream that takes too long to connect, to take the request or to start its
/// response is offline at once.
pub proof fn law_forward_timeout_is_a_failure(s: ForwardSessionView, p: PoolView)
    requires
        s.stage is Dialing || s.stage is SendingHead || s.stage is SendingBuffered
            || s.stage is AwaitingResponse,
    ensures
        ({
            let lease = forward_lease(s.stage)->0;
            let q = s.step(p, ForwardEvent::TimedOut { response_started: false }).1;
            q == forward_failed_pool(s, p, lease)
        }),
{
}

/// The bytes that came with the two heads of a tunnel reach the other side: they
/// are what the tunnel starts with, in both directions.
pub proof fn law_early_bytes_start_the_tunnel(
    s: ConnectView,
    p: PoolView,
    q: PoolView,
    reply: ConnectReply,
)
    requires
        s.stage is AwaitingReply,
        reply.status == 200,
    ensures
        ({
            let (t, _, ack) = s.step(p, ConnectEvent::Replied(reply));
            let (u, _, action) = t.step(q, ConnectEvent::ClientAcked);
            &&& ack is Acknowledge
            &&& action == ConnectActionView::Tunnel {
                to_client: reply.early@,
                to_upstream: s.early,
            }
        }),
{
}

/// While no upstream is online every new request is refused with a 502, and the
/// pool is left as it is.
pub proof fn law_nothing_online_is_refused(c: ConnectView, f: ForwardSessionView, p: PoolView)
    requires
        c.stage is Start,
        f.stage is Start,
        forall|i: int| 0 <= i < p.entries.len() ==> !(#[trigger] p.entries[i]).online,
    ensures
        c.step(p, ConnectEvent::Begin).2 == ConnectActionView::Refuse(
            status_text(502, "No upstream available"@),
        ),
        c.step(p, ConnectEvent::Begin).1 == p,
        f.step(p, ForwardEvent::Begin).2 == ForwardActionView::Refuse(
            status_text(502, "No upstream available"@),
        ),
        f.step(p, ForwardEvent::Begin).1 == p,
{
    law_choice_is_eligible(p, c.attempts.mode, p.positions(c.attempts.tried));
    law_choice_is_eligible(p, f.attempts.mode, p.positions(f.attempts.tried));
}

/// An upstream that fails a request is offline at once and is charged with the
/// failure.
pub proof fn law_failed_upstream_is_offline(p: PoolView, lease: Lease, i: int)
    requires
        0 <= i < p.entries.len(),
        p.entries[i].id == lease.id,
    ensures
        !p.failed(lease).entries[i].online,
        p.failed(lease).entries[i].consec_failures == p.entries[i].consec_failures.wrapping_add(1),
        forall|exclude: Seq<usize>| !(#[trigger] eligible(p.failed(lease).entries, exclude, i)),
{
}

/// How many connections a session holds open at the upstream with this id: one
/// while it tunnels.
pub open spec fn connect_holds(s: ConnectView, id: u64) -> int {
    match s.stage {
        ConnectStageView::Tunneling(lease) => if lease.id == id {
            1
        } else {
            0
        },
        _ => 0,
    }
}

/// How many connections a request holds open at the upstream with this id: one
/// while the response is forwarded.
pub open spec fn forward_holds(s: ForwardSessionView, id: u64) -> int {
    match s.stage {
        ForwardStageView::AwaitingResponse(lease) => if lease.id == id {
            1
        } else {
            0
        },
        _ => 0,
    }
}

/// How an event at the leased entry changes the count of entry `j`.
spec fn count_change(p: PoolView, lease: Lease, event: EntryEvent, j: int) -> int {
    if p.entries[j].id != lease.id {
        0
    } else {
        match event {
            EntryEvent::Opened => 1,
            EntryEvent::Closed => -1,
            _ => 0,
        }
    }
}

proof fn lemma_count_on(p: PoolView, lease: Lease, event: EntryEvent, j: int)
    requires
        0 <= j < p.entries.len(),
        i64::MIN <= p.entries[j].active_conns + count_change(p, lease, event, j) <= i64::MAX,
    ensures
        p.on(lease, event).entries[j].id == p.entries[j].id,
        p.on(lease, event).entries.len() == p.entries.len(),
        p.on(lease, event).entries[j].active_conns == p.entries[j].active_conns + count_change(
            p,
            lease,
            event,
            j,
        ),
{
}

proof fn lemma_count_failed(p: PoolView, lease: Lease, j: int)
    requires
        0 <= j < p.entries.len(),
    ensures
        p.failed(lease).entries[j].id == p.entries[j].id,
        p.failed(lease).entries.len() == p.entries.len(),
        p.failed(lease).entries[j].active_conns == p.entries[j].active_conns,
{
    lemma_count_on(p, lease, EntryEvent::WentOffline, j);
    lemma_count_on(p.on(lease, EntryEvent::WentOffline), lease, EntryEvent::Failed, j);
}

proof fn lemma_count_pick(a: AttemptsView, p: PoolView)
    ensures
        a.pick(p).1.entries == p.entries,
{
}

proof fn lemma_count_connect_fail(s: ConnectView, p: PoolView, lease: Lease, j: int)
    requires
        0 <= j < p.entries.len(),
    ensures
        s.fail(p, lease).1.entries[j].id == p.entries[j].id,
        s.fail(p, lease).1.entries.len() == p.entries.len(),
        s.fail(p, lease).1.entries[j].active_conns == p.entries[j].active_conns,
        !(s.fail(p, lease).0.stage is Tunneling),
{
    lemma_count_failed(p, lease, j);
    lemma_count_pick(s.attempts, p.failed(lease));
}

proof fn lemma_count_forward_fail(
    s: ForwardSessionView,
    p: PoolView,
    lease: Lease,
    tell_client: bool,
    j: int,
)
    requires
        0 <= j < p.entries.len(),
    ensures
        s.fail(p, lease, tell_client).1.entries[j].id == p.entries[j].id,
        s.fail(p, lease, tell_client).1.entries.len() == p.entries.len(),
        s.fail(p, lease, tell_client).1.entries[j].active_conns == p.entries[j].active_conns,
        !(s.fail(p, lease, tell_client).0.stage is AwaitingResponse),
{
    lemma_count_failed(p, lease, j);
    lemma_count_pick(s.attempts, p.failed(lease));
}

/// Every step of a CONNECT session keeps the connection counts right: each count
/// changes by what the session newly holds open or has let go.
pub proof fn law_connect_counts_balance(s: ConnectView, p: PoolView, event: ConnectEvent, j: int)
    requires
        0 <= j < p.entries.len(),
        i64::MIN < p.entries[j].active_conns < i64::MAX,
    ensures
        ({
            let (t, q, _) = s.step(p, event);
            &&& q.entries[j].id == p.entries[j].id
            &&& q.entries.len() == p.entries.len()
            &&& q.entries[j].active_conns == p.entries[j].active_conns + connect_holds(t, p.entries[j].id) - connect_holds(s, p.entries[j].id)
        }),
{
    match (s.stage, event) {
        (ConnectStageView::Start, ConnectEvent::Begin) => lemma_count_pick(s.attempts, p),
        (ConnectStageView::Dialing(hop), ConnectEvent::UpstreamFailed) => {
            lemma_count_connect_fail(s, p, hop.lease, j);
        },
        (ConnectStageView::Requesting(lease), ConnectEvent::UpstreamFailed) => {
            lemma_count_connect_fail(s, p, lease, j);
        },
        (ConnectStageView::AwaitingReply(lease), ConnectEvent::UpstreamFailed) => {
            lemma_count_connect_fail(s, p, lease, j);
        },
        (ConnectStageView::Dialing(hop), ConnectEvent::TimedOut) => {
            lemma_count_failed(p, hop.lease, j);
        },
        (ConnectStageView::Requesting(lease), ConnectEvent::TimedOut) => {
            lemma_count_failed(p, lease, j);
        },
        (ConnectStageView::AwaitingReply(lease), ConnectEvent::TimedOut) => {
            lemma_count_failed(p, lease, j);
        },
        (ConnectStageView::Acknowledging { lease, .. }, ConnectEvent::ClientAcked) => {
            lemma_count_on(p, lease, EntryEvent::Opened, j);
        },
        (ConnectStageView::Tunneling(lease), ConnectEvent::TunnelEnded(ms)) => {
            lemma_count_on(p, lease, EntryEvent::Closed, j);
            lemma_count_on(p.on(lease, EntryEvent::Closed), lease, EntryEvent::Succeeded(ms), j);
        },
        _ => {},
    }
}

/// Every step of a forwarded request keeps the connection counts right: each
/// count changes by what the request newly holds open or has let go.
pub proof fn law_forward_counts_balance(
    s: ForwardSessionView,
    p: PoolView,
    event: ForwardEvent,
    j: int,
)
    requires
        0 <= j < p.entries.len(),
        i64::MIN < p.entries[j].active_conns < i64::MAX,
    ensures
        ({
            let (t, q, _) = s.step(p, event);
            &&& q.entries[j].id == p.entries[j].id
            &&& q.entries.len() == p.entries.len()
            &&& q.entries[j].active_conns == p.entries[j].active_conns + forward_holds(t, p.entries[j].id) - forward_holds(s, p.entries[j].id)
        }),
{
    match (s.stage, event) {
        (ForwardStageView::Start, ForwardEvent::Begin) => lemma_count_pick(s.attempts, p),
        (ForwardStageView::Dialing(hop), ForwardEvent::UpstreamFailed { .. }) => {
            lemma_count_forward_fail(s, p, hop.lease, true, j);
        },
        (ForwardStageView::SendingHead(lease), ForwardEvent::UpstreamFailed { .. }) => {
            lemma_count_forward_fail(s, p, lease, true, j);
        },
        (ForwardStageView::SendingBuffered(lease), ForwardEvent::UpstreamFailed { .. }) => {
            lemma_count_forward_fail(s, p, lease, false, j);
        },
        (ForwardStageView::SendingBody(lease), ForwardEvent::BodySent) => {
            lemma_count_on(p, lease, EntryEvent::Opened, j);
        },
        (
            ForwardStageView::AwaitingResponse(lease),
            ForwardEvent::Responded { keep_alive, elapsed_ms },
        ) => {
            let q = p.on(lease, EntryEvent::Closed);
            lemma_count_on(p, lease, EntryEvent::Closed, j);
            lemma_count_on(q, lease, EntryEvent::Succeeded(elapsed_ms), j);
        },
        (ForwardStageView::AwaitingResponse(lease), ForwardEvent::UpstreamFailed { .. }) => {
            lemma_count_on(p, lease, EntryEvent::Closed, j);
            lemma_count_failed(p.on(lease, EntryEvent::Closed), lease, j);
            lemma_count_forward_fail(s, p.on(lease, EntryEvent::Closed), lease, false, j);
        },
        (ForwardStageView::AwaitingResponse(lease), ForwardEvent::TimedOut { .. }) => {
            lemma_count_on(p, lease, EntryEvent::Closed, j);
            lemma_count_failed(p.on(lease, EntryEvent::Closed), lease, j);
        },
        (ForwardStageView::Dialing(hop), ForwardEvent::TimedOut { .. }) => {
            lemma_count_failed(p, hop.lease, j);
        },
        (ForwardStageView::SendingHead(lease), ForwardEvent::TimedOut { .. }) => {
            lemma_count_failed(p, lease, j);
        },
        (ForwardStageView::SendingBuffered(lease), ForwardEvent::TimedOut { .. }) => {
            lemma_count_failed(p, lease, j);
        },
        _ => {},
    }
}

/// The connections at entry `j` that this session does not account for: those of
/// all other requests.
pub open spec fn others_connect(s: ConnectView, p: PoolView, j: int) -> int {
    p.entries[j].active_conns - connect_holds(s, p.entries[j].id)
}

/// The connections at entry `j` that this request does not account for: those of
/// all other requests.
pub open spec fn others_forward(s: ForwardSessionView, p: PoolView, j: int) -> int {
    p.entries[j].active_conns - forward_holds(s, p.entries[j].id)
}

/// A reload in the middle of a session keeps the counts right too: an upstream
/// that stays has the same connections of others, and a new one has none, nor any
/// of this session. An upstream whose URL is listed before it starts with the count
/// that the reload finds at that URL, and holds nothing of this session.
pub proof fn law_reload_keeps_counts(
    c: ConnectView,
    f: ForwardSessionView,
    p: PoolView,
    configs: Seq<UpstreamConfig>,
    j: int,
)
    requires
        0 <= j < configs.len(),
        p.next_id + configs.len() <= u64::MAX,
        c.stage matches ConnectStageView::Tunneling(lease) ==> lease.id < p.next_id,
        f.stage matches ForwardStageView::AwaitingResponse(lease) ==> lease.id < p.next_id,
    ensures
        ({
            let q = p.reloaded(configs);
            let k = position_of_url(p.entries, configs[j].url@);
            if k >= p.entries.len() {
                &&& others_connect(c, q, j) == 0
                &&& others_forward(f, q, j) == 0
            } else if first_listed(configs, j) {
                &&& others_connect(c, q, j) == others_connect(c, p, k)
                &&& others_forward(f, q, j) == others_forward(f, p, k)
            } else {
                &&& others_connect(c, q, j) == p.entries[k].active_conns
                &&& others_forward(f, q, j) == p.entries[k].active_conns
            }
        }),
{
}

/// A CONNECT session changes nothing of an upstream that it has not tried.
pub proof fn law_connect_leaves_the_untried_alone(
    s: ConnectView,
    p: PoolView,
    event: ConnectEvent,
    j: int,
)
    requires
        connect_ok(s),
        0 <= j < p.entries.len(),
        !s.attempts.tried.contains(p.entries[j].id),
    ensures
        s.step(p, event).1.entries.len() == p.entries.len(),
        s.step(p, event).1.entries[j] == p.entries[j],
{
    match connect_lease(s.stage) {
        Some(lease) => {
            assert(p.entries[j].id != lease.id);
            lemma_count_pick(s.attempts, p.failed(lease));
        },
        None => lemma_count_pick(s.attempts, p),
    }
}

/// A forwarded request changes nothing of an upstream that it has not tried.
pub proof fn law_forward_leaves_the_untried_alone(
    s: ForwardSessionView,
    p: PoolView,
    event: ForwardEvent,
    j: int,
)
    requires
        forward_ok(s),
        0 <= j < p.entries.len(),
        !s.attempts.tried.contains(p.entries[j].id),
    ensures
        s.step(p, event).1.entries.len() == p.entries.len(),
        s.step(p, event).1.entries[j] == p.entries[j],
{
    match forward_lease(s.stage) {
        Some(lease) => {
            assert(p.entries[j].id != lease.id);
            lemma_count_pick(s.attempts, p.failed(lease));
            lemma_count_pick(s.attempts, p.on(lease, EntryEvent::Closed).failed(lease));
        },
        None => lemma_count_pick(s.attempts, p),
    }
}

/// A run of a CONNECT session: each state follows from the one before by an
/// event, in a pool that others may have changed in between.
pub open spec fn connect_run(
    states: Seq<ConnectView>,
    pools: Seq<PoolView>,
    events: Seq<ConnectEvent>,
) -> bool {
    &&& states.len() == events.len() + 1
    &&& pools.len() == events.len()
    &&& forall|k: int|
        0 <= k < events.len() ==> (#[trigger] pools[k]).entries.len() <= usize::MAX
    &&& forall|k: int|
        0 <= k < events.len() ==> states[k + 1] == (#[trigger] states[k]).step(
            pools[k],
            events[k],
        ).0
}

/// How many upstreams were dialled in the first `n` steps of a run.
pub open spec fn connect_dials(
    states: Seq<ConnectView>,
    pools: Seq<PoolView>,
    events: Seq<ConnectEvent>,
    n: int,
) -> nat
    decreases n,
{
    if n <= 0 {
        0
    } else {
        connect_dials(states, pools, events, n - 1) + (if states[n - 1].step(
            pools[n - 1],
            events[n - 1],
        ).2 is Dial {
            1nat
        } else {
            0
        })
    }
}

proof fn lemma_connect_dials(
    states: Seq<ConnectView>,
    pools: Seq<PoolView>,
    events: Seq<ConnectEvent>,
    n: int,
)
    requires
        connect_run(states, pools, events),
        connect_ok(states[0]),
        0 <= n <= events.len(),
    ensures
        connect_ok(states[n]),
        states[n].attempts.max_retries == states[0].attempts.max_retries,
        connect_dials(states, pools, events, n) + states[0].attempts.tried.len()
            <= states[n].attempts.tried.len(),
    decreases n,
{
    if n > 0 {
        lemma_connect_dials(states, pools, events, n - 1);
        assert(pools[n - 1].entries.len() <= usize::MAX);
        assert(states[n - 1 + 1] == states[n - 1].step(pools[n - 1], events[n - 1]).0);
        law_connect_session_stays_ok(states[n - 1], pools[n - 1], events[n - 1]);
    }
}

/// A tunnel request dials at most `min(pool size, 3)` upstreams, whatever happens
/// in the pool meanwhile. (A pool that is empty at the start may gain an upstream
/// before the first attempt; then there is one attempt.)
pub proof fn law_connect_attempts_are_bounded(
    states: Seq<ConnectView>,
    pools: Seq<PoolView>,
    events: Seq<ConnectEvent>,
    mode: BalanceMode,
    pool_len: nat,
)
    requires
        connect_run(states, pools, events),
        states[0].stage is Start,
        states[0].attempts == AttemptsView::fresh(mode, pool_len),
    ensures
        connect_dials(states, pools, events, events.len() as int) <= (if pool_len == 0 {
            1
        } else if pool_len < 3 {
            pool_len
        } else {
            3
        }),
{
    law_new_attempts_are_ok(mode, pool_len);
    lemma_connect_dials(states, pools, events, events.len() as int);
}

/// A run of a forwarded request: each state follows from the one before by an
/// event, in a pool that others may have changed in between.
pub open spec fn forward_run(
    states: Seq<ForwardSessionView>,
    pools: Seq<PoolView>,
    events: Seq<ForwardEvent>,
) -> bool {
    &&& states.len() == events.len() + 1
    &&& pools.len() == events.len()
    &&& forall|k: int|
        0 <= k < events.len() ==> (#[trigger] pools[k]).entries.len() <= usize::MAX
    &&& forall|k: int|
        0 <= k < events.len() ==> states[k + 1] == (#[trigger] states[k]).step(
            pools[k],
            events[k],
        ).0
}

/// How many upstreams were dialled in the first `n` steps of a run.
pub open spec fn forward_dials(
    states: Seq<ForwardSessionView>,
    pools: Seq<PoolView>,
    events: Seq<ForwardEvent>,
    n: int,
) -> nat
    decreases n,
{
    if n <= 0 {
        0
    } else {
        forward_dials(states, pools, events, n - 1) + (if states[n - 1].step(
            pools[n - 1],
            events[n - 1],
        ).2 is Dial {
            1nat
        } else {
            0
        })
    }
}

proof fn lemma_forward_dials(
    states: Seq<ForwardSessionView>,
    pools: Seq<PoolView>,
    events: Seq<ForwardEvent>,
    n: int,
)
    requires
        forward_run(states, pools, events),
        forward_ok(states[0]),
        0 <= n <= events.len(),
    ensures
        forward_ok(states[n]),
        states[n].attempts.max_retries == states[0].attempts.max_retries,
        forward_dials(states, pools, events, n) + states[0].attempts.tried.len()
            <= states[n].attempts.tried.len(),
    decreases n,
{
    if n > 0 {
        lemma_forward_dials(states, pools, events, n - 1);
        assert(pools[n - 1].entries.len() <= usize::MAX);
        assert(states[n - 1 + 1] == states[n - 1].step(pools[n - 1], events[n - 1]).0);
        law_forward_session_stays_ok(states[n - 1], pools[n - 1], events[n - 1]);
    }
}

/// A forwarded request dials at most `min(pool size, 3)` upstreams, whatever
/// happens in the pool meanwhile. (A pool that is empty at the start may gain an
/// upstream before the first attempt; then there is one attempt.)
pub proof fn law_forward_attempts_are_bounded(
    states: Seq<ForwardSessionView>,
    pools: Seq<PoolView>,
    events: Seq<ForwardEvent>,
    mode: BalanceMode,
    pool_len: nat,
)
    requires
        forward_run(states, pools, events),
        states[0].wf(),
        states[0].stage is Start,
        states[0].attempts == AttemptsView::fresh(mode, pool_len),
    ensures
        forward_dials(states, pools, events, events.len() as int) <= (if pool_len == 0 {
            1
        } else if pool_len < 3 {
            pool_len
        } else {
            3
        }),
{
    law_new_attempts_are_ok(mode, pool_len);
    lemma_forward_dials(states, pools, events, events.len() as int);
}

/// As long as every upstream URL in the pool is valid, no request is given up on
/// account of a URL.
pub proof fn law_valid_urls_are_dialled(a: AttemptsView, p: PoolView)
    requires
        urls_valid(p),
    ensures
        !(a.pick(p).2 is InvalidUrl),
        a.pick(p).2 is Unavailable == !p.any_eligible(p.positions(a.tried)),
{
    law_choice_is_eligible(p, a.mode, p.positions(a.tried));
}

/// Whatever happens to a CONNECT session that is over, it stays over, and the
/// pool is left alone.
pub proof fn law_finished_connect_is_final(s: ConnectView, p: PoolView, event: ConnectEvent)
    requires
        s.stage is Finished,
    ensures
        s.step(p, event) == (s, p, ConnectActionView::Close),
{
}

/// Whatever happens to a forwarded request that is over, it stays over, and the
/// pool is left alone.
pub proof fn law_finished_forward_is_final(
    s: ForwardSessionView,
    p: PoolView,
    event: ForwardEvent,
)
    requires
        s.stage is Finished,
    ensures
        s.step(p, event) == (s, p, ForwardActionView::Finish { keep_alive: false }),
{
}

/// A session dials the upstream that the pool selects among those that were not
/// tried, with the credentials for it. Without one the client gets a 502.
pub proof fn law_connect_dials_the_selection(s: ConnectView, p: PoolView)
    requires
        s.stage is Start,
    ensures
        ({
            let (t, q, action) = s.step(p, ConnectEvent::Begin);
            let exclude = p.positions(s.attempts.tried);
            match p.choice(s.attempts.mode, exclude) {
                None => {
                    &&& action == ConnectActionView::Refuse(
                        status_text(502, "No upstream available"@),
                    )
                    &&& t.stage == ConnectStageView::Finished(Outcome::Failure)
                    &&& q.entries == p.entries
                },
                Some(i) => {
                    &&& t.attempts.tried == s.attempts.tried.push(p.entries[i].id)
                    &&& q == p.after_selection(s.attempts.mode, exclude)
                    &&& match p.entries[i].config.address() {
                        Some((host, port)) => {
                            &&& action == (ConnectActionView::Dial { host, port })
                            &&& (t.stage matches ConnectStageView::Dialing(hop) && {
                                &&& hop.lease.id == p.entries[i].id
                                &&& hop.auth == p.entries[i].config.auth_header()
                            })
                        },
                        None => action == ConnectActionView::Close && t.stage
                            == ConnectStageView::Finished(Outcome::Failure),
                    }
                },
            }
        }),
        ({
            let t = s.step(p, ConnectEvent::Begin).0;
            &&& t.host == s.host && t.port == s.port && t.early == s.early
            &&& t.attempts.max_retries == s.attempts.max_retries && t.attempts.mode
                == s.attempts.mode
        }),
{
}

/// An upstream that is connected is asked for a tunnel to the client's target, with
/// the credentials for that upstream, and its reply is awaited. The pool is left
/// alone meanwhile.
pub proof fn law_connect_asks_for_the_target(s: ConnectView, p: PoolView, hop: HopView, lease: Lease)
    ensures
        s.stage == ConnectStageView::Dialing(hop) ==> ({
            let (t, q, action) = s.step(p, ConnectEvent::Dialed);
            &&& action == ConnectActionView::SendRequest(connect_request(s.host, s.port, hop.auth))
            &&& t == (ConnectView { stage: ConnectStageView::Requesting(hop.lease), ..s })
            &&& q == p
        }),
        s.stage == ConnectStageView::Requesting(lease) ==> ({
            let (t, q, action) = s.step(p, ConnectEvent::RequestSent);
            &&& action == ConnectActionView::AwaitReply
            &&& t == (ConnectView { stage: ConnectStageView::AwaitingReply(lease), ..s })
            &&& q == p
        }),
{
}

/// The client is told that the tunnel is up just if the upstream replied with 200.
/// Any other reply refuses the client with that very status and ends the session as
/// a failure. Neither changes the pool.
pub proof fn law_reply_decides(s: ConnectView, p: PoolView, lease: Lease, reply: ConnectReply)
    requires
        s.stage == ConnectStageView::AwaitingReply(lease),
    ensures
        ({
            let (t, q, action) = s.step(p, ConnectEvent::Replied(reply));
            &&& q == p
            &&& action is Acknowledge <==> reply.status == 200
            &&& reply.status == 200 ==> {
                &&& action == ConnectActionView::Acknowledge(
                    "HTTP/1.1 200 Connection Established\r\n\r\n"@,
                )
                &&& t == (ConnectView {
                    stage: ConnectStageView::Acknowledging { lease, early: reply.early@ },
                    ..s
                })
            }
            &&& reply.status != 200 ==> {
                &&& action == ConnectActionView::Refuse(
                    status_text(reply.status, "Upstream rejected CONNECT"@),
                )
                &&& t == (ConnectView {
                    stage: ConnectStageView::Finished(Outcome::Failure),
                    ..s
                })
            }
        }),
{
}

/// Of the running session: whatever status other than 200 an upstream replies with,
/// the session is over as a failure, and what the client gets starts with that
/// status.
pub proof fn law_rejection_reaches_the_client(reply: ConnectReply, r: ConnectAction)
    requires
        reply.status != 200,
    ensures
        forall|s: &mut ConnectSession, p: &mut UpstreamPool|
            #[trigger] call_ensures(
                ConnectSession::step,
                (s, p, ConnectEvent::Replied(reply)),
                r,
            ) && (*s)@.stage is AwaitingReply ==> {
                let n = decimal(reply.status as nat).len() as int;
                &&& (*final(s))@.stage == ConnectStageView::Finished(Outcome::Failure)
                &&& (*final(p))@ == (*p)@
                &&& (r@ matches ConnectActionView::Refuse(text) && {
                    &&& text.len() > 9 + n
                    &&& text.take(9) == "HTTP/1.1 "@
                    &&& unsigned_value(text.subrange(9, 9 + n), 65535) == Some(
                        reply.status as nat,
                    )
                    &&& text[9 + n] == ' '
                })
            },
{
    law_status_response(reply.status, "Upstream rejected CONNECT"@);
}

/// A tunnel counts as a connection through its upstream from when the client was told
/// until it ends; then its time counts as a success of the upstream. A client that
/// could not be told ends the session, and the pool is left alone.
pub proof fn law_tunnel_is_counted(
    s: ConnectView,
    p: PoolView,
    lease: Lease,
    early: Seq<u8>,
    ms: u64,
)
    ensures
        s.stage == (ConnectStageView::Acknowledging { lease, early }) ==> ({
            let (t, q, action) = s.step(p, ConnectEvent::ClientAcked);
            &&& t == (ConnectView { stage: ConnectStageView::Tunneling(lease), ..s })
            &&& q == p.after(lease.id, EntryEvent::Opened)
            &&& action == ConnectActionView::Tunnel { to_client: early, to_upstream: s.early }
        }),
        s.stage == (ConnectStageView::Acknowledging { lease, early }) ==> ({
            let (t, q, action) = s.step(p, ConnectEvent::ClientGone);
            &&& t.stage == ConnectStageView::Finished(Outcome::Failure)
            &&& q == p
            &&& action == ConnectActionView::Close
        }),
        s.stage == ConnectStageView::Tunneling(lease) ==> ({
            let (t, q, action) = s.step(p, ConnectEvent::TunnelEnded(ms));
            &&& t.stage == ConnectStageView::Finished(Outcome::Success)
            &&& q == p.after(lease.id, EntryEvent::Closed).after(
                lease.id,
                EntryEvent::Succeeded(ms),
            )
            &&& action == ConnectActionView::Close
        }),
{
}

/// An upstream that fails a CONNECT is offline and charged with the failure. Where as
/// many upstreams were tried as are allowed, the client gets a 502; else the session
/// goes on as at its start.
pub proof fn law_connect_failure_is_charged(s: ConnectView, p: PoolView, lease: Lease)
    requires
        connect_lease(s.stage) == Some(lease),
        !(s.stage is Acknowledging) && !(s.stage is Tunneling),
    ensures
        ({
            let (t, q, action) = s.step(p, ConnectEvent::UpstreamFailed);
            let failed = p.after(lease.id, EntryEvent::WentOffline).after(
                lease.id,
                EntryEvent::Failed,
            );
            &&& q.entries == failed.entries
            &&& s.attempts.tried.len() >= s.attempts.max_retries ==> {
                &&& t == (ConnectView { stage: ConnectStageView::Finished(Outcome::Failure), ..s })
                &&& action == ConnectActionView::Refuse(status_text(502, "Bad Gateway"@))
            }
            &&& s.attempts.tried.len() < s.attempts.max_retries ==> (t, q, action) == (ConnectView {
                stage: ConnectStageView::Start,
                ..s
            }).step(failed, ConnectEvent::Begin)
        }),
{
}

/// A CONNECT that takes too long ends as a failure, and the client gets a 504; the
/// upstream is charged with it.
pub proof fn law_connect_timeout(s: ConnectView, p: PoolView)
    requires
        s.stage is Dialing || s.stage is Requesting || s.stage is AwaitingReply,
    ensures
        ({
            let (t, q, action) = s.step(p, ConnectEvent::TimedOut);
            let id = connect_lease(s.stage)->0.id;
            &&& t == (ConnectView { stage: ConnectStageView::Finished(Outcome::Failure), ..s })
            &&& action == ConnectActionView::Refuse(status_text(504, "Gateway Timeout"@))
            &&& q == p.after(id, EntryEvent::WentOffline).after(id, EntryEvent::Failed)
        }),
{
}

/// Whether a CONNECT session at this stage waits for this event.
pub open spec fn connect_awaits(stage: ConnectStageView, event: ConnectEvent) -> bool {
    match stage {
        ConnectStageView::Start => event is Begin,
        ConnectStageView::Dialing(_) => event is Dialed || event is UpstreamFailed
            || event is TimedOut,
        ConnectStageView::Requesting(_) => event is RequestSent || event is UpstreamFailed
            || event is TimedOut,
        ConnectStageView::AwaitingReply(_) => event is Replied || event is UpstreamFailed
            || event is TimedOut,
        ConnectStageView::Acknowledging { .. } => event is ClientAcked || event is ClientGone,
        ConnectStageView::Tunneling(_) => event is TunnelEnded,
        ConnectStageView::Finished(_) => false,
    }
}

/// An event that a CONNECT session does not wait for changes nothing; one that it
/// waits for always does.
pub proof fn law_connect_stray_events(s: ConnectView, p: PoolView, event: ConnectEvent)
    ensures
        !connect_awaits(s.stage, event) ==> s.step(p, event) == (s, p, ConnectActionView::Close),
        connect_awaits(s.stage, event) ==> s.step(p, event).0.stage != s.stage
            || s.step(p, event).2 is Dial,
{
}

/// A request is forwarded through the upstream that the pool selects among those that
/// were not tried, with the credentials for it. Without one the client gets a 502.
pub proof fn law_forward_dials_the_selection(s: ForwardSessionView, p: PoolView)
    requires
        s.stage is Start,
    ensures
        ({
            let (t, q, action) = s.step(p, ForwardEvent::Begin);
            let exclude = p.positions(s.attempts.tried);
            match p.choice(s.attempts.mode, exclude) {
                None => {
                    &&& action == ForwardActionView::Refuse(
                        status_text(502, "No upstream available"@),
                    )
                    &&& t.stage == ForwardStageView::Finished(Outcome::Failure)
                    &&& q.entries == p.entries
                },
                Some(i) => {
                    &&& t.attempts.tried == s.attempts.tried.push(p.entries[i].id)
                    &&& q == p.after_selection(s.attempts.mode, exclude)
                    &&& match p.entries[i].config.address() {
                        Some((host, port)) => {
                            &&& action == (ForwardActionView::Dial { host, port })
                            &&& (t.stage matches ForwardStageView::Dialing(hop) && {
                                &&& hop.lease.id == p.entries[i].id
                                &&& hop.auth == p.entries[i].config.auth_header()
                            })
                        },
                        None => action == (ForwardActionView::Finish { keep_alive: false })
                            && t.stage == ForwardStageView::Finished(Outcome::Failure),
                    }
                },
            }
        }),
        ({
            let t = s.step(p, ForwardEvent::Begin).0;
            &&& t.raw == s.raw && t.body_offset == s.body_offset && t.keep_alive == s.keep_alive
            &&& t.content_length == s.content_length && t.chunked == s.chunked
            &&& t.attempts.max_retries == s.attempts.max_retries && t.attempts.mode
                == s.attempts.mode
        }),
{
}

/// What an upstream gets of a request: the rewritten head with the credentials for
/// it; the body bytes that came with the head, if any; and the rest of the body as it
/// is framed. Then the response is awaited, and counts as a connection through the
/// upstream.
pub proof fn law_request_reaches_the_upstream(
    s: ForwardSessionView,
    p: PoolView,
    hop: HopView,
    lease: Lease,
)
    requires
        s.body_offset <= s.raw.len(),
    ensures
        s.stage == ForwardStageView::Dialing(hop) ==> ({
            let (t, q, action) = s.step(p, ForwardEvent::Dialed);
            &&& t == (ForwardSessionView {
                stage: ForwardStageView::SendingHead(hop.lease),
                ..s
            })
            &&& q == p
            &&& action == ForwardActionView::SendHead(
                terminated(forwarded_lines(s.raw.take(s.body_offset as int), hop.auth)),
            )
        }),
        s.stage == ForwardStageView::SendingHead(lease) && s.raw.len() > s.body_offset ==> ({
            let (t, q, action) = s.step(p, ForwardEvent::Sent);
            &&& t == (ForwardSessionView { stage: ForwardStageView::SendingBuffered(lease), ..s })
            &&& q == p
            &&& action == ForwardActionView::SendBuffered
        }),
        (s.stage == ForwardStageView::SendingHead(lease) && s.raw.len() == s.body_offset) || s.stage
            == ForwardStageView::SendingBuffered(lease) ==> ({
            let (t, q, action) = s.step(p, ForwardEvent::Sent);
            &&& t == (ForwardSessionView { stage: ForwardStageView::SendingBody(lease), ..s })
            &&& q == p
            &&& action == ForwardActionView::SendBody(
                request_body(s.content_length, s.chunked, s.raw.skip(s.body_offset as int)),
            )
        }),
        s.stage == ForwardStageView::SendingBody(lease) ==> ({
            let (t, q, action) = s.step(p, ForwardEvent::BodySent);
            &&& t == (ForwardSessionView { stage: ForwardStageView::AwaitingResponse(lease), ..s })
            &&& q == p.after(lease.id, EntryEvent::Opened)
            &&& action == ForwardActionView::AwaitResponse
        }),
{
}

/// How a forwarded request ends: after its response it is a success, of which the
/// upstream has the time, and the client connection persists if both sides let it. A
/// body that could not be forwarded ends it as a failure, and leaves the pool alone.
pub proof fn law_forward_ends(
    s: ForwardSessionView,
    p: PoolView,
    lease: Lease,
    keep_alive: bool,
    elapsed_ms: u64,
)
    ensures
        s.stage == ForwardStageView::AwaitingResponse(lease) ==> ({
            let (t, q, action) = s.step(p, ForwardEvent::Responded { keep_alive, elapsed_ms });
            &&& t == (ForwardSessionView {
                stage: ForwardStageView::Finished(Outcome::Success),
                ..s
            })
            &&& q == p.after(lease.id, EntryEvent::Closed).after(
                lease.id,
                EntryEvent::Succeeded(elapsed_ms),
            )
            &&& action == (ForwardActionView::Finish { keep_alive: s.keep_alive && keep_alive })
        }),
        s.stage == ForwardStageView::SendingBody(lease) ==> ({
            let (t, q, action) = s.step(p, ForwardEvent::BodyFailed);
            &&& t == (ForwardSessionView {
                stage: ForwardStageView::Finished(Outcome::Failure),
                ..s
            })
            &&& q == p
            &&& action == (ForwardActionView::Finish { keep_alive: false })
        }),
{
}

/// An upstream that fails a request is offline and charged with the failure, and no
/// connection stays on its account. The request goes on as at its start, unless as
/// many upstreams were tried as are allowed, or it cannot be sent again.
pub proof fn law_forward_failure_is_charged(
    s: ForwardSessionView,
    p: PoolView,
    lease: Lease,
    response_started: bool,
)
    requires
        forward_lease(s.stage) == Some(lease),
        !(s.stage is SendingBody),
    ensures
        ({
            let (t, q, action) = s.step(p, ForwardEvent::UpstreamFailed { response_started });
            let before = if s.stage is AwaitingResponse {
                p.after(lease.id, EntryEvent::Closed)
            } else {
                p
            };
            let failed = before.after(lease.id, EntryEvent::WentOffline).after(
                lease.id,
                EntryEvent::Failed,
            );
            let over = s.stage is AwaitingResponse && (response_started || request_body(
                s.content_length,
                s.chunked,
                s.raw.skip(s.body_offset as int),
            ) != BodyPlan::Nothing);
            let exhausted = s.attempts.tried.len() >= s.attempts.max_retries;
            &&& q.entries == failed.entries
            &&& over || exhausted ==> t == (ForwardSessionView {
                stage: ForwardStageView::Finished(Outcome::Failure),
                ..s
            })
            &&& over ==> action == (ForwardActionView::Finish { keep_alive: false })
            &&& exhausted && (s.stage is Dialing || s.stage is SendingHead) ==> action
                == ForwardActionView::Refuse(status_text(502, "Bad Gateway"@))
            &&& exhausted && (s.stage is SendingBuffered || s.stage is AwaitingResponse) ==> action
                == (ForwardActionView::Finish { keep_alive: false })
            &&& !over && !exhausted ==> (t, q, action) == (ForwardSessionView {
                stage: ForwardStageView::Start,
                ..s
            }).step(failed, ForwardEvent::Begin)
        }),
{
}

/// A request that takes too long ends as a failure. The client gets a 504, unless it
/// has got a part of the response. Whoever is waited for is charged with it: the
/// upstream while it connects, takes the head or is to start its response, and no
/// one while the body comes from the client or the response is under way.
pub proof fn law_forward_timeout(s: ForwardSessionView, p: PoolView, started: bool)
    requires
        forward_lease(s.stage) is Some,
    ensures
        ({
            let (t, q, action) = s.step(p, ForwardEvent::TimedOut { response_started: started });
            let id = forward_lease(s.stage)->0.id;
            let under_way = started && s.stage is AwaitingResponse;
            let before = if s.stage is AwaitingResponse {
                p.after(id, EntryEvent::Closed)
            } else {
                p
            };
            &&& t == (ForwardSessionView {
                stage: ForwardStageView::Finished(Outcome::Failure),
                ..s
            })
            &&& under_way ==> action == (ForwardActionView::Finish { keep_alive: false })
            &&& !under_way ==> action == ForwardActionView::Refuse(
                status_text(504, "Gateway Timeout"@),
            )
            &&& under_way || s.stage is SendingBody ==> q == before
            &&& !under_way && !(s.stage is SendingBody) ==> q == before.after(
                id,
                EntryEvent::WentOffline,
            ).after(id, EntryEvent::Failed)
        }),
{
}

/// Whether a forwarded request at this stage waits for this event.
pub open spec fn forward_awaits(stage: ForwardStageView, event: ForwardEvent) -> bool {
    match stage {
        ForwardStageView::Start => event is Begin,
        ForwardStageView::Dialing(_) => event is Dialed || event is UpstreamFailed
            || event is TimedOut,
        ForwardStageView::SendingHead(_) => event is Sent || event is UpstreamFailed
            || event is TimedOut,
        ForwardStageView::SendingBuffered(_) => event is Sent || event is UpstreamFailed
            || event is TimedOut,
        ForwardStageView::SendingBody(_) => event is BodySent || event is BodyFailed
            || event is TimedOut,
        ForwardStageView::AwaitingResponse(_) => event is Responded || event is UpstreamFailed
            || event is TimedOut,
        ForwardStageView::Finished(_) => false,
    }
}

/// An event that a forwarded request does not wait for changes nothing; one that it
/// waits for always does.
pub proof fn law_forward_stray_events(s: ForwardSessionView, p: PoolView, event: ForwardEvent)
    ensures
        !forward_awaits(s.stage, event) ==> s.step(p, event) == (
            s,
            p,
            ForwardActionView::Finish { keep_alive: false },
        ),
        forward_awaits(s.stage, event) ==> s.step(p, event).0.stage != s.stage
            || s.step(p, event).2 is Dial,
{
}

/// A new request may try as many upstreams as there are, and at most three, and has
/// tried none.
pub proof fn law_new_attempts(mode: BalanceMode, pool_len: nat)
    ensures
        ({
            let a = AttemptsView::fresh(mode, pool_len);
            &&& a.mode == mode && a.tried.len() == 0
            &&& pool_len < 3 ==> a.max_retries == pool_len
            &&& pool_len >= 3 ==> a.max_retries == 3
        }),
{
}

/// What is said of a session that is over is how it came out, and nothing before.
pub proof fn law_outcomes(c: ConnectSession, f: ForwardSession, r: Option<Outcome>)
    ensures
        call_ensures(ConnectSession::outcome, (&c,), r) ==> (r matches Some(o)
            ==> c@.stage == ConnectStageView::Finished(o)) && (r is None ==> !(
        c@.stage is Finished)),
        call_ensures(ForwardSession::outcome, (&f,), r) ==> (r matches Some(o)
            ==> f@.stage == ForwardStageView::Finished(o)) && (r is None ==> !(
        f@.stage is Finished)),
{
}

/// Of the running code: a session steps as described here.
pub proof fn law_sessions_step(
    c: ConnectEvent,
    action: ConnectAction,
    f: ForwardEvent,
    forward: ForwardAction,
)
    ensures
        forall|s: &mut ConnectSession, p: &mut UpstreamPool| #[trigger]
            call_ensures(ConnectSession::step, (s, p, c), action) ==> (
                (*final(s))@,
                (*final(p))@,
                action@,
            ) == (*s)@.step((*p)@, c),
        forall|s: &mut ForwardSession, p: &mut UpstreamPool|
            (*s)@.wf() && #[trigger] call_ensures(ForwardSession::step, (s, p, f), forward) ==> (
                (*final(s))@,
                (*final(p))@,
                forward@,
            ) == (*s)@.step((*p)@, f),
{
}

/// Of the running code: a session starts with just what it is given, has tried
/// nothing, and may try as many upstreams as there are, and at most three.
pub proof fn law_sessions_start(
    host: String,
    port: u16,
    early: Vec<u8>,
    mode: BalanceMode,
    pool: &UpstreamPool,
    c: ConnectSession,
    raw: Vec<u8>,
    plan: &ForwardPlan,
    f: ForwardSession,
)
    ensures
        call_ensures(ConnectSession::new, (host, port, early, mode, pool), c) ==> {
            &&& c.host@ == host@ && c.port == port && c.early@ == early@ && c.stage is Start
            &&& c.attempts.mode == mode && c.attempts.tried@.len() == 0
            &&& pool.entries@.len() < 3 ==> c.attempts.max_retries == pool.entries@.len()
            &&& pool.entries@.len() >= 3 ==> c.attempts.max_retries == 3
        },
        plan.body_offset <= raw@.len() && call_ensures(
            ForwardSession::new,
            (raw, plan, mode, pool),
            f,
        ) ==> {
            &&& f.raw@ == raw@ && f.body_offset == plan.body_offset && f.stage is Start
            &&& f.content_length == plan.content_length && f.chunked == plan.chunked
            &&& f.keep_alive == plan.keep_alive
            &&& f.attempts.mode == mode && f.attempts.tried@.len() == 0
            &&& pool.entries@.len() < 3 ==> f.attempts.max_retries == pool.entries@.len()
            &&& pool.entries@.len() >= 3 ==> f.attempts.max_retries == 3
        },
{
}

/// The views of sessions leave nothing out.
pub proof fn law_views_of_sessions(c: ConnectSession, f: ForwardSession, hop: Hop)
    ensures
        c@.host == c.host@ && c@.port == c.port && c@.early == c.early@,
        c@.attempts == c.attempts@ && c@.stage == c.stage@,
        c.attempts@.mode == c.attempts.mode && c.attempts@.tried == c.attempts.tried@,
        c.attempts@.max_retries == c.attempts.max_retries,
        f@.raw == f.raw@ && f@.body_offset == f.body_offset && f@.keep_alive == f.keep_alive,
        f@.content_length == f.content_length && f@.chunked == f.chunked,
        f@.attempts == f.attempts@ && f@.stage == f.stage@,
        hop@.lease == hop.lease && hop@.host == hop.host@ && hop@.port == hop.port,
        hop.auth matches Some(a) ==> hop@.auth == Some(a@),
        hop.auth is None ==> hop@.auth is None,
{
}

/// The views of stages leave nothing out.
pub proof fn law_views_of_stages(c: ConnectStage, f: ForwardStage)
    ensures
        match c {
            ConnectStage::Start => c@ == ConnectStageView::Start,
            ConnectStage::Dialing(hop) => c@ == ConnectStageView::Dialing(hop@),
            ConnectStage::Requesting(lease) => c@ == ConnectStageView::Requesting(lease),
            ConnectStage::AwaitingReply(lease) => c@ == ConnectStageView::AwaitingReply(lease),
            ConnectStage::Acknowledging { lease, early } => c@
                == (ConnectStageView::Acknowledging { lease, early: early@ }),
            ConnectStage::Tunneling(lease) => c@ == ConnectStageView::Tunneling(lease),
            ConnectStage::Finished(outcome) => c@ == ConnectStageView::Finished(outcome),
        },
        match f {
            ForwardStage::Start => f@ == ForwardStageView::Start,
            ForwardStage::Dialing(hop) => f@ == ForwardStageView::Dialing(hop@),
            ForwardStage::SendingHead(lease) => f@ == ForwardStageView::SendingHead(lease),
            ForwardStage::SendingBuffered(lease) => f@ == ForwardStageView::SendingBuffered(lease),
            ForwardStage::SendingBody(lease) => f@ == ForwardStageView::SendingBody(lease),
            ForwardStage::AwaitingResponse(lease) => f@ == ForwardStageView::AwaitingResponse(lease),
            ForwardStage::Finished(outcome) => f@ == ForwardStageView::Finished(outcome),
        },
{
}

/// The views of actions leave nothing out.
pub proof fn law_views_of_actions(c: ConnectAction, f: ForwardAction)
    ensures
        match c {
            ConnectAction::Dial { host, port } => c@
                == (ConnectActionView::Dial { host: host@, port }),
            ConnectAction::SendRequest(text) => c@ == ConnectActionView::SendRequest(text@),
            ConnectAction::AwaitReply => c@ == ConnectActionView::AwaitReply,
            ConnectAction::Acknowledge(text) => c@ == ConnectActionView::Acknowledge(text@),
            ConnectAction::Tunnel { to_client, to_upstream } => c@
                == (ConnectActionView::Tunnel {
                to_client: to_client@,
                to_upstream: to_upstream@,
            }),
            ConnectAction::Refuse(text) => c@ == ConnectActionView::Refuse(text@),
            ConnectAction::Close => c@ == ConnectActionView::Close,
        },
        match f {
            ForwardAction::Dial { host, port } => f@
                == (ForwardActionView::Dial { host: host@, port }),
            ForwardAction::SendHead(bytes) => f@ == ForwardActionView::SendHead(bytes@),
            ForwardAction::SendBuffered => f@ == ForwardActionView::SendBuffered,
            ForwardAction::SendBody(plan) => f@ == ForwardActionView::SendBody(plan),
            ForwardAction::AwaitResponse => f@ == ForwardActionView::AwaitResponse,
            ForwardAction::Refuse(text) => f@ == ForwardActionView::Refuse(text@),
            ForwardAction::Finish { keep_alive } => f@ == (ForwardActionView::Finish { keep_alive }),
        },
{
}

} // verus!
