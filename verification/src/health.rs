//! Active health checks: an offline upstream is asked to fetch a page that
//! answers 204, and is online again once that answer comes back.

use crate::balance_laws::law_event_touches_one_entry;
use crate::boundary::{parse_response, response_at};
use crate::http::{interpret_status, reply_status, text_view, HttpError, MAX_HEADERS};
use crate::session::Lease;
use crate::upstream::{offline_among, EntryEvent, PoolView, UpstreamEntry, UpstreamPool};
use vstd::prelude::*;

verus! {

/// The status that the probed page answers with.
pub const PROBE_STATUS: u16 = 204;

/// A probe of one upstream: where to connect to and what to send.
#[derive(Debug)]
pub struct Probe {
    pub lease: Lease,
    pub host: String,
    pub port: u16,
    pub request: String,
}

pub struct ProbeView {
    pub lease: Lease,
    pub host: Seq<char>,
    pub port: u16,
    pub request: Seq<char>,
}

impl View for Probe {
    type V = ProbeView;

    open spec fn view(&self) -> ProbeView {
        ProbeView {
            lease: self.lease,
            host: self.host@,
            port: self.port,
            request: self.request@,
        }
    }
}

/// The request of a probe through an upstream with these credentials.
pub open spec fn probe_request(auth: Option<Seq<char>>) -> Seq<char> {
    "GET http://connectivitycheck.gstatic.com/generate_204 HTTP/1.1\r\nHost: connectivitycheck.gstatic.com\r\n"@
        + (match auth {
        Some(a) => "Proxy-Authorization: "@ + a + "\r\n"@,
        None => Seq::empty(),
    }) + "Connection: close\r\n\r\n"@
}

/// Writes the request of a probe.
pub fn build_probe_request(auth: Option<String>) -> (r: String)
    ensures
        r@ == probe_request(text_view(auth)),
{
    let mut r = String::new();
    r.push_str(
        "GET http://connectivitycheck.gstatic.com/generate_204 HTTP/1.1\r\nHost: connectivitycheck.gstatic.com\r\n",
    );
    match auth {
        Some(a) => {
            r.push_str("Proxy-Authorization: ");
            r.push_str(a.as_str());
            r.push_str("\r\n");
        },
        None => {},
    }
    r.push_str("Connection: close\r\n\r\n");
    assert(r@ =~= probe_request(text_view(auth)));
    r
}

/// The probes of these offline entries; one whose URL is not valid is not probed.
pub open spec fn probes(offline: Seq<(usize, UpstreamEntry)>) -> Seq<ProbeView>
    decreases offline.len(),
{
    if offline.len() == 0 {
        Seq::empty()
    } else {
        let entry = offline.last().1;
        let rest = probes(offline.drop_last());
        match entry.config.address() {
            None => rest,
            Some((host, port)) => rest.push(
                ProbeView {
                    lease: Lease { id: entry.id },
                    host,
                    port,
                    request: probe_request(entry.config.auth_header()),
                },
            ),
        }
    }
}

/// The probes of one round: one for each offline upstream.
pub fn probe_offline(pool: &UpstreamPool) -> (r: Vec<Probe>)
    ensures
        r@.map_values(|p: Probe| p@) == probes(
            offline_among(pool.entries@, pool.entries@.len() as int),
        ),
{
    let offline = pool.offline_entries();
    let mut r: Vec<Probe> = Vec::new();
    let mut i: usize = 0;
    while i < offline.len()
        invariant
            i <= offline@.len(),
            r@.map_values(|p: Probe| p@) == probes(offline@.take(i as int)),
        decreases offline@.len() - i,
    {
        let ghost before = r@;
        assert(offline@.take(i + 1).drop_last() == offline@.take(i as int));
        let entry = &offline[i].1;
        match entry.host_port() {
            Ok((host, port)) => {
                let lease = Lease { id: entry.id };
                let request = build_probe_request(entry.config.proxy_auth_header());
                let probe = Probe { lease, host, port, request };
                r.push(probe);
                assert(r@.map_values(|p: Probe| p@) == before.map_values(|p: Probe| p@).push(
                    probe@,
                ));
            },
            Err(_) => {},
        }
        i += 1;
    }
    assert(offline@.take(offline@.len() as int) == offline@);
    r
}

/// The status of the answer to a probe that starts `buf`.
pub open spec fn probe_status_at(buf: Seq<u8>) -> Result<u16, HttpError> {
    match response_at(buf, MAX_HEADERS) {
        Some(head) => reply_status(head),
        None => Err(HttpError::Malformed),
    }
}

/// Reads the status of the answer to a probe.
pub fn probe_status(buf: &[u8]) -> (r: Result<u16, HttpError>)
    ensures
        r == probe_status_at(buf@),
{
    match parse_response(buf, MAX_HEADERS) {
        Ok(head) => interpret_status(&head),
        Err(_) => Err(HttpError::Malformed),
    }
}

/// The pool after a probe of the leased upstream that was answered with this
/// status, or not at all.
pub open spec fn probed(p: PoolView, lease: Lease, status: Option<u16>) -> PoolView {
    if status == Some(PROBE_STATUS) {
        p.on(lease, EntryEvent::CameOnline)
    } else {
        p
    }
}

/// Takes in the outcome of a probe: the upstream is online if the status is 204.
/// Returns whether the probe succeeded.
pub fn finish_probe(pool: &mut UpstreamPool, lease: Lease, status: Option<u16>) -> (r: bool)
    ensures
        final(pool)@ == probed(old(pool)@, lease, status),
        old(pool)@.wf() ==> final(pool)@.wf(),
        r == (status == Some(PROBE_STATUS)),
{
    match status {
        Some(code) => {
            if code == PROBE_STATUS {
                let _known = pool.apply(lease.id, EntryEvent::CameOnline);
                return true;
            }
        },
        None => {},
    }
    false
}

/// The offline entries of a round are just that, and none is missing.
proof fn lemma_offline_among(entries: Seq<UpstreamEntry>, n: int)
    requires
        0 <= n <= entries.len() <= usize::MAX,
    ensures
        forall|k: int|
            0 <= k < offline_among(entries, n).len() ==> {
                let (i, e) = #[trigger] offline_among(entries, n)[k];
                0 <= i < n && e == entries[i as int] && !e.online
            },
        forall|i: int|
            0 <= i < n && !(#[trigger] entries[i]).online ==> offline_among(entries, n).contains(
                (i as usize, entries[i]),
            ),
    decreases n,
{
    if n > 0 {
        lemma_offline_among(entries, n - 1);
        let rest = offline_among(entries, n - 1);
        let all = offline_among(entries, n);
        assert forall|i: int| 0 <= i < n && !(#[trigger] entries[i]).online implies all.contains(
            (i as usize, entries[i]),
        ) by {
            if i < n - 1 {
                let k = rest.index_of((i as usize, entries[i]));
                assert(rest.contains((i as usize, entries[i])));
                assert(all[k] == (i as usize, entries[i]));
            } else {
                assert(all[rest.len() as int] == (i as usize, entries[i]));
            }
        }
    }
}

proof fn lemma_probes(offline: Seq<(usize, UpstreamEntry)>)
    ensures
        forall|k: int|
            0 <= k < probes(offline).len() ==> exists|j: int|
                0 <= j < offline.len() && (#[trigger] offline[j]).1.id == (
                #[trigger] probes(offline)[k]).lease.id,
        forall|j: int|
            0 <= j < offline.len() && (#[trigger] offline[j]).1.config.address() is Some ==> exists|
                k: int,
            |
                0 <= k < probes(offline).len() && (#[trigger] probes(offline)[k]).lease.id
                    == offline[j].1.id,
    decreases offline.len(),
{
    if offline.len() > 0 {
        let front = offline.drop_last();
        let rest = probes(front);
        let all = probes(offline);
        lemma_probes(front);
        assert forall|k: int| 0 <= k < all.len() implies exists|j: int|
            0 <= j < offline.len() && (#[trigger] offline[j]).1.id == (
            #[trigger] all[k]).lease.id by {
            if k < rest.len() {
                assert(all[k] == rest[k]);
                let j = choose|j: int|
                    0 <= j < front.len() && (#[trigger] front[j]).1.id == rest[k].lease.id;
                assert(offline[j] == front[j]);
            } else {
                assert(offline[offline.len() - 1].1.id == all[k].lease.id);
            }
        }
        assert forall|j: int|
            0 <= j < offline.len() && (#[trigger] offline[j]).1.config.address() is Some implies exists|
            k: int,
        | 0 <= k < all.len() && (#[trigger] all[k]).lease.id == offline[j].1.id by {
            if j < front.len() {
                assert(front[j] == offline[j]);
                let k = choose|k: int|
                    0 <= k < rest.len() && (#[trigger] rest[k]).lease.id == front[j].1.id;
                assert(all[k] == rest[k]);
            } else {
                assert(all[rest.len() as int].lease.id == offline[j].1.id);
            }
        }
    }
}

/// A round of probes asks offline upstreams only, and every one of them whose URL
/// is valid.
pub proof fn law_probes_are_for_the_offline(p: PoolView)
    requires
        p.entries.len() <= usize::MAX,
    ensures
        ({
            let round = probes(offline_among(p.entries, p.entries.len() as int));
            &&& forall|k: int|
                0 <= k < round.len() ==> exists|i: int|
                    0 <= i < p.entries.len() && !p.entries[i].online && (#[trigger] p.entries[i]).id
                        == (#[trigger] round[k]).lease.id
            &&& forall|i: int|
                0 <= i < p.entries.len() && !(#[trigger] p.entries[i]).online
                    && p.entries[i].config.address() is Some ==> exists|k: int|
                    0 <= k < round.len() && (#[trigger] round[k]).lease.id == p.entries[i].id
        }),
{
    let n = p.entries.len() as int;
    let offline = offline_among(p.entries, n);
    let round = probes(offline);
    lemma_offline_among(p.entries, n);
    lemma_probes(offline);
    assert forall|k: int| 0 <= k < round.len() implies exists|i: int|
        0 <= i < p.entries.len() && !p.entries[i].online && (#[trigger] p.entries[i]).id == (
        #[trigger] round[k]).lease.id by {
        let j = choose|j: int|
            0 <= j < offline.len() && (#[trigger] offline[j]).1.id == round[k].lease.id;
        let i = offline[j].0 as int;
        assert(p.entries[i].id == round[k].lease.id);
    }
    assert forall|i: int|
        0 <= i < p.entries.len() && !(#[trigger] p.entries[i]).online
            && p.entries[i].config.address() is Some implies exists|k: int|
        0 <= k < round.len() && (#[trigger] round[k]).lease.id == p.entries[i].id by {
        assert(offline.contains((i as usize, p.entries[i])));
        let j = offline.index_of((i as usize, p.entries[i]));
        assert(offline[j].1.config.address() is Some);
        let k = choose|k: int|
            0 <= k < round.len() && (#[trigger] round[k]).lease.id == offline[j].1.id;
        assert(round[k].lease.id == p.entries[i].id);
    }
}

/// A probe that is answered with 204 puts its upstream online with no failures on
/// its account; any other outcome changes nothing. No other upstream is touched,
/// not even one with the same URL.
pub proof fn law_probe_decides(p: PoolView, lease: Lease, status: Option<u16>, i: int)
    requires
        p.wf(),
        0 <= i < p.entries.len(),
        p.entries[i].id == lease.id,
        !p.entries[i].online,
    ensures
        forall|j: int|
            0 <= j < p.entries.len() && j != i ==> #[trigger] probed(p, lease, status).entries[j]
                == p.entries[j],
        status == Some(204u16) ==> probed(p, lease, status).entries[i].online && probed(
            p,
            lease,
            status,
        ).entries[i].consec_failures == 0,
        status != Some(204u16) ==> probed(p, lease, status) == p,
{
    assert forall|j: int| 0 <= j < p.entries.len() && j != i implies #[trigger] probed(
        p,
        lease,
        status,
    ).entries[j] == p.entries[j] by {
        law_event_touches_one_entry(p, EntryEvent::CameOnline, i, j);
    }
}

/// The pool after these probes, each with the status that answered it.
pub open spec fn all_probed(p: PoolView, outcomes: Seq<(Lease, Option<u16>)>) -> PoolView
    decreases outcomes.len(),
{
    if outcomes.len() == 0 {
        p
    } else {
        let (lease, status) = outcomes.last();
        probed(all_probed(p, outcomes.drop_last()), lease, status)
    }
}

/// Whatever the outcomes of a round of probes, in whatever order they come: an
/// upstream that was online is left as it was, and one that was offline is online
/// afterwards just if a probe of its own was answered with 204. Probes change no
/// latency, no connection count and no configuration.
pub proof fn law_round_of_probes(p: PoolView, outcomes: Seq<(Lease, Option<u16>)>, j: int)
    requires
        0 <= j < p.entries.len(),
    ensures
        ({
            let e = p.entries[j];
            let q = all_probed(p, outcomes);
            &&& q.entries.len() == p.entries.len()
            &&& q.entries[j] == (if !e.online && outcomes.contains(
                (Lease { id: e.id }, Some(PROBE_STATUS)),
            ) {
                UpstreamEntry { online: true, consec_failures: 0, ..e }
            } else {
                e
            })
        }),
    decreases outcomes.len(),
{
    let own = (Lease { id: p.entries[j].id }, Some(PROBE_STATUS));
    if outcomes.len() > 0 {
        let front = outcomes.drop_last();
        law_round_of_probes(p, front, j);
        if front.contains(own) {
            let k = front.index_of(own);
            assert(outcomes[k] == own);
        }
        if outcomes.last() == own {
            assert(outcomes[outcomes.len() - 1] == own);
        } else if outcomes.contains(own) {
            let k = outcomes.index_of(own);
            assert(front[k] == own);
        }
    }
}

/// A probe asks for a page that answers 204, with the credentials for the upstream
/// where there are any, and for the connection to be closed; nothing else.
pub proof fn law_probe_request(auth: Option<Seq<char>>)
    ensures
        ({
            let t = probe_request(auth);
            let start = "GET http://connectivitycheck.gstatic.com/generate_204 HTTP/1.1\r\nHost: connectivitycheck.gstatic.com\r\n"@;
            let own = match auth {
                Some(a) => "Proxy-Authorization: "@ + a + seq!['\r', '\n'],
                None => Seq::empty(),
            };
            let n = start.len() as int;
            &&& t.len() >= n + own.len()
            &&& t.take(n) == start
            &&& t.subrange(n, n + own.len()) == own
            &&& t.skip(n + own.len()) == "Connection: close\r\n\r\n"@
        }),
{
    reveal_strlit("\r\n");
    let t = probe_request(auth);
    let start = "GET http://connectivitycheck.gstatic.com/generate_204 HTTP/1.1\r\nHost: connectivitycheck.gstatic.com\r\n"@;
    let own = match auth {
        Some(a) => "Proxy-Authorization: "@ + a + seq!['\r', '\n'],
        None => Seq::empty(),
    };
    let n = start.len() as int;
    assert("\r\n"@ =~= seq!['\r', '\n']);
    assert(t.take(n) =~= start);
    assert(t.subrange(n, n + own.len()) =~= own);
    assert(t.skip(n + own.len()) =~= "Connection: close\r\n\r\n"@);
}

/// Whether `probe` is what an entry is probed with: it goes to the address that the
/// URL names, with the credentials for that upstream.
pub open spec fn is_probe_of(probe: ProbeView, e: UpstreamEntry) -> bool {
    &&& probe.lease.id == e.id
    &&& e.config.address() == Some((probe.host, probe.port))
    &&& probe.request == probe_request(e.config.auth_header())
}

proof fn lemma_probes_in_order(offline: Seq<(usize, UpstreamEntry)>, j: int) -> (k: int)
    requires
        0 <= j < offline.len(),
        offline[j].1.config.address() is Some,
    ensures
        0 <= k < probes(offline).len(),
        is_probe_of(probes(offline)[k], offline[j].1),
    decreases offline.len(),
{
    let front = offline.drop_last();
    if j == front.len() {
        probes(front).len() as int
    } else {
        let k = lemma_probes_in_order(front, j);
        assert(probes(offline)[k] == probes(front)[k]);
        k
    }
}

proof fn lemma_probe_source(offline: Seq<(usize, UpstreamEntry)>, k: int) -> (j: int)
    requires
        0 <= k < probes(offline).len(),
    ensures
        0 <= j < offline.len(),
        is_probe_of(probes(offline)[k], offline[j].1),
    decreases offline.len(),
{
    let front = offline.drop_last();
    if k < probes(front).len() {
        assert(probes(offline)[k] == probes(front)[k]);
        lemma_probe_source(front, k)
    } else {
        offline.len() - 1
    }
}

proof fn lemma_probe_count(entries: Seq<UpstreamEntry>, n: int)
    requires
        0 <= n <= entries.len(),
    ensures
        probes(offline_among(entries, n)).len() == entries.take(n).filter(
            |e: UpstreamEntry| !e.online && e.config.address() is Some,
        ).len(),
    decreases n,
{
    let due = |e: UpstreamEntry| !e.online && e.config.address() is Some;
    reveal(Seq::filter);
    if n > 0 {
        lemma_probe_count(entries, n - 1);
        assert(entries.take(n).drop_last() == entries.take(n - 1));
        assert(entries.take(n).last() == entries[n - 1]);
        let rest = offline_among(entries, n - 1);
        if !entries[n - 1].online {
            let all = offline_among(entries, n);
            assert(all.drop_last() == rest);
        }
    }
}

/// A round probes every upstream that is offline and whose URL names a host, each at
/// its own address and with its own credentials, and makes no other probe: there are
/// as many probes as such upstreams.
pub proof fn law_round_of_probes_is_complete(p: PoolView, i: int, k: int)
    requires
        p.entries.len() <= usize::MAX,
    ensures
        ({
            let round = probes(offline_among(p.entries, p.entries.len() as int));
            &&& round.len() == p.entries.filter(
                |e: UpstreamEntry| !e.online && e.config.address() is Some,
            ).len()
            &&& 0 <= k < round.len() ==> exists|j: int|
                0 <= j < p.entries.len() && !p.entries[j].online && #[trigger] is_probe_of(
                    round[k],
                    p.entries[j],
                )
            &&& 0 <= i < p.entries.len() && !p.entries[i].online && p.entries[i].config.address() is Some
                ==> exists|m: int|
                0 <= m < round.len() && #[trigger] is_probe_of(round[m], p.entries[i])
        }),
{
    let n = p.entries.len() as int;
    let offline = offline_among(p.entries, n);
    let round = probes(offline);
    lemma_offline_among(p.entries, n);
    lemma_probe_count(p.entries, n);
    assert(p.entries.take(n) == p.entries);
    if 0 <= k < round.len() {
        let j = lemma_probe_source(offline, k);
        let at = offline[j].0 as int;
        assert(offline[j].1 == p.entries[at]);
        assert(is_probe_of(round[k], p.entries[at]));
    }
    if 0 <= i < p.entries.len() && !p.entries[i].online && p.entries[i].config.address() is Some {
        assert(offline.contains((i as usize, p.entries[i])));
        let j = offline.index_of((i as usize, p.entries[i]));
        let m = lemma_probes_in_order(offline, j);
        assert(is_probe_of(round[m], p.entries[i]));
    }
}

/// The status of an answer is the code in its head, which is read with room for 96
/// header fields.
pub proof fn law_probe_status(buf: Seq<u8>, status: u16)
    ensures
        response_at(buf, 96) is None ==> probe_status_at(buf) == Err::<u16, HttpError>(
            HttpError::Malformed,
        ),
        response_at(buf, 96) matches Some(head) ==> (head.code == Some(status)
            ==> probe_status_at(buf) == Ok::<u16, HttpError>(status)) && (head.code is None
            ==> probe_status_at(buf) == Err::<u16, HttpError>(HttpError::MissingStatus)),
{
}

/// Of the running pool: a probe succeeds just with status 204, and then its upstream
/// is online.
pub proof fn law_finished_probe(lease: Lease, status: Option<u16>, r: bool)
    ensures
        forall|p: &mut UpstreamPool| #[trigger]
            call_ensures(finish_probe, (p, lease, status), r) ==> {
                &&& r <==> status == Some(204u16)
                &&& !r ==> (*final(p))@ == (*p)@
                &&& r ==> forall|i: int|
                    0 <= i < (*p).entries@.len() && (#[trigger] (*p).entries@[i]).id == lease.id
                        ==> (*final(p)).entries@[i].online
                &&& (*final(p)).entries@.len() == (*p).entries@.len()
                &&& forall|i: int|
                    0 <= i < (*p).entries@.len() && (#[trigger] (*p).entries@[i]).id != lease.id
                        ==> (*final(p)).entries@[i] == (*p).entries@[i]
            },
{
}

/// Of the running code: a round is the probes of the offline upstreams, and a probe is
/// read and written as described here.
pub proof fn law_probes_run(
    pool: UpstreamPool,
    round: Vec<Probe>,
    buf: &[u8],
    status: Result<u16, HttpError>,
    auth: Option<String>,
    request: String,
)
    ensures
        call_ensures(probe_offline, (&pool,), round) ==> ({
            let due = probes(offline_among(pool.entries@, pool.entries@.len() as int));
            &&& round@.len() == due.len()
            &&& forall|k: int|
                0 <= k < round@.len() ==> {
                    &&& (#[trigger] round@[k]).lease == due[k].lease
                    &&& round@[k].host@ == due[k].host && round@[k].port == due[k].port
                    &&& round@[k].request@ == due[k].request
                }
        }),
        call_ensures(probe_status, (buf,), status) ==> status == probe_status_at(buf@),
        call_ensures(build_probe_request, (auth,), request) ==> request@ == probe_request(
            match auth {
                Some(a) => Some(a@),
                None => None,
            },
        ),
{
    if call_ensures(probe_offline, (&pool,), round) {
        let due = probes(offline_among(pool.entries@, pool.entries@.len() as int));
        let views = round@.map_values(|p: Probe| p@);
        assert(views == due);
        assert forall|k: int| 0 <= k < round@.len() implies {
            &&& (#[trigger] round@[k]).lease == due[k].lease
            &&& round@[k].host@ == due[k].host && round@[k].port == due[k].port
            &&& round@[k].request@ == due[k].request
        } by {
            assert(views[k] == round@[k]@);
        }
    }
}

} // verus!
