//! Global metrics and the documents of the admin server.

use crate::boundary::clock_now;
use crate::json::{
    json_text, law_json_reads_back, read_json, Json, ListWriter, Member, ObjectWriter,
};
use crate::session::Outcome;
use crate::text::{
    bytes_occur_at, decimal, escape_label, first_line, first_line_end, label_escaped, occurs, occurs_at,
    push_decimal, push_signed_decimal, signed_decimal,
};
use crate::upstream::{UpstreamPool, UpstreamStatus};
use std::time::{Duration, Instant};
use vstd::prelude::*;
use vstd::slice::slice_subrange;
use vstd::utf8::encode_utf8;

verus! {

/// Global metrics counters shared across the application. Each counter wraps
/// around at the end of its range.
pub struct Metrics {
    /// Total number of requests received
    pub requests_total: u64,
    /// Total number of successful requests
    pub requests_success: u64,
    /// Total number of failed requests
    pub requests_failed: u64,
    /// Total number of CONNECT requests
    pub connect_requests: u64,
    /// Total number of HTTP (non-CONNECT) requests
    pub http_requests: u64,
    /// Total number of direct connections (bypassing upstream)
    pub direct_connections: u64,
    /// Total bytes received from clients
    pub bytes_received: u64,
    /// Total bytes sent to clients
    pub bytes_sent: u64,
    /// Current active connections
    pub active_connections: u64,
    /// Total health check probes
    pub health_checks_total: u64,
    /// Successful health check probes
    pub health_checks_success: u64,
    /// Hot reload count
    pub hot_reloads: u64,
    /// Start time for uptime calculation
    pub start_time: Instant,
}

/// The counters without the start time.
#[derive(Debug, Clone, Copy, PartialEq, Eq, Structural)]
pub struct Counters {
    pub requests_total: u64,
    pub requests_success: u64,
    pub requests_failed: u64,
    pub connect_requests: u64,
    pub http_requests: u64,
    pub direct_connections: u64,
    pub bytes_received: u64,
    pub bytes_sent: u64,
    pub active_connections: u64,
    pub health_checks_total: u64,
    pub health_checks_success: u64,
    pub hot_reloads: u64,
}

impl Counters {
    pub open spec fn zero() -> Counters {
        Counters {
            requests_total: 0,
            requests_success: 0,
            requests_failed: 0,
            connect_requests: 0,
            http_requests: 0,
            direct_connections: 0,
            bytes_received: 0,
            bytes_sent: 0,
            active_connections: 0,
            health_checks_total: 0,
            health_checks_success: 0,
            hot_reloads: 0,
        }
    }
}

impl Metrics {
    pub open spec fn counters(self) -> Counters {
        Counters {
            requests_total: self.requests_total,
            requests_success: self.requests_success,
            requests_failed: self.requests_failed,
            connect_requests: self.connect_requests,
            http_requests: self.http_requests,
            direct_connections: self.direct_connections,
            bytes_received: self.bytes_received,
            bytes_sent: self.bytes_sent,
            active_connections: self.active_connections,
            health_checks_total: self.health_checks_total,
            health_checks_success: self.health_checks_success,
            hot_reloads: self.hot_reloads,
        }
    }
}

/// Whether `secs` is an uptime that the clock can show for this start time: the
/// whole seconds of what `Instant::elapsed` gives for it.
pub open spec fn is_uptime(start_time: Instant, secs: u64) -> bool {
    exists|since: Duration|
        call_ensures(Instant::elapsed, (&start_time,), since) && #[trigger] call_ensures(
            Duration::as_secs,
            (&since,),
            secs,
        )
}

impl Metrics {
    /// All counters at zero, started now.
    pub fn new() -> (r: Self)
        ensures
            r.counters() == Counters::zero(),
    {
        Metrics {
            requests_total: 0,
            requests_success: 0,
            requests_failed: 0,
            connect_requests: 0,
            http_requests: 0,
            direct_connections: 0,
            bytes_received: 0,
            bytes_sent: 0,
            active_connections: 0,
            health_checks_total: 0,
            health_checks_success: 0,
            hot_reloads: 0,
            start_time: clock_now(),
        }
    }

    /// The counters as they are.
    pub fn snapshot(&self) -> (r: Counters)
        ensures
            r == self.counters(),
    {
        Counters {
            requests_total: self.requests_total,
            requests_success: self.requests_success,
            requests_failed: self.requests_failed,
            connect_requests: self.connect_requests,
            http_requests: self.http_requests,
            direct_connections: self.direct_connections,
            bytes_received: self.bytes_received,
            bytes_sent: self.bytes_sent,
            active_connections: self.active_connections,
            health_checks_total: self.health_checks_total,
            health_checks_success: self.health_checks_success,
            hot_reloads: self.hot_reloads,
        }
    }

    /// Whole seconds since the start, by the machine's clock.
    pub fn uptime_secs(&self) -> (r: u64)
        ensures
            is_uptime(self.start_time, r),
    {
        self.start_time.elapsed().as_secs()
    }

    pub fn inc_requests_total(&mut self)
        ensures
            *final(self) == (Metrics { requests_total: old(self).requests_total.wrapping_add(1), ..*old(self) }),
    {
        self.requests_total = self.requests_total.wrapping_add(1);
    }

    pub fn inc_requests_success(&mut self)
        ensures
            *final(self) == (Metrics { requests_success: old(self).requests_success.wrapping_add(1), ..*old(self) }),
    {
        self.requests_success = self.requests_success.wrapping_add(1);
    }

    pub fn inc_requests_failed(&mut self)
        ensures
            *final(self) == (Metrics { requests_failed: old(self).requests_failed.wrapping_add(1), ..*old(self) }),
    {
        self.requests_failed = self.requests_failed.wrapping_add(1);
    }

    pub fn inc_connect(&mut self)
        ensures
            *final(self) == (Metrics { connect_requests: old(self).connect_requests.wrapping_add(1), ..*old(self) }),
    {
        self.connect_requests = self.connect_requests.wrapping_add(1);
    }

    pub fn inc_http(&mut self)
        ensures
            *final(self) == (Metrics { http_requests: old(self).http_requests.wrapping_add(1), ..*old(self) }),
    {
        self.http_requests = self.http_requests.wrapping_add(1);
    }

    pub fn inc_direct(&mut self)
        ensures
            *final(self) == (Metrics { direct_connections: old(self).direct_connections.wrapping_add(1), ..*old(self) }),
    {
        self.direct_connections = self.direct_connections.wrapping_add(1);
    }

    pub fn add_bytes_received(&mut self, n: u64)
        ensures
            *final(self) == (Metrics { bytes_received: old(self).bytes_received.wrapping_add(n), ..*old(self) }),
    {
        self.bytes_received = self.bytes_received.wrapping_add(n);
    }

    pub fn add_bytes_sent(&mut self, n: u64)
        ensures
            *final(self) == (Metrics { bytes_sent: old(self).bytes_sent.wrapping_add(n), ..*old(self) }),
    {
        self.bytes_sent = self.bytes_sent.wrapping_add(n);
    }

    pub fn inc_active(&mut self)
        ensures
            *final(self) == (Metrics { active_connections: old(self).active_connections.wrapping_add(1), ..*old(self) }),
    {
        self.active_connections = self.active_connections.wrapping_add(1);
    }

    pub fn dec_active(&mut self)
        ensures
            *final(self) == (Metrics { active_connections: old(self).active_connections.wrapping_sub(1), ..*old(self) }),
    {
        self.active_connections = self.active_connections.wrapping_sub(1);
    }

    pub fn inc_health_check(&mut self)
        ensures
            *final(self) == (Metrics { health_checks_total: old(self).health_checks_total.wrapping_add(1), ..*old(self) }),
    {
        self.health_checks_total = self.health_checks_total.wrapping_add(1);
    }

    pub fn inc_health_check_success(&mut self)
        ensures
            *final(self) == (Metrics { health_checks_success: old(self).health_checks_success.wrapping_add(1), ..*old(self) }),
    {
        self.health_checks_success = self.health_checks_success.wrapping_add(1);
    }

    pub fn inc_hot_reload(&mut self)
        ensures
            *final(self) == (Metrics { hot_reloads: old(self).hot_reloads.wrapping_add(1), ..*old(self) }),
    {
        self.hot_reloads = self.hot_reloads.wrapping_add(1);
    }
}

/// The ways in which a client can ask for something.
#[derive(Debug, Clone, Copy, PartialEq, Eq, Structural)]
pub enum RequestKind {
    Connect,
    Http,
    /// A head that could not be understood.
    Unknown,
}

impl Metrics {
    /// Counts a request that came in.
    pub fn begin_request(&mut self, kind: RequestKind)
        ensures
            *final(self) == (Metrics {
                requests_total: old(self).requests_total.wrapping_add(1),
                connect_requests: if kind == RequestKind::Connect {
                    old(self).connect_requests.wrapping_add(1)
                } else {
                    old(self).connect_requests
                },
                http_requests: if kind == RequestKind::Http {
                    old(self).http_requests.wrapping_add(1)
                } else {
                    old(self).http_requests
                },
                ..*old(self)
            }),
    {
        self.inc_requests_total();
        match kind {
            RequestKind::Connect => self.inc_connect(),
            RequestKind::Http => self.inc_http(),
            RequestKind::Unknown => {},
        }
    }

    /// Counts a request that is over.
    pub fn finish_request(&mut self, outcome: Outcome)
        ensures
            *final(self) == (match outcome {
                Outcome::Success => Metrics {
                    requests_success: old(self).requests_success.wrapping_add(1),
                    ..*old(self)
                },
                Outcome::Failure => Metrics {
                    requests_failed: old(self).requests_failed.wrapping_add(1),
                    ..*old(self)
                },
            }),
    {
        match outcome {
            Outcome::Success => self.inc_requests_success(),
            Outcome::Failure => self.inc_requests_failed(),
        }
    }
}

impl Default for Metrics {
    fn default() -> (r: Self)
        ensures
            r.counters() == Counters::zero(),
    {
        Metrics::new()
    }
}

/// The description of a metric.
pub open spec fn metric_header(name: Seq<char>, help: Seq<char>, kind: Seq<char>) -> Seq<char> {
    "# HELP http_proxy_lb_"@ + name + " "@ + help + "\n# TYPE http_proxy_lb_"@ + name + " "@ + kind
        + "\n"@
}

/// A metric with its description and its value.
pub open spec fn metric_text(
    name: Seq<char>,
    help: Seq<char>,
    kind: Seq<char>,
    value: u64,
) -> Seq<char> {
    metric_header(name, help, kind) + "http_proxy_lb_"@ + name + " "@ + decimal(value as nat)
        + "\n"@
}

/// The value of a metric for one upstream.
pub open spec fn upstream_sample(name: Seq<char>, url: Seq<char>, value: Seq<char>) -> Seq<char> {
    "http_proxy_lb_upstream_"@ + name + "{url=\""@ + label_escaped(url) + "\"} "@ + value + "\n"@
}

/// The metrics of one upstream.
pub open spec fn upstream_samples(s: UpstreamStatus) -> Seq<char> {
    upstream_sample(
        "online"@,
        s.url@,
        if s.online {
            "1"@
        } else {
            "0"@
        },
    ) + upstream_sample("active_connections"@, s.url@, signed_decimal(s.active_conns as int))
        + upstream_sample("latency_ms"@, s.url@, decimal(s.latency_ema_ms as nat))
        + upstream_sample("consecutive_failures"@, s.url@, decimal(s.consec_failures as nat))
}

/// The metrics of all upstreams, in order.
pub open spec fn all_samples(upstreams: Seq<UpstreamStatus>) -> Seq<char>
    decreases upstreams.len(),
{
    if upstreams.len() == 0 {
        Seq::empty()
    } else {
        all_samples(upstreams.drop_last()) + upstream_samples(upstreams.last())
    }
}

/// The metrics document, in the text format of Prometheus.
pub open spec fn prometheus_text(c: Counters, uptime: u64, upstreams: Seq<UpstreamStatus>) -> Seq<
    char,
> {
    Seq::<char>::empty() + metric_text(
        "uptime_seconds"@,
        "Time since proxy started"@,
        "gauge"@,
        uptime,
    ) + metric_text(
        "requests_total"@,
        "Total number of requests received"@,
        "counter"@,
        c.requests_total,
    ) + metric_text(
        "requests_success"@,
        "Total number of successful requests"@,
        "counter"@,
        c.requests_success,
    ) + metric_text(
        "requests_failed"@,
        "Total number of failed requests"@,
        "counter"@,
        c.requests_failed,
    ) + metric_text(
        "connect_requests"@,
        "Total number of CONNECT requests"@,
        "counter"@,
        c.connect_requests,
    ) + metric_text(
        "http_requests"@,
        "Total number of HTTP requests"@,
        "counter"@,
        c.http_requests,
    ) + metric_text(
        "direct_connections"@,
        "Total number of direct (non-proxy) connections"@,
        "counter"@,
        c.direct_connections,
    ) + metric_text(
        "bytes_received"@,
        "Total bytes received from clients"@,
        "counter"@,
        c.bytes_received,
    ) + metric_text(
        "bytes_sent"@,
        "Total bytes sent to clients"@,
        "counter"@,
        c.bytes_sent,
    ) + metric_text(
        "active_connections"@,
        "Current number of active connections"@,
        "gauge"@,
        c.active_connections,
    ) + metric_text(
        "health_checks_total"@,
        "Total health check probes"@,
        "counter"@,
        c.health_checks_total,
    ) + metric_text(
        "health_checks_success"@,
        "Successful health check probes"@,
        "counter"@,
        c.health_checks_success,
    ) + metric_text(
        "hot_reloads"@,
        "Total config hot reloads"@,
        "counter"@,
        c.hot_reloads,
    ) + metric_header(
        "upstream_online"@,
        "Whether upstream is online (1) or offline (0)"@,
        "gauge"@,
    ) + metric_header(
        "upstream_active_connections"@,
        "Active connections per upstream"@,
        "gauge"@,
    ) + metric_header(
        "upstream_latency_ms"@,
        "Latency EMA in milliseconds per upstream"@,
        "gauge"@,
    ) + metric_header(
        "upstream_consecutive_failures"@,
        "Consecutive failures per upstream"@,
        "gauge"@,
    ) + all_samples(upstreams)
}

fn push_metric_header(out: &mut String, name: &str, help: &str, kind: &str)
    ensures
        final(out)@ == old(out)@ + metric_header(name@, help@, kind@),
{
    out.push_str("# HELP http_proxy_lb_");
    out.push_str(name);
    out.push_str(" ");
    out.push_str(help);
    out.push_str("\n# TYPE http_proxy_lb_");
    out.push_str(name);
    out.push_str(" ");
    out.push_str(kind);
    out.push_str("\n");
    assert(out@ == old(out)@ + metric_header(name@, help@, kind@));
}

fn push_metric(out: &mut String, name: &str, help: &str, kind: &str, value: u64)
    ensures
        final(out)@ == old(out)@ + metric_text(name@, help@, kind@, value),
{
    push_metric_header(out, name, help, kind);
    out.push_str("http_proxy_lb_");
    out.push_str(name);
    out.push_str(" ");
    push_decimal(out, value);
    out.push_str("\n");
    assert(out@ == old(out)@ + metric_text(name@, help@, kind@, value));
}

fn push_sample_start(out: &mut String, name: &str, url: &str)
    ensures
        final(out)@ == old(out)@ + ("http_proxy_lb_upstream_"@ + name@ + "{url=\""@
            + label_escaped(url@) + "\"} "@),
{
    out.push_str("http_proxy_lb_upstream_");
    out.push_str(name);
    out.push_str("{url=\"");
    out.push_str(escape_label(url).as_str());
    out.push_str("\"} ");
    assert(out@ == old(out)@ + ("http_proxy_lb_upstream_"@ + name@ + "{url=\""@ + label_escaped(
        url@,
    ) + "\"} "@));
}

fn push_upstream_samples(out: &mut String, s: &UpstreamStatus)
    ensures
        final(out)@ == old(out)@ + upstream_samples(*s),
{
    let ghost start = out@;
    push_sample_start(out, "online", s.url.as_str());
    if s.online {
        out.push_str("1");
    } else {
        out.push_str("0");
    }
    out.push_str("\n");
    let ghost online = upstream_sample(
        "online"@,
        s.url@,
        if s.online {
            "1"@
        } else {
            "0"@
        },
    );
    assert(out@ == start + online);
    push_sample_start(out, "active_connections", s.url.as_str());
    push_signed_decimal(out, s.active_conns);
    out.push_str("\n");
    let ghost active = upstream_sample(
        "active_connections"@,
        s.url@,
        signed_decimal(s.active_conns as int),
    );
    assert(out@ == start + online + active);
    push_sample_start(out, "latency_ms", s.url.as_str());
    push_decimal(out, s.latency_ema_ms);
    out.push_str("\n");
    let ghost latency = upstream_sample("latency_ms"@, s.url@, decimal(s.latency_ema_ms as nat));
    assert(out@ == start + online + active + latency);
    push_sample_start(out, "consecutive_failures", s.url.as_str());
    push_decimal(out, s.consec_failures as u64);
    out.push_str("\n");
    assert(out@ == start + upstream_samples(*s));
}

fn push_all_samples(out: &mut String, upstreams: &[UpstreamStatus])
    ensures
        final(out)@ == old(out)@ + all_samples(upstreams@),
{
    let ghost start = out@;
    let mut i: usize = 0;
    assert(all_samples(upstreams@.take(0)) == Seq::<char>::empty());
    while i < upstreams.len()
        invariant
            i <= upstreams@.len(),
            out@ == start + all_samples(upstreams@.take(i as int)),
        decreases upstreams@.len() - i,
    {
        assert(upstreams@.take(i + 1).drop_last() == upstreams@.take(i as int));
        push_upstream_samples(out, &upstreams[i]);
        assert(out@ == start + all_samples(upstreams@.take(i + 1)));
        i += 1;
    }
    assert(upstreams@.take(upstreams@.len() as int) == upstreams@);
}

/// Writes the metrics document.
pub fn render_prometheus(c: &Counters, uptime: u64, upstreams: &[UpstreamStatus]) -> (r: String)
    ensures
        r@ == prometheus_text(*c, uptime, upstreams@),
{
    let mut out = String::new();
    push_metric(&mut out, "uptime_seconds", "Time since proxy started", "gauge", uptime);
    push_metric(
        &mut out,
        "requests_total",
        "Total number of requests received",
        "counter",
        c.requests_total,
    );
    push_metric(
        &mut out,
        "requests_success",
        "Total number of successful requests",
        "counter",
        c.requests_success,
    );
    push_metric(
        &mut out,
        "requests_failed",
        "Total number of failed requests",
        "counter",
        c.requests_failed,
    );
    push_metric(
        &mut out,
        "connect_requests",
        "Total number of CONNECT requests",
        "counter",
        c.connect_requests,
    );
    push_metric(
        &mut out,
        "http_requests",
        "Total number of HTTP requests",
        "counter",
        c.http_requests,
    );
    push_metric(
        &mut out,
        "direct_connections",
        "Total number of direct (non-proxy) connections",
        "counter",
        c.direct_connections,
    );
    push_metric(
        &mut out,
        "bytes_received",
        "Total bytes received from clients",
        "counter",
        c.bytes_received,
    );
    push_metric(
        &mut out,
        "bytes_sent",
        "Total bytes sent to clients",
        "counter",
        c.bytes_sent,
    );
    push_metric(
        &mut out,
        "active_connections",
        "Current number of active connections",
        "gauge",
        c.active_connections,
    );
    push_metric(
        &mut out,
        "health_checks_total",
        "Total health check probes",
        "counter",
        c.health_checks_total,
    );
    push_metric(
        &mut out,
        "health_checks_success",
        "Successful health check probes",
        "counter",
        c.health_checks_success,
    );
    push_metric(
        &mut out,
        "hot_reloads",
        "Total config hot reloads",
        "counter",
        c.hot_reloads,
    );
    push_metric_header(
        &mut out,
        "upstream_online",
        "Whether upstream is online (1) or offline (0)",
        "gauge",
    );
    push_metric_header(
        &mut out,
        "upstream_active_connections",
        "Active connections per upstream",
        "gauge",
    );
    push_metric_header(
        &mut out,
        "upstream_latency_ms",
        "Latency EMA in milliseconds per upstream",
        "gauge",
    );
    push_metric_header(
        &mut out,
        "upstream_consecutive_failures",
        "Consecutive failures per upstream",
        "gauge",
    );
    push_all_samples(&mut out, upstreams);
    out
}

/// The metrics document for the pool as it is. Only the uptime depends on when
/// it is made.
pub fn build_prometheus_metrics(pool: &UpstreamPool, metrics: &Metrics) -> (r: String)
    ensures
        exists|uptime: u64|
            is_uptime(metrics.start_time, uptime) && r@ == #[trigger] prometheus_text(
                metrics.counters(),
                uptime,
                pool@.statuses(),
            ),
{
    let counters = metrics.snapshot();
    let uptime: u64 = metrics.uptime_secs();
    let upstreams = pool.all_status();
    render_prometheus(&counters, uptime, upstreams.as_slice())
}

pub open spec fn number_member(key: Seq<char>, value: int) -> Member {
    Member { key, value: Json::Number(value) }
}

/// One upstream in the status document.
pub open spec fn upstream_json(s: UpstreamStatus) -> Json {
    Json::Object(
        seq![
            Member { key: "url"@, value: Json::Text(s.url@) },
            Member { key: "online"@, value: Json::Bool(s.online) },
            number_member("active_connections"@, s.active_conns as int),
            number_member("latency_ms"@, s.latency_ema_ms as int),
            number_member("consecutive_failures"@, s.consec_failures as int),
            number_member("weight"@, s.weight as int),
            number_member("priority"@, s.priority as int),
        ],
    )
}

/// What the status document says.
pub open spec fn status_value(c: Counters, uptime: u64, upstreams: Seq<UpstreamStatus>) -> Json {
    Json::Object(
        seq![
            number_member("uptime_seconds"@, uptime as int),
            number_member("requests_total"@, c.requests_total as int),
            number_member("requests_success"@, c.requests_success as int),
            number_member("requests_failed"@, c.requests_failed as int),
            number_member("connect_requests"@, c.connect_requests as int),
            number_member("http_requests"@, c.http_requests as int),
            number_member("direct_connections"@, c.direct_connections as int),
            number_member("bytes_received"@, c.bytes_received as int),
            number_member("bytes_sent"@, c.bytes_sent as int),
            number_member("active_connections"@, c.active_connections as int),
            number_member("health_checks_total"@, c.health_checks_total as int),
            number_member("health_checks_success"@, c.health_checks_success as int),
            number_member("hot_reloads"@, c.hot_reloads as int),
            Member {
                key: "upstreams"@,
                value: Json::List(
                    Seq::new(upstreams.len(), |i: int| upstream_json(upstreams[i])),
                ),
            },
        ],
    )
}

/// The status document, in JSON.
pub open spec fn status_json(c: Counters, uptime: u64, upstreams: Seq<UpstreamStatus>) -> Seq<
    char,
> {
    json_text(status_value(c, uptime, upstreams))
}

fn write_upstream(s: &UpstreamStatus) -> (r: ObjectWriter)
    ensures
        r.wf(),
        Json::Object(r.members()) == upstream_json(*s),
{
    let mut item = ObjectWriter::new();
    item.text("url", s.url.as_str());
    item.boolean("online", s.online);
    item.signed("active_connections", s.active_conns);
    item.number("latency_ms", s.latency_ema_ms);
    item.number("consecutive_failures", s.consec_failures as u64);
    item.number("weight", s.weight as u64);
    item.number("priority", s.priority as u64);
    assert(item.members() == upstream_json(*s)->Object_0);
    item
}

fn write_upstreams(upstreams: &[UpstreamStatus]) -> (r: ListWriter)
    ensures
        r.wf(),
        r.items() == Seq::new(upstreams@.len(), |i: int| upstream_json(upstreams@[i])),
{
    let ghost all = Seq::new(upstreams@.len(), |i: int| upstream_json(upstreams@[i]));
    let mut list = ListWriter::new();
    let mut i: usize = 0;
    while i < upstreams.len()
        invariant
            i <= upstreams@.len(),
            list.wf(),
            all == Seq::new(upstreams@.len(), |i: int| upstream_json(upstreams@[i])),
            list.items() == all.take(i as int),
        decreases upstreams@.len() - i,
    {
        list.object(write_upstream(&upstreams[i]));
        assert(all.take(i + 1) == all.take(i as int).push(all[i as int]));
        i += 1;
    }
    assert(all.take(i as int) == all);
    list
}

/// Writes the status document.
pub fn render_status(c: &Counters, uptime: u64, upstreams: &[UpstreamStatus]) -> (r: String)
    ensures
        r@ == status_json(*c, uptime, upstreams@),
{
    let mut doc = ObjectWriter::new();
    doc.number("uptime_seconds", uptime);
    doc.number("requests_total", c.requests_total);
    doc.number("requests_success", c.requests_success);
    doc.number("requests_failed", c.requests_failed);
    doc.number("connect_requests", c.connect_requests);
    doc.number("http_requests", c.http_requests);
    doc.number("direct_connections", c.direct_connections);
    doc.number("bytes_received", c.bytes_received);
    doc.number("bytes_sent", c.bytes_sent);
    doc.number("active_connections", c.active_connections);
    doc.number("health_checks_total", c.health_checks_total);
    doc.number("health_checks_success", c.health_checks_success);
    doc.number("hot_reloads", c.hot_reloads);
    doc.list("upstreams", write_upstreams(upstreams));
    assert(doc.members() == status_value(*c, uptime, upstreams@)->Object_0);
    doc.finish()
}

/// The status document for the pool as it is. Only the uptime depends on when it
/// is made.
pub fn build_status_json(pool: &UpstreamPool, metrics: &Metrics) -> (r: String)
    ensures
        exists|uptime: u64|
            is_uptime(metrics.start_time, uptime) && r@ == #[trigger] status_json(
                metrics.counters(),
                uptime,
                pool@.statuses(),
            ),
{
    let counters = metrics.snapshot();
    let uptime: u64 = metrics.uptime_secs();
    let upstreams = pool.all_status();
    render_status(&counters, uptime, upstreams.as_slice())
}

/// What the admin server is asked for.
#[derive(Debug, Clone, Copy, PartialEq, Eq, Structural)]
pub enum AdminPage {
    Metrics,
    Status,
    Health,
    NotFound,
}

/// What a request with this first line asks for.
pub open spec fn admin_page(line: Seq<u8>) -> AdminPage {
    if occurs_at(line, encode_utf8("GET /metrics"@), 0) {
        AdminPage::Metrics
    } else if occurs_at(line, encode_utf8("GET /status"@), 0) {
        AdminPage::Status
    } else if occurs_at(line, encode_utf8("GET /health"@), 0) {
        AdminPage::Health
    } else {
        AdminPage::NotFound
    }
}

/// Decides what the request in `buf` asks for.
pub fn find_admin_page(buf: &[u8]) -> (r: AdminPage)
    ensures
        r == admin_page(first_line(buf@)),
{
    let end = first_line_end(buf);
    let line = slice_subrange(buf, 0, end);
    assert(line@ == first_line(buf@));
    if bytes_occur_at(line, "GET /metrics".as_bytes(), 0) {
        AdminPage::Metrics
    } else if bytes_occur_at(line, "GET /status".as_bytes(), 0) {
        AdminPage::Status
    } else if bytes_occur_at(line, "GET /health".as_bytes(), 0) {
        AdminPage::Health
    } else {
        AdminPage::NotFound
    }
}

/// A response with a body; the announced length is that of the body in bytes.
pub open spec fn document(status: Seq<char>, content_type: Seq<char>, body: Seq<char>) -> Seq<
    char,
> {
    "HTTP/1.1 "@ + status + "\r\nContent-Type: "@ + content_type + "\r\nContent-Length: "@ + decimal(
        encode_utf8(body).len(),
    ) + "\r\nConnection: close\r\n\r\n"@ + body
}

fn build_document(status: &str, content_type: &str, body: &str) -> (r: String)
    ensures
        r@ == document(status@, content_type@, body@),
{
    let mut r = String::new();
    r.push_str("HTTP/1.1 ");
    r.push_str(status);
    r.push_str("\r\nContent-Type: ");
    r.push_str(content_type);
    r.push_str("\r\nContent-Length: ");
    push_decimal(&mut r, body.as_bytes().len() as u64);
    r.push_str("\r\nConnection: close\r\n\r\n");
    r.push_str(body);
    assert(r@ == document(status@, content_type@, body@));
    r
}

/// The response to a request for `page`.
pub open spec fn admin_response(
    page: AdminPage,
    c: Counters,
    uptime: u64,
    upstreams: Seq<UpstreamStatus>,
) -> Seq<char> {
    match page {
        AdminPage::Metrics => document(
            "200 OK"@,
            "text/plain; charset=utf-8"@,
            prometheus_text(c, uptime, upstreams),
        ),
        AdminPage::Status => document(
            "200 OK"@,
            "application/json"@,
            status_json(c, uptime, upstreams),
        ),
        AdminPage::Health => document(
            "200 OK"@,
            "application/json"@,
            "{\"status\":\"ok\"}"@,
        ),
        AdminPage::NotFound => document("404 Not Found"@, "text/plain"@, "Not Found"@),
    }
}

/// Writes the response to a request for `page`.
pub fn render_admin_page(
    page: AdminPage,
    c: &Counters,
    uptime: u64,
    upstreams: &[UpstreamStatus],
) -> (r: String)
    ensures
        r@ == admin_response(page, *c, uptime, upstreams@),
{
    match page {
        AdminPage::Metrics => {
            let body = render_prometheus(c, uptime, upstreams);
            build_document("200 OK", "text/plain; charset=utf-8", body.as_str())
        },
        AdminPage::Status => {
            let body = render_status(c, uptime, upstreams);
            build_document("200 OK", "application/json", body.as_str())
        },
        AdminPage::Health => build_document(
            "200 OK",
            "application/json",
            "{\"status\":\"ok\"}",
        ),
        AdminPage::NotFound => build_document("404 Not Found", "text/plain", "Not Found"),
    }
}

/// The response to the request that was read into `buf`, or nothing where the
/// connection was closed before it sent anything.
pub fn handle_admin_request(buf: &[u8], pool: &UpstreamPool, metrics: &Metrics) -> (r: Option<
    String,
>)
    ensures
        r is None == (buf@.len() == 0),
        r matches Some(text) ==> exists|uptime: u64|
            is_uptime(metrics.start_time, uptime) && text@ == #[trigger] admin_response(
                admin_page(first_line(buf@)),
                metrics.counters(),
                uptime,
                pool@.statuses(),
            ),
{
    if buf.len() == 0 {
        return None;
    }
    let page = find_admin_page(buf);
    let counters = metrics.snapshot();
    let uptime: u64 = metrics.uptime_secs();
    let upstreams = pool.all_status();
    Some(render_admin_page(page, &counters, uptime, upstreams.as_slice()))
}

/// The end of a connection undoes its start, and nothing else changes.
pub proof fn law_dec_undoes_inc(m: Metrics)
    ensures
        ({
            let up = Metrics { active_connections: m.active_connections.wrapping_add(1), ..m };
            let down = Metrics { active_connections: up.active_connections.wrapping_sub(1), ..up };
            down == m
        }),
{
}

/// The status document is JSON, whatever the URLs of the upstreams hold, and
/// reading it gives back every counter and every upstream.
pub proof fn law_status_reads_back(c: Counters, uptime: u64, upstreams: Seq<UpstreamStatus>)
    ensures
        read_json(status_json(c, uptime, upstreams)) == Some(
            (status_value(c, uptime, upstreams), Seq::<char>::empty()),
        ),
{
    let none = Seq::<char>::empty();
    let text = status_json(c, uptime, upstreams);
    law_json_reads_back(status_value(c, uptime, upstreams), none);
    assert(text + none == text);
}

/// The length that a document announces is the number of bytes behind its head.
pub proof fn law_announced_length_is_body_length(
    status: Seq<char>,
    content_type: Seq<char>,
    body: Seq<char>,
)
    ensures
        exists|head: Seq<char>|
            {
                &&& document(status, content_type, body) == #[trigger] (head + body)
                &&& encode_utf8(document(status, content_type, body)).len() == encode_utf8(
                    head,
                ).len() + encode_utf8(body).len()
                &&& occurs_at(
                    head,
                    "\r\nContent-Length: "@ + decimal(encode_utf8(body).len())
                        + "\r\nConnection: close\r\n\r\n"@,
                    head.len() - ("\r\nContent-Length: "@ + decimal(encode_utf8(body).len())
                        + "\r\nConnection: close\r\n\r\n"@).len(),
                )
            },
{
    let tail = "\r\nContent-Length: "@ + decimal(encode_utf8(body).len())
        + "\r\nConnection: close\r\n\r\n"@;
    let start = "HTTP/1.1 "@ + status + "\r\nContent-Type: "@ + content_type;
    let head = start + tail;
    assert(document(status, content_type, body) == head + body);
    assert(head.subrange(start.len() as int, head.len() as int) == tail);
    lemma_encode_concat(head, body);
}

proof fn lemma_encode_concat(a: Seq<char>, b: Seq<char>)
    ensures
        encode_utf8(a + b) == encode_utf8(a) + encode_utf8(b),
    decreases a.len(),
{
    if a.len() == 0 {
        assert(a + b == b);
        assert(encode_utf8(a) == Seq::<u8>::empty());
        assert(encode_utf8(a) + encode_utf8(b) == encode_utf8(b));
    } else {
        assert((a + b).drop_first() == a.drop_first() + b);
        lemma_encode_concat(a.drop_first(), b);
        assert(encode_utf8(a + b) == encode_utf8(a) + encode_utf8(b));
    }
}

/// Whether a JSON object says `value` under `key`.
pub open spec fn says(doc: Json, key: Seq<char>, value: Json) -> bool {
    doc matches Json::Object(members) && exists|i: int|
        0 <= i < members.len() && (#[trigger] members[i]).key == key && members[i].value == value
}

proof fn lemma_says(members: Seq<Member>, i: int)
    requires
        0 <= i < members.len(),
    ensures
        says(Json::Object(members), members[i].key, members[i].value),
{
}

/// What one reads in the status document: the uptime and every counter under its
/// name, and the upstreams; nothing else.
#[verifier::spinoff_prover]
pub proof fn law_status_says_the_counters(
    c: Counters,
    uptime: u64,
    upstreams: Seq<UpstreamStatus>,
    doc: Json,
)
    requires
        read_json(status_json(c, uptime, upstreams)) == Some((doc, Seq::<char>::empty())),
    ensures
        says(doc, "uptime_seconds"@, Json::Number(uptime as int)),
        says(doc, "requests_total"@, Json::Number(c.requests_total as int)),
        says(doc, "requests_success"@, Json::Number(c.requests_success as int)),
        says(doc, "requests_failed"@, Json::Number(c.requests_failed as int)),
        says(doc, "connect_requests"@, Json::Number(c.connect_requests as int)),
        says(doc, "http_requests"@, Json::Number(c.http_requests as int)),
        says(doc, "direct_connections"@, Json::Number(c.direct_connections as int)),
        says(doc, "bytes_received"@, Json::Number(c.bytes_received as int)),
        says(doc, "bytes_sent"@, Json::Number(c.bytes_sent as int)),
        says(doc, "active_connections"@, Json::Number(c.active_connections as int)),
        says(doc, "health_checks_total"@, Json::Number(c.health_checks_total as int)),
        says(doc, "health_checks_success"@, Json::Number(c.health_checks_success as int)),
        says(doc, "hot_reloads"@, Json::Number(c.hot_reloads as int)),
        doc->Object_0.len() == 14,
{
    law_status_reads_back(c, uptime, upstreams);
    let m = doc->Object_0;
    lemma_says(m, 0);
    lemma_says(m, 1);
    lemma_says(m, 2);
    lemma_says(m, 3);
    lemma_says(m, 4);
    lemma_says(m, 5);
    lemma_says(m, 6);
    lemma_says(m, 7);
    lemma_says(m, 8);
    lemma_says(m, 9);
    lemma_says(m, 10);
    lemma_says(m, 11);
    lemma_says(m, 12);
}

/// What one reads of the upstreams in the status document: each of them, in order,
/// with its URL, state, statistics, weight and priority; nothing else.
#[verifier::spinoff_prover]
pub proof fn law_status_says_the_upstreams(
    c: Counters,
    uptime: u64,
    upstreams: Seq<UpstreamStatus>,
    doc: Json,
    i: int,
)
    requires
        read_json(status_json(c, uptime, upstreams)) == Some((doc, Seq::<char>::empty())),
        0 <= i < upstreams.len(),
    ensures
        exists|items: Seq<Json>| #[trigger]
            says(doc, "upstreams"@, Json::List(items)) && items.len() == upstreams.len() && {
                let item = items[i];
                let s = upstreams[i];
                &&& says(item, "url"@, Json::Text(s.url@))
                &&& says(item, "online"@, Json::Bool(s.online))
                &&& says(item, "active_connections"@, Json::Number(s.active_conns as int))
                &&& says(item, "latency_ms"@, Json::Number(s.latency_ema_ms as int))
                &&& says(item, "consecutive_failures"@, Json::Number(s.consec_failures as int))
                &&& says(item, "weight"@, Json::Number(s.weight as int))
                &&& says(item, "priority"@, Json::Number(s.priority as int))
                &&& item->Object_0.len() == 7
            },
{
    law_status_reads_back(c, uptime, upstreams);
    lemma_says(doc->Object_0, 13);
    let items = doc->Object_0[13].value->List_0;
    let m = items[i]->Object_0;
    lemma_says(m, 0);
    lemma_says(m, 1);
    lemma_says(m, 2);
    lemma_says(m, 3);
    lemma_says(m, 4);
    lemma_says(m, 5);
    lemma_says(m, 6);
    assert(says(doc, "upstreams"@, Json::List(items)));
}

proof fn lemma_occurs_behind(s: Seq<char>, t: Seq<char>)
    ensures
        forall|p: Seq<char>| occurs(s, p) ==> #[trigger] occurs(s + t, p),
        forall|p: Seq<char>| occurs(t, p) ==> #[trigger] occurs(s + t, p),
{
    assert forall|p: Seq<char>| occurs(s, p) implies #[trigger] occurs(s + t, p) by {
        let i = choose|i: int| occurs_at(s, p, i);
        assert((s + t).subrange(i, i + p.len()) =~= s.subrange(i, i + p.len()));
        assert(occurs_at(s + t, p, i));
    }
    assert forall|p: Seq<char>| occurs(t, p) implies #[trigger] occurs(s + t, p) by {
        let i = choose|i: int| occurs_at(t, p, i);
        let k = s.len() as int + i;
        assert((s + t).subrange(k, k + p.len()) =~= t.subrange(i, i + p.len()));
        assert(occurs_at(s + t, p, k));
    }
}

/// A metric of the document, with its type: a line for the type and a line with the
/// value.
pub open spec fn metric_lines(name: Seq<char>, kind: Seq<char>, value: u64) -> Seq<char> {
    "\n# TYPE http_proxy_lb_"@ + name + " "@ + kind + "\nhttp_proxy_lb_"@ + name + " "@ + decimal(
        value as nat,
    ) + "\n"@
}

proof fn lemma_metric_lines(name: Seq<char>, help: Seq<char>, kind: Seq<char>, value: u64)
    ensures
        occurs(metric_text(name, help, kind, value), metric_lines(name, kind, value)),
{
    reveal_strlit("\n");
    reveal_strlit("\nhttp_proxy_lb_");
    reveal_strlit("http_proxy_lb_");
    let start = "# HELP http_proxy_lb_"@ + name + " "@ + help;
    let whole = metric_text(name, help, kind, value);
    let lines = metric_lines(name, kind, value);
    assert("\nhttp_proxy_lb_"@ =~= "\n"@ + "http_proxy_lb_"@);
    assert(whole =~= start + lines);
    assert(whole.subrange(start.len() as int, start.len() as int + lines.len()) =~= lines);
    assert(occurs_at(whole, lines, start.len() as int));
}

/// The metrics document shows the uptime and every counter under its name, with its
/// type.
#[verifier::spinoff_prover]
#[verifier::rlimit(50)]
pub proof fn law_metrics_show_the_counters(
    c: Counters,
    uptime: u64,
    upstreams: Seq<UpstreamStatus>,
)
    ensures
        ({
            let t = prometheus_text(c, uptime, upstreams);
            &&& occurs(t, metric_lines("uptime_seconds"@, "gauge"@, uptime))
            &&& occurs(t, metric_lines("requests_total"@, "counter"@, c.requests_total))
            &&& occurs(t, metric_lines("requests_success"@, "counter"@, c.requests_success))
            &&& occurs(t, metric_lines("requests_failed"@, "counter"@, c.requests_failed))
            &&& occurs(t, metric_lines("connect_requests"@, "counter"@, c.connect_requests))
            &&& occurs(t, metric_lines("http_requests"@, "counter"@, c.http_requests))
            &&& occurs(t, metric_lines("direct_connections"@, "counter"@, c.direct_connections))
            &&& occurs(t, metric_lines("bytes_received"@, "counter"@, c.bytes_received))
            &&& occurs(t, metric_lines("bytes_sent"@, "counter"@, c.bytes_sent))
            &&& occurs(t, metric_lines("active_connections"@, "gauge"@, c.active_connections))
            &&& occurs(t, metric_lines("health_checks_total"@, "counter"@, c.health_checks_total))
            &&& occurs(
                t,
                metric_lines("health_checks_success"@, "counter"@, c.health_checks_success),
            )
            &&& occurs(t, metric_lines("hot_reloads"@, "counter"@, c.hot_reloads))
            &&& occurs(t, all_samples(upstreams))
        }),
{
    let m0 = metric_text("uptime_seconds"@, "Time since proxy started"@, "gauge"@, uptime);
    let m1 = metric_text(
        "requests_total"@,
        "Total number of requests received"@,
        "counter"@,
        c.requests_total,
    );
    let m2 = metric_text(
        "requests_success"@,
        "Total number of successful requests"@,
        "counter"@,
        c.requests_success,
    );
    let m3 = metric_text(
        "requests_failed"@,
        "Total number of failed requests"@,
        "counter"@,
        c.requests_failed,
    );
    let m4 = metric_text(
        "connect_requests"@,
        "Total number of CONNECT requests"@,
        "counter"@,
        c.connect_requests,
    );
    let m5 = metric_text(
        "http_requests"@,
        "Total number of HTTP requests"@,
        "counter"@,
        c.http_requests,
    );
    let m6 = metric_text(
        "direct_connections"@,
        "Total number of direct (non-proxy) connections"@,
        "counter"@,
        c.direct_connections,
    );
    let m7 = metric_text(
        "bytes_received"@,
        "Total bytes received from clients"@,
        "counter"@,
        c.bytes_received,
    );
    let m8 = metric_text(
        "bytes_sent"@,
        "Total bytes sent to clients"@,
        "counter"@,
        c.bytes_sent,
    );
    let m9 = metric_text(
        "active_connections"@,
        "Current number of active connections"@,
        "gauge"@,
        c.active_connections,
    );
    let m10 = metric_text(
        "health_checks_total"@,
        "Total health check probes"@,
        "counter"@,
        c.health_checks_total,
    );
    let m11 = metric_text(
        "health_checks_success"@,
        "Successful health check probes"@,
        "counter"@,
        c.health_checks_success,
    );
    let m12 = metric_text(
        "hot_reloads"@,
        "Total config hot reloads"@,
        "counter"@,
        c.hot_reloads,
    );
    let h0 = metric_header(
        "upstream_online"@,
        "Whether upstream is online (1) or offline (0)"@,
        "gauge"@,
    );
    let h1 = metric_header(
        "upstream_active_connections"@,
        "Active connections per upstream"@,
        "gauge"@,
    );
    let h2 = metric_header(
        "upstream_latency_ms"@,
        "Latency EMA in milliseconds per upstream"@,
        "gauge"@,
    );
    let h3 = metric_header(
        "upstream_consecutive_failures"@,
        "Consecutive failures per upstream"@,
        "gauge"@,
    );
    lemma_metric_lines("uptime_seconds"@, "Time since proxy started"@, "gauge"@, uptime);
    lemma_metric_lines(
        "requests_total"@,
        "Total number of requests received"@,
        "counter"@,
        c.requests_total,
    );
    lemma_metric_lines(
        "requests_success"@,
        "Total number of successful requests"@,
        "counter"@,
        c.requests_success,
    );
    lemma_metric_lines(
        "requests_failed"@,
        "Total number of failed requests"@,
        "counter"@,
        c.requests_failed,
    );
    lemma_metric_lines(
        "connect_requests"@,
        "Total number of CONNECT requests"@,
        "counter"@,
        c.connect_requests,
    );
    lemma_metric_lines(
        "http_requests"@,
        "Total number of HTTP requests"@,
        "counter"@,
        c.http_requests,
    );
    lemma_metric_lines(
        "direct_connections"@,
        "Total number of direct (non-proxy) connections"@,
        "counter"@,
        c.direct_connections,
    );
    lemma_metric_lines(
        "bytes_received"@,
        "Total bytes received from clients"@,
        "counter"@,
        c.bytes_received,
    );
    lemma_metric_lines("bytes_sent"@, "Total bytes sent to clients"@, "counter"@, c.bytes_sent);
    lemma_metric_lines(
        "active_connections"@,
        "Current number of active connections"@,
        "gauge"@,
        c.active_connections,
    );
    lemma_metric_lines(
        "health_checks_total"@,
        "Total health check probes"@,
        "counter"@,
        c.health_checks_total,
    );
    lemma_metric_lines(
        "health_checks_success"@,
        "Successful health check probes"@,
        "counter"@,
        c.health_checks_success,
    );
    lemma_metric_lines("hot_reloads"@, "Total config hot reloads"@, "counter"@, c.hot_reloads);
    let t0 = Seq::<char>::empty() + m0;
    let t1 = t0 + m1;
    let t2 = t1 + m2;
    let t3 = t2 + m3;
    let t4 = t3 + m4;
    let t5 = t4 + m5;
    let t6 = t5 + m6;
    let t7 = t6 + m7;
    let t8 = t7 + m8;
    let t9 = t8 + m9;
    let t10 = t9 + m10;
    let t11 = t10 + m11;
    let t12 = t11 + m12;
    let t13 = t12 + h0;
    let t14 = t13 + h1;
    let t15 = t14 + h2;
    let t16 = t15 + h3;
    lemma_occurs_behind(Seq::<char>::empty(), m0);
    lemma_occurs_behind(t0, m1);
    lemma_occurs_behind(t1, m2);
    lemma_occurs_behind(t2, m3);
    lemma_occurs_behind(t3, m4);
    lemma_occurs_behind(t4, m5);
    lemma_occurs_behind(t5, m6);
    lemma_occurs_behind(t6, m7);
    lemma_occurs_behind(t7, m8);
    lemma_occurs_behind(t8, m9);
    lemma_occurs_behind(t9, m10);
    lemma_occurs_behind(t10, m11);
    lemma_occurs_behind(t11, m12);
    lemma_occurs_behind(t12, h0);
    lemma_occurs_behind(t13, h1);
    lemma_occurs_behind(t14, h2);
    lemma_occurs_behind(t15, h3);
    lemma_occurs_behind(t16, all_samples(upstreams));
    let all = all_samples(upstreams);
    assert(all.subrange(0, all.len() as int) =~= all);
    assert(occurs_at(all, all, 0));
}

/// A sample of an upstream: the name of the metric, the URL as a label, the value.
pub open spec fn sample_line(name: Seq<char>, url: Seq<char>, value: Seq<char>) -> Seq<char> {
    "http_proxy_lb_upstream_"@ + name + "{url=\""@ + label_escaped(url) + seq!['"', '}', ' '] + value
        + seq!['\n']
}

proof fn lemma_sample_line(name: Seq<char>, url: Seq<char>, value: Seq<char>)
    ensures
        upstream_sample(name, url, value) == sample_line(name, url, value),
{
    reveal_strlit("\"} ");
    reveal_strlit("\n");
    assert("\"} "@ =~= seq!['"', '}', ' ']);
    assert("\n"@ =~= seq!['\n']);
}

proof fn lemma_whole_occurs(s: Seq<char>)
    ensures
        occurs(s, s),
{
    assert(s.subrange(0, s.len() as int) =~= s);
    assert(occurs_at(s, s, 0));
}

/// The metrics show every upstream: whether it is online, its connections, its latency
/// and its failures.
#[verifier::spinoff_prover]
pub proof fn law_metrics_show_the_upstreams(upstreams: Seq<UpstreamStatus>, i: int)
    requires
        0 <= i < upstreams.len(),
    ensures
        ({
            let t = all_samples(upstreams);
            let s = upstreams[i];
            &&& occurs(
                t,
                sample_line(
                    "online"@,
                    s.url@,
                    if s.online {
                        seq!['1']
                    } else {
                        seq!['0']
                    },
                ),
            )
            &&& occurs(
                t,
                sample_line("active_connections"@, s.url@, signed_decimal(s.active_conns as int)),
            )
            &&& occurs(t, sample_line("latency_ms"@, s.url@, decimal(s.latency_ema_ms as nat)))
            &&& occurs(
                t,
                sample_line("consecutive_failures"@, s.url@, decimal(s.consec_failures as nat)),
            )
        }),
    decreases upstreams.len(),
{
    let front = upstreams.drop_last();
    lemma_occurs_behind(all_samples(front), upstream_samples(upstreams.last()));
    if i < front.len() {
        law_metrics_show_the_upstreams(front, i);
    } else {
        let s = upstreams[i];
        reveal_strlit("1");
        reveal_strlit("0");
        assert("1"@ =~= seq!['1']);
        assert("0"@ =~= seq!['0']);
        let bit = if s.online {
            seq!['1']
        } else {
            seq!['0']
        };
        let active = signed_decimal(s.active_conns as int);
        let latency = decimal(s.latency_ema_ms as nat);
        let failures = decimal(s.consec_failures as nat);
        lemma_sample_line("online"@, s.url@, bit);
        lemma_sample_line("active_connections"@, s.url@, active);
        lemma_sample_line("latency_ms"@, s.url@, latency);
        lemma_sample_line("consecutive_failures"@, s.url@, failures);
        let a = upstream_sample("online"@, s.url@, bit);
        let b = upstream_sample("active_connections"@, s.url@, active);
        let c = upstream_sample("latency_ms"@, s.url@, latency);
        let d = upstream_sample("consecutive_failures"@, s.url@, failures);
        lemma_whole_occurs(a);
        lemma_whole_occurs(b);
        lemma_whole_occurs(c);
        lemma_whole_occurs(d);
        lemma_occurs_behind(a, b);
        lemma_occurs_behind(a + b, c);
        lemma_occurs_behind(a + b + c, d);
    }
}

/// A page is found by how the first line of the request starts, and by nothing else.
pub proof fn law_admin_pages_are_found(buf: &[u8], r: AdminPage)
    requires
        call_ensures(find_admin_page, (buf,), r),
    ensures
        ({
            let line = first_line(buf@);
            let metrics = occurs_at(line, encode_utf8("GET /metrics"@), 0);
            let status = occurs_at(line, encode_utf8("GET /status"@), 0);
            let health = occurs_at(line, encode_utf8("GET /health"@), 0);
            &&& r == AdminPage::Metrics <==> metrics
            &&& r == AdminPage::Status <==> !metrics && status
            &&& r == AdminPage::Health <==> !metrics && !status && health
            &&& r == AdminPage::NotFound <==> !metrics && !status && !health
        }),
{
}

/// A document is a status line, its type, its length in bytes and its body.
#[verifier::spinoff_prover]
pub proof fn law_document(status: Seq<char>, content_type: Seq<char>, body: Seq<char>)
    ensures
        ({
            let t = document(status, content_type, body);
            let n = decimal(encode_utf8(body).len()).len() as int;
            let a = 9 + status.len() as int;
            let b = a + 16 + content_type.len();
            &&& t.len() == b + 18 + n + 23 + body.len()
            &&& t.take(9) == "HTTP/1.1 "@
            &&& t.subrange(9, a) == status
            &&& t.subrange(a, a + 16) == "\r\nContent-Type: "@
            &&& t.subrange(a + 16, b) == content_type
            &&& t.subrange(b, b + 18) == "\r\nContent-Length: "@
            &&& t.subrange(b + 18, b + 18 + n) == decimal(encode_utf8(body).len())
            &&& t.subrange(b + 18 + n, b + 18 + n + 23) == "\r\nConnection: close\r\n\r\n"@
            &&& t.skip(b + 18 + n + 23) == body
        }),
{
    reveal_strlit("HTTP/1.1 ");
    reveal_strlit("\r\nContent-Type: ");
    reveal_strlit("\r\nContent-Length: ");
    reveal_strlit("\r\nConnection: close\r\n\r\n");
    let t = document(status, content_type, body);
    let n = decimal(encode_utf8(body).len()).len() as int;
    let a = 9 + status.len() as int;
    let b = a + 16 + content_type.len();
    assert(t.take(9) =~= "HTTP/1.1 "@);
    assert(t.subrange(9, a) =~= status);
    assert(t.subrange(a, a + 16) =~= "\r\nContent-Type: "@);
    assert(t.subrange(a + 16, b) =~= content_type);
    assert(t.subrange(b, b + 18) =~= "\r\nContent-Length: "@);
    assert(t.subrange(b + 18, b + 18 + n) =~= decimal(encode_utf8(body).len()));
    assert(t.subrange(b + 18 + n, b + 18 + n + 23) =~= "\r\nConnection: close\r\n\r\n"@);
    assert(t.skip(b + 18 + n + 23) =~= body);
}

/// Whether `text` is the document with this status, type and body.
pub open spec fn is_document(
    text: Seq<char>,
    status: Seq<char>,
    content_type: Seq<char>,
    body: Seq<char>,
) -> bool {
    text == document(status, content_type, body)
}

/// What each page is answered with; an unknown one is not found.
#[verifier::spinoff_prover]
pub proof fn law_answers_of_the_admin_server(
    c: Counters,
    uptime: u64,
    upstreams: Seq<UpstreamStatus>,
)
    ensures
        is_document(
            admin_response(AdminPage::Metrics, c, uptime, upstreams),
            "200 OK"@,
            "text/plain; charset=utf-8"@,
            prometheus_text(c, uptime, upstreams),
        ),
        is_document(
            admin_response(AdminPage::Status, c, uptime, upstreams),
            "200 OK"@,
            "application/json"@,
            status_json(c, uptime, upstreams),
        ),
        is_document(
            admin_response(AdminPage::Health, c, uptime, upstreams),
            "200 OK"@,
            "application/json"@,
            "{\"status\":\"ok\"}"@,
        ),
        is_document(
            admin_response(AdminPage::NotFound, c, uptime, upstreams),
            "404 Not Found"@,
            "text/plain"@,
            "Not Found"@,
        ),
{
}

/// Of the running counters: a request that comes in counts once in all, and once for
/// its kind; when it is over it counts once for how it came out.
pub proof fn law_requests_are_counted(kind: RequestKind, outcome: Outcome)
    ensures
        forall|m: &mut Metrics| #[trigger]
            call_ensures(Metrics::begin_request, (m, kind), ()) ==> (*final(m)).start_time
                == (*m).start_time && (*final(m)).counters() == (Counters {
                requests_total: (*m).requests_total.wrapping_add(1),
                connect_requests: match kind {
                    RequestKind::Connect => (*m).connect_requests.wrapping_add(1),
                    _ => (*m).connect_requests,
                },
                http_requests: match kind {
                    RequestKind::Http => (*m).http_requests.wrapping_add(1),
                    _ => (*m).http_requests,
                },
                ..(*m).counters()
            }),
        forall|m: &mut Metrics| #[trigger]
            call_ensures(Metrics::finish_request, (m, outcome), ()) ==> (*final(m)).start_time
                == (*m).start_time && (*final(m)).counters() == (Counters {
                requests_success: match outcome {
                    Outcome::Success => (*m).requests_success.wrapping_add(1),
                    _ => (*m).requests_success,
                },
                requests_failed: match outcome {
                    Outcome::Failure => (*m).requests_failed.wrapping_add(1),
                    _ => (*m).requests_failed,
                },
                ..(*m).counters()
            }),
{
}

/// Of the running counters: each counts what it is named for, and leaves the others
/// alone.
pub proof fn law_counters_count(n: u64)
    ensures
        forall|m: &mut Metrics| #[trigger]
            call_ensures(Metrics::inc_requests_total, (m,), ()) ==> *final(m) == (Metrics {
                requests_total: (*m).requests_total.wrapping_add(1),
                ..*m
            }),
        forall|m: &mut Metrics| #[trigger]
            call_ensures(Metrics::inc_requests_success, (m,), ()) ==> *final(m) == (Metrics {
                requests_success: (*m).requests_success.wrapping_add(1),
                ..*m
            }),
        forall|m: &mut Metrics| #[trigger]
            call_ensures(Metrics::inc_requests_failed, (m,), ()) ==> *final(m) == (Metrics {
                requests_failed: (*m).requests_failed.wrapping_add(1),
                ..*m
            }),
        forall|m: &mut Metrics| #[trigger]
            call_ensures(Metrics::inc_connect, (m,), ()) ==> *final(m) == (Metrics {
                connect_requests: (*m).connect_requests.wrapping_add(1),
                ..*m
            }),
        forall|m: &mut Metrics| #[trigger]
            call_ensures(Metrics::inc_http, (m,), ()) ==> *final(m) == (Metrics {
                http_requests: (*m).http_requests.wrapping_add(1),
                ..*m
            }),
        forall|m: &mut Metrics| #[trigger]
            call_ensures(Metrics::inc_direct, (m,), ()) ==> *final(m) == (Metrics {
                direct_connections: (*m).direct_connections.wrapping_add(1),
                ..*m
            }),
        forall|m: &mut Metrics| #[trigger]
            call_ensures(Metrics::add_bytes_received, (m, n), ()) ==> *final(m) == (Metrics {
                bytes_received: (*m).bytes_received.wrapping_add(n),
                ..*m
            }),
        forall|m: &mut Metrics| #[trigger]
            call_ensures(Metrics::add_bytes_sent, (m, n), ()) ==> *final(m) == (Metrics {
                bytes_sent: (*m).bytes_sent.wrapping_add(n),
                ..*m
            }),
        forall|m: &mut Metrics| #[trigger]
            call_ensures(Metrics::inc_active, (m,), ()) ==> *final(m) == (Metrics {
                active_connections: (*m).active_connections.wrapping_add(1),
                ..*m
            }),
        forall|m: &mut Metrics| #[trigger]
            call_ensures(Metrics::dec_active, (m,), ()) ==> *final(m) == (Metrics {
                active_connections: (*m).active_connections.wrapping_sub(1),
                ..*m
            }),
        forall|m: &mut Metrics| #[trigger]
            call_ensures(Metrics::inc_health_check, (m,), ()) ==> *final(m) == (Metrics {
                health_checks_total: (*m).health_checks_total.wrapping_add(1),
                ..*m
            }),
        forall|m: &mut Metrics| #[trigger]
            call_ensures(Metrics::inc_health_check_success, (m,), ()) ==> *final(m) == (Metrics {
                health_checks_success: (*m).health_checks_success.wrapping_add(1),
                ..*m
            }),
        forall|m: &mut Metrics| #[trigger]
            call_ensures(Metrics::inc_hot_reload, (m,), ()) ==> *final(m) == (Metrics {
                hot_reloads: (*m).hot_reloads.wrapping_add(1),
                ..*m
            }),
{
}

/// A snapshot shows every counter as it is, and a new set of counters has counted
/// nothing.
pub proof fn law_snapshots(m: Metrics, new: Metrics, c: Counters)
    requires
        call_ensures(Metrics::snapshot, (&m,), c),
        call_ensures(Metrics::new, (), new),
    ensures
        c.requests_total == m.requests_total && c.requests_success == m.requests_success,
        c.requests_failed == m.requests_failed && c.connect_requests == m.connect_requests,
        c.http_requests == m.http_requests && c.direct_connections == m.direct_connections,
        c.bytes_received == m.bytes_received && c.bytes_sent == m.bytes_sent,
        c.active_connections == m.active_connections && c.hot_reloads == m.hot_reloads,
        c.health_checks_total == m.health_checks_total,
        c.health_checks_success == m.health_checks_success,
        new.requests_total == 0 && new.requests_success == 0 && new.requests_failed == 0,
        new.connect_requests == 0 && new.http_requests == 0 && new.direct_connections == 0,
        new.bytes_received == 0 && new.bytes_sent == 0 && new.active_connections == 0,
        new.health_checks_total == 0 && new.health_checks_success == 0 && new.hot_reloads == 0,
{
}

/// Of the running code: the documents are written as described here.
#[verifier::spinoff_prover]
pub proof fn law_documents_are_written(
    c: Counters,
    uptime: u64,
    upstreams: &[UpstreamStatus],
    page: AdminPage,
    metrics: String,
    status: String,
    answer: String,
)
    ensures
        call_ensures(render_prometheus, (&c, uptime, upstreams), metrics) ==> metrics@
            == prometheus_text(c, uptime, upstreams@),
        call_ensures(render_status, (&c, uptime, upstreams), status) ==> status@ == status_json(
            c,
            uptime,
            upstreams@,
        ),
        call_ensures(render_admin_page, (page, &c, uptime, upstreams), answer) ==> answer@
            == admin_response(page, c, uptime, upstreams@),
{
}

/// Of the running code: the documents show the pool and the counters as they are, and
/// an uptime that the clock can show; every request that sent anything is answered.
#[verifier::spinoff_prover]
pub proof fn law_documents_show_what_is(
    pool: UpstreamPool,
    m: Metrics,
    buf: &[u8],
    metrics: String,
    status: String,
    answer: Option<String>,
)
    ensures
        call_ensures(build_prometheus_metrics, (&pool, &m), metrics) ==> exists|uptime: u64|
            is_uptime(m.start_time, uptime) && metrics@ == #[trigger] prometheus_text(
                m.counters(),
                uptime,
                pool@.statuses(),
            ),
        call_ensures(build_status_json, (&pool, &m), status) ==> exists|uptime: u64|
            is_uptime(m.start_time, uptime) && status@ == #[trigger] status_json(
                m.counters(),
                uptime,
                pool@.statuses(),
            ),
        call_ensures(handle_admin_request, (buf, &pool, &m), answer) ==> {
            &&& answer is None <==> buf@.len() == 0
            &&& answer matches Some(text) ==> exists|uptime: u64|
                is_uptime(m.start_time, uptime) && text@ == #[trigger] admin_response(
                    admin_page(first_line(buf@)),
                    m.counters(),
                    uptime,
                    pool@.statuses(),
                )
        },
{
}

/// Each upstream adds four samples to the metrics, and nothing else.
#[verifier::spinoff_prover]
pub proof fn law_four_samples_for_each_upstream(upstreams: Seq<UpstreamStatus>, s: UpstreamStatus)
    ensures
        all_samples(Seq::empty()).len() == 0,
        all_samples(upstreams.push(s)) == all_samples(upstreams) + (sample_line(
            "online"@,
            s.url@,
            if s.online {
                seq!['1']
            } else {
                seq!['0']
            },
        ) + sample_line("active_connections"@, s.url@, signed_decimal(s.active_conns as int))
            + sample_line("latency_ms"@, s.url@, decimal(s.latency_ema_ms as nat)) + sample_line(
            "consecutive_failures"@,
            s.url@,
            decimal(s.consec_failures as nat),
        )),
{
    reveal_strlit("1");
    reveal_strlit("0");
    assert("1"@ =~= seq!['1']);
    assert("0"@ =~= seq!['0']);
    let bit = if s.online {
        seq!['1']
    } else {
        seq!['0']
    };
    lemma_sample_line("online"@, s.url@, bit);
    lemma_sample_line("active_connections"@, s.url@, signed_decimal(s.active_conns as int));
    lemma_sample_line("latency_ms"@, s.url@, decimal(s.latency_ema_ms as nat));
    lemma_sample_line("consecutive_failures"@, s.url@, decimal(s.consec_failures as nat));
    assert(upstreams.push(s).drop_last() == upstreams);
}

} // verus!
