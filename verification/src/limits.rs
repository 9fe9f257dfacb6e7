//! Resource limits: how many connections are served at a time, how long a request
//! may take, and how long open connections are waited for at shutdown.

use crate::config::LimitsConfig;
use crate::rewrite::{status_response, status_text};
use vstd::prelude::*;

verus! {

/// Whether one more connection is served next to `active` others; a limit of 0
/// is none.
pub open spec fn admitted(max_connections: u64, active: u64) -> bool {
    max_connections == 0 || active < max_connections
}

/// The time that is allowed, in seconds; 0 seconds mean no limit.
pub open spec fn time_limit(secs: u64) -> Option<u64> {
    if secs == 0 {
        None
    } else {
        Some(secs)
    }
}

impl LimitsConfig {
    /// Decides on a new connection next to `active` others: `None` if it is
    /// served, or what to send before it is closed.
    pub fn refusal(&self, active: u64) -> (r: Option<String>)
        ensures
            r is None == admitted(self.max_connections, active),
            r matches Some(text) ==> text@ == status_text(503, "Service Unavailable"@),
    {
        if self.max_connections == 0 || active < self.max_connections {
            None
        } else {
            Some(status_response(503, "Service Unavailable"))
        }
    }

    /// The time allowed for one request, in seconds.
    pub fn request_timeout(&self) -> (r: Option<u64>)
        ensures
            r == time_limit(self.request_timeout_secs),
    {
        if self.request_timeout_secs == 0 {
            None
        } else {
            Some(self.request_timeout_secs)
        }
    }

    /// The time allowed for open connections to finish at shutdown, in seconds.
    pub fn shutdown_timeout(&self) -> (r: Option<u64>)
        ensures
            r == time_limit(self.shutdown_timeout_secs),
    {
        if self.shutdown_timeout_secs == 0 {
            None
        } else {
            Some(self.shutdown_timeout_secs)
        }
    }
}

/// What a client gets whose request took too long.
pub fn timeout_response() -> (r: String)
    ensures
        r@ == status_text(504, "Gateway Timeout"@),
{
    status_response(504, "Gateway Timeout")
}

/// As long as only admitted connections are counted in, and counted out again,
/// there are never more than the limit allows.
pub proof fn law_limit_is_kept(max_connections: u64, active: u64)
    requires
        max_connections != 0,
        active <= max_connections,
    ensures
        admitted(max_connections, active) ==> active.wrapping_add(1) <= max_connections,
        active > 0 ==> active.wrapping_sub(1) <= max_connections,
{
}

/// A connection is refused just if there is a limit and as many connections are open
/// already; then the client gets a 503.
pub proof fn law_connection_limit(l: LimitsConfig, active: u64, r: Option<String>)
    requires
        call_ensures(LimitsConfig::refusal, (&l, active), r),
    ensures
        r is Some <==> l.max_connections > 0 && active >= l.max_connections,
        r matches Some(text) ==> text@ == status_text(503, "Service Unavailable"@),
{
}

/// A time limit of 0 seconds is none, and any other one holds as it is set.
pub proof fn law_time_limits(l: LimitsConfig, request: Option<u64>, shutdown: Option<u64>)
    requires
        call_ensures(LimitsConfig::request_timeout, (&l,), request),
        call_ensures(LimitsConfig::shutdown_timeout, (&l,), shutdown),
    ensures
        l.request_timeout_secs == 0 ==> request is None,
        l.request_timeout_secs > 0 ==> request == Some(l.request_timeout_secs),
        l.shutdown_timeout_secs == 0 ==> shutdown is None,
        l.shutdown_timeout_secs > 0 ==> shutdown == Some(l.shutdown_timeout_secs),
{
}

} // verus!
