//! Hot reload: when the configuration file is read again, and what a reload does.

use crate::balance_laws::law_reload_applies_the_list;
use crate::config::Config;
use crate::upstream::{PoolView, UpstreamPool};
use vstd::prelude::*;

verus! {

/// Remembers which version of the configuration file is in use. A version is the
/// file's modification time in nanoseconds, or `None` where it could not be read.
#[derive(Debug, Clone, Copy, PartialEq, Eq, Structural)]
pub struct ReloadWatcher {
    pub last_mtime: Option<i128>,
}

impl ReloadWatcher {
    /// A watcher for a configuration that was loaded when the file had this version.
    pub fn new(mtime: Option<i128>) -> (r: Self)
        ensures
            r.last_mtime == mtime,
    {
        ReloadWatcher { last_mtime: mtime }
    }

    /// Whether the file has another version than the one in use.
    pub fn is_stale(&self, current: Option<i128>) -> (r: bool)
        ensures
            r == (current != self.last_mtime),
    {
        match (self.last_mtime, current) {
            (Some(a), Some(b)) => a != b,
            (None, None) => false,
            _ => true,
        }
    }

    /// The watcher and the pool after a look at the file, which has the version
    /// `current` and reads as `loaded`, or cannot be read as a configuration.
    pub open spec fn after(
        self,
        p: PoolView,
        current: Option<i128>,
        loaded: Option<Config>,
    ) -> (ReloadWatcher, PoolView) {
        match loaded {
            Some(config) => if current != self.last_mtime {
                (ReloadWatcher { last_mtime: current }, p.reloaded(config.upstream@))
            } else {
                (self, p)
            },
            None => (self, p),
        }
    }

    /// Takes in a new version of the file: the pool gets the upstreams of the new
    /// configuration. Where the file could not be loaded the current
    /// configuration stays in use, and the next look at the file tries again.
    /// Returns whether the pool was reloaded.
    pub fn update(
        &mut self,
        pool: &mut UpstreamPool,
        current: Option<i128>,
        loaded: Option<&Config>,
    ) -> (r: bool)
        ensures
            (*final(self), final(pool)@) == old(self).after(
                old(pool)@,
                current,
                match loaded {
                    Some(config) => Some(*config),
                    None => None,
                },
            ),
            r == (loaded is Some && current != old(self).last_mtime),
    {
        if !self.is_stale(current) {
            return false;
        }
        match loaded {
            Some(config) => {
                pool.reload(config);
                self.last_mtime = current;
                true
            },
            None => false,
        }
    }
}

/// A file that did not change since it was loaded is not loaded again.
pub proof fn law_reload_happens_once(
    w: ReloadWatcher,
    p: PoolView,
    current: Option<i128>,
    loaded: Config,
    again: Config,
)
    ensures
        ({
            let (v, q) = w.after(p, current, Some(loaded));
            v.after(q, current, Some(again)) == (v, q)
        }),
{
}

/// A file that cannot be loaded leaves the pool as it is, and is still stale.
pub proof fn law_failed_reload_is_retried(w: ReloadWatcher, p: PoolView, current: Option<i128>)
    ensures
        w.after(p, current, None) == (w, p),
        current != w.last_mtime ==> current != w.after(p, current, None).0.last_mtime,
{
}

/// A changed file that could be loaded is applied: the pool has one entry for each
/// upstream of the new configuration, in order and with its configuration, and the
/// version of the file is taken as loaded.
pub proof fn law_changed_file_is_applied(
    w: ReloadWatcher,
    p: PoolView,
    current: Option<i128>,
    config: Config,
    i: int,
)
    requires
        current != w.last_mtime,
        0 <= i < config.upstream@.len(),
    ensures
        ({
            let (v, q) = w.after(p, current, Some(config));
            &&& v.last_mtime == current
            &&& q.entries.len() == config.upstream@.len()
            &&& q.entries[i].config == config.upstream@[i]
            &&& q.entries[i].config.url@ == config.upstream@[i].url@
            &&& q == p.reloaded(config.upstream@)
        }),
{
}

/// Of the running watcher: when it is told of another version of the file and of the
/// configuration in it, the pool afterwards has just the upstreams of that
/// configuration, in order, and keeps the state of each whose URL it had.
#[verifier::spinoff_prover]
pub proof fn law_update_applies_the_configuration(
    current: Option<i128>,
    config: &Config,
    r: bool,
)
    ensures
        forall|w: &mut ReloadWatcher, p: &mut UpstreamPool|
            #[trigger] call_ensures(ReloadWatcher::update, (w, p, current, Some(config)), r) && (*w).last_mtime
                != current ==> {
                &&& r
                &&& (*final(w)).last_mtime == current
                &&& (*final(p)).entries@.len() == config.upstream@.len()
                &&& forall|i: int|
                    0 <= i < config.upstream@.len() ==> (#[trigger] (*final(p)).entries@[i]).config
                        == config.upstream@[i]
                &&& forall|i: int, k: int|
                    0 <= i < config.upstream@.len() && 0 <= k < (*p).entries@.len() && (
                    #[trigger] (*p).entries@[k]).config.url@ == (
                    #[trigger] config.upstream@[i]).url@ && (forall|j: int|
                        0 <= j < k ==> (#[trigger] (*p).entries@[j]).config.url@
                            != config.upstream@[i].url@) ==> {
                        &&& (*final(p)).entries@[i].online == (*p).entries@[k].online
                        &&& (*final(p)).entries@[i].latency_ema_ms
                            == (*p).entries@[k].latency_ema_ms
                        &&& (*final(p)).entries@[i].active_conns == (*p).entries@[k].active_conns
                        &&& (*final(p)).entries@[i].consec_failures
                            == (*p).entries@[k].consec_failures
                    }
            },
{
    assert forall|w: &mut ReloadWatcher, p: &mut UpstreamPool|
        #[trigger] call_ensures(ReloadWatcher::update, (w, p, current, Some(config)), r) && (*w).last_mtime
            != current implies {
        &&& r
        &&& (*final(w)).last_mtime == current
        &&& (*final(p)).entries@.len() == config.upstream@.len()
        &&& forall|i: int|
            0 <= i < config.upstream@.len() ==> (#[trigger] (*final(p)).entries@[i]).config
                == config.upstream@[i]
        &&& forall|i: int, k: int|
            0 <= i < config.upstream@.len() && 0 <= k < (*p).entries@.len() && (
            #[trigger] (*p).entries@[k]).config.url@ == (#[trigger] config.upstream@[i]).url@ && (
            forall|j: int|
                0 <= j < k ==> (#[trigger] (*p).entries@[j]).config.url@
                    != config.upstream@[i].url@) ==> {
                &&& (*final(p)).entries@[i].online == (*p).entries@[k].online
                &&& (*final(p)).entries@[i].latency_ema_ms == (*p).entries@[k].latency_ema_ms
                &&& (*final(p)).entries@[i].active_conns == (*p).entries@[k].active_conns
                &&& (*final(p)).entries@[i].consec_failures == (*p).entries@[k].consec_failures
            }
    } by {
        let before = (*p)@;
        let after = (*final(p))@;
        assert(after == before.reloaded(config.upstream@));
        assert forall|i: int| 0 <= i < config.upstream@.len() implies (
        #[trigger] after.entries[i]).config == config.upstream@[i] by {
            law_reload_applies_the_list(before, config.upstream@, i);
        }
        assert forall|i: int, k: int|
            0 <= i < config.upstream@.len() && 0 <= k < before.entries.len() && (
            #[trigger] before.entries[k]).config.url@ == (#[trigger] config.upstream@[i]).url@ && (
            forall|j: int|
                0 <= j < k ==> (#[trigger] before.entries[j]).config.url@
                    != config.upstream@[i].url@) implies {
            &&& after.entries[i].online == before.entries[k].online
            &&& after.entries[i].latency_ema_ms == before.entries[k].latency_ema_ms
            &&& after.entries[i].active_conns == before.entries[k].active_conns
            &&& after.entries[i].consec_failures == before.entries[k].consec_failures
        } by {
            law_reload_applies_the_list(before, config.upstream@, i);
        }
    }
}

/// A file of the version in use, and one that could not be loaded, change nothing.
pub proof fn law_update_without_news(
    current: Option<i128>,
    loaded: Option<&Config>,
    r: bool,
)
    ensures
        forall|w: &mut ReloadWatcher, p: &mut UpstreamPool|
            #[trigger] call_ensures(ReloadWatcher::update, (w, p, current, loaded), r) && ((*w).last_mtime
                == current || loaded is None) ==> !r && *final(w) == *w && (*final(p))@ == (*p)@,
{
}

/// A file is stale just if its version is another one than that in use.
pub proof fn law_staleness(w: ReloadWatcher, current: Option<i128>, r: bool)
    ensures
        call_ensures(ReloadWatcher::is_stale, (&w, current), r) ==> (r <==> w.last_mtime
            != current),
        call_ensures(ReloadWatcher::new, (current,), w) ==> w.last_mtime == current,
{
}

} // verus!
