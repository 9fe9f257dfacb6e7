//! The pool of upstream proxies: live state and statistics of each upstream,
//! selection, and hot reload.

use crate::config::{BalanceMode, Config, ConfigError, UpstreamConfig};
use vstd::prelude::*;

verus! {

/// One upstream proxy with live state and statistics.
#[derive(Debug)]
pub struct UpstreamEntry {
    /// Tells this entry from all others; a reload hands it on to the first upstream
    /// that it lists under the same URL
    pub id: u64,
    pub config: UpstreamConfig,
    /// Whether requests may be routed through this upstream
    pub online: bool,
    /// Number of in-flight connections currently routed through this upstream
    pub active_conns: i64,
    /// Exponential moving average of successful response latency (whole
    /// milliseconds; 0 means "no sample yet")
    pub latency_ema_ms: u64,
    /// Consecutive passive failures
    pub consec_failures: u32,
}

impl Clone for UpstreamEntry {
    fn clone(&self) -> (r: Self)
        ensures
            r == *self,
    {
        UpstreamEntry {
            id: self.id,
            config: self.config.clone(),
            online: self.online,
            active_conns: self.active_conns,
            latency_ema_ms: self.latency_ema_ms,
            consec_failures: self.consec_failures,
        }
    }
}

/// A quarter of the new sample and three quarters of the old average; the first
/// sample stands for itself.
pub open spec fn ema(old_ms: nat, sample_ms: nat) -> nat {
    if old_ms == 0 {
        sample_ms
    } else {
        (sample_ms + old_ms * 3) / 4
    }
}

/// What can happen to one upstream.
#[derive(Debug, Clone, Copy, PartialEq, Eq, Structural)]
pub enum EntryEvent {
    /// It failed to connect or to respond.
    WentOffline,
    /// An active health check succeeded.
    CameOnline,
    /// A request succeeded after this many milliseconds.
    Succeeded(u64),
    /// A request failed.
    Failed,
    /// A connection through it was opened.
    Opened,
    /// A connection through it was closed.
    Closed,
}

impl UpstreamEntry {
    /// The entry of an upstream of which nothing is known yet.
    pub open spec fn fresh(id: u64, config: UpstreamConfig) -> UpstreamEntry {
        UpstreamEntry {
            id,
            config,
            online: true,
            active_conns: 0,
            latency_ema_ms: 0,
            consec_failures: 0,
        }
    }

    /// An entry with this id and configuration that starts with the state and the
    /// statistics of this one.
    pub open spec fn carried_to(self, id: u64, config: UpstreamConfig) -> UpstreamEntry {
        UpstreamEntry { id, config, ..self }
    }

    /// This entry after `event`.
    pub open spec fn after(self, event: EntryEvent) -> UpstreamEntry {
        match event {
            EntryEvent::WentOffline => UpstreamEntry { online: false, ..self },
            EntryEvent::CameOnline => if self.online {
                self
            } else {
                UpstreamEntry { online: true, consec_failures: 0, ..self }
            },
            EntryEvent::Succeeded(ms) => UpstreamEntry {
                consec_failures: 0,
                latency_ema_ms: ema(self.latency_ema_ms as nat, ms as nat) as u64,
                ..self
            },
            EntryEvent::Failed => UpstreamEntry {
                consec_failures: self.consec_failures.wrapping_add(1),
                ..self
            },
            EntryEvent::Opened => UpstreamEntry {
                active_conns: self.active_conns.wrapping_add(1),
                ..self
            },
            EntryEvent::Closed => UpstreamEntry {
                active_conns: self.active_conns.wrapping_sub(1),
                ..self
            },
        }
    }

    /// Latency (50 ms if unknown) plus 50 ms for each in-flight connection.
    pub open spec fn score_value(self) -> nat {
        let base: nat = if self.latency_ema_ms == 0 {
            50
        } else {
            self.latency_ema_ms as nat
        };
        let active: nat = if self.active_conns > 0 {
            self.active_conns as nat
        } else {
            0
        };
        base + active * 50
    }

    /// How many turns of a round this entry gets: its weight, and at least one.
    pub open spec fn slots(self) -> nat {
        if self.config.weight == 0 {
            1
        } else {
            self.config.weight as nat
        }
    }

    pub fn new(id: u64, config: UpstreamConfig) -> (r: Self)
        ensures
            r == UpstreamEntry::fresh(id, config),
    {
        UpstreamEntry {
            id,
            config,
            online: true,
            active_conns: 0,
            latency_ema_ms: 0,
            consec_failures: 0,
        }
    }

    pub fn from_existing(existing: &Self, id: u64, config: UpstreamConfig) -> (r: Self)
        ensures
            r == existing.carried_to(id, config),
    {
        UpstreamEntry {
            id,
            config,
            online: existing.online,
            active_conns: existing.active_conns,
            latency_ema_ms: existing.latency_ema_ms,
            consec_failures: existing.consec_failures,
        }
    }

    pub fn is_online(&self) -> (r: bool)
        ensures
            r == self.online,
    {
        self.online
    }

    pub fn mark_offline(&mut self)
        ensures
            *final(self) == old(self).after(EntryEvent::WentOffline),
    {
        self.online = false;
    }

    pub fn mark_online(&mut self)
        ensures
            *final(self) == old(self).after(EntryEvent::CameOnline),
    {
        if !self.online {
            self.online = true;
            self.consec_failures = 0;
        }
    }

    /// Record a successful request with the measured round-trip latency.
    pub fn record_success(&mut self, latency_ms: u64)
        ensures
            *final(self) == old(self).after(EntryEvent::Succeeded(latency_ms)),
            final(self).latency_ema_ms == ema(
                old(self).latency_ema_ms as nat,
                latency_ms as nat,
            ),
    {
        self.consec_failures = 0;
        let old_ms: u64 = self.latency_ema_ms;
        self.latency_ema_ms = if old_ms == 0 {
            latency_ms
        } else {
            ((latency_ms as u128 + old_ms as u128 * 3) / 4) as u64
        };
    }

    pub fn record_failure(&mut self)
        ensures
            *final(self) == old(self).after(EntryEvent::Failed),
    {
        self.consec_failures = self.consec_failures.wrapping_add(1);
    }

    /// A connection through this upstream was opened.
    pub fn connection_opened(&mut self)
        ensures
            *final(self) == old(self).after(EntryEvent::Opened),
    {
        self.active_conns = self.active_conns.wrapping_add(1);
    }

    /// A connection through this upstream was closed.
    pub fn connection_closed(&mut self)
        ensures
            *final(self) == old(self).after(EntryEvent::Closed),
    {
        self.active_conns = self.active_conns.wrapping_sub(1);
    }

    /// The score in full width.
    fn wide_score(&self) -> (r: u128)
        ensures
            r == self.score_value(),
    {
        let base: u128 = if self.latency_ema_ms == 0 {
            50
        } else {
            self.latency_ema_ms as u128
        };
        let active: u128 = if self.active_conns > 0 {
            self.active_conns as u128
        } else {
            0
        };
        base + active * 50
    }

    /// Lower score = better upstream for "best" mode.
    /// Combines latency EMA and active-connection penalty.
    pub fn score(&self) -> (r: u64)
        requires
            self.score_value() <= u64::MAX,
        ensures
            r == self.score_value(),
    {
        self.wide_score() as u64
    }

    pub fn host_port(&self) -> (r: Result<(String, u16), ConfigError>)
        ensures
            match r {
                Ok((host, port)) => self.config.address() == Some((host@, port)),
                Err(e) => self.config.address() is None && e == ConfigError::InvalidUpstreamUrl(
                    self.config.url,
                ),
            },
    {
        self.config.host_port()
    }

    /// Applies `event` to this entry.
    pub fn apply(&mut self, event: EntryEvent)
        ensures
            *final(self) == old(self).after(event),
    {
        match event {
            EntryEvent::WentOffline => self.mark_offline(),
            EntryEvent::CameOnline => self.mark_online(),
            EntryEvent::Succeeded(ms) => self.record_success(ms),
            EntryEvent::Failed => self.record_failure(),
            EntryEvent::Opened => self.connection_opened(),
            EntryEvent::Closed => self.connection_closed(),
        }
    }
}

/// Status snapshot of an upstream for metrics/admin API.
#[derive(Debug)]
pub struct UpstreamStatus {
    pub url: String,
    pub online: bool,
    pub active_conns: i64,
    pub latency_ema_ms: u64,
    pub consec_failures: u32,
    pub weight: u32,
    pub priority: u32,
}

impl UpstreamStatus {
    /// The snapshot of `e`.
    pub open spec fn of(e: UpstreamEntry) -> UpstreamStatus {
        UpstreamStatus {
            url: e.config.url,
            online: e.online,
            active_conns: e.active_conns,
            latency_ema_ms: e.latency_ema_ms,
            consec_failures: e.consec_failures,
            weight: e.config.weight,
            priority: e.config.priority,
        }
    }
}

/// The collection of upstream entries.
#[derive(Debug)]
pub struct UpstreamPool {
    pub entries: Vec<UpstreamEntry>,
    /// Cursor of the round-robin selection.
    pub rr_counter: u64,
    /// The id of the next upstream that is added.
    pub next_id: u64,
}

/// The contents of a pool.
#[verifier::ext_equal]
pub struct PoolView {
    pub entries: Seq<UpstreamEntry>,
    pub rr_counter: u64,
    pub next_id: u64,
}

impl View for UpstreamPool {
    type V = PoolView;

    open spec fn view(&self) -> PoolView {
        PoolView {
            entries: self.entries@,
            rr_counter: self.rr_counter,
            next_id: self.next_id,
        }
    }
}

/// The indices in `0..n` of online entries outside `exclude`, each as often as it has slots.
pub open spec fn candidates(entries: Seq<UpstreamEntry>, exclude: Seq<usize>, n: int) -> Seq<int>
    decreases n,
{
    if n <= 0 {
        Seq::empty()
    } else if eligible(entries, exclude, n - 1) {
        candidates(entries, exclude, n - 1) + Seq::new(entries[n - 1].slots(), |k: int| n - 1)
    } else {
        candidates(entries, exclude, n - 1)
    }
}

/// Whether entry `i` may be selected: it is online and not excluded.
pub open spec fn eligible(entries: Seq<UpstreamEntry>, exclude: Seq<usize>, i: int) -> bool {
    0 <= i < entries.len() && entries[i].online && !listed(exclude, i)
}

/// Whether the index `i` is in `list`.
pub open spec fn listed(list: Seq<usize>, i: int) -> bool {
    exists|k: int| 0 <= k < list.len() && #[trigger] list[k] == i
}

/// The number by which `mode` ranks an entry; the lowest wins.
pub open spec fn rank(e: UpstreamEntry, mode: BalanceMode) -> nat {
    match mode {
        BalanceMode::Priority => e.config.priority as nat,
        _ => e.score_value(),
    }
}

/// Whether `i` is the eligible entry with the lowest rank, the first of several.
pub open spec fn ranks_first(
    entries: Seq<UpstreamEntry>,
    mode: BalanceMode,
    exclude: Seq<usize>,
    i: int,
) -> bool {
    &&& eligible(entries, exclude, i)
    &&& forall|j: int| #[trigger]
        eligible(entries, exclude, j) ==> rank(entries[i], mode) < rank(entries[j], mode) || (rank(
            entries[i],
            mode,
        ) == rank(entries[j], mode) && i <= j)
}

impl PoolView {
    /// The round of the round-robin selection.
    pub open spec fn round(self, exclude: Seq<usize>) -> Seq<int> {
        candidates(self.entries, exclude, self.entries.len() as int)
    }

    /// Whether there is an upstream to select.
    pub open spec fn any_eligible(self, exclude: Seq<usize>) -> bool {
        exists|i: int| eligible(self.entries, exclude, i)
    }

    /// The index that is selected.
    pub open spec fn choice(self, mode: BalanceMode, exclude: Seq<usize>) -> Option<int> {
        if !self.any_eligible(exclude) {
            None
        } else if mode == BalanceMode::RoundRobin {
            let round = self.round(exclude);
            Some(round[self.rr_counter as usize as int % round.len() as int])
        } else {
            Some(choose|i: int| ranks_first(self.entries, mode, exclude, i))
        }
    }

    /// The pool after a selection: a round-robin selection moves the cursor.
    pub open spec fn after_selection(self, mode: BalanceMode, exclude: Seq<usize>) -> PoolView {
        if mode == BalanceMode::RoundRobin && self.any_eligible(exclude) {
            PoolView { rr_counter: self.rr_counter.wrapping_add(1), ..self }
        } else {
            self
        }
    }

    /// The pool after `event` at the upstream with this id. Where the pool does
    /// not hold that upstream any more nothing changes.
    pub open spec fn after(self, id: u64, event: EntryEvent) -> PoolView {
        PoolView {
            entries: Seq::new(
                self.entries.len(),
                |i: int|
                    if self.entries[i].id == id {
                        self.entries[i].after(event)
                    } else {
                        self.entries[i]
                    },
            ),
            ..self
        }
    }

    /// Whether the pool holds the upstream with this id.
    pub open spec fn has(self, id: u64) -> bool {
        exists|i: int| 0 <= i < self.entries.len() && (#[trigger] self.entries[i]).id == id
    }

    /// Every id was handed out before, and no two entries have the same.
    pub open spec fn wf(self) -> bool {
        &&& forall|i: int|
            0 <= i < self.entries.len() ==> (#[trigger] self.entries[i]).id < self.next_id
        &&& forall|i: int, j: int|
            0 <= i < j < self.entries.len() ==> (#[trigger] self.entries[i]).id != (
            #[trigger] self.entries[j]).id
    }

    /// The indices of the upstreams with these ids.
    pub open spec fn positions(self, ids: Seq<u64>) -> Seq<usize> {
        positions_among(self.entries, ids, self.entries.len() as int)
    }
}

/// The indices below `n` of the entries with one of these ids.
pub open spec fn positions_among(entries: Seq<UpstreamEntry>, ids: Seq<u64>, n: int) -> Seq<usize>
    decreases n,
{
    if n <= 0 {
        Seq::empty()
    } else if ids.contains(entries[n - 1].id) {
        positions_among(entries, ids, n - 1).push((n - 1) as usize)
    } else {
        positions_among(entries, ids, n - 1)
    }
}

/// The positions of some ids are just the indices of the entries with such an id.
pub proof fn lemma_positions(entries: Seq<UpstreamEntry>, ids: Seq<u64>, n: int, i: int)
    requires
        0 <= n <= entries.len() <= usize::MAX,
    ensures
        listed(positions_among(entries, ids, n), i) <==> 0 <= i < n && ids.contains(entries[i].id),
    decreases n,
{
    if n > 0 {
        lemma_positions(entries, ids, n - 1, i);
        let before = positions_among(entries, ids, n - 1);
        let all = positions_among(entries, ids, n);
        if ids.contains(entries[n - 1].id) {
            assert(all[before.len() as int] == n - 1);
            if listed(before, i) {
                let k = choose|k: int| 0 <= k < before.len() && #[trigger] before[k] == i;
                assert(all[k] == i);
            }
            if listed(all, i) && i != n - 1 {
                let k = choose|k: int| 0 <= k < all.len() && #[trigger] all[k] == i;
                assert(before[k] == i);
            }
        }
    }
}

proof fn lemma_ranks_first_unique(
    entries: Seq<UpstreamEntry>,
    mode: BalanceMode,
    exclude: Seq<usize>,
    i: int,
    j: int,
)
    requires
        ranks_first(entries, mode, exclude, i),
        ranks_first(entries, mode, exclude, j),
    ensures
        i == j,
{
}

/// The round holds eligible indices only, and every one of them.
pub proof fn lemma_candidates(entries: Seq<UpstreamEntry>, exclude: Seq<usize>, n: int)
    requires
        0 <= n <= entries.len(),
    ensures
        forall|k: int|
            0 <= k < candidates(entries, exclude, n).len() ==> {
                let i = #[trigger] candidates(entries, exclude, n)[k];
                0 <= i < n && eligible(entries, exclude, i)
            },
        forall|i: int|
            0 <= i < n && #[trigger] eligible(entries, exclude, i) ==> candidates(
                entries,
                exclude,
                n,
            ).contains(i),
    decreases n,
{
    if n > 0 {
        lemma_candidates(entries, exclude, n - 1);
        let prev = candidates(entries, exclude, n - 1);
        let all = candidates(entries, exclude, n);
        assert forall|i: int| 0 <= i < n && #[trigger] eligible(entries, exclude, i) implies all.contains(
            i,
        ) by {
            if i < n - 1 {
                let k = choose|k: int| 0 <= k < prev.len() && prev[k] == i;
                assert(all[k] == i);
            } else {
                assert(all[prev.len() as int] == i);
            }
        }
    }
}

/// Whether `x` is in `list`.
fn holds(list: &[usize], x: usize) -> (r: bool)
    ensures
        r == listed(list@, x as int),
{
    let mut k: usize = 0;
    while k < list.len()
        invariant
            k <= list@.len(),
            forall|j: int| 0 <= j < k ==> list@[j] != x,
        decreases list@.len() - k,
    {
        if list[k] == x {
            return true;
        }
        k += 1;
    }
    false
}

fn holds_id(ids: &[u64], id: u64) -> (r: bool)
    ensures
        r == ids@.contains(id),
{
    let mut k: usize = 0;
    while k < ids.len()
        invariant
            k <= ids@.len(),
            forall|j: int| 0 <= j < k ==> ids@[j] != id,
        decreases ids@.len() - k,
    {
        if ids[k] == id {
            return true;
        }
        k += 1;
    }
    false
}

impl UpstreamPool {
    /// Build an initial pool from a freshly loaded `Config`.
    pub fn from_config(cfg: &Config) -> (r: Self)
        ensures
            r.entries@ == Seq::new(
                cfg.upstream@.len(),
                |i: int| UpstreamEntry::fresh(i as u64, cfg.upstream@[i]),
            ),
            r.rr_counter == 0,
            r.next_id == cfg.upstream@.len(),
            r@.wf(),
    {
        let mut entries: Vec<UpstreamEntry> = Vec::new();
        let mut i: usize = 0;
        while i < cfg.upstream.len()
            invariant
                i <= cfg.upstream@.len(),
                entries@.len() == i,
                forall|j: int|
                    0 <= j < i ==> entries@[j] == UpstreamEntry::fresh(
                        j as u64,
                        cfg.upstream@[j],
                    ),
            decreases cfg.upstream@.len() - i,
        {
            entries.push(UpstreamEntry::new(i as u64, cfg.upstream[i].clone()));
            i += 1;
        }
        let next_id: u64 = entries.len() as u64;
        UpstreamPool { entries, rr_counter: 0, next_id }
    }

    fn is_eligible(&self, exclude: &[usize], i: usize) -> (r: bool)
        requires
            i < self.entries@.len(),
        ensures
            r == eligible(self.entries@, exclude@, i as int),
    {
        self.entries[i].online && !holds(exclude, i)
    }

    /// Select an online upstream, skipping indices in `exclude`.
    /// Returns `(pool_index, entry)` or `None` when no online upstream remains.
    pub fn select(&mut self, mode: BalanceMode, exclude: &[usize]) -> (r: Option<
        (usize, UpstreamEntry),
    >)
        ensures
            final(self)@ == old(self)@.after_selection(mode, exclude@),
            old(self)@.wf() ==> final(self)@.wf(),
            match r {
                Some((i, e)) => {
                    &&& old(self)@.choice(mode, exclude@) == Some(i as int)
                    &&& eligible(old(self).entries@, exclude@, i as int)
                    &&& e == old(self).entries@[i as int]
                    &&& mode != BalanceMode::RoundRobin ==> ranks_first(
                        old(self).entries@,
                        mode,
                        exclude@,
                        i as int,
                    )
                },
                None => old(self)@.choice(mode, exclude@) is None,
            },
    {
        match mode {
            BalanceMode::RoundRobin => self.select_rr(exclude),
            BalanceMode::Best => self.select_ranked(BalanceMode::Best, exclude),
            BalanceMode::Priority => self.select_ranked(BalanceMode::Priority, exclude),
        }
    }

    fn select_rr(&mut self, exclude: &[usize]) -> (r: Option<(usize, UpstreamEntry)>)
        ensures
            final(self)@ == old(self)@.after_selection(BalanceMode::RoundRobin, exclude@),
            match r {
                Some((i, e)) => {
                    &&& old(self)@.choice(BalanceMode::RoundRobin, exclude@) == Some(i as int)
                    &&& eligible(old(self).entries@, exclude@, i as int)
                    &&& e == old(self).entries@[i as int]
                },
                None => old(self)@.choice(BalanceMode::RoundRobin, exclude@) is None,
            },
    {
        let ghost entries = self.entries@;
        let mut total: u128 = 0;
        let mut i: usize = 0;
        while i < self.entries.len()
            invariant
                i <= self.entries@.len(),
                self.entries@ == entries,
                total == candidates(entries, exclude@, i as int).len(),
                total <= i * 0xffff_ffff,
            decreases self.entries@.len() - i,
        {
            if self.is_eligible(exclude, i) {
                total = total + self.slot_count(i) as u128;
            }
            i += 1;
        }
        proof {
            lemma_candidates(entries, exclude@, entries.len() as int);
        }
        let ghost round = candidates(entries, exclude@, entries.len() as int);
        if total == 0 {
            proof {
                assert forall|i: int| !eligible(entries, exclude@, i) by {
                    if eligible(entries, exclude@, i) {
                        assert(round.contains(i));
                    }
                }
            }
            return None;
        }
        assert(eligible(entries, exclude@, round[0]));
        let target: u128 = (self.rr_counter as usize) as u128 % total;
        self.rr_counter = self.rr_counter.wrapping_add(1);
        let pool_idx = self.slot_owner(exclude, target);
        Some((pool_idx, self.entries[pool_idx].clone()))
    }

    fn slot_count(&self, i: usize) -> (r: u32)
        requires
            i < self.entries@.len(),
        ensures
            r == self.entries@[i as int].slots(),
    {
        let weight: u32 = self.entries[i].config.weight;
        if weight == 0 {
            1
        } else {
            weight
        }
    }

    /// The index in slot `target` of the round.
    fn slot_owner(&self, exclude: &[usize], target: u128) -> (r: usize)
        requires
            target < self@.round(exclude@).len(),
        ensures
            r < self.entries@.len(),
            r == self@.round(exclude@)[target as int],
            eligible(self.entries@, exclude@, r as int),
    {
        let ghost entries = self.entries@;
        let ghost n = entries.len() as int;
        let mut left: u128 = target;
        let mut i: usize = 0;
        while i < self.entries.len()
            invariant
                i <= self.entries@.len(),
                self.entries@ == entries,
                n == entries.len(),
                target < candidates(entries, exclude@, n).len(),
                left == target - candidates(entries, exclude@, i as int).len(),
            decreases self.entries@.len() - i,
        {
            if self.is_eligible(exclude, i) {
                let here: u128 = self.slot_count(i) as u128;
                if left < here {
                    proof {
                        lemma_candidates_prefix(entries, exclude@, i + 1, n);
                        let upto = candidates(entries, exclude@, i + 1);
                        assert(upto[target as int] == i);
                    }
                    return i;
                }
                left = left - here;
            }
            i += 1;
        }
        assert(false);
        0
    }

    fn select_ranked(&mut self, mode: BalanceMode, exclude: &[usize]) -> (r: Option<
        (usize, UpstreamEntry),
    >)
        requires
            mode != BalanceMode::RoundRobin,
        ensures
            final(self)@ == old(self)@.after_selection(mode, exclude@),
            match r {
                Some((i, e)) => {
                    &&& old(self)@.choice(mode, exclude@) == Some(i as int)
                    &&& ranks_first(old(self).entries@, mode, exclude@, i as int)
                    &&& e == old(self).entries@[i as int]
                },
                None => old(self)@.choice(mode, exclude@) is None,
            },
    {
        let mut best: Option<(usize, u128)> = None;
        let mut i: usize = 0;
        while i < self.entries.len()
            invariant
                i <= self.entries@.len(),
                match best {
                    Some((b, rank_b)) => {
                        &&& b < i
                        &&& eligible(self.entries@, exclude@, b as int)
                        &&& rank_b == rank(self.entries@[b as int], mode)
                        &&& forall|j: int|
                            0 <= j < i && #[trigger] eligible(self.entries@, exclude@, j)
                                ==> rank_b < rank(self.entries@[j], mode) || (rank_b == rank(
                                self.entries@[j],
                                mode,
                            ) && b <= j)
                    },
                    None => forall|j: int|
                        0 <= j < i ==> !(#[trigger] eligible(self.entries@, exclude@, j)),
                },
            decreases self.entries@.len() - i,
        {
            if self.is_eligible(exclude, i) {
                let here: u128 = self.rank_of(i, mode);
                match best {
                    Some((_, rank_b)) if rank_b <= here => {},
                    _ => {
                        best = Some((i, here));
                    },
                }
            }
            i += 1;
        }
        match best {
            Some((b, _)) => {
                proof {
                    assert(ranks_first(self.entries@, mode, exclude@, b as int));
                    let c = choose|i: int| ranks_first(self.entries@, mode, exclude@, i);
                    lemma_ranks_first_unique(self.entries@, mode, exclude@, b as int, c);
                    assert(eligible(self@.entries, exclude@, b as int));
                    assert(self@.any_eligible(exclude@));
                }
                Some((b, self.entries[b].clone()))
            },
            None => None,
        }
    }

    fn rank_of(&self, i: usize, mode: BalanceMode) -> (r: u128)
        requires
            i < self.entries@.len(),
        ensures
            r == rank(self.entries@[i as int], mode),
    {
        match mode {
            BalanceMode::Priority => self.entries[i].config.priority as u128,
            _ => self.entries[i].wide_score(),
        }
    }
}

/// The offline ones among the first `n` entries, each with its index.
pub open spec fn offline_among(entries: Seq<UpstreamEntry>, n: int) -> Seq<(usize, UpstreamEntry)>
    decreases n,
{
    if n <= 0 {
        Seq::empty()
    } else if entries[n - 1].online {
        offline_among(entries, n - 1)
    } else {
        offline_among(entries, n - 1).push(((n - 1) as usize, entries[n - 1]))
    }
}

/// The position of the first entry with this URL, or the number of entries.
pub open spec fn position_of_url(entries: Seq<UpstreamEntry>, url: Seq<char>) -> int
    decreases entries.len(),
{
    if entries.len() == 0 || entries[0].config.url@ == url {
        0
    } else {
        1 + position_of_url(entries.drop_first(), url)
    }
}

/// `position_of_url` is the only position with the URL (or the end) at it and
/// no entry with the URL before it.
pub proof fn lemma_position_of_url(entries: Seq<UpstreamEntry>, url: Seq<char>, k: int)
    requires
        0 <= k <= entries.len(),
        k < entries.len() ==> entries[k].config.url@ == url,
        forall|j: int| 0 <= j < k ==> (#[trigger] entries[j]).config.url@ != url,
    ensures
        position_of_url(entries, url) == k,
    decreases k,
{
    if k > 0 {
        assert(entries[0].config.url@ != url);
        let rest = entries.drop_first();
        assert forall|j: int| 0 <= j < k - 1 implies (#[trigger] rest[j]).config.url@ != url by {
            assert(entries[j + 1].config.url@ != url);
        }
        lemma_position_of_url(rest, url, k - 1);
    }
}

/// What `position_of_url` finds: the first entry with the URL, or the end.
pub proof fn lemma_position_bound(entries: Seq<UpstreamEntry>, url: Seq<char>)
    ensures
        0 <= position_of_url(entries, url) <= entries.len(),
        position_of_url(entries, url) < entries.len() ==> entries[position_of_url(
            entries,
            url,
        )].config.url@ == url,
        forall|j: int|
            0 <= j < position_of_url(entries, url) ==> (#[trigger] entries[j]).config.url@ != url,
    decreases entries.len(),
{
    if entries.len() > 0 && entries[0].config.url@ != url {
        let rest = entries.drop_first();
        lemma_position_bound(rest, url);
        assert forall|j: int| 0 <= j < position_of_url(entries, url) implies (
        #[trigger] entries[j]).config.url@ != url by {
            if j > 0 {
                assert(rest[j - 1].config.url@ != url);
            }
        }
    }
}

/// Whether upstream `i` is the first one with its URL.
pub open spec fn first_listed(configs: Seq<UpstreamConfig>, i: int) -> bool {
    forall|j: int| 0 <= j < i ==> (#[trigger] configs[j]).url@ != configs[i].url@
}

fn is_first_listed(configs: &Vec<UpstreamConfig>, i: usize) -> (r: bool)
    requires
        i < configs@.len(),
    ensures
        r == first_listed(configs@, i as int),
{
    let mut j: usize = 0;
    while j < i
        invariant
            j <= i < configs@.len(),
            forall|k: int| 0 <= k < j ==> (#[trigger] configs@[k]).url@ != configs@[i as int].url@,
        decreases i - j,
    {
        if configs[j].url == configs[i].url {
            return false;
        }
        j += 1;
    }
    true
}

impl PoolView {
    /// What upstream `i` of a new configuration starts with: the state and the
    /// statistics of the first entry with the same URL, or those of a fresh entry
    /// where there is none. The first upstream with a URL also takes over the id;
    /// every other one gets an id of its own.
    pub open spec fn carried_over(self, configs: Seq<UpstreamConfig>, i: int) -> UpstreamEntry {
        let k = position_of_url(self.entries, configs[i].url@);
        let new_id = self.next_id.wrapping_add(i as u64);
        if k >= self.entries.len() {
            UpstreamEntry::fresh(new_id, configs[i])
        } else if first_listed(configs, i) {
            self.entries[k].carried_to(self.entries[k].id, configs[i])
        } else {
            self.entries[k].carried_to(new_id, configs[i])
        }
    }

    /// The statuses of all upstreams, in order.
    pub open spec fn statuses(self) -> Seq<UpstreamStatus> {
        Seq::new(self.entries.len(), |i: int| UpstreamStatus::of(self.entries[i]))
    }

    /// The pool after a reload with these upstreams.
    pub open spec fn reloaded(self, configs: Seq<UpstreamConfig>) -> PoolView {
        PoolView {
            entries: Seq::new(configs.len(), |i: int| self.carried_over(configs, i)),
            rr_counter: self.rr_counter,
            next_id: self.next_id.wrapping_add(configs.len() as u64),
        }
    }
}

/// An event changes no id.
pub proof fn lemma_after_keeps_wf(p: PoolView, id: u64, event: EntryEvent)
    requires
        p.wf(),
    ensures
        p.after(id, event).wf(),
{
    let q = p.after(id, event);
    assert forall|i: int| 0 <= i < q.entries.len() implies (#[trigger] q.entries[i]).id
        == p.entries[i].id by {}
}

/// A reload keeps the ids apart as long as there are ids left.
pub proof fn lemma_reloaded_wf(p: PoolView, configs: Seq<UpstreamConfig>)
    requires
        p.wf(),
        p.next_id + configs.len() <= u64::MAX,
    ensures
        p.reloaded(configs).wf(),
{
    let q = p.reloaded(configs);
    assert forall|i: int| 0 <= i < q.entries.len() implies (#[trigger] q.entries[i]).id < q.next_id
        && (q.entries[i].id < p.next_id ==> first_listed(configs, i) && ({
        let k = position_of_url(p.entries, configs[i].url@);
        0 <= k < p.entries.len() && q.entries[i].id == p.entries[k].id && p.entries[k].config.url@
            == configs[i].url@
    })) && (q.entries[i].id >= p.next_id ==> q.entries[i].id == p.next_id + i) by {
        lemma_position_bound(p.entries, configs[i].url@);
    }
    assert forall|i: int, j: int| 0 <= i < j < q.entries.len() implies (#[trigger] q.entries[i]).id
        != (#[trigger] q.entries[j]).id by {
        if q.entries[i].id < p.next_id && q.entries[j].id < p.next_id {
            assert(configs[i].url@ != configs[j].url@);
            let k = position_of_url(p.entries, configs[i].url@);
            let m = position_of_url(p.entries, configs[j].url@);
            assert(p.entries[k].id != p.entries[m].id);
        }
    }
}

impl UpstreamPool {
    pub fn len(&self) -> (r: usize)
        ensures
            r == self.entries@.len(),
    {
        self.entries.len()
    }

    /// Snapshot of all offline entries with their indices (for the health checker).
    pub fn offline_entries(&self) -> (r: Vec<(usize, UpstreamEntry)>)
        ensures
            r@ == offline_among(self.entries@, self.entries@.len() as int),
    {
        let mut r: Vec<(usize, UpstreamEntry)> = Vec::new();
        let mut i: usize = 0;
        while i < self.entries.len()
            invariant
                i <= self.entries@.len(),
                r@ == offline_among(self.entries@, i as int),
            decreases self.entries@.len() - i,
        {
            if !self.entries[i].is_online() {
                r.push((i, self.entries[i].clone()));
            }
            i += 1;
        }
        r
    }

    /// Get status of all upstreams for metrics/admin API.
    pub fn all_status(&self) -> (r: Vec<UpstreamStatus>)
        ensures
            r@ == self@.statuses(),
    {
        let mut r: Vec<UpstreamStatus> = Vec::new();
        let mut i: usize = 0;
        while i < self.entries.len()
            invariant
                i <= self.entries@.len(),
                r@ == self@.statuses().take(i as int),
            decreases self.entries@.len() - i,
        {
            let e = &self.entries[i];
            r.push(
                UpstreamStatus {
                    url: e.config.url.clone(),
                    online: e.is_online(),
                    active_conns: e.active_conns,
                    latency_ema_ms: e.latency_ema_ms,
                    consec_failures: e.consec_failures,
                    weight: e.config.weight,
                    priority: e.config.priority,
                },
            );
            i += 1;
        }
        r
    }

    /// Applies `event` to the upstream with this id.
    /// Returns whether that upstream is still in the pool.
    pub fn apply(&mut self, id: u64, event: EntryEvent) -> (r: bool)
        ensures
            final(self)@ == old(self)@.after(id, event),
            old(self)@.wf() ==> final(self)@.wf(),
            r == old(self)@.has(id),
    {
        let ghost before = self@;
        let ghost target = before.after(id, event);
        let mut found = false;
        let mut i: usize = 0;
        while i < self.entries.len()
            invariant
                i <= self.entries@.len(),
                target == before.after(id, event),
                self.rr_counter == before.rr_counter,
                self.next_id == before.next_id,
                self.entries@.len() == before.entries.len(),
                forall|j: int| 0 <= j < i ==> #[trigger] self.entries@[j] == target.entries[j],
                forall|j: int|
                    i <= j < before.entries.len() ==> #[trigger] self.entries@[j]
                        == before.entries[j],
                found == exists|j: int| 0 <= j < i && (#[trigger] before.entries[j]).id == id,
            decreases self.entries@.len() - i,
        {
            assert(self.entries@[i as int] == before.entries[i as int]);
            if self.entries[i].id == id {
                self.entries[i].apply(event);
                found = true;
            }
            i += 1;
        }
        assert(self@.entries == target.entries);
        proof {
            if before.wf() {
                lemma_after_keeps_wf(before, id, event);
            }
        }
        found
    }

    /// The indices of the upstreams with these ids.
    pub fn find_positions(&self, ids: &[u64]) -> (r: Vec<usize>)
        ensures
            r@ == self@.positions(ids@),
    {
        let mut r: Vec<usize> = Vec::new();
        let mut i: usize = 0;
        while i < self.entries.len()
            invariant
                i <= self.entries@.len(),
                r@ == positions_among(self.entries@, ids@, i as int),
            decreases self.entries@.len() - i,
        {
            if holds_id(ids, self.entries[i].id) {
                r.push(i);
            }
            i += 1;
        }
        r
    }

    fn find_url(&self, url: &String) -> (r: usize)
        ensures
            r == position_of_url(self.entries@, url@),
            r <= self.entries@.len(),
    {
        let mut k: usize = 0;
        while k < self.entries.len() && self.entries[k].config.url != *url
            invariant
                k <= self.entries@.len(),
                forall|j: int| 0 <= j < k ==> (#[trigger] self.entries@[j]).config.url@ != url@,
            decreases self.entries@.len() - k,
        {
            k += 1;
        }
        proof {
            lemma_position_of_url(self.entries@, url@, k as int);
        }
        k
    }

    /// Replace the upstream list from a new config while preserving state/stats
    /// for upstreams that already exist (matched by URL).
    pub fn reload(&mut self, new_cfg: &Config)
        ensures
            final(self)@ == old(self)@.reloaded(new_cfg.upstream@),
            old(self)@.wf() && old(self)@.next_id + new_cfg.upstream@.len() <= u64::MAX
                ==> final(self)@.wf(),
    {
        let ghost before = self@;
        let mut new_entries: Vec<UpstreamEntry> = Vec::new();
        let mut i: usize = 0;
        while i < new_cfg.upstream.len()
            invariant
                i <= new_cfg.upstream@.len(),
                new_entries@.len() == i,
                forall|j: int|
                    0 <= j < i ==> #[trigger] new_entries@[j] == self@.carried_over(
                        new_cfg.upstream@,
                        j,
                    ),
            decreases new_cfg.upstream@.len() - i,
        {
            let upstream_cfg = &new_cfg.upstream[i];
            let k = self.find_url(&upstream_cfg.url);
            let new_id: u64 = self.next_id.wrapping_add(i as u64);
            if k < self.entries.len() {
                let existing = &self.entries[k];
                let id: u64 = if is_first_listed(&new_cfg.upstream, i) {
                    existing.id
                } else {
                    new_id
                };
                new_entries.push(UpstreamEntry::from_existing(existing, id, upstream_cfg.clone()));
            } else {
                new_entries.push(UpstreamEntry::new(new_id, upstream_cfg.clone()));
            }
            i += 1;
        }
        self.next_id = self.next_id.wrapping_add(new_entries.len() as u64);
        self.entries = new_entries;
        proof {
            assert(self@.entries == before.reloaded(new_cfg.upstream@).entries);
            if before.wf() && before.next_id + new_cfg.upstream@.len() <= u64::MAX {
                lemma_reloaded_wf(before, new_cfg.upstream@);
            }
        }
    }
}

/// A longer list of entries only adds to the round.
pub proof fn lemma_candidates_prefix(
    entries: Seq<UpstreamEntry>,
    exclude: Seq<usize>,
    m: int,
    n: int,
)
    requires
        0 <= m <= n <= entries.len(),
    ensures
        candidates(entries, exclude, m).len() <= candidates(entries, exclude, n).len(),
        forall|k: int|
            0 <= k < candidates(entries, exclude, m).len() ==> #[trigger] candidates(
                entries,
                exclude,
                n,
            )[k] == candidates(entries, exclude, m)[k],
    decreases n,
{
    if m < n {
        lemma_candidates_prefix(entries, exclude, m, n - 1);
    }
}

} // verus!
