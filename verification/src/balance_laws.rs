//! Laws of upstream selection, state keeping and reload.

use crate::config::{BalanceMode, Config, UpstreamConfig};
use crate::upstream::{
    candidates, eligible, ema, first_listed, lemma_after_keeps_wf, lemma_candidates,
    lemma_position_bound, lemma_position_of_url, lemma_positions, lemma_reloaded_wf, listed,
    offline_among, position_of_url, rank, ranks_first, EntryEvent, PoolView, UpstreamEntry,
    UpstreamPool, UpstreamStatus,
};
use vstd::prelude::*;

verus! {

/// Among eligible entries below `n` one ranks first.
proof fn lemma_some_ranks_first(
    entries: Seq<UpstreamEntry>,
    mode: BalanceMode,
    exclude: Seq<usize>,
    n: int,
    witness: int,
) -> (b: int)
    requires
        0 <= witness < n <= entries.len(),
        eligible(entries, exclude, witness),
    ensures
        0 <= b < n,
        eligible(entries, exclude, b),
        forall|j: int|
            0 <= j < n && #[trigger] eligible(entries, exclude, j) ==> rank(entries[b], mode)
                < rank(entries[j], mode) || (rank(entries[b], mode) == rank(entries[j], mode) && b
                <= j),
    decreases n,
{
    if witness < n - 1 {
        let b = lemma_some_ranks_first(entries, mode, exclude, n - 1, witness);
        if eligible(entries, exclude, n - 1) && rank(entries[n - 1], mode) < rank(
            entries[b],
            mode,
        ) {
            n - 1
        } else {
            b
        }
    } else if exists|j: int| 0 <= j < n - 1 && #[trigger] eligible(entries, exclude, j) {
        let w = choose|j: int| 0 <= j < n - 1 && #[trigger] eligible(entries, exclude, j);
        let b = lemma_some_ranks_first(entries, mode, exclude, n - 1, w);
        if rank(entries[n - 1], mode) < rank(entries[b], mode) {
            n - 1
        } else {
            b
        }
    } else {
        witness
    }
}

/// An upstream is selected whenever one is online and not excluded, and only
/// such an upstream is ever selected. Apart from round-robin it is the one with
/// the lowest rank.
pub proof fn law_choice_is_eligible(p: PoolView, mode: BalanceMode, exclude: Seq<usize>)
    ensures
        p.choice(mode, exclude) is Some <==> p.any_eligible(exclude),
        p.choice(mode, exclude) matches Some(i) ==> eligible(p.entries, exclude, i),
        p.choice(mode, exclude) matches Some(i) ==> (mode != BalanceMode::RoundRobin
            ==> ranks_first(p.entries, mode, exclude, i)),
{
    if p.any_eligible(exclude) {
        let w = choose|i: int| eligible(p.entries, exclude, i);
        let n = p.entries.len() as int;
        if mode == BalanceMode::RoundRobin {
            lemma_candidates(p.entries, exclude, n);
            let round = p.round(exclude);
            assert(round.contains(w));
            let k = p.rr_counter as usize as int % round.len() as int;
            assert(eligible(p.entries, exclude, round[k]));
        } else {
            let b = lemma_some_ranks_first(p.entries, mode, exclude, n, w);
            assert(ranks_first(p.entries, mode, exclude, b));
        }
    }
}

proof fn lemma_same_candidates(
    a: Seq<UpstreamEntry>,
    b: Seq<UpstreamEntry>,
    exclude_a: Seq<usize>,
    exclude_b: Seq<usize>,
    n: int,
)
    requires
        a.len() == b.len(),
        0 <= n <= a.len(),
        forall|j: int| 0 <= j < a.len() ==> (#[trigger] a[j]).config == b[j].config,
        forall|j: int| eligible(a, exclude_a, j) == #[trigger] eligible(b, exclude_b, j),
    ensures
        candidates(a, exclude_a, n) == candidates(b, exclude_b, n),
    decreases n,
{
    if n > 0 {
        lemma_same_candidates(a, b, exclude_a, exclude_b, n - 1);
        assert(eligible(a, exclude_a, n - 1) == eligible(b, exclude_b, n - 1));
        assert(a[n - 1].config == b[n - 1].config);
        assert(Seq::new(a[n - 1].slots(), |k: int| n - 1) == Seq::new(
            b[n - 1].slots(),
            |k: int| n - 1,
        ));
    }
}

/// An upstream that goes offline is from then on treated as if it were excluded:
/// routing falls back to what would be selected without it.
pub proof fn law_offline_upstream_is_bypassed(
    p: PoolView,
    mode: BalanceMode,
    exclude: Seq<usize>,
    id: u64,
)
    requires
        p.entries.len() <= usize::MAX,
    ensures
        p.after(id, EntryEvent::WentOffline).choice(mode, exclude) == p.choice(
            mode,
            exclude + p.positions(seq![id]),
        ),
        p.after(id, EntryEvent::WentOffline).choice(mode, exclude) matches Some(i)
            ==> p.entries[i].id != id,
{
    let q = p.after(id, EntryEvent::WentOffline);
    let own = p.positions(seq![id]);
    let more = exclude + own;
    let n = p.entries.len() as int;
    assert forall|j: int| eligible(q.entries, exclude, j) == #[trigger] eligible(
        p.entries,
        more,
        j,
    ) by {
        lemma_positions(p.entries, seq![id], n, j);
        assert(seq![id].contains(id)) by {
            assert(seq![id][0] == id);
        }
        if listed(exclude, j) {
            let k = choose|k: int| 0 <= k < exclude.len() && #[trigger] exclude[k] == j;
            assert(more[k] == j);
        }
        if listed(own, j) {
            let k = choose|k: int| 0 <= k < own.len() && #[trigger] own[k] == j;
            assert(more[exclude.len() + k] == j);
        }
        if listed(more, j) {
            let k = choose|k: int| 0 <= k < more.len() && #[trigger] more[k] == j;
            if k < exclude.len() {
                assert(exclude[k] == j);
            } else {
                assert(own[k - exclude.len()] == j);
            }
        }
    }
    law_choice_is_eligible(p, mode, more);
    law_choice_is_eligible(q, mode, exclude);
    if p.any_eligible(more) {
        let w = choose|j: int| eligible(p.entries, more, j);
        assert(eligible(q.entries, exclude, w));
        if mode == BalanceMode::RoundRobin {
            lemma_same_candidates(q.entries, p.entries, exclude, more, n);
        } else {
            let a = q.choice(mode, exclude)->0;
            let b = p.choice(mode, more)->0;
            assert(eligible(p.entries, more, a) && eligible(q.entries, exclude, b));
            assert(p.entries[a].id != id && p.entries[b].id != id);
        }
    } else {
        assert forall|j: int| !eligible(q.entries, exclude, j) by {
            assert(!eligible(p.entries, more, j));
        }
    }
}

/// An upstream that comes back online can be selected again.
pub proof fn law_recovered_upstream_is_eligible(p: PoolView, exclude: Seq<usize>, i: int)
    requires
        0 <= i < p.entries.len(),
        !listed(exclude, i),
    ensures
        eligible(
            p.after(p.entries[i].id, EntryEvent::WentOffline).after(
                p.entries[i].id,
                EntryEvent::CameOnline,
            ).entries,
            exclude,
            i,
        ),
{
}

/// A recovery undoes a failure but for the failure count, which starts anew.
pub proof fn law_recovery_undoes_failure(e: UpstreamEntry)
    requires
        e.online,
    ensures
        e.after(EntryEvent::WentOffline).after(EntryEvent::CameOnline) == (UpstreamEntry {
            consec_failures: 0,
            ..e
        }),
{
}

/// Going offline twice is the same as once, and so is coming online.
pub proof fn law_state_changes_are_idempotent(e: UpstreamEntry)
    ensures
        e.after(EntryEvent::WentOffline).after(EntryEvent::WentOffline) == e.after(
            EntryEvent::WentOffline,
        ),
        e.after(EntryEvent::CameOnline).after(EntryEvent::CameOnline) == e.after(
            EntryEvent::CameOnline,
        ),
{
}

/// A connection that was opened and closed leaves no trace.
pub proof fn law_close_undoes_open(e: UpstreamEntry)
    ensures
        e.after(EntryEvent::Opened).after(EntryEvent::Closed) == e,
{
}

/// The moving average lies between the old average and the new sample.
pub proof fn law_average_lies_between(old_ms: nat, sample_ms: nat)
    requires
        old_ms > 0,
    ensures
        old_ms <= sample_ms ==> old_ms <= ema(old_ms, sample_ms) <= sample_ms,
        sample_ms <= old_ms ==> sample_ms <= ema(old_ms, sample_ms) <= old_ms,
{
}

/// One more in-flight connection raises the score by 50.
pub proof fn law_connection_penalty(e: UpstreamEntry)
    requires
        0 <= e.active_conns < i64::MAX,
    ensures
        e.after(EntryEvent::Opened).score_value() == e.score_value() + 50,
{
}

/// A reload keeps the state and the statistics of an upstream whose URL is still
/// listed, and takes over its new configuration. The first upstream with the URL
/// keeps the id too; any other one gets an id that no entry had before.
pub proof fn law_reload_keeps_state(p: PoolView, configs: Seq<UpstreamConfig>, i: int, k: int)
    requires
        0 <= i < configs.len(),
        0 <= k < p.entries.len(),
        p.entries[k].config.url@ == configs[i].url@,
        forall|j: int| 0 <= j < k ==> (#[trigger] p.entries[j]).config.url@ != configs[i].url@,
    ensures
        first_listed(configs, i) ==> p.reloaded(configs).entries[i] == (UpstreamEntry {
            config: configs[i],
            ..p.entries[k]
        }),
        !first_listed(configs, i) ==> p.reloaded(configs).entries[i] == (UpstreamEntry {
            id: p.next_id.wrapping_add(i as u64),
            config: configs[i],
            ..p.entries[k]
        }),
{
    lemma_position_of_url(p.entries, configs[i].url@, k);
}

/// A reload gives an upstream with a new URL a fresh entry.
pub proof fn law_reload_adds_fresh(p: PoolView, configs: Seq<UpstreamConfig>, i: int)
    requires
        0 <= i < configs.len(),
        forall|j: int|
            0 <= j < p.entries.len() ==> (#[trigger] p.entries[j]).config.url@
                != configs[i].url@,
    ensures
        p.reloaded(configs).entries[i] == UpstreamEntry::fresh(
            p.next_id.wrapping_add(i as u64),
            configs[i],
        ),
{
    lemma_position_of_url(p.entries, configs[i].url@, p.entries.len() as int);
}

/// A reload with an unchanged list of different URLs changes no entry.
pub proof fn law_unchanged_reload_keeps_entries(p: PoolView)
    requires
        forall|i: int, j: int|
            0 <= i < j < p.entries.len() ==> (#[trigger] p.entries[i]).config.url@ != (
            #[trigger] p.entries[j]).config.url@,
    ensures
        p.reloaded(p.entries.map_values(|e: UpstreamEntry| e.config)).entries == p.entries,
{
    let configs = p.entries.map_values(|e: UpstreamEntry| e.config);
    assert forall|i: int| 0 <= i < p.entries.len() implies p.reloaded(configs).entries[i]
        == p.entries[i] by {
        law_reload_keeps_state(p, configs, i, i);
    }
}

/// The ids of a pool always differ, and an id that a reload does not find in the
/// pool was never handed out before.
pub proof fn law_ids_are_handed_out_once(
    p: PoolView,
    configs: Seq<UpstreamConfig>,
    id: u64,
    event: EntryEvent,
)
    requires
        p.wf(),
        p.next_id + configs.len() <= u64::MAX,
    ensures
        p.after(id, event).wf(),
        p.reloaded(configs).wf(),
        forall|i: int, j: int|
            0 <= i < j < configs.len() ==> (#[trigger] p.reloaded(configs).entries[i]).id != (
            #[trigger] p.reloaded(configs).entries[j]).id,
        forall|i: int|
            0 <= i < configs.len() && !p.has((#[trigger] p.reloaded(configs).entries[i]).id)
                ==> p.next_id <= p.reloaded(configs).entries[i].id,
{
    let q = p.reloaded(configs);
    lemma_after_keeps_wf(p, id, event);
    lemma_reloaded_wf(p, configs);
    assert forall|i: int| 0 <= i < q.entries.len() && !p.has(
        (#[trigger] q.entries[i]).id,
    ) implies p.next_id <= q.entries[i].id by {
        lemma_position_bound(p.entries, configs[i].url@);
        let k = position_of_url(p.entries, configs[i].url@);
        if k < p.entries.len() && first_listed(configs, i) {
            assert(p.entries[k].id == q.entries[i].id);
        }
    }
}

proof fn lemma_event_keeps_positions(p: PoolView, id: u64, event: EntryEvent, url: Seq<char>)
    ensures
        position_of_url(p.after(id, event).entries, url) == position_of_url(p.entries, url),
{
    let q = p.after(id, event);
    let k = position_of_url(p.entries, url);
    lemma_position_bound(p.entries, url);
    assert forall|j: int| 0 <= j < k implies (#[trigger] q.entries[j]).config.url@ != url by {
        assert(p.entries[j].config.url@ != url);
    }
    lemma_position_of_url(q.entries, url, k);
}

/// It makes no difference whether something happens to an upstream before or after
/// a reload, but for an upstream whose URL is listed before it in the new list: that
/// one starts with what the reload finds, and goes its own way from then on.
pub proof fn law_events_commute_with_reload(
    p: PoolView,
    configs: Seq<UpstreamConfig>,
    id: u64,
    event: EntryEvent,
    i: int,
)
    requires
        id < p.next_id,
        p.next_id + configs.len() <= u64::MAX,
        0 <= i < configs.len(),
    ensures
        ({
            let k = position_of_url(p.entries, configs[i].url@);
            let before = p.after(id, event).reloaded(configs);
            let after = p.reloaded(configs).after(id, event);
            &&& first_listed(configs, i) ==> before.entries[i] == after.entries[i]
            &&& !first_listed(configs, i) ==> after.entries[i] == p.reloaded(configs).entries[i]
            &&& !first_listed(configs, i) ==> before.entries[i] == (if k < p.entries.len()
                && p.entries[k].id == id {
                p.reloaded(configs).entries[i].after(event)
            } else {
                p.reloaded(configs).entries[i]
            })
            &&& before.rr_counter == after.rr_counter
            &&& before.next_id == after.next_id
        }),
{
    lemma_position_bound(p.entries, configs[i].url@);
    lemma_event_keeps_positions(p, id, event, configs[i].url@);
}

/// Where every URL is listed once, it makes no difference at all whether something
/// happens to an upstream before or after a reload.
pub proof fn law_events_commute_where_urls_differ(
    p: PoolView,
    configs: Seq<UpstreamConfig>,
    id: u64,
    event: EntryEvent,
)
    requires
        id < p.next_id,
        p.next_id + configs.len() <= u64::MAX,
        forall|i: int| 0 <= i < configs.len() ==> #[trigger] first_listed(configs, i),
    ensures
        p.after(id, event).reloaded(configs) == p.reloaded(configs).after(id, event),
{
    let a = p.after(id, event).reloaded(configs);
    let b = p.reloaded(configs).after(id, event);
    assert forall|i: int| 0 <= i < configs.len() implies #[trigger] a.entries[i] == b.entries[i] by {
        law_events_commute_with_reload(p, configs, id, event, i);
        assert(first_listed(configs, i));
    }
    assert(a.entries == b.entries);
}

/// A connection that is opened before a reload and closed after it leaves no trace
/// at the upstream that carries it, nor at any other one that is the first with its
/// URL. An upstream whose URL is listed before it starts with the count that the
/// reload finds, and the end of that connection does not change it.
pub proof fn law_close_after_reload_undoes_open(
    p: PoolView,
    configs: Seq<UpstreamConfig>,
    id: u64,
    i: int,
)
    requires
        id < p.next_id,
        p.next_id + configs.len() <= u64::MAX,
        0 <= i < configs.len(),
    ensures
        ({
            let opened = p.after(id, EntryEvent::Opened).reloaded(configs);
            let closed = opened.after(id, EntryEvent::Closed);
            &&& first_listed(configs, i) ==> closed.entries[i] == p.reloaded(configs).entries[i]
            &&& !first_listed(configs, i) ==> closed.entries[i] == opened.entries[i]
        }),
{
    let q = p.reloaded(configs);
    law_events_commute_with_reload(p, configs, id, EntryEvent::Opened, i);
    lemma_position_bound(p.entries, configs[i].url@);
    law_close_undoes_open(q.entries[i]);
}

/// Where every URL is listed once, a connection that is opened before a reload and
/// closed after it leaves no trace in the pool.
pub proof fn law_close_after_reload_leaves_no_trace(
    p: PoolView,
    configs: Seq<UpstreamConfig>,
    id: u64,
)
    requires
        id < p.next_id,
        p.next_id + configs.len() <= u64::MAX,
        forall|i: int| 0 <= i < configs.len() ==> #[trigger] first_listed(configs, i),
    ensures
        p.after(id, EntryEvent::Opened).reloaded(configs).after(id, EntryEvent::Closed)
            == p.reloaded(configs),
{
    let q = p.reloaded(configs);
    let closed = p.after(id, EntryEvent::Opened).reloaded(configs).after(id, EntryEvent::Closed);
    assert forall|i: int| 0 <= i < configs.len() implies #[trigger] closed.entries[i]
        == q.entries[i] by {
        assert(first_listed(configs, i));
        law_close_after_reload_undoes_open(p, configs, id, i);
    }
    assert(closed.entries == q.entries);
}

/// What happens to an upstream that a reload has removed does not reach the
/// reloaded pool. The same holds of an upstream whose URL was listed before it in
/// the old list: only the first one is carried over.
pub proof fn law_removed_upstream_is_detached(
    p: PoolView,
    configs: Seq<UpstreamConfig>,
    k: int,
    event: EntryEvent,
)
    requires
        p.wf(),
        p.next_id + configs.len() <= u64::MAX,
        0 <= k < p.entries.len(),
        (forall|i: int|
            0 <= i < configs.len() ==> (#[trigger] configs[i]).url@ != p.entries[k].config.url@)
            || (exists|j: int|
            0 <= j < k && (#[trigger] p.entries[j]).config.url@ == p.entries[k].config.url@),
    ensures
        !p.reloaded(configs).has(p.entries[k].id),
        p.reloaded(configs).after(p.entries[k].id, event) == p.reloaded(configs),
{
    let q = p.reloaded(configs);
    let id = p.entries[k].id;
    assert forall|i: int| 0 <= i < q.entries.len() implies (#[trigger] q.entries[i]).id != id by {
        let m = position_of_url(p.entries, configs[i].url@);
        lemma_position_bound(p.entries, configs[i].url@);
        if m < p.entries.len() && first_listed(configs, i) {
            if m == k {
                assert(configs[i].url@ == p.entries[k].config.url@);
            } else if m < k {
                assert(p.entries[m].id != p.entries[k].id);
            } else {
                assert(p.entries[k].id != p.entries[m].id);
            }
        }
    }
    assert(q.after(id, event).entries == q.entries);
}

/// An event touches one entry only: that of the upstream to which it happens, also
/// where another one has the same URL.
pub proof fn law_event_touches_one_entry(p: PoolView, event: EntryEvent, i: int, j: int)
    requires
        p.wf(),
        0 <= i < p.entries.len(),
        0 <= j < p.entries.len(),
        i != j,
    ensures
        p.after(p.entries[i].id, event).entries[i] == p.entries[i].after(event),
        p.after(p.entries[i].id, event).entries[j] == p.entries[j],
{
    if i < j {
        assert(p.entries[i].id != p.entries[j].id);
    } else {
        assert(p.entries[j].id != p.entries[i].id);
    }
}

/// No event changes the configuration, the ids, the number or the order of the
/// entries, nor anything of an upstream that it does not concern.
pub proof fn law_events_are_local(p: PoolView, id: u64, event: EntryEvent, j: int)
    requires
        0 <= j < p.entries.len(),
    ensures
        p.after(id, event).entries.len() == p.entries.len(),
        p.after(id, event).entries[j].config == p.entries[j].config,
        p.after(id, event).entries[j].id == p.entries[j].id,
        p.entries[j].id != id ==> p.after(id, event).entries[j] == p.entries[j],
        p.after(id, event).rr_counter == p.rr_counter,
        p.after(id, event).next_id == p.next_id,
{
}

/// How often index `i` stands in the round of the first `n` entries.
proof fn lemma_candidate_count(
    entries: Seq<UpstreamEntry>,
    exclude: Seq<usize>,
    n: int,
    i: int,
)
    requires
        0 <= n <= entries.len(),
    ensures
        candidates(entries, exclude, n).to_multiset().count(i) == (if i < n && eligible(
            entries,
            exclude,
            i,
        ) {
            entries[i].slots()
        } else {
            0
        }),
    decreases n,
{
    broadcast use vstd::seq_lib::group_to_multiset_ensures;

    if n > 0 {
        lemma_candidate_count(entries, exclude, n - 1, i);
        if eligible(entries, exclude, n - 1) {
            let prev = candidates(entries, exclude, n - 1);
            let own = Seq::new(entries[n - 1].slots(), |k: int| n - 1);
            vstd::seq_lib::lemma_multiset_commutative(prev, own);
            lemma_constant_count(n - 1, entries[n - 1].slots(), i);
        }
    }
}

proof fn lemma_constant_count(x: int, m: nat, i: int)
    ensures
        Seq::new(m, |k: int| x).to_multiset().count(i) == (if i == x {
            m
        } else {
            0
        }),
    decreases m,
{
    broadcast use vstd::seq_lib::group_to_multiset_ensures;

    if m > 0 {
        lemma_constant_count(x, (m - 1) as nat, i);
        assert(Seq::new(m, |k: int| x) == Seq::new((m - 1) as nat, |k: int| x).push(x));
    }
}

/// The pools `pools[0], pools[1], ...` arise from each other by round-robin
/// selections with the same exclusions, and `picks` holds the selected indices.
pub open spec fn round_robin_run(
    pools: Seq<PoolView>,
    exclude: Seq<usize>,
    picks: Seq<int>,
) -> bool {
    &&& pools.len() == picks.len() + 1
    &&& forall|k: int|
        0 <= k < picks.len() ==> (#[trigger] pools[k]).choice(BalanceMode::RoundRobin, exclude)
            == Some(picks[k])
    &&& forall|k: int|
        0 <= k < picks.len() ==> pools[k + 1] == (#[trigger] pools[k]).after_selection(
            BalanceMode::RoundRobin,
            exclude,
        )
}

proof fn lemma_run_state(
    pools: Seq<PoolView>,
    exclude: Seq<usize>,
    picks: Seq<int>,
    k: int,
)
    requires
        round_robin_run(pools, exclude, picks),
        0 <= k <= picks.len(),
        pools[0].any_eligible(exclude),
        pools[0].rr_counter + picks.len() <= u64::MAX,
    ensures
        pools[k] == (PoolView { rr_counter: (pools[0].rr_counter + k) as u64, ..pools[0] }),
    decreases k,
{
    if k > 0 {
        lemma_run_state(pools, exclude, picks, k - 1);
        let before = pools[k - 1];
        assert(pools[k - 1 + 1] == before.after_selection(BalanceMode::RoundRobin, exclude));
        assert(before.entries == pools[0].entries);
        let w = choose|i: int| eligible(pools[0].entries, exclude, i);
        assert(eligible(before.entries, exclude, w));
        assert(before.any_eligible(exclude));
    }
}

proof fn lemma_run_pick(pools: Seq<PoolView>, exclude: Seq<usize>, picks: Seq<int>, k: int)
    requires
        round_robin_run(pools, exclude, picks),
        pools[0].any_eligible(exclude),
        pools[0].rr_counter + picks.len() <= usize::MAX,
        0 <= k < picks.len(),
    ensures
        pools[0].round(exclude).len() > 0,
        picks[k] == pools[0].round(exclude)[(pools[0].rr_counter + k) % (pools[0].round(
            exclude,
        ).len() as int)],
{
    let p = pools[0];
    let w = choose|j: int| eligible(p.entries, exclude, j);
    assert(p.round(exclude).contains(w)) by {
        lemma_candidates(p.entries, exclude, p.entries.len() as int);
    }
    lemma_run_state(pools, exclude, picks, k);
    assert(pools[k].choice(BalanceMode::RoundRobin, exclude) == Some(picks[k]));
    assert(pools[k].entries == p.entries);
    assert(eligible(pools[k].entries, exclude, w));
}

proof fn lemma_rotation(start: int, k: int, n: int)
    by (nonlinear_arith)
    requires
        0 <= start,
        0 <= k < n,
    ensures
        0 <= start % n < n,
        start % n + k < n ==> (start + k) % n == start % n + k,
        start % n + k >= n ==> (start + k) % n == start % n + k - n,
{
}

/// Weighted round-robin: as many consecutive selections as a round has slots
/// give every eligible upstream exactly its weight, and no other upstream any.
/// (The cursor must not run past the end of its range within the round.)
pub proof fn law_round_robin_respects_weights(
    pools: Seq<PoolView>,
    exclude: Seq<usize>,
    picks: Seq<int>,
    i: int,
)
    requires
        round_robin_run(pools, exclude, picks),
        pools[0].any_eligible(exclude),
        picks.len() == pools[0].round(exclude).len(),
        pools[0].rr_counter + picks.len() <= usize::MAX,
    ensures
        picks.to_multiset().count(i) == (if eligible(pools[0].entries, exclude, i) {
            pools[0].entries[i].slots()
        } else {
            0
        }),
{
    let p = pools[0];
    let round = p.round(exclude);
    let n = round.len() as int;
    assert(n > 0) by {
        lemma_candidates(p.entries, exclude, p.entries.len() as int);
        let w = choose|j: int| eligible(p.entries, exclude, j);
        assert(round.contains(w));
    }
    lemma_rotation(p.rr_counter as int, 0, n);
    let s = p.rr_counter as int % n;
    let rotated = round.skip(s) + round.take(s);
    assert forall|k: int| 0 <= k < n implies #[trigger] picks[k] == rotated[k] by {
        lemma_run_pick(pools, exclude, picks, k);
        lemma_rotation(p.rr_counter as int, k, n);
    }
    assert(picks == rotated);
    assert(round == round.take(s) + round.skip(s));
    vstd::seq_lib::lemma_multiset_commutative(round.skip(s), round.take(s));
    vstd::seq_lib::lemma_multiset_commutative(round.take(s), round.skip(s));
    lemma_candidate_count(p.entries, exclude, p.entries.len() as int, i);
}

/// What each event changes of an entry, and that it changes nothing else.
pub proof fn law_effects_of_events(e: UpstreamEntry, ms: u64)
    ensures
        ({
            let off = e.after(EntryEvent::WentOffline);
            &&& !off.online
            &&& off.consec_failures == e.consec_failures && off.active_conns == e.active_conns
            &&& off.latency_ema_ms == e.latency_ema_ms
        }),
        ({
            let on = e.after(EntryEvent::CameOnline);
            &&& on.online
            &&& on.consec_failures == (if e.online {
                e.consec_failures
            } else {
                0
            })
            &&& on.active_conns == e.active_conns && on.latency_ema_ms == e.latency_ema_ms
        }),
        ({
            let ok = e.after(EntryEvent::Succeeded(ms));
            &&& ok.consec_failures == 0
            &&& e.latency_ema_ms == 0 ==> ok.latency_ema_ms == ms
            &&& e.latency_ema_ms > 0 ==> 4 * ok.latency_ema_ms <= ms + 3 * e.latency_ema_ms < 4
                * ok.latency_ema_ms + 4
            &&& ok.online == e.online && ok.active_conns == e.active_conns
        }),
        ({
            let bad = e.after(EntryEvent::Failed);
            &&& e.consec_failures < u32::MAX ==> bad.consec_failures == e.consec_failures + 1
            &&& e.consec_failures == u32::MAX ==> bad.consec_failures == 0
            &&& bad.online == e.online && bad.active_conns == e.active_conns
            &&& bad.latency_ema_ms == e.latency_ema_ms
        }),
        ({
            let up = e.after(EntryEvent::Opened);
            &&& e.active_conns < i64::MAX ==> up.active_conns == e.active_conns + 1
            &&& e.active_conns == i64::MAX ==> up.active_conns == i64::MIN
            &&& up.online == e.online && up.consec_failures == e.consec_failures
            &&& up.latency_ema_ms == e.latency_ema_ms
        }),
        ({
            let down = e.after(EntryEvent::Closed);
            &&& e.active_conns > i64::MIN ==> down.active_conns == e.active_conns - 1
            &&& e.active_conns == i64::MIN ==> down.active_conns == i64::MAX
            &&& down.online == e.online && down.consec_failures == e.consec_failures
            &&& down.latency_ema_ms == e.latency_ema_ms
        }),
        forall|event: EntryEvent|
            (#[trigger] e.after(event)).config == e.config && e.after(event).id == e.id,
{
    let old_ms = e.latency_ema_ms as int;
    assert(e.latency_ema_ms > 0 ==> (ms + old_ms * 3) / 4 <= u64::MAX);
}

/// The score is the latency, or 50 where it is not known, and each connection adds
/// 50 to it; a count below zero adds nothing.
pub proof fn law_score(e: UpstreamEntry)
    ensures
        e.latency_ema_ms > 0 && e.active_conns <= 0 ==> e.score_value() == e.latency_ema_ms,
        e.latency_ema_ms == 0 && e.active_conns <= 0 ==> e.score_value() == 50,
        e.latency_ema_ms > 0 && e.active_conns > 0 ==> e.score_value() == e.latency_ema_ms
            + e.active_conns * 50,
        e.latency_ema_ms == 0 && e.active_conns > 0 ==> e.score_value() == 50 + e.active_conns * 50,
{
}

/// An upstream is selected just if one is online and not excluded, and it is such a
/// one.
pub proof fn law_selection_is_online(p: PoolView, mode: BalanceMode, exclude: Seq<usize>)
    requires
        p.entries.len() <= usize::MAX,
    ensures
        p.choice(mode, exclude) is Some <==> exists|i: int|
            0 <= i < p.entries.len() && (#[trigger] p.entries[i]).online && !exclude.contains(
                i as usize,
            ),
        p.choice(mode, exclude) matches Some(i) ==> 0 <= i < p.entries.len() && p.entries[i].online
            && !exclude.contains(i as usize),
{
    law_choice_is_eligible(p, mode, exclude);
    assert forall|i: int| 0 <= i < p.entries.len() implies listed(exclude, i) == exclude.contains(
        i as usize,
    ) by {
        if listed(exclude, i) {
            let k = choose|k: int| 0 <= k < exclude.len() && #[trigger] exclude[k] == i;
            assert(exclude[k] == i as usize);
        }
        if exclude.contains(i as usize) {
            let k = exclude.index_of(i as usize);
            assert(exclude[k] == i);
        }
    }
    if p.any_eligible(exclude) {
        let i = choose|i: int| eligible(p.entries, exclude, i);
        assert(p.entries[i].online && !exclude.contains(i as usize));
    }
    if exists|i: int|
        0 <= i < p.entries.len() && (#[trigger] p.entries[i]).online && !exclude.contains(
            i as usize,
        ) {
        let i = choose|i: int|
            0 <= i < p.entries.len() && (#[trigger] p.entries[i]).online && !exclude.contains(
                i as usize,
            );
        assert(eligible(p.entries, exclude, i));
    }
}

/// Priority mode selects the lowest priority value among the upstreams that are
/// online and not excluded, and of several the first.
pub proof fn law_priority_mode(p: PoolView, exclude: Seq<usize>, i: int, j: int)
    requires
        p.entries.len() <= usize::MAX,
        p.choice(BalanceMode::Priority, exclude) == Some(i),
        0 <= j < p.entries.len(),
        p.entries[j].online,
        !exclude.contains(j as usize),
    ensures
        p.entries[i].config.priority <= p.entries[j].config.priority,
        p.entries[i].config.priority == p.entries[j].config.priority ==> i <= j,
{
    lemma_not_excluded(p, exclude, j);
    law_choice_is_eligible(p, BalanceMode::Priority, exclude);
}

proof fn lemma_not_excluded(p: PoolView, exclude: Seq<usize>, j: int)
    requires
        p.entries.len() <= usize::MAX,
        0 <= j < p.entries.len(),
        p.entries[j].online,
        !exclude.contains(j as usize),
    ensures
        eligible(p.entries, exclude, j),
{
    if listed(exclude, j) {
        let k = choose|k: int| 0 <= k < exclude.len() && #[trigger] exclude[k] == j;
        assert(exclude[k] == j as usize);
    }
}

/// Best mode selects, among the upstreams that are online and not excluded, one with
/// the lowest sum of latency and 50 for each connection, and of several the first. So
/// of two upstreams with equally many connections the slower one is never selected,
/// and of two equally fast ones never that with more connections.
pub proof fn law_best_mode(p: PoolView, exclude: Seq<usize>, i: int, j: int)
    requires
        p.entries.len() <= usize::MAX,
        p.choice(BalanceMode::Best, exclude) == Some(i),
        0 <= j < p.entries.len(),
        p.entries[j].online,
        !exclude.contains(j as usize),
        p.entries[i].latency_ema_ms > 0,
        p.entries[j].latency_ema_ms > 0,
        p.entries[i].active_conns >= 0,
        p.entries[j].active_conns >= 0,
    ensures
        ({
            let a = p.entries[i].latency_ema_ms + p.entries[i].active_conns * 50;
            let b = p.entries[j].latency_ema_ms + p.entries[j].active_conns * 50;
            a < b || (a == b && i <= j)
        }),
        p.entries[i].active_conns == p.entries[j].active_conns ==> p.entries[i].latency_ema_ms
            <= p.entries[j].latency_ema_ms,
        p.entries[i].latency_ema_ms == p.entries[j].latency_ema_ms ==> p.entries[i].active_conns
            <= p.entries[j].active_conns,
{
    lemma_not_excluded(p, exclude, j);
    law_choice_is_eligible(p, BalanceMode::Best, exclude);
    law_score(p.entries[i]);
    law_score(p.entries[j]);
}

/// An upstream of unknown latency counts as one with 50 ms in best mode.
pub proof fn law_unknown_latency_counts_as_50(e: UpstreamEntry)
    requires
        e.latency_ema_ms == 0,
    ensures
        e.score_value() == (UpstreamEntry { latency_ema_ms: 50, ..e }).score_value(),
{
}

/// In as many consecutive round-robin selections as a round has turns, each upstream
/// that is online and not excluded is selected as often as its weight says (a weight
/// of 0 counts as 1), and no other one is.
pub proof fn law_weights_are_turns(
    pools: Seq<PoolView>,
    exclude: Seq<usize>,
    picks: Seq<int>,
    i: int,
)
    requires
        round_robin_run(pools, exclude, picks),
        pools[0].any_eligible(exclude),
        picks.len() == pools[0].round(exclude).len(),
        pools[0].rr_counter + picks.len() <= usize::MAX,
        pools[0].entries.len() <= usize::MAX,
    ensures
        0 <= i < pools[0].entries.len() && pools[0].entries[i].online && !exclude.contains(
            i as usize,
        ) ==> picks.to_multiset().count(i) == (if pools[0].entries[i].config.weight == 0 {
            1nat
        } else {
            pools[0].entries[i].config.weight as nat
        }),
        0 <= i < pools[0].entries.len() && !pools[0].entries[i].online
            ==> picks.to_multiset().count(i) == 0,
        0 <= i < pools[0].entries.len() && exclude.contains(i as usize)
            ==> picks.to_multiset().count(i) == 0,
{
    law_round_robin_respects_weights(pools, exclude, picks, i);
    if 0 <= i < pools[0].entries.len() && exclude.contains(i as usize) {
        let k = exclude.index_of(i as usize);
        assert(exclude[k] == i);
        assert(listed(exclude, i));
    }
    if 0 <= i < pools[0].entries.len() && pools[0].entries[i].online && !exclude.contains(
        i as usize,
    ) {
        lemma_not_excluded(pools[0], exclude, i);
    }
}

/// A round-robin selection moves the cursor on by one; no selection changes anything
/// else, and one that finds nothing changes nothing.
pub proof fn law_selection_moves_the_cursor(p: PoolView, mode: BalanceMode, exclude: Seq<usize>)
    ensures
        p.after_selection(mode, exclude).entries == p.entries,
        p.after_selection(mode, exclude).next_id == p.next_id,
        mode != BalanceMode::RoundRobin ==> p.after_selection(mode, exclude).rr_counter
            == p.rr_counter,
        p.choice(mode, exclude) is None ==> p.after_selection(mode, exclude) == p,
        mode == BalanceMode::RoundRobin && p.choice(mode, exclude) is Some && p.rr_counter
            < u64::MAX ==> p.after_selection(mode, exclude).rr_counter == p.rr_counter + 1,
        mode == BalanceMode::RoundRobin && p.choice(mode, exclude) is Some && p.rr_counter
            == u64::MAX ==> p.after_selection(mode, exclude).rr_counter == 0,
{
    law_choice_is_eligible(p, mode, exclude);
}

/// The upstreams with certain ids are found at just those places where such an id
/// stands.
pub proof fn law_positions_of_ids(p: PoolView, ids: Seq<u64>, i: int)
    requires
        0 <= i < p.entries.len() <= usize::MAX,
    ensures
        p.positions(ids).contains(i as usize) <==> ids.contains(p.entries[i].id),
{
    let all = p.positions(ids);
    lemma_positions(p.entries, ids, p.entries.len() as int, i);
    if all.contains(i as usize) {
        let k = all.index_of(i as usize);
        assert(all[k] == i);
        assert(listed(all, i));
    }
    if listed(all, i) {
        let k = choose|k: int| 0 <= k < all.len() && #[trigger] all[k] == i;
        assert(all[k] == i as usize);
    }
}

/// After a reload the pool has one entry for each upstream of the new list, in order
/// and with its configuration. An upstream whose URL was listed before starts with
/// the state and the statistics of the first entry with that URL; any other one is
/// online with nothing on its account. The round-robin cursor stays.
pub proof fn law_reload_applies_the_list(p: PoolView, configs: Seq<UpstreamConfig>, i: int)
    requires
        0 <= i < configs.len(),
    ensures
        ({
            let q = p.reloaded(configs);
            let e = q.entries[i];
            &&& q.entries.len() == configs.len()
            &&& q.rr_counter == p.rr_counter
            &&& e.config == configs[i]
            &&& (forall|k: int|
                0 <= k < p.entries.len() ==> (#[trigger] p.entries[k]).config.url@
                    != configs[i].url@) ==> e.online && e.active_conns == 0 && e.latency_ema_ms == 0
                && e.consec_failures == 0
            &&& forall|k: int|
                0 <= k < p.entries.len() && (#[trigger] p.entries[k]).config.url@ == configs[i].url@
                    && (forall|j: int|
                    0 <= j < k ==> (#[trigger] p.entries[j]).config.url@ != configs[i].url@) ==> {
                    &&& e.online == p.entries[k].online
                    &&& e.active_conns == p.entries[k].active_conns
                    &&& e.latency_ema_ms == p.entries[k].latency_ema_ms
                    &&& e.consec_failures == p.entries[k].consec_failures
                    &&& (forall|j: int|
                        0 <= j < i ==> (#[trigger] configs[j]).url@ != configs[i].url@) ==> e.id
                        == p.entries[k].id
                }
        }),
{
    let q = p.reloaded(configs);
    let e = q.entries[i];
    if forall|k: int|
        0 <= k < p.entries.len() ==> (#[trigger] p.entries[k]).config.url@ != configs[i].url@ {
        lemma_position_of_url(p.entries, configs[i].url@, p.entries.len() as int);
    }
    assert forall|k: int|
        0 <= k < p.entries.len() && (#[trigger] p.entries[k]).config.url@ == configs[i].url@ && (
        forall|j: int|
            0 <= j < k ==> (#[trigger] p.entries[j]).config.url@ != configs[i].url@) implies {
        &&& e.online == p.entries[k].online
        &&& e.active_conns == p.entries[k].active_conns
        &&& e.latency_ema_ms == p.entries[k].latency_ema_ms
        &&& e.consec_failures == p.entries[k].consec_failures
        &&& (forall|j: int| 0 <= j < i ==> (#[trigger] configs[j]).url@ != configs[i].url@)
            ==> e.id == p.entries[k].id
    } by {
        lemma_position_of_url(p.entries, configs[i].url@, k);
    }
}

/// A new entry is online and has nothing on its account.
pub proof fn law_fresh_entry(id: u64, config: UpstreamConfig)
    ensures
        ({
            let e = UpstreamEntry::fresh(id, config);
            &&& e.id == id && e.config == config && e.online
            &&& e.active_conns == 0 && e.latency_ema_ms == 0 && e.consec_failures == 0
        }),
{
}

/// The snapshot of a pool shows every entry, in order, as it is.
pub proof fn law_statuses_show_the_pool(p: PoolView, i: int)
    requires
        0 <= i < p.entries.len(),
    ensures
        p.statuses().len() == p.entries.len(),
        ({
            let s = p.statuses()[i];
            let e = p.entries[i];
            &&& s.url@ == e.config.url@ && s.online == e.online
            &&& s.active_conns == e.active_conns && s.latency_ema_ms == e.latency_ema_ms
            &&& s.consec_failures == e.consec_failures
            &&& s.weight == e.config.weight && s.priority == e.config.priority
        }),
{
}

/// The round holds the upstreams in the order of the list, and the cursor says which
/// turn is next.
pub proof fn law_round_is_in_order(p: PoolView, exclude: Seq<usize>, a: int, b: int)
    ensures
        0 <= a <= b < p.round(exclude).len() ==> p.round(exclude)[a] <= p.round(exclude)[b],
        p.choice(BalanceMode::RoundRobin, exclude) is Some && p.rr_counter <= usize::MAX ==> p.round(
            exclude,
        ).len() > 0 && p.choice(BalanceMode::RoundRobin, exclude) == Some(
            p.round(exclude)[p.rr_counter as int % (p.round(exclude).len() as int)],
        ),
{
    lemma_round_is_sorted(p.entries, exclude, p.entries.len() as int);
    law_choice_is_eligible(p, BalanceMode::RoundRobin, exclude);
    if p.any_eligible(exclude) {
        let w = choose|j: int| eligible(p.entries, exclude, j);
        lemma_candidates(p.entries, exclude, p.entries.len() as int);
        assert(p.round(exclude).contains(w));
    }
}

proof fn lemma_round_is_sorted(entries: Seq<UpstreamEntry>, exclude: Seq<usize>, n: int)
    requires
        0 <= n <= entries.len(),
    ensures
        forall|a: int, b: int|
            0 <= a <= b < candidates(entries, exclude, n).len() ==> #[trigger] candidates(
                entries,
                exclude,
                n,
            )[a] <= #[trigger] candidates(entries, exclude, n)[b],
    decreases n,
{
    if n > 0 {
        lemma_round_is_sorted(entries, exclude, n - 1);
        lemma_candidates(entries, exclude, n - 1);
        let before = candidates(entries, exclude, n - 1);
        let all = candidates(entries, exclude, n);
        assert forall|a: int, b: int| 0 <= a <= b < all.len() implies #[trigger] all[a]
            <= #[trigger] all[b] by {
            if b < before.len() {
                assert(all[a] == before[a] && all[b] == before[b]);
            } else if a < before.len() {
                assert(all[a] == before[a]);
            }
        }
    }
}

/// Of the running pool: what is selected is an entry of the pool that is online and
/// not excluded, with its index; nothing is selected just if there is none. In
/// priority mode it is the first with the lowest priority value, in best mode the
/// first with the lowest score.
#[verifier::spinoff_prover]
pub proof fn law_what_is_selected(
    mode: BalanceMode,
    exclude: &[usize],
    r: Option<(usize, UpstreamEntry)>,
)
    ensures
        forall|p: &mut UpstreamPool| #[trigger]
            call_ensures(UpstreamPool::select, (p, mode, exclude), r) && (*p).entries@.len()
                <= usize::MAX ==> match r {
                Some((i, e)) => {
                    &&& i < (*p).entries@.len() && e == (*p).entries@[i as int] && e.online
                    &&& !exclude@.contains(i)
                    &&& mode == BalanceMode::Priority ==> forall|j: int|
                        0 <= j < (*p).entries@.len() && (#[trigger] (*p).entries@[j]).online
                            && !exclude@.contains(j as usize) ==> e.config.priority
                            < (*p).entries@[j].config.priority || (e.config.priority
                            == (*p).entries@[j].config.priority && i <= j)
                    &&& mode == BalanceMode::Best ==> forall|j: int|
                        0 <= j < (*p).entries@.len() && (#[trigger] (*p).entries@[j]).online
                            && !exclude@.contains(j as usize) ==> e.score_value()
                            < (*p).entries@[j].score_value() || (e.score_value()
                            == (*p).entries@[j].score_value() && i <= j)
                },
                None => forall|j: int|
                    0 <= j < (*p).entries@.len() ==> !(#[trigger] (*p).entries@[j]).online
                        || exclude@.contains(j as usize),
            } && (*final(p)).entries@ == (*p).entries@,
{
    assert forall|p: &mut UpstreamPool| #[trigger]
        call_ensures(UpstreamPool::select, (p, mode, exclude), r) && (*p).entries@.len()
            <= usize::MAX implies match r {
        Some((i, e)) => {
            &&& i < (*p).entries@.len() && e == (*p).entries@[i as int] && e.online
            &&& !exclude@.contains(i)
            &&& mode == BalanceMode::Priority ==> forall|j: int|
                0 <= j < (*p).entries@.len() && (#[trigger] (*p).entries@[j]).online
                    && !exclude@.contains(j as usize) ==> e.config.priority
                    < (*p).entries@[j].config.priority || (e.config.priority
                    == (*p).entries@[j].config.priority && i <= j)
            &&& mode == BalanceMode::Best ==> forall|j: int|
                0 <= j < (*p).entries@.len() && (#[trigger] (*p).entries@[j]).online
                    && !exclude@.contains(j as usize) ==> e.score_value()
                    < (*p).entries@[j].score_value() || (e.score_value()
                    == (*p).entries@[j].score_value() && i <= j)
        },
        None => forall|j: int|
            0 <= j < (*p).entries@.len() ==> !(#[trigger] (*p).entries@[j]).online
                || exclude@.contains(j as usize),
    } && (*final(p)).entries@ == (*p).entries@ by {
        let q = (*p)@;
        law_selection_is_online(q, mode, exclude@);
        law_choice_is_eligible(q, mode, exclude@);
        assert forall|j: int|
            0 <= j < q.entries.len() && (#[trigger] q.entries[j]).online && !exclude@.contains(
                j as usize,
            ) implies eligible(q.entries, exclude@, j) by {
            lemma_not_excluded(q, exclude@, j);
        }
    }
}

/// Of the running pool: a new pool has one entry for each upstream of the
/// configuration, in order, online and with nothing on its account; a reload applies
/// the list of the new configuration.
pub proof fn law_pools_hold_the_configuration(cfg: &Config, r: UpstreamPool)
    ensures
        call_ensures(UpstreamPool::from_config, (cfg,), r) ==> r.entries@.len()
            == cfg.upstream@.len() && forall|i: int|
            0 <= i < cfg.upstream@.len() ==> {
                &&& (#[trigger] r.entries@[i]).config == cfg.upstream@[i]
                &&& r.entries@[i].online && r.entries@[i].active_conns == 0
                &&& r.entries@[i].latency_ema_ms == 0 && r.entries@[i].consec_failures == 0
                &&& forall|j: int| 0 <= j < i ==> (#[trigger] r.entries@[j]).id != r.entries@[i].id
            },
        forall|p: &mut UpstreamPool| #[trigger]
            call_ensures(UpstreamPool::reload, (p, cfg), ()) ==> (*final(p))@ == (*p)@.reloaded(
                cfg.upstream@,
            ),
{
}

/// Of the running pool: an event is applied to the entry with that id, and to no other
/// one, and it is said whether there is one.
pub proof fn law_events_are_applied(id: u64, event: EntryEvent, r: bool)
    ensures
        forall|p: &mut UpstreamPool| #[trigger]
            call_ensures(UpstreamPool::apply, (p, id, event), r) ==> {
                &&& r <==> exists|i: int|
                    0 <= i < (*p).entries@.len() && (#[trigger] (*p).entries@[i]).id == id
                &&& (*final(p)).entries@.len() == (*p).entries@.len()
                &&& forall|i: int|
                    0 <= i < (*p).entries@.len() ==> #[trigger] (*final(p)).entries@[i] == (if (
                    *p).entries@[i].id == id {
                        (*p).entries@[i].after(event)
                    } else {
                        (*p).entries@[i]
                    })
                &&& (*final(p)).rr_counter == (*p).rr_counter
            },
{
}

/// Of the running pool: what is listed of it, and which entries are offline.
pub proof fn law_what_is_listed(
    p: UpstreamPool,
    all: Vec<UpstreamStatus>,
    offline: Vec<(usize, UpstreamEntry)>,
    n: usize,
    score: u64,
    e: UpstreamEntry,
)
    ensures
        call_ensures(UpstreamPool::all_status, (&p,), all) ==> all@.len() == p.entries@.len()
            && forall|i: int|
            0 <= i < p.entries@.len() ==> {
                &&& (#[trigger] all@[i]).url@ == p.entries@[i].config.url@
                &&& all@[i].online == p.entries@[i].online
                &&& all@[i].active_conns == p.entries@[i].active_conns
                &&& all@[i].latency_ema_ms == p.entries@[i].latency_ema_ms
                &&& all@[i].consec_failures == p.entries@[i].consec_failures
                &&& all@[i].weight == p.entries@[i].config.weight
                &&& all@[i].priority == p.entries@[i].config.priority
            },
        call_ensures(UpstreamPool::offline_entries, (&p,), offline) ==> offline@ == offline_among(
            p.entries@,
            p.entries@.len() as int,
        ),
        call_ensures(UpstreamPool::len, (&p,), n) ==> n == p.entries@.len(),
        e.score_value() <= u64::MAX && call_ensures(UpstreamEntry::score, (&e,), score) ==> score
            == e.score_value(),
{
}

/// Of the running pool: a selection is the pool's choice, and moves the cursor as
/// described here.
pub proof fn law_selections_follow_the_choice(
    mode: BalanceMode,
    exclude: &[usize],
    r: Option<(usize, UpstreamEntry)>,
    ids: &[u64],
    found: Vec<usize>,
    pool: UpstreamPool,
)
    ensures
        forall|p: &mut UpstreamPool| #[trigger]
            call_ensures(UpstreamPool::select, (p, mode, exclude), r) ==> {
                &&& (*final(p))@ == (*p)@.after_selection(mode, exclude@)
                &&& match r {
                    Some((i, e)) => (*p)@.choice(mode, exclude@) == Some(i as int),
                    None => (*p)@.choice(mode, exclude@) is None,
                }
            },
        call_ensures(UpstreamPool::find_positions, (&pool, ids), found) ==> found@
            == pool@.positions(ids@),
{
}

/// The view of a pool leaves nothing out.
pub proof fn law_view_of_pools(pool: UpstreamPool)
    ensures
        pool@.entries == pool.entries@ && pool@.rr_counter == pool.rr_counter && pool@.next_id
            == pool.next_id,
{
}

} // verus!
