use http_proxy_lb::config::{
    BalanceMode, Config, DomainPolicyConfig, HealthCheckConfig, LimitsConfig, UpstreamConfig,
};
use http_proxy_lb::upstream::{EntryEvent, UpstreamEntry, UpstreamPool};

fn upstream(url: &str, weight: u32, priority: u32) -> UpstreamConfig {
    UpstreamConfig {
        url: url.to_string(),
        weight,
        priority,
        username: None,
        password: None,
    }
}

fn config(mode: BalanceMode, upstream: Vec<UpstreamConfig>) -> Config {
    Config {
        listen: "127.0.0.1:8080".to_string(),
        admin_listen: None,
        mode,
        reload_interval_secs: 0,
        health_check: HealthCheckConfig::default(),
        domain_policy: DomainPolicyConfig::default(),
        limits: LimitsConfig::default(),
        access_log: false,
        upstream,
    }
}

fn make_pool(urls: &[&str]) -> UpstreamPool {
    let upstreams = urls.iter().map(|u| upstream(u, 1, 100)).collect();
    UpstreamPool::from_config(&config(BalanceMode::RoundRobin, upstreams))
}

#[test]
fn round_robin_cycles_through_online() {
    let mut pool = make_pool(&["http://a:1", "http://b:2", "http://c:3"]);
    // Collect 6 selections — should visit all 3 upstreams
    let mut seen = std::collections::HashSet::new();
    for _ in 0..6 {
        let (_, e) = pool.select(BalanceMode::RoundRobin, &[]).unwrap();
        seen.insert(e.config.url.clone());
    }
    assert_eq!(seen.len(), 3);
}

#[test]
fn offline_upstream_is_skipped() {
    let mut pool = make_pool(&["http://a:1", "http://b:2"]);
    // Mark first upstream offline
    let (idx, first) = pool.select(BalanceMode::RoundRobin, &[]).unwrap();
    pool.entries[idx].mark_offline();

    // All subsequent selections should be the other one
    for _ in 0..10 {
        let (_, e) = pool.select(BalanceMode::RoundRobin, &[]).unwrap();
        assert_ne!(
            e.config.url, first.config.url,
            "offline upstream was selected"
        );
    }
}

#[test]
fn no_online_upstream_returns_none() {
    let mut pool = make_pool(&["http://a:1"]);
    let (idx, _) = pool.select(BalanceMode::RoundRobin, &[]).unwrap();
    pool.entries[idx].mark_offline();
    assert!(pool.select(BalanceMode::RoundRobin, &[]).is_none());
}

#[test]
fn exclude_skips_specified_indices() {
    let mut pool = make_pool(&["http://a:1", "http://b:2", "http://c:3"]);
    let result = pool.select(BalanceMode::RoundRobin, &[0, 1]);
    let (idx, _) = result.unwrap();
    assert_eq!(idx, 2);
}

#[test]
fn mark_online_restores_offline_upstream() {
    let mut pool = make_pool(&["http://a:1"]);
    let (idx, _) = pool.select(BalanceMode::RoundRobin, &[]).unwrap();
    pool.entries[idx].mark_offline();
    assert!(pool.select(BalanceMode::RoundRobin, &[]).is_none());
    pool.entries[idx].mark_online();
    assert!(pool.select(BalanceMode::RoundRobin, &[]).is_some());
}

#[test]
fn best_mode_picks_lowest_score() {
    let mut pool = make_pool(&["http://a:1", "http://b:2"]);
    // Give "b" a very high latency to force "a" to win
    pool.entries[1].latency_ema_ms = 9999;
    let (idx, _) = pool.select(BalanceMode::Best, &[]).unwrap();
    assert_eq!(idx, 0, "should pick upstream with lower score");
}

#[test]
fn reload_preserves_state_for_existing_upstream() {
    let mut pool = make_pool(&["http://a:1", "http://b:2"]);
    // Mark "a" offline
    let (idx, _) = pool.select(BalanceMode::RoundRobin, &[]).unwrap();
    pool.entries[idx].mark_offline();

    // Reload with same upstreams
    let new_cfg = config(
        BalanceMode::RoundRobin,
        vec![
            upstream("http://a:1", 1, 100),
            upstream("http://b:2", 1, 100),
            upstream("http://c:3", 1, 100),
        ],
    );
    pool.reload(&new_cfg);

    // "a" should still be offline (state preserved)
    let a_entry = pool
        .entries
        .iter()
        .find(|e| e.config.url == "http://a:1")
        .unwrap();
    assert!(
        !a_entry.is_online(),
        "state should be preserved after reload"
    );
    // "c" should be a new online entry
    let c_entry = pool
        .entries
        .iter()
        .find(|e| e.config.url == "http://c:3")
        .unwrap();
    assert!(c_entry.is_online());
}

#[test]
fn weighted_round_robin_respects_weights() {
    let cfg = config(
        BalanceMode::RoundRobin,
        vec![
            upstream("http://a:1", 1, 100),
            upstream("http://b:2", 3, 100),
        ],
    );
    let mut pool = UpstreamPool::from_config(&cfg);

    let mut counts = std::collections::HashMap::new();
    for _ in 0..400 {
        let (_, e) = pool.select(BalanceMode::RoundRobin, &[]).unwrap();
        *counts.entry(e.config.url.clone()).or_insert(0u32) += 1;
    }
    // "b" has 3x weight → should get ~3× more traffic
    let a_count = counts["http://a:1"];
    let b_count = counts["http://b:2"];
    let ratio = b_count as f64 / a_count as f64;
    assert!(
        ratio > 2.5 && ratio < 3.5,
        "expected ~3:1 ratio, got a={a_count} b={b_count} (ratio={ratio:.2})"
    );
}

#[test]
fn priority_mode_prefers_lowest_priority_value() {
    let cfg = config(
        BalanceMode::Priority,
        vec![
            upstream("http://a:1", 1, 50),
            upstream("http://b:2", 1, 10),
            upstream("http://c:3", 1, 30),
        ],
    );
    let mut pool = UpstreamPool::from_config(&cfg);
    let (idx, entry) = pool.select(BalanceMode::Priority, &[]).unwrap();
    assert_eq!(idx, 1);
    assert_eq!(entry.config.url, "http://b:2");
}

#[test]
fn priority_mode_falls_back_to_next_online_priority() {
    let cfg = config(
        BalanceMode::Priority,
        vec![upstream("http://a:1", 1, 1), upstream("http://b:2", 1, 2)],
    );
    let mut pool = UpstreamPool::from_config(&cfg);
    let (idx, first) = pool.select(BalanceMode::Priority, &[]).unwrap();
    assert_eq!(first.config.url, "http://a:1");
    pool.entries[idx].mark_offline();

    let (_, second) = pool.select(BalanceMode::Priority, &[]).unwrap();
    assert_eq!(second.config.url, "http://b:2");
}

#[test]
fn reload_updates_priority_for_existing_upstream() {
    let cfg = config(
        BalanceMode::Priority,
        vec![
            upstream("http://a:1", 1, 100),
            upstream("http://b:2", 1, 200),
        ],
    );
    let mut pool = UpstreamPool::from_config(&cfg);
    let (_, first_before) = pool.select(BalanceMode::Priority, &[]).unwrap();
    assert_eq!(first_before.config.url, "http://a:1");

    let reloaded = config(
        BalanceMode::Priority,
        vec![
            upstream("http://a:1", 1, 300),
            upstream("http://b:2", 1, 50),
        ],
    );
    pool.reload(&reloaded);
    let (_, first_after) = pool.select(BalanceMode::Priority, &[]).unwrap();
    assert_eq!(first_after.config.url, "http://b:2");
}

#[test]
fn weighted_round_visits_slots_in_order() {
    let cfg = config(
        BalanceMode::RoundRobin,
        vec![
            upstream("http://a:1", 2, 1),
            upstream("http://b:2", 0, 1),
            upstream("http://c:3", 1, 1),
        ],
    );
    let mut pool = UpstreamPool::from_config(&cfg);
    let mut order = Vec::new();
    for _ in 0..9 {
        order.push(pool.select(BalanceMode::RoundRobin, &[]).unwrap().0);
    }
    assert_eq!(order, vec![0, 0, 1, 2, 0, 0, 1, 2, 0]);
    assert_eq!(pool.rr_counter, 9);
    // the counter wraps around
    pool.rr_counter = u64::MAX;
    assert_eq!(pool.select(BalanceMode::RoundRobin, &[]).unwrap().0, 2);
    assert_eq!(pool.rr_counter, 0);
}

#[test]
fn huge_weights_are_served() {
    let cfg = config(
        BalanceMode::RoundRobin,
        vec![
            upstream("http://a:1", u32::MAX, 1),
            upstream("http://b:2", u32::MAX, 1),
        ],
    );
    let mut pool = UpstreamPool::from_config(&cfg);
    pool.rr_counter = u32::MAX as u64 - 1;
    assert_eq!(pool.select(BalanceMode::RoundRobin, &[]).unwrap().0, 0);
    assert_eq!(pool.select(BalanceMode::RoundRobin, &[]).unwrap().0, 1);
}

#[test]
fn ties_go_to_the_first() {
    let mut pool = make_pool(&["http://a:1", "http://b:2"]);
    assert_eq!(pool.select(BalanceMode::Best, &[]).unwrap().0, 0);
    assert_eq!(pool.select(BalanceMode::Priority, &[]).unwrap().0, 0);
    assert_eq!(pool.select(BalanceMode::Best, &[0]).unwrap().0, 1);
    assert!(pool.select(BalanceMode::Best, &[0, 1]).is_none());
    assert!(pool.select(BalanceMode::Priority, &[1, 0]).is_none());
    assert_eq!(pool.rr_counter, 0);
}

#[test]
fn score_and_latency_formulas() {
    let mut e = UpstreamEntry::new(0, upstream("http://a:1", 1, 1));
    assert_eq!(e.score(), 50);
    e.record_success(100);
    assert_eq!(e.latency_ema_ms, 100);
    e.record_success(200);
    assert_eq!(e.latency_ema_ms, 125);
    e.record_success(0);
    assert_eq!(e.latency_ema_ms, 93);
    e.connection_opened();
    e.connection_opened();
    assert_eq!(e.active_conns, 2);
    assert_eq!(e.score(), 193);
    e.connection_closed();
    assert_eq!(e.score(), 143);
    e.active_conns = -4;
    assert_eq!(e.score(), 93);
    e.latency_ema_ms = u64::MAX;
    e.record_success(u64::MAX);
    assert_eq!(e.latency_ema_ms, u64::MAX);
}

#[test]
fn failures_are_counted_and_cleared() {
    let mut e = UpstreamEntry::new(0, upstream("http://a:1", 1, 1));
    e.record_failure();
    e.record_failure();
    assert_eq!(e.consec_failures, 2);
    // an upstream that is online already keeps its failures
    e.mark_online();
    assert_eq!(e.consec_failures, 2);
    e.mark_offline();
    e.mark_offline();
    assert!(!e.is_online());
    e.mark_online();
    assert!(e.is_online());
    assert_eq!(e.consec_failures, 0);
    e.record_failure();
    e.record_success(7);
    assert_eq!(e.consec_failures, 0);
    assert_eq!(e.host_port().unwrap(), ("a".to_string(), 1));
}

#[test]
fn events_reach_an_upstream_across_reloads() {
    let mut pool = make_pool(&["http://a:1", "http://b:2"]);
    let a = pool.entries[0].id;
    let b = pool.entries[1].id;
    assert_ne!(a, b);
    assert!(pool.apply(a, EntryEvent::Opened));
    assert!(!pool.apply(99, EntryEvent::Opened));
    pool.reload(&config(
        BalanceMode::Best,
        vec![upstream("http://c:3", 5, 6), upstream("http://a:1", 1, 1)],
    ));
    assert_eq!(pool.all_status()[1].active_conns, 1);
    assert!(pool.apply(a, EntryEvent::Closed));
    assert_eq!(pool.all_status()[1].active_conns, 0);
    // the new upstream has an id of its own, and the removed one is gone
    assert_ne!(pool.entries[0].id, a);
    assert_ne!(pool.entries[0].id, b);
    assert!(!pool.apply(b, EntryEvent::Closed));
    assert_eq!(pool.all_status()[0].active_conns, 0);
    assert_eq!(pool.entries[0].config.weight, 5);
    assert_eq!(pool.len(), 2);
    assert_eq!(pool.find_positions(&[a]), vec![1]);
    assert_eq!(pool.find_positions(&[b]), Vec::<usize>::new());
}

#[test]
fn one_url_listed_twice_across_reloads() {
    let mut second = upstream("http://a:1", 1, 100);
    second.username = Some("other".to_string());
    second.password = Some("account".to_string());
    let cfg = config(
        BalanceMode::Priority,
        vec![upstream("http://a:1", 1, 100), second],
    );
    let mut pool = UpstreamPool::from_config(&cfg);
    for round in 0..3 {
        let (i, e) = pool.select(BalanceMode::Priority, &[]).unwrap();
        assert_eq!(i, 0);
        assert_eq!(e.id, 0);
        assert!(pool.apply(e.id, EntryEvent::WentOffline));
        let (i, e) = pool.select(BalanceMode::Priority, &[]).unwrap();
        assert_eq!(i, 1);
        assert_eq!(e.config.username.as_deref(), Some("other"));
        assert_eq!(pool.find_positions(&[0]), vec![0]);
        assert!(pool.apply(0, EntryEvent::CameOnline));
        // the second one starts with what the reload finds at the URL
        pool.apply(e.id, EntryEvent::WentOffline);
        pool.apply(0, EntryEvent::Succeeded(10));
        pool.reload(&cfg);
        assert_eq!(pool.entries[0].id, 0);
        assert_eq!(pool.entries[1].id, 3 + 2 * round);
        assert!(pool.entries[1].is_online());
        assert_eq!(pool.entries[1].latency_ema_ms, 10);
        // and the id that it had means nothing any more
        assert!(!pool.apply(e.id, EntryEvent::WentOffline));
    }
}

#[test]
fn count_across_a_reload_with_one_url_twice() {
    let cfg = config(
        BalanceMode::RoundRobin,
        vec![upstream("http://a:1", 1, 100), upstream("http://a:1", 1, 100)],
    );
    let mut pool = UpstreamPool::from_config(&cfg);
    pool.apply(0, EntryEvent::Opened);
    pool.apply(1, EntryEvent::Opened);
    pool.apply(1, EntryEvent::Opened);
    pool.reload(&cfg);
    pool.apply(0, EntryEvent::Closed);
    pool.apply(1, EntryEvent::Closed);
    assert_eq!(pool.entries[0].active_conns, 0);
    assert_eq!(pool.entries[1].active_conns, 1);
}

#[test]
fn connection_across_a_reload_leaves_no_trace() {
    let cfg = config(BalanceMode::RoundRobin, vec![upstream("http://a:1", 1, 100)]);
    let mut pool = UpstreamPool::from_config(&cfg);
    let (_, e) = pool.select(BalanceMode::RoundRobin, &[]).unwrap();
    pool.apply(e.id, EntryEvent::Opened);
    pool.reload(&cfg);
    pool.apply(e.id, EntryEvent::Closed);
    assert_eq!(pool.all_status()[0].active_conns, 0);
}

#[test]
fn snapshots_of_the_pool() {
    let mut pool = make_pool(&["http://a:1", "http://b:2"]);
    assert!(pool.offline_entries().is_empty());
    pool.apply(1, EntryEvent::WentOffline);
    pool.apply(1, EntryEvent::Failed);
    pool.apply(0, EntryEvent::Succeeded(12));
    let offline = pool.offline_entries();
    assert_eq!(offline.len(), 1);
    assert_eq!(offline[0].0, 1);
    assert_eq!(offline[0].1.config.url, "http://b:2");
    let all = pool.all_status();
    assert_eq!(all.len(), 2);
    assert!(all[0].online && !all[1].online);
    assert_eq!(all[0].latency_ema_ms, 12);
    assert_eq!(all[1].consec_failures, 1);
    assert_eq!(all[1].url, "http://b:2");
    assert_eq!((all[0].weight, all[0].priority, all[0].active_conns), (1, 100, 0));
    pool.apply(1, EntryEvent::CameOnline);
    assert!(pool.offline_entries().is_empty());
}

#[test]
fn unchanged_reload_keeps_the_entries() {
    let cfg = config(
        BalanceMode::Best,
        vec![upstream("http://a:1", 1, 1), upstream("http://b:2", 2, 2)],
    );
    let mut pool = UpstreamPool::from_config(&cfg);
    pool.apply(0, EntryEvent::Succeeded(40));
    pool.apply(1, EntryEvent::WentOffline);
    pool.apply(1, EntryEvent::Failed);
    pool.reload(&cfg.clone());
    assert_eq!((pool.entries[0].id, pool.entries[1].id), (0, 1));
    let all = pool.all_status();
    assert_eq!((all[0].online, all[0].latency_ema_ms), (true, 40));
    assert_eq!((all[1].online, all[1].consec_failures), (false, 1));
    assert_eq!((all[1].weight, all[1].priority), (2, 2));
}
