use anyrouter_monitor::monitor::{acquire_poll_step, PollStep};
use anyrouter_monitor::pool::BrowserPool;

fn all_alive(pool: &BrowserPool) -> Vec<bool> {
    pool.slots.iter().map(|_| true).collect()
}

#[test]
fn sizes_are_clamped() {
    let p = BrowserPool::new(0, 0);
    assert_eq!(p.pool_size, 1);
    assert_eq!(p.max_pool_size, 1);
    let p = BrowserPool::new(7, 3);
    assert_eq!(p.pool_size, 3);
    assert_eq!(p.max_pool_size, 3);
}

// A ticket never points at a busy or dead slot, and the lease marks the
// slot busy.
#[test]
fn acquire_leases_idle_live_slots_only() {
    let mut p = BrowserPool::new(2, 3);
    p.admit_prewarmed("browser_0".to_string(), "http://127.0.0.1:9000".to_string());
    p.admit_prewarmed("browser_1".to_string(), "http://127.0.0.1:9001".to_string());
    let probes = all_alive(&p);
    let t0 = p.try_acquire(&probes).expect("an idle live worker exists");
    assert_eq!(t0.index, 0);
    assert_eq!(t0.url, "http://127.0.0.1:9000");
    assert!(p.slots[0].busy);
    let t1 = p.try_acquire(&all_alive(&p)).expect("one more idle worker");
    assert_eq!(t1.index, 1);
    assert!(p.slots[1].busy);
    // Both leased: nothing idle is left.
    assert!(p.try_acquire(&all_alive(&p)).is_none());
}

#[test]
fn dead_idle_workers_are_tombstoned_and_skipped() {
    let mut p = BrowserPool::new(2, 3);
    p.admit_prewarmed("browser_0".to_string(), "u0".to_string());
    p.admit_prewarmed("browser_1".to_string(), "u1".to_string());
    // The first worker fails its probe while idle: it is tombstoned and
    // the lease goes to the second.
    let t = p.try_acquire(&vec![false, true]).expect("the live worker serves");
    assert_eq!(t.index, 1);
    assert!(p.slots[0].dead);
    assert!(!p.slots[1].dead);
}

#[test]
fn busy_workers_survive_failed_probes() {
    let mut p = BrowserPool::new(1, 2);
    p.admit_prewarmed("browser_0".to_string(), "u0".to_string());
    let t = p.try_acquire(&all_alive(&p)).unwrap();
    assert_eq!(t.index, 0);
    // While leased, a failed probe must not tombstone the slot: it may
    // only look unresponsive because it is mid-use.
    assert!(p.try_acquire(&vec![false]).is_none());
    assert!(!p.slots[0].dead);
    assert!(p.slots[0].busy);
}

// Release followed by acquire under full load reuses the same slot, and
// the reuse counters show it.
#[test]
fn release_then_acquire_reuses_the_slot() {
    let mut p = BrowserPool::new(2, 2);
    p.admit_prewarmed("browser_0".to_string(), "u0".to_string());
    p.admit_prewarmed("browser_1".to_string(), "u1".to_string());
    let t0 = p.try_acquire(&all_alive(&p)).unwrap();
    let _t1 = p.try_acquire(&all_alive(&p)).unwrap();
    assert!(p.try_acquire(&all_alive(&p)).is_none());
    p.release(t0);
    assert!(!p.slots[0].busy);
    let again = p.try_acquire(&all_alive(&p)).expect("the released slot serves again");
    assert_eq!(again.index, 0);
    let stats = p.get_stats();
    assert!(stats.total_reused > 0);
    assert!(stats.reuse_rate_percent > 0);
    assert_eq!(stats.total_created, 2);
    assert_eq!(stats.total_requests, 3);
    assert_eq!(stats.reuse_rate_percent, 100);
    assert_eq!(p.slots[0].use_count, 2);
}

// The pool never exceeds its configured maximum of live workers,
// however the acquisitions come.
#[test]
fn pool_never_exceeds_max() {
    let mut p = BrowserPool::new(1, 3);
    let mut tickets = Vec::new();
    for round in 0..10 {
        match p.try_acquire(&all_alive(&p)) {
            Some(t) => tickets.push(t),
            None => {
                if p.has_capacity() {
                    let id = format!("browser_{}", p.slots.len());
                    let url = format!("http://127.0.0.1:{}", 9000 + round);
                    tickets.push(p.admit_spawned(id, url));
                }
            }
        }
        let live = p.slots.iter().filter(|s| !s.dead).count();
        assert!(live <= 3);
    }
    assert_eq!(p.slots.len(), 3);
    assert!(!p.has_capacity());
    assert_eq!(tickets.len(), 3);
}

#[test]
fn admit_spawned_hands_a_leased_ticket() {
    let mut p = BrowserPool::new(1, 2);
    assert!(p.try_acquire(&all_alive(&p)).is_none());
    assert!(p.has_capacity());
    let t = p.admit_spawned("browser_0".to_string(), "u0".to_string());
    assert_eq!(t.index, 0);
    assert_eq!(t.url, "u0");
    assert!(p.slots[0].busy);
    assert_eq!(p.slots[0].use_count, 1);
    let stats = p.get_stats();
    assert_eq!(stats.total_created, 1);
    assert_eq!(stats.total_requests, 1);
    assert_eq!(stats.total_reused, 0);
    assert_eq!(stats.reuse_rate_percent, 0);
}

#[test]
fn release_of_a_stale_index_changes_nothing() {
    let mut p = BrowserPool::new(1, 1);
    p.admit_prewarmed("browser_0".to_string(), "u0".to_string());
    let t = anyrouter_monitor::pool::PoolTicket { url: "u9".to_string(), index: 9 };
    p.release(t);
    assert_eq!(p.slots.len(), 1);
    assert!(!p.slots[0].busy);
}

#[test]
fn shutdown_empties_the_table_idempotently() {
    let mut p = BrowserPool::new(2, 2);
    p.admit_prewarmed("browser_0".to_string(), "u0".to_string());
    p.shutdown();
    assert_eq!(p.slots.len(), 0);
    p.shutdown();
    assert_eq!(p.slots.len(), 0);
}

#[test]
fn stats_counts() {
    let mut p = BrowserPool::new(2, 3);
    p.admit_prewarmed("browser_0".to_string(), "u0".to_string());
    p.admit_prewarmed("browser_1".to_string(), "u1".to_string());
    let _t = p.try_acquire(&all_alive(&p)).unwrap();
    let stats = p.get_stats();
    assert_eq!(stats.pool_size, 2);
    assert_eq!(stats.alive_count, 2);
    assert_eq!(stats.busy_count, 1);
    assert_eq!(stats.available_count, 1);
}

// The acquire poll loop gives up only once the deadline has passed.
#[test]
fn acquire_poll_deadline() {
    assert_eq!(acquire_poll_step(true, 99_999, 20_000), PollStep::Proceed);
    assert_eq!(acquire_poll_step(false, 0, 20_000), PollStep::Wait);
    assert_eq!(acquire_poll_step(false, 19_999, 20_000), PollStep::Wait);
    assert_eq!(acquire_poll_step(false, 20_000, 20_000), PollStep::TimedOut);
}
