use anyrouter_monitor::config::{remove_account, RuntimeFiles};
use anyrouter_monitor::models::{Account, AppConfig, CheckResult, PerformanceConfig};
use anyrouter_monitor::monitor::{select_accounts, sort_results, summarize};
use anyrouter_monitor::strmap::StrMap;

fn account(name: &str) -> Account {
    Account {
        username: name.to_string(),
        password: "pw".to_string(),
        api_key: String::new(),
    }
}

fn result(name: &str, success: bool) -> CheckResult {
    CheckResult {
        username: name.to_string(),
        success,
        balance_text: "$1.0".to_string(),
        source: "api".to_string(),
        message: String::new(),
    }
}

#[test]
fn selection_without_target_keeps_all() {
    let accounts = vec![account("b"), account("a")];
    let selected = select_accounts(accounts, None);
    assert_eq!(selected.len(), 2);
    assert_eq!(selected[0].username, "b");
}

#[test]
fn selection_with_target_filters() {
    let accounts = vec![account("b"), account("a"), account("b")];
    let selected = select_accounts(accounts, Some("b"));
    assert_eq!(selected.len(), 2);
    assert!(selected.iter().all(|a| a.username == "b"));
    let none = select_accounts(vec![account("x")], Some("y"));
    assert!(none.is_empty());
}

// Results come back sorted by account identifier, whatever order the
// pipelines finished in.
#[test]
fn results_are_sorted_by_username() {
    let results = vec![
        result("charlie", true),
        result("alice", false),
        result("bob", true),
        result("alice", true),
    ];
    let sorted = sort_results(results);
    let names: Vec<&str> = sorted.iter().map(|r| r.username.as_str()).collect();
    assert_eq!(names, vec!["alice", "alice", "bob", "charlie"]);
}

#[test]
fn sorting_is_a_permutation() {
    let results = vec![result("z", true), result("a", false), result("m", true)];
    let sorted = sort_results(results);
    assert_eq!(sorted.len(), 3);
    assert!(sorted.iter().any(|r| r.username == "z" && r.success));
    assert!(sorted.iter().any(|r| r.username == "a" && !r.success));
    assert!(sorted.iter().any(|r| r.username == "m" && r.success));
}

#[test]
fn summary_counts() {
    let results = vec![result("a", true), result("b", false), result("c", true)];
    let (ok, failed) = summarize(&results);
    assert_eq!(ok, 2);
    assert_eq!(failed, 1);
    let (ok, failed) = summarize(&Vec::new());
    assert_eq!(ok, 0);
    assert_eq!(failed, 0);
}

#[test]
fn runtime_file_layout() {
    let files = RuntimeFiles::new("/srv/conf".to_string());
    assert_eq!(files.config_dir, "/srv/conf");
    assert_eq!(files.config_file, "/srv/conf/config.json");
    assert_eq!(files.credentials_file, "/srv/conf/credentials.txt");
    assert_eq!(files.balance_cache_file, "/srv/conf/balance_cache.json");
    assert_eq!(files.daily_web_state_file, "/srv/conf/daily_web_login_state.json");
}

#[test]
fn remove_account_drops_every_match() {
    let accounts = vec![account("a"), account("b"), account("a"), account("c")];
    let (kept, changed) = remove_account(accounts, "a");
    assert!(changed);
    let names: Vec<&str> = kept.iter().map(|a| a.username.as_str()).collect();
    assert_eq!(names, vec!["b", "c"]);
    let (kept2, changed2) = remove_account(kept, "zzz");
    assert!(!changed2);
    assert_eq!(kept2.len(), 2);
}

#[test]
fn config_defaults() {
    let perf = PerformanceConfig::default();
    assert_eq!(perf.max_workers, 9);
    assert_eq!(perf.query_interval, 60);
    assert_eq!(perf.retry_times, 2);
    assert_eq!(perf.retry_delay, 3);
    assert_eq!(perf.daily_rollover_hour, 8);
    let config = AppConfig::default();
    assert_eq!(config.api.timeout, 8);
    assert!(config.api.fallback_to_web);
    assert_eq!(config.api.base_url, "https://anyrouter.top");
    assert_eq!(config.web_check.pool_size, 4);
    assert_eq!(config.web_check.max_pool_size, 9);
    assert!(!config.web_check.enabled);
    assert_eq!(config.web_check.timeout_seconds, 90);
    assert!(config.browser.headless);
    assert_eq!(config.browser.window_size, "1920,1080");
    assert_eq!(config.logging.level, "INFO");
    assert_eq!(config.logging.file, "anyrouter_monitor.log");
}

#[test]
fn strmap_upserts_in_place() {
    let mut m: StrMap<u32> = StrMap::new();
    m.insert("a".to_string(), 1);
    m.insert("b".to_string(), 2);
    m.insert("a".to_string(), 3);
    assert_eq!(m.len(), 2);
    assert_eq!(m.get("a"), Some(&3));
    assert_eq!(m.get("b"), Some(&2));
    assert_eq!(m.get("c"), None);
    // The first-added key keeps its position.
    assert_eq!(m.entries[0].0, "a");
    assert_eq!(m.entries[1].0, "b");
}
