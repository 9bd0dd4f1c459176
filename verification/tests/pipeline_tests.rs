use anyrouter_monitor::date::Date;
use anyrouter_monitor::models::CheckResult;
use anyrouter_monitor::pipeline::{
    format_balance, ApiOutcome, Pipeline, PipelineAction, PipelinePhase, QueryMode, StepResult,
    WebOutcome,
};
use anyrouter_monitor::store::{StateStore, Stamp};

fn now() -> Stamp {
    Stamp {
        date: Date { year: 2025, month: 10, day: 8 },
        hour: 12,
        text: "2025-10-08T12:00:00+08:00".to_string(),
    }
}

fn fresh_store() -> StateStore {
    StateStore::load(None, None, 8).unwrap().0
}

fn fulfilled_store(user: &str) -> StateStore {
    let mut store = fresh_store();
    store.mark_web_query_success(user.to_string(), &now());
    store
}

fn api_ok(tenths: i64, source: &str) -> ApiOutcome {
    ApiOutcome {
        success: true,
        balance_tenths: Some(tenths),
        source: source.to_string(),
        message: "balance read".to_string(),
    }
}

fn api_fail(msg: &str) -> ApiOutcome {
    ApiOutcome {
        success: false,
        balance_tenths: None,
        source: String::new(),
        message: msg.to_string(),
    }
}

fn finished(r: StepResult) -> CheckResult {
    match r {
        StepResult::Finished { result } => result,
        StepResult::Next { .. } => panic!("expected a final result"),
    }
}

#[test]
fn balance_formatting() {
    assert_eq!(format_balance(425), "$42.5");
    assert_eq!(format_balance(100), "$10.0");
    assert_eq!(format_balance(0), "$0.0");
    assert_eq!(format_balance(7), "$0.7");
    assert_eq!(format_balance(-30), "$-3.0");
    assert_eq!(format_balance(12345), "$1234.5");
}

// Scenario: a fulfilled account with a token; the fast probe succeeds
// with 42.50 and the result carries the probe's tag while the store
// records "$42.5".
#[test]
fn fast_probe_success() {
    let mut store = fulfilled_store("alice");
    let (ctx, phase, action) = Pipeline::start(
        "alice".to_string(),
        false,
        true,
        2,
        3,
        QueryMode::Normal,
        &store,
        &now(),
    );
    assert!(matches!(phase, PipelinePhase::FastFirst));
    assert!(matches!(action, PipelineAction::CallFast));
    assert!(!ctx.forced);
    let r = finished(ctx.on_fast_first(api_ok(425, "billing:subscription+usage"), &mut store, &now()));
    assert!(r.success);
    assert_eq!(r.username, "alice");
    assert_eq!(r.balance_text, "$42.5");
    assert_eq!(r.source, "billing:subscription+usage");
    assert_eq!(store.get_cached_balance_text("alice").unwrap(), "$42.5");
}

// Scenario: a forced account; the browser succeeds with 10.0; the
// cycle marker is set, the balance persisted, and the result reports
// the browser source.
#[test]
fn forced_browser_success() {
    let mut store = fresh_store();
    let (ctx, phase, _action) = Pipeline::start(
        "alice".to_string(),
        false,
        true,
        2,
        3,
        QueryMode::Normal,
        &store,
        &now(),
    );
    assert!(ctx.forced);
    let attempt = match phase {
        PipelinePhase::Web { attempt } => attempt,
        _ => panic!("a forced run starts with the browser"),
    };
    let web = WebOutcome {
        success: true,
        balance_tenths: Some(100),
        message: String::new(),
    };
    let r = finished(ctx.on_slow_result(attempt, web, &mut store, &now()));
    assert!(r.success);
    assert_eq!(r.balance_text, "$10.0");
    assert_eq!(r.source, "web_hook");
    assert!(!store.should_force_web_query("alice", &now()));
    assert_eq!(store.get_cached_balance_text("alice").unwrap(), "$10.0");
}

// An unforced browser success is rechecked by the fast probe; a failed
// recheck keeps the browser result.
#[test]
fn recheck_keeps_browser_result_on_failure() {
    let mut store = fulfilled_store("alice");
    let ctx = Pipeline {
        username: "alice".to_string(),
        has_api_key: true,
        fallback_to_web: true,
        retry_times: 2,
        retry_delay: 3,
        mode: QueryMode::Normal,
        forced: false,
    };
    let web = WebOutcome { success: true, balance_tenths: Some(100), message: String::new() };
    let step = ctx.on_slow_result(1, web, &mut store, &now());
    let web_tenths = match step {
        StepResult::Next { phase: PipelinePhase::FastRecheck { web_tenths }, action } => {
            assert!(matches!(action, PipelineAction::CallFast));
            web_tenths
        }
        _ => panic!("an unforced browser success tries the fast probe again"),
    };
    let r = finished(ctx.on_fast_recheck(web_tenths, api_fail("http 500"), &mut store, &now()));
    assert!(r.success);
    assert_eq!(r.balance_text, "$10.0");
    assert_eq!(r.source, "web_hook");
}

#[test]
fn recheck_success_supersedes_browser_result() {
    let mut store = fulfilled_store("alice");
    let ctx = Pipeline {
        username: "alice".to_string(),
        has_api_key: true,
        fallback_to_web: true,
        retry_times: 2,
        retry_delay: 3,
        mode: QueryMode::Normal,
        forced: false,
    };
    let r = finished(ctx.on_fast_recheck(101, api_ok(102, "header:x"), &mut store, &now()));
    assert!(r.success);
    assert_eq!(r.balance_text, "$10.2");
    assert_eq!(r.source, "header:x");
    assert_eq!(store.get_cached_balance_text("alice").unwrap(), "$10.2");
}

// Scenario: the fast probe fails, the deployment does not fall back to
// the browser, and a cached record exists: the cache serves the result.
#[test]
fn cache_serves_when_fallback_disabled() {
    let mut store = fulfilled_store("alice");
    store.update_balance_cache("alice".to_string(), "$30.0", None, None, &now());
    let (ctx, _phase, _action) = Pipeline::start(
        "alice".to_string(),
        false,
        false,
        2,
        3,
        QueryMode::Normal,
        &store,
        &now(),
    );
    let r = finished(ctx.on_fast_first(api_fail("http 502"), &mut store, &now()));
    assert!(r.success);
    assert_eq!(r.balance_text, "$30.0");
    assert_eq!(r.source, "cache");
    assert!(r.message.contains("http 502"));
}

#[test]
fn no_cache_and_no_fallback_fails() {
    let mut store = fulfilled_store("alice");
    let (ctx, _phase, _action) = Pipeline::start(
        "alice".to_string(),
        false,
        false,
        2,
        3,
        QueryMode::Normal,
        &store,
        &now(),
    );
    let r = finished(ctx.on_fast_first(api_fail("http 502"), &mut store, &now()));
    assert!(!r.success);
    assert_eq!(r.source, "api");
    assert_eq!(r.message, "http 502");
}

#[test]
fn fast_failure_with_fallback_turns_to_browser() {
    let mut store = fulfilled_store("alice");
    let (ctx, _phase, _action) = Pipeline::start(
        "alice".to_string(),
        false,
        true,
        2,
        3,
        QueryMode::Normal,
        &store,
        &now(),
    );
    match ctx.on_fast_first(api_fail("down"), &mut store, &now()) {
        StepResult::Next { phase: PipelinePhase::Web { attempt }, action } => {
            assert_eq!(attempt, 1);
            match action {
                PipelineAction::CallSlow { attempt, delay_before } => {
                    assert_eq!(attempt, 1);
                    assert_eq!(delay_before, 0);
                }
                _ => panic!("the browser is next"),
            }
        }
        _ => panic!("the browser is next"),
    }
}

// The bounded retry: each failed attempt schedules a fresh one after
// the configured delay until the count is spent.
#[test]
fn browser_retry_until_spent() {
    let mut store = fresh_store();
    let ctx = Pipeline {
        username: "alice".to_string(),
        has_api_key: false,
        fallback_to_web: true,
        retry_times: 3,
        retry_delay: 7,
        mode: QueryMode::Normal,
        forced: true,
    };
    let fail = |msg: &str| WebOutcome {
        success: false,
        balance_tenths: None,
        message: msg.to_string(),
    };
    match ctx.on_slow_result(1, fail("boom"), &mut store, &now()) {
        StepResult::Next { phase: PipelinePhase::Web { attempt }, action } => {
            assert_eq!(attempt, 2);
            match action {
                PipelineAction::CallSlow { attempt, delay_before } => {
                    assert_eq!(attempt, 2);
                    assert_eq!(delay_before, 7);
                }
                _ => panic!("another attempt follows"),
            }
        }
        _ => panic!("another attempt follows"),
    }
    match ctx.on_slow_result(2, fail("boom"), &mut store, &now()) {
        StepResult::Next { phase: PipelinePhase::Web { attempt }, .. } => assert_eq!(attempt, 3),
        _ => panic!("a third attempt follows"),
    }
    let r = finished(ctx.on_slow_result(3, fail("boom"), &mut store, &now()));
    assert!(!r.success);
    assert_eq!(r.source, "web_hook");
    assert!(r.message.contains("boom"));
    // The cycle was never fulfilled.
    assert!(store.should_force_web_query("alice", &now()));
}

// Scenario: the pool is exhausted past the deadline; the attempt fails
// with a timeout-class message, and an unforced account still gets the
// fast probe as a last resort.
#[test]
fn pool_timeout_is_an_attempt_failure() {
    let mut store = fulfilled_store("alice");
    let ctx = Pipeline {
        username: "alice".to_string(),
        has_api_key: true,
        fallback_to_web: true,
        retry_times: 1,
        retry_delay: 3,
        mode: QueryMode::Normal,
        forced: false,
    };
    let timeout = WebOutcome {
        success: false,
        balance_tenths: None,
        message: "timed out waiting for a free pool worker (20s)".to_string(),
    };
    match ctx.on_slow_result(1, timeout, &mut store, &now()) {
        StepResult::Next { phase: PipelinePhase::FastLastResort { web_message }, .. } => {
            assert!(web_message.contains("timed out"));
            let r = finished(ctx.on_fast_last_resort(
                &web_message,
                api_fail("still down"),
                &mut store,
                &now(),
            ));
            assert!(!r.success);
            assert!(r.message.contains("timed out"));
        }
        _ => panic!("the fast probe is the last resort"),
    }
}

#[test]
fn forced_needs_an_extracted_balance() {
    let mut store = fresh_store();
    let ctx = Pipeline {
        username: "alice".to_string(),
        has_api_key: true,
        fallback_to_web: true,
        retry_times: 2,
        retry_delay: 3,
        mode: QueryMode::Normal,
        forced: true,
    };
    let web = WebOutcome { success: true, balance_tenths: None, message: String::new() };
    let r = finished(ctx.on_slow_result(1, web, &mut store, &now()));
    assert!(!r.success);
    assert_eq!(r.source, "web_hook");
    // Without a balance the cycle stays unfulfilled.
    assert!(store.should_force_web_query("alice", &now()));
}

#[test]
fn balance_less_success_falls_back_to_fast() {
    let mut store = fulfilled_store("alice");
    let ctx = Pipeline {
        username: "alice".to_string(),
        has_api_key: true,
        fallback_to_web: true,
        retry_times: 2,
        retry_delay: 3,
        mode: QueryMode::Normal,
        forced: false,
    };
    let web = WebOutcome { success: true, balance_tenths: None, message: String::new() };
    match ctx.on_slow_result(1, web, &mut store, &now()) {
        StepResult::Next { phase: PipelinePhase::FastFallback, .. } => {
            let r = finished(ctx.on_fast_fallback(api_ok(55, "body:x"), &mut store, &now()));
            assert!(r.success);
            assert_eq!(r.balance_text, "$5.5");
        }
        _ => panic!("the fast probe gets one more try"),
    }
}

#[test]
fn web_only_mode_runs_the_browser_alone() {
    let mut store = fresh_store();
    let (ctx, phase, _action) = Pipeline::start(
        "alice".to_string(),
        false,
        true,
        2,
        3,
        QueryMode::WebOnly,
        &store,
        &now(),
    );
    assert!(matches!(phase, PipelinePhase::Web { attempt: 1 }));
    assert!(!ctx.forced);
    let web = WebOutcome {
        success: true,
        balance_tenths: Some(88),
        message: "signed in".to_string(),
    };
    let r = finished(ctx.on_slow_result(1, web, &mut store, &now()));
    assert!(r.success);
    assert_eq!(r.source, "web_only");
    assert_eq!(r.balance_text, "$8.8");
    assert_eq!(r.message, "signed in");
    assert!(!store.should_force_web_query("alice", &now()));
}

#[test]
fn missing_token_goes_straight_to_browser() {
    let store = fulfilled_store("alice");
    let (_ctx, phase, action) = Pipeline::start(
        "alice".to_string(),
        true,
        true,
        2,
        3,
        QueryMode::Normal,
        &store,
        &now(),
    );
    assert!(matches!(phase, PipelinePhase::Web { attempt: 1 }));
    assert!(matches!(action, PipelineAction::CallSlow { attempt: 1, delay_before: 0 }));
}
