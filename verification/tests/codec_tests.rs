use anyrouter_monitor::codec::{parse_balance_file, parse_daily_file};
use anyrouter_monitor::date::Date;
use anyrouter_monitor::models::BalanceCacheRecord;
use anyrouter_monitor::store::{StateStore, Stamp};

fn stamp_at(text: &str, y: u32, m: u32, d: u32, hour: u32) -> Stamp {
    Stamp { date: Date { year: y, month: m, day: d }, hour, text: text.to_string() }
}

fn store_with_rollover(h: u32) -> StateStore {
    StateStore::load(None, None, h).unwrap().0
}

// Writing a state map and reloading it yields an identical map, field
// for field.
#[test]
fn balance_file_roundtrip() {
    let mut store = store_with_rollover(8);
    let now = stamp_at("2025-10-08T12:00:00+08:00", 2025, 10, 8, 12);
    store.update_balance_cache("alice".to_string(), "$42.5", None, None, &now);
    store.update_balance_cache(
        "bob \"the builder\"".to_string(),
        "$0.1",
        Some(true),
        Some("quota synchronised"),
        &now,
    );
    store.update_balance_cache("cäri\\团".to_string(), "$-3.0", Some(false), None, &now);
    let bytes = store.save_balance_cache(&now);
    let reloaded = parse_balance_file(&bytes).expect("the emitted file must parse");
    assert_eq!(reloaded.entries.len(), 3);
    for (k, rec) in &store.balance_cache.entries {
        let back = reloaded.get(k).expect("every record survives");
        assert_eq!(back.balance, rec.balance);
        assert_eq!(back.updated_at, rec.updated_at);
        assert_eq!(back.apikey_sync_success, rec.apikey_sync_success);
        assert_eq!(back.apikey_sync_message, rec.apikey_sync_message);
    }
}

#[test]
fn daily_file_roundtrip() {
    let mut store = store_with_rollover(8);
    let now = stamp_at("2025-10-08T12:00:00+08:00", 2025, 10, 8, 12);
    store.mark_web_query_success("alice".to_string(), &now);
    store.mark_web_query_success("bob".to_string(), &now);
    let bytes = store.save_daily_web_state(&now);
    let (reloaded, updated_at) = parse_daily_file(&bytes).expect("the emitted file must parse");
    assert_eq!(updated_at, "2025-10-08T12:00:00+08:00");
    assert_eq!(reloaded.entries.len(), 2);
    assert_eq!(reloaded.get("alice"), Some(&Date { year: 2025, month: 10, day: 8 }));
    assert_eq!(reloaded.get("bob"), Some(&Date { year: 2025, month: 10, day: 8 }));
}

// The emitter writes real JSON: serde_json reads the same values back.
#[test]
fn emitted_balance_file_is_json() {
    let mut store = store_with_rollover(8);
    let now = stamp_at("2025-10-08T12:00:00+08:00", 2025, 10, 8, 12);
    store.update_balance_cache("a\"b\\c\n".to_string(), "$7.0", Some(false), Some("m\tsg"), &now);
    let bytes = store.save_balance_cache(&now);
    let v: serde_json::Value = serde_json::from_slice(&bytes).expect("valid JSON");
    assert_eq!(v["version"], serde_json::Value::from(1u64));
    assert_eq!(v["updated_at"].as_str(), Some("2025-10-08T12:00:00+08:00"));
    let rec = &v["accounts"]["a\"b\\c\n"];
    assert_eq!(rec["balance"].as_str(), Some("$7.0"));
    assert_eq!(rec["apikey_sync_success"].as_bool(), Some(false));
    assert_eq!(rec["apikey_sync_message"].as_str(), Some("m\tsg"));
}

#[test]
fn emitted_daily_file_is_json() {
    let mut store = store_with_rollover(8);
    let now = stamp_at("2025-10-08T12:00:00+08:00", 2025, 10, 8, 12);
    store.mark_web_query_success("alice".to_string(), &now);
    let bytes = store.save_daily_web_state(&now);
    let v: serde_json::Value = serde_json::from_slice(&bytes).expect("valid JSON");
    assert_eq!(v["accounts"]["alice"].as_str(), Some("2025-10-08"));
}

#[test]
fn tolerant_parse_of_foreign_shapes() {
    // A record given as a bare scalar becomes its balance text.
    let m = parse_balance_file(b"{\"accounts\":{\"a\": \"42\", \"b\": 7, \"c\": true}}").unwrap();
    assert_eq!(m.get("a").unwrap().balance, "42");
    assert_eq!(m.get("b").unwrap().balance, "7");
    assert_eq!(m.get("c").unwrap().balance, "true");
    // Entries with no usable balance are dropped silently.
    let m = parse_balance_file(
        b"{\"accounts\":{\"a\": null, \"b\": [1,2], \"c\": {\"balance\": \"  \"}, \"d\": \"9\"}}",
    )
    .unwrap();
    assert!(m.get("a").is_none());
    assert!(m.get("b").is_none());
    assert!(m.get("c").is_none());
    assert_eq!(m.get("d").unwrap().balance, "9");
}

#[test]
fn legacy_flat_file_reads_as_accounts() {
    // Without an `accounts` member the root object itself is the map.
    let m = parse_balance_file(b"{\"alice\": {\"balance\": \" $5.0 \"}}").unwrap();
    assert_eq!(m.get("alice").unwrap().balance, "$5.0");
}

#[test]
fn unknown_record_fields_are_ignored() {
    let m = parse_balance_file(
        b"{\"accounts\":{\"a\":{\"balance\":\"1\",\"extra\":{\"x\":[1,{\"y\":2}]},\"apikey_sync_success\":\"yes\"}}}",
    )
    .unwrap();
    let rec = m.get("a").unwrap();
    assert_eq!(rec.balance, "1");
    // A non-boolean sync value reads as absent.
    assert_eq!(rec.apikey_sync_success, None);
}

#[test]
fn malformed_documents_are_refused() {
    assert!(parse_balance_file(b"{\"accounts\":").is_none());
    assert!(parse_balance_file(b"").is_none());
    assert!(parse_balance_file(b"{} trailing").is_none());
    assert!(parse_balance_file(b"{\"a\": nope}").is_none());
    assert!(parse_daily_file(b"[1,2").is_none());
}

#[test]
fn non_object_roots_read_as_empty() {
    assert_eq!(parse_balance_file(b"[1, 2, 3]").unwrap().entries.len(), 0);
    assert_eq!(parse_balance_file(b"\"hello\"").unwrap().entries.len(), 0);
    assert_eq!(parse_daily_file(b"null").unwrap().0.entries.len(), 0);
}

#[test]
fn daily_parse_keeps_only_real_days() {
    let (m, up) = parse_daily_file(
        b"{\"updated_at\":\"2025-10-08T12:00:00+08:00\",\"accounts\":{\"a\":\"2025-10-07\",\"b\":\"2025-02-30\",\"c\":\"soon\",\"d\":{\"x\":1}}}",
    )
    .unwrap();
    assert_eq!(up, "2025-10-08T12:00:00+08:00");
    assert_eq!(m.get("a"), Some(&Date { year: 2025, month: 10, day: 7 }));
    assert!(m.get("b").is_none());
    assert!(m.get("c").is_none());
    assert!(m.get("d").is_none());
}

// A persisted file whose save stamp lies before the rollover hour was
// written under the old midnight rule: markers equal to the save date
// are stepped back one day, all others stay.
#[test]
fn legacy_correction_rewrites_exactly_the_save_day() {
    let daily = b"{\"updated_at\":\"2025-10-08T06:00:00+08:00\",\"accounts\":{\"a\":\"2025-10-08\",\"b\":\"2025-10-07\",\"c\":\"2025-10-08\",\"d\":\"2025-09-01\"}}";
    let (store, corrected) = StateStore::load(None, Some(daily), 8).unwrap();
    assert_eq!(corrected, 2);
    let m = &store.daily_web_state;
    assert_eq!(m.get("a"), Some(&Date { year: 2025, month: 10, day: 7 }));
    assert_eq!(m.get("b"), Some(&Date { year: 2025, month: 10, day: 7 }));
    assert_eq!(m.get("c"), Some(&Date { year: 2025, month: 10, day: 7 }));
    assert_eq!(m.get("d"), Some(&Date { year: 2025, month: 9, day: 1 }));
}

#[test]
fn no_correction_at_or_after_rollover() {
    let daily = b"{\"updated_at\":\"2025-10-08T08:00:00+08:00\",\"accounts\":{\"a\":\"2025-10-08\"}}";
    let (store, corrected) = StateStore::load(None, Some(daily), 8).unwrap();
    assert_eq!(corrected, 0);
    assert_eq!(store.daily_web_state.get("a"), Some(&Date { year: 2025, month: 10, day: 8 }));
}

#[test]
fn no_correction_without_timestamp() {
    let daily = b"{\"accounts\":{\"a\":\"2025-10-08\"}}";
    let (store, corrected) = StateStore::load(None, Some(daily), 8).unwrap();
    assert_eq!(corrected, 0);
    assert_eq!(store.daily_web_state.get("a"), Some(&Date { year: 2025, month: 10, day: 8 }));
}

#[test]
fn load_reads_both_files() {
    let balance = b"{\"version\":1,\"updated_at\":\"x\",\"accounts\":{\"a\":{\"balance\":\"$1.0\"}}}";
    let daily = b"{\"updated_at\":\"2025-10-08T12:00:00+08:00\",\"accounts\":{\"a\":\"2025-10-07\"}}";
    let (store, corrected) = StateStore::load(Some(balance), Some(daily), 8).unwrap();
    assert_eq!(corrected, 0);
    assert_eq!(store.balance_cache.get("a").unwrap().balance, "$1.0");
    assert_eq!(store.daily_web_state.get("a"), Some(&Date { year: 2025, month: 10, day: 7 }));
    assert!(StateStore::load(Some(b"nope"), None, 8).is_none());
    assert!(StateStore::load(None, Some(b"{"), 8).is_none());
}

#[test]
fn cached_reads() {
    let mut store = store_with_rollover(8);
    let now = stamp_at("2025-10-08T12:00:00+08:00", 2025, 10, 8, 12);
    assert!(store.get_cached_balance_text("alice").is_none());
    assert!(store.get_cached_balance_record("alice").is_none());
    store.update_balance_cache("alice".to_string(), "$30.0", None, None, &now);
    assert_eq!(store.get_cached_balance_text("alice").unwrap(), "$30.0");
    let rec = store.get_cached_balance_record("alice").unwrap();
    assert_eq!(rec.balance, "$30.0");
    assert_eq!(rec.updated_at, "2025-10-08T12:00:00+08:00");
    // A blank balance is filtered from the text read.
    store.update_balance_cache("blankie".to_string(), "   ", None, None, &now);
    assert!(store.get_cached_balance_text("blankie").is_none());
    assert!(store.get_cached_balance_record("blankie").is_some());
}

#[test]
fn sync_message_is_kept_unless_replaced() {
    let mut store = store_with_rollover(8);
    let now = stamp_at("t", 2025, 10, 8, 12);
    store.update_balance_cache("a".to_string(), "$1.0", Some(true), Some("first"), &now);
    store.update_balance_cache("a".to_string(), "$2.0", None, None, &now);
    let rec: &BalanceCacheRecord = store.balance_cache.get("a").unwrap();
    assert_eq!(rec.balance, "$2.0");
    assert_eq!(rec.apikey_sync_success, None);
    assert_eq!(rec.apikey_sync_message, "first");
    store.update_balance_cache("a".to_string(), "$3.0", Some(false), Some("second"), &now);
    assert_eq!(store.balance_cache.get("a").unwrap().apikey_sync_message, "second");
}

// The end-to-end persistence round trip through the store itself: the
// saved bytes reload into a store with identical tables, field for
// field. The save stamp lies past the rollover hour, so no correction
// applies.
#[test]
fn store_save_and_reload_identical() {
    let mut store = store_with_rollover(8);
    let now = stamp_at("2025-10-08T12:00:00+08:00", 2025, 10, 8, 12);
    store.mark_web_query_success("alice".to_string(), &now);
    store.update_balance_cache("alice".to_string(), "$42.5", None, None, &now);
    store.update_balance_cache("bob".to_string(), "$9.9", Some(true), Some("synced"), &now);
    let balance_bytes = store.save_balance_cache(&now);
    let daily_bytes = store.save_daily_web_state(&now);
    let (reloaded, corrected) =
        StateStore::load(Some(&balance_bytes), Some(&daily_bytes), 8).unwrap();
    assert_eq!(corrected, 0);
    assert_eq!(reloaded.balance_cache.entries.len(), store.balance_cache.entries.len());
    for (k, rec) in &store.balance_cache.entries {
        let back = reloaded.balance_cache.get(k).unwrap();
        assert_eq!(back.balance, rec.balance);
        assert_eq!(back.updated_at, rec.updated_at);
        assert_eq!(back.apikey_sync_success, rec.apikey_sync_success);
        assert_eq!(back.apikey_sync_message, rec.apikey_sync_message);
    }
    assert_eq!(reloaded.daily_web_state.entries.len(), 1);
    assert_eq!(
        reloaded.daily_web_state.get("alice"),
        Some(&Date { year: 2025, month: 10, day: 8 })
    );
}
