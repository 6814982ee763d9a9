use wakeup_gateway::verification::{
    append_history_batch, build_display_state_for_all_accounts, classify_failure,
    dedupe_account_ids, delete_history, error_payload_text, failure_item, load_history, load_state,
    select_accounts, success_item, AccountRef, BatchTally, UiErrorPayload,
    VerificationStatus, WakeupVerificationBatchHistoryItem, WakeupVerificationBatchRun,
    WakeupVerificationStateItem,
};

fn account(id: &str, email: &str) -> AccountRef {
    AccountRef { id: id.to_string(), email: email.to_string() }
}

fn record(id: &str, at: i64) -> WakeupVerificationBatchHistoryItem {
    WakeupVerificationBatchHistoryItem {
        batch_id: id.to_string(),
        verified_at: at,
        model: "m".to_string(),
        prompt: "p".to_string(),
        totals: BatchTally::new(0),
        records: Vec::new(),
    }
}

fn item(id: &str, email: &str, at: Option<i64>) -> WakeupVerificationStateItem {
    WakeupVerificationStateItem {
        account_id: id.to_string(),
        account_email: email.to_string(),
        status: VerificationStatus::Success,
        last_verify_at: at,
        last_model: None,
        last_error_code: None,
        last_message: None,
        validation_url: None,
        trajectory_id: None,
        duration_ms: None,
    }
}

#[test]
fn batch_of_three_mocked_accounts() {
    let accounts = vec![account("a1", "c@x"), account("a2", "a@x"), account("a3", "b@x")];
    let mut run = WakeupVerificationBatchRun::new("verify_1".to_string(), "m".to_string(), "hi".to_string(), 3);
    let mut table: Vec<WakeupVerificationStateItem> = Vec::new();
    let ok = success_item(&accounts[0], "m", 10, "pong".to_string(), 5);
    let first = run.complete(ok, &mut table);
    assert!(first.running);
    let expired = classify_failure("Authorization expired", None);
    let second = run.complete(failure_item(&accounts[1], "m", 11, expired, 6), &mut table);
    assert!(second.running);
    let forbidden = classify_failure("request failed: 403 - denied", None);
    let third = run.complete(failure_item(&accounts[2], "m", 12, forbidden, 7), &mut table);
    assert!(!third.running);
    let t = run.totals;
    assert_eq!((t.success_count, t.auth_expired_count, t.verification_required_count, t.failed_count), (1, 1, 1, 0));
    assert_eq!((t.completed, t.total), (3, 3));
    assert_eq!(table.len(), 3);
    assert_eq!(table[0].account_id, "a3");
    let (result, last, history) = run.finish(99);
    assert!(!last.running);
    assert!(last.item.is_none());
    let emails: Vec<String> = result.records.iter().map(|r| r.account_email.clone()).collect();
    assert_eq!(emails, vec!["a@x".to_string(), "b@x".to_string(), "c@x".to_string()]);
    assert_eq!(history.verified_at, 99);
    assert_eq!(history.records.len(), 3);
}

#[test]
fn failure_classification() {
    let payload = UiErrorPayload {
        kind: Some("quota".to_string()),
        message: Some("slow down".to_string()),
        error_code: Some(403),
        validation_url: Some("https://v".to_string()),
        trajectory_id: None,
    };
    let c = classify_failure("AG_WAKEUP_ERROR_JSON:{}", Some(&payload));
    assert_eq!(c.status, VerificationStatus::VerificationRequired);
    assert_eq!(c.message, "slow down");
    assert_eq!(c.validation_url, Some("https://v".to_string()));
    let other = UiErrorPayload { kind: Some("temporary".to_string()), message: None, error_code: Some(14), validation_url: None, trajectory_id: None };
    let c = classify_failure("raw text", Some(&other));
    assert_eq!(c.status, VerificationStatus::Failed);
    assert_eq!(c.message, "raw text");
    assert_eq!(classify_failure("UNAUTHENTICATED request", None).status, VerificationStatus::AuthExpired);
    assert_eq!(classify_failure("UNAUTHENTICATED request", None).error_code, Some(401));
    assert_eq!(classify_failure("boom", None).status, VerificationStatus::Failed);
    assert_eq!(classify_failure("boom", None).error_code, None);
    assert_eq!(error_payload_text("AG_WAKEUP_ERROR_JSON:  {\"kind\":\"x\"} "), Some("{\"kind\":\"x\"}".to_string()));
    assert_eq!(error_payload_text("AG_WAKEUP_ERROR_JSON:   "), None);
    assert_eq!(error_payload_text("plain"), None);
}

#[test]
fn history_keeps_newest_hundred_sorted() {
    let mut history: Vec<WakeupVerificationBatchHistoryItem> = Vec::new();
    for i in 0..105i64 {
        append_history_batch(&mut history, record(&format!("b{}", i), 1_000 + (i * 37) % 105));
        assert!(history.len() <= 100);
        for w in history.windows(2) {
            assert!(w[0].verified_at >= w[1].verified_at);
        }
    }
    assert_eq!(history.len(), 100);
    assert_eq!(history[0].verified_at, 1_104);
    assert_eq!(history[99].verified_at, 1_005);
    append_history_batch(&mut history, record("b50", 5_000));
    assert_eq!(history.len(), 100);
    assert_eq!(history[0].batch_id, "b50");
    assert_eq!(history.iter().filter(|r| r.batch_id == "b50").count(), 1);
}

#[test]
fn history_loading_and_deleting() {
    let mut h = vec![record("x", 1), record("y", 3), record("z", 2)];
    h[0].records.push(item("a1", "old@x", Some(1)));
    let loaded = load_history(h.clone(), &vec![account("a1", "new@x")]);
    let order: Vec<&str> = loaded.iter().map(|r| r.batch_id.as_str()).collect();
    assert_eq!(order, vec!["y", "z", "x"]);
    assert_eq!(loaded[2].records[0].account_email, "new@x");
    let deleted = delete_history(&mut h, &vec![" y ".to_string(), "".to_string(), "nope".to_string()]);
    assert_eq!(deleted, 1);
    assert_eq!(h.len(), 2);
    assert_eq!(delete_history(&mut h, &vec!["  ".to_string()]), 0);
}

#[test]
fn state_table_order_and_display() {
    let items = vec![item("a", "b@x", Some(5)), item("b", "a@x", Some(5)), item("c", "c@x", None), item("d", "d@x", Some(9))];
    let sorted = load_state(items);
    let ids: Vec<&str> = sorted.iter().map(|i| i.account_id.as_str()).collect();
    assert_eq!(ids, vec!["d", "b", "a", "c"]);
    let accounts = vec![account("a", "renamed@x"), account("z", "z@x")];
    let shown = build_display_state_for_all_accounts(&accounts, &sorted);
    assert_eq!(shown.len(), 2);
    assert_eq!(shown[0].account_id, "a");
    assert_eq!(shown[0].account_email, "renamed@x");
    assert_eq!(shown[1].status, VerificationStatus::Idle);
    assert_eq!(shown[1].status.as_tag(), "idle");
}

#[test]
fn account_ids_are_deduplicated_and_selected() {
    let ids = vec![" a ".to_string(), "b".to_string(), "".to_string(), "a".to_string(), "c".to_string()];
    let d = dedupe_account_ids(&ids);
    assert_eq!(d, vec!["a".to_string(), "b".to_string(), "c".to_string()]);
    let selected = select_accounts(&d, &vec![account("c", "c@x"), account("a", "a@x")]);
    let picked: Vec<(&str, &str)> = selected.iter().map(|a| (a.id.as_str(), a.email.as_str())).collect();
    assert_eq!(picked, vec![("a", "a@x"), ("c", "c@x")]);
}
