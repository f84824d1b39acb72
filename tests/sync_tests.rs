use clerk::link::{Link, LinkStatus};
use clerk::store::LedgerStore;
use clerk::sync::{after_failure, Applied, CallAction, CallFailure, RetryPolicy, SyncError, Tally};
use clerk::upstream::{ChangeEvent, RawTransaction, StreamItem, UpstreamError};

fn link(item_id: &str) -> Link {
    Link {
        alias: "test_link".to_string(),
        access_token: "1234".to_string(),
        item_id: item_id.to_string(),
        state: LinkStatus::Active,
        sync_cursor: None,
        institution_id: None,
    }
}

fn raw(id: &str, pending: bool, pending_id: Option<&str>, amount: i64) -> RawTransaction {
    RawTransaction {
        transaction_id: id.to_string(),
        pending_transaction_id: pending_id.map(|p| p.to_string()),
        account_id: "acct".to_string(),
        name: "Coffee".to_string(),
        merchant_name: Some("Cafe".to_string()),
        amount,
        iso_currency_code: Some("USD".to_string()),
        date: "2022-05-01".to_string(),
        pending,
    }
}

fn store_with_link() -> LedgerStore {
    let mut store = LedgerStore::new();
    store.save_link(&link("item")).unwrap();
    store
}

#[test]
fn pull_applies_events_and_moves_cursor() {
    let mut store = store_with_link();
    let items = vec![
        StreamItem::Added(raw("t1", false, None, 500)),
        StreamItem::Added(raw("t2", false, None, 700)),
        StreamItem::Done("cursor-1".to_string()),
    ];
    let tally = store.pull("item", &items, "USD").unwrap();
    assert_eq!(tally, Tally { added: 2, modified: 0, removed: 0 });
    assert_eq!(store.transactions().len(), 2);
    assert_eq!(store.link("item").unwrap().sync_cursor, Some("cursor-1".to_string()));
}

#[test]
fn replaying_a_pull_adds_nothing() {
    let mut store = store_with_link();
    let items = vec![StreamItem::Added(raw("t1", false, None, 500)), StreamItem::Done("c1".to_string())];
    store.pull("item", &items, "USD").unwrap();
    let tally = store.pull("item", &items, "USD").unwrap();
    assert_eq!(tally, Tally { added: 0, modified: 0, removed: 0 });
    assert_eq!(store.transactions().len(), 1);
}

#[test]
fn replayed_added_event_is_unchanged() {
    let mut store = store_with_link();
    let (events, _) = clerk::upstream::collect_events(
        &vec![StreamItem::Added(raw("t1", false, None, 500)), StreamItem::Done("c".into())],
        "USD",
    )
    .unwrap();
    assert_eq!(store.apply_event("item", &events[0]), Ok(Applied::Added));
    assert_eq!(store.apply_event("item", &events[0]), Ok(Applied::Unchanged));
    assert_eq!(store.transactions().len(), 1);
}

#[test]
fn truncated_feed_changes_nothing() {
    let mut store = store_with_link();
    let items = vec![StreamItem::Added(raw("t1", false, None, 500))];
    assert_eq!(store.pull("item", &items, "USD"), Err(SyncError::Upstream(UpstreamError::MissingCursor)));
    assert!(store.transactions().is_empty());
    assert_eq!(store.link("item").unwrap().sync_cursor, None);
}

#[test]
fn modified_without_base_fails_and_creates_nothing() {
    let mut store = store_with_link();
    store.record_cursor("item", "old").unwrap();
    let items = vec![StreamItem::Modified(raw("ghost", false, None, 100)), StreamItem::Done("new".into())];
    assert_eq!(store.pull("item", &items, "USD"), Err(SyncError::ModifiedWithoutBase));
    assert!(store.transactions().is_empty());
    assert_eq!(store.link("item").unwrap().sync_cursor, Some("old".to_string()));
}

#[test]
fn modified_event_updates_source_only() {
    let mut store = store_with_link();
    store
        .pull("item", &vec![StreamItem::Added(raw("t1", false, None, 500)), StreamItem::Done("c1".into())], "USD")
        .unwrap();
    let mut changed = raw("t1", false, None, 900);
    changed.name = "Changed".to_string();
    let tally = store.pull("item", &vec![StreamItem::Modified(changed), StreamItem::Done("c2".into())], "USD").unwrap();
    assert_eq!(tally, Tally { added: 0, modified: 1, removed: 0 });
    let txns = store.transactions();
    assert_eq!(txns.len(), 1);
    assert_eq!(txns[0].narration, "Coffee");
    assert_eq!(txns[0].postings[1].amount, 500);
}

#[test]
fn pending_then_posted_keeps_one_transaction() {
    let mut store = store_with_link();
    store
        .pull("item", &vec![StreamItem::Added(raw("p1", true, None, 500)), StreamItem::Done("c1".into())], "USD")
        .unwrap();
    let pending_id = store.by_upstream_id("item", "p1").unwrap();
    let tally = store
        .pull("item", &vec![StreamItem::Added(raw("t1", false, Some("p1"), 520)), StreamItem::Done("c2".into())], "USD")
        .unwrap();
    assert_eq!(tally.added, 1);
    let txns = store.transactions();
    assert_eq!(txns.len(), 1);
    assert_eq!(txns[0].id, pending_id);
    assert_eq!(txns[0].postings[1].amount, 520);
    assert!(matches!(txns[0].status, clerk::ledger::Status::Resolved));
    assert_eq!(store.by_upstream_id("item", "t1"), Some(pending_id));
}

#[test]
fn removed_unknown_id_is_a_no_op() {
    let mut store = store_with_link();
    store
        .pull("item", &vec![StreamItem::Added(raw("t1", false, None, 500)), StreamItem::Done("c1".into())], "USD")
        .unwrap();
    let events = vec![ChangeEvent::Removed("tx-9".to_string())];
    let tally = store.sync_link("item", &events, "c2").unwrap();
    assert_eq!(tally, Tally { added: 0, modified: 0, removed: 0 });
    assert_eq!(store.transactions().len(), 1);
    assert_eq!(store.link("item").unwrap().sync_cursor, Some("c2".to_string()));
}

#[test]
fn removed_known_id_deletes_transaction() {
    let mut store = store_with_link();
    store
        .pull("item", &vec![StreamItem::Added(raw("t1", false, None, 500)), StreamItem::Done("c1".into())], "USD")
        .unwrap();
    let tally = store.pull("item", &vec![StreamItem::Removed("t1".into()), StreamItem::Done("c2".into())], "USD").unwrap();
    assert_eq!(tally, Tally { added: 0, modified: 0, removed: 1 });
    assert!(store.transactions().is_empty());
    assert_eq!(store.by_upstream_id("item", "t1"), None);
    assert!(!store.has_upstream("item", "t1"));
    let again = store
        .pull("item", &vec![StreamItem::Added(raw("t1", false, None, 500)), StreamItem::Done("c3".into())], "USD")
        .unwrap();
    assert_eq!(again.added, 1);
}

#[test]
fn unknown_link_is_refused() {
    let mut store = LedgerStore::new();
    assert_eq!(store.sync_link("nope", &vec![], "c"), Err(SyncError::UnknownLink));
}

#[test]
fn unchanged_cursor_keeps_link() {
    let mut store = store_with_link();
    store.sync_link("item", &vec![], "c1").unwrap();
    store.sync_link("item", &vec![], "c1").unwrap();
    assert_eq!(store.link("item").unwrap().sync_cursor, Some("c1".to_string()));
}

#[test]
fn degraded_link_is_not_synced() {
    let mut store = store_with_link();
    store.record_check("item", &Some("ITEM_LOGIN_REQUIRED".into()), &Some("login".into())).unwrap();
    let items = vec![StreamItem::Added(raw("t1", false, None, 500)), StreamItem::Done("c1".into())];
    assert_eq!(store.pull("item", &items, "USD"), Err(SyncError::LinkDegraded));
    assert_eq!(store.sync_link("item", &vec![], "c1"), Err(SyncError::LinkDegraded));
    assert!(store.transactions().is_empty());
    assert_eq!(store.link("item").unwrap().sync_cursor, None);
}

#[test]
fn transient_failures_back_off_within_bounds() {
    let p = RetryPolicy { max_attempts: 6, base_delay_ms: 100, max_delay_ms: 1000 };
    assert_eq!(after_failure(&p, 1, CallFailure::Transient), CallAction::Retry(100));
    assert_eq!(after_failure(&p, 2, CallFailure::Transient), CallAction::Retry(200));
    assert_eq!(after_failure(&p, 3, CallFailure::Transient), CallAction::Retry(400));
    assert_eq!(after_failure(&p, 5, CallFailure::Transient), CallAction::Retry(1000));
    assert_eq!(after_failure(&p, 6, CallFailure::Transient), CallAction::GiveUp);
    assert_eq!(after_failure(&p, 1, CallFailure::Authorization), CallAction::Degrade);
    let huge = RetryPolicy { max_attempts: 200, base_delay_ms: u64::MAX / 2 + 1, max_delay_ms: u64::MAX };
    assert_eq!(after_failure(&huge, 150, CallFailure::Transient), CallAction::Retry(u64::MAX));
}

#[test]
fn removal_of_superseded_pending_keeps_posted() {
    let mut store = store_with_link();
    store
        .pull("item", &vec![StreamItem::Added(raw("p1", true, None, 500)), StreamItem::Done("c1".into())], "USD")
        .unwrap();
    let id = store.by_upstream_id("item", "p1").unwrap();
    let items = vec![
        StreamItem::Added(raw("t1", false, Some("p1"), 520)),
        StreamItem::Removed("p1".into()),
        StreamItem::Modified(raw("p1", true, None, 1)),
        StreamItem::Done("c2".into()),
    ];
    let tally = store.pull("item", &items, "USD").unwrap();
    assert_eq!(tally, Tally { added: 1, modified: 0, removed: 0 });
    let txns = store.transactions();
    assert_eq!(txns.len(), 1);
    assert_eq!(txns[0].id, id);
    assert_eq!(store.by_upstream_id("item", "p1"), None);
    assert!(store.has_upstream("item", "p1"));
    let replay = store
        .pull("item", &vec![StreamItem::Added(raw("p1", true, None, 500)), StreamItem::Done("c3".into())], "USD")
        .unwrap();
    assert_eq!(replay.added, 0);
    assert_eq!(store.transactions().len(), 1);
}

#[test]
fn posted_after_pending_was_removed_is_saved() {
    let mut store = store_with_link();
    let items = vec![
        StreamItem::Added(raw("p1", true, None, 500)),
        StreamItem::Removed("p1".into()),
        StreamItem::Added(raw("t1", false, Some("p1"), 520)),
        StreamItem::Done("c1".into()),
    ];
    let tally = store.pull("item", &items, "USD").unwrap();
    assert_eq!(tally, Tally { added: 2, modified: 0, removed: 1 });
    assert_eq!(store.transactions().len(), 1);
    assert_eq!(store.link("item").unwrap().sync_cursor, Some("c1".to_string()));
}

#[test]
fn modification_after_removal_has_no_base() {
    let mut store = store_with_link();
    let items = vec![
        StreamItem::Added(raw("t1", false, None, 500)),
        StreamItem::Removed("t1".into()),
        StreamItem::Modified(raw("t1", false, None, 600)),
        StreamItem::Done("c1".into()),
    ];
    assert_eq!(store.pull("item", &items, "USD"), Err(SyncError::ModifiedWithoutBase));
    assert!(store.transactions().is_empty());
    assert_eq!(store.link("item").unwrap().sync_cursor, None);
}

#[test]
fn feed_of_only_cursor_succeeds() {
    let mut store = store_with_link();
    let tally = store.pull("item", &vec![StreamItem::Done("c1".into())], "USD").unwrap();
    assert_eq!(tally, Tally { added: 0, modified: 0, removed: 0 });
    assert_eq!(store.link("item").unwrap().sync_cursor, Some("c1".to_string()));
}

#[test]
fn failed_pass_keeps_earlier_events_and_cursor() {
    let mut store = store_with_link();
    let items = vec![
        StreamItem::Added(raw("t1", false, None, 500)),
        StreamItem::Modified(raw("ghost", false, None, 1)),
        StreamItem::Added(raw("t2", false, None, 700)),
        StreamItem::Done("c1".into()),
    ];
    assert_eq!(store.pull("item", &items, "USD"), Err(SyncError::ModifiedWithoutBase));
    assert_eq!(store.transactions().len(), 1);
    assert_eq!(store.link("item").unwrap().sync_cursor, None);
}

#[test]
fn sync_run_visits_active_links_only() {
    let mut store = store_with_link();
    store.save_link(&link("second")).unwrap();
    store.save_link(&link("third")).unwrap();
    store.record_check("second", &Some("ITEM_LOGIN_REQUIRED".into()), &None).unwrap();
    assert_eq!(store.active_links(), vec!["item".to_string(), "third".to_string()]);
}

#[test]
fn link_is_deleted_only_after_revocation() {
    let mut store = store_with_link();
    assert!(store.finish_removal("item", false).unwrap().is_none());
    assert!(store.link("item").is_some());
    let gone = store.finish_removal("item", true).unwrap().unwrap();
    assert_eq!(gone.item_id, "item");
    assert!(store.link("item").is_none());
    assert_eq!(store.finish_removal("item", true).unwrap_err(), clerk::store::StoreError::NotFound);
}
