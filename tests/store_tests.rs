use clerk::ledger::{Date, Posting, Status, Transaction};
use clerk::link::{Account, AccountClass, Institution, Link, LinkStatus, UpstreamAccountType};
use clerk::store::{LedgerStore, StoreError};
use clerk::upstream::{RawTransaction, TransactionEntry};

fn test_link(item_id: &str) -> Link {
    Link {
        alias: "test_link".to_string(),
        access_token: "1234".to_string(),
        item_id: item_id.to_string(),
        state: LinkStatus::Active,
        sync_cursor: None,
        institution_id: Some("10".to_string()),
    }
}

fn raw(transaction_id: &str) -> RawTransaction {
    RawTransaction {
        transaction_id: transaction_id.to_string(),
        pending_transaction_id: None,
        account_id: "test-account-id".to_string(),
        name: "Test Transaction".to_string(),
        merchant_name: None,
        amount: 3325,
        iso_currency_code: None,
        date: "2022-05-01".to_string(),
        pending: false,
    }
}

fn entry(id: &str, transaction_id: &str) -> TransactionEntry {
    TransactionEntry {
        canonical: Transaction {
            id: id.to_string(),
            status: Status::Resolved,
            date: Date { year: 2022, month: 5, day: 1 },
            payee: None,
            narration: "Test Transaction".to_string(),
            postings: vec![
                Posting { account: "test-account-id".to_string(), amount: -3325, currency: "USD".to_string() },
                Posting { account: "Expenses:Unclassified".to_string(), amount: 3325, currency: "USD".to_string() },
            ],
        },
        source: raw(transaction_id),
    }
}

#[test]
fn save_plaid_link_to_table() {
    let mut store = LedgerStore::new();
    let result = store.save_link(&test_link("plaid-id-123"));
    assert!(result.is_ok())
}

#[test]
fn list_plaid_links_to_table() {
    let mut store = LedgerStore::new();
    store.save_link(&test_link("plaid-id-123")).unwrap();
    store.save_link(&test_link("plaid-id-456")).unwrap();
    let links = store.links();
    assert_eq!(links.len(), 2);
}

#[test]
fn store_update_plaid_link() {
    let mut store = LedgerStore::new();
    let link = test_link("plaid-id-123");
    store.save_link(&link).unwrap();
    let mut updated_link = link.clone();
    updated_link.alias = "updated name".to_string();
    let result = store.update_link(&updated_link);
    assert!(result.is_ok());
    assert_eq!(store.link("plaid-id-123").unwrap().alias, "updated name");
}

#[test]
fn link_update_plaid_link() {
    let mut store = LedgerStore::new();
    let link = test_link("plaid-id-123");
    store.save_link(&link).unwrap();
    let updated_link = Link { alias: "updated name".into(), ..link };
    store.update_link(&updated_link).unwrap();
}

#[test]
fn update_of_unknown_link_is_not_found() {
    let mut store = LedgerStore::new();
    assert_eq!(store.update_link(&test_link("nope")), Err(StoreError::NotFound));
}

#[test]
fn can_save_transaction() {
    let mut store = LedgerStore::new();
    let link = test_link("plaid-id-123");
    store.save_link(&link).unwrap();
    let result = store.save_tx(&link.item_id, &entry("01G2A0000000000000000000AA", "1234-test"));
    assert!(result.is_ok());
}

#[test]
fn saving_error_with_conflicting_key_returns_error() {
    let mut store = LedgerStore::new();
    let link = test_link("plaid-id-123");
    store.save_link(&link).unwrap();
    let tx = entry("01G2A0000000000000000000AA", "1234-test");
    let result = store.save_tx(&link.item_id, &tx);
    assert!(result.is_ok());
    let result = store.save_tx(&link.item_id, &tx).unwrap_err();
    assert!(matches!(result, StoreError::AlreadyExists));
    assert_eq!(store.transactions().len(), 1);
}

#[test]
fn same_upstream_id_under_another_link_is_saved() {
    let mut store = LedgerStore::new();
    store.save_tx("item-a", &entry("01G2A0000000000000000000AA", "1234-test")).unwrap();
    store.save_tx("item-b", &entry("01G2A0000000000000000000AB", "1234-test")).unwrap();
    assert_eq!(store.transactions().len(), 2);
}

#[test]
fn unbalanced_transaction_is_refused() {
    let mut store = LedgerStore::new();
    let mut tx = entry("01G2A0000000000000000000AA", "1234-test");
    tx.canonical.postings[1].amount = 3000;
    assert_eq!(store.save_tx("item", &tx), Err(StoreError::Unbalanced));
    let mut single = entry("01G2A0000000000000000000AA", "1234-test");
    single.canonical.postings.truncate(1);
    single.canonical.postings[0].amount = 0;
    assert_eq!(store.save_tx("item", &single), Err(StoreError::Unbalanced));
    let mut mixed = entry("01G2A0000000000000000000AA", "1234-test");
    mixed.canonical.postings[1].currency = "EUR".to_string();
    assert_eq!(store.save_tx("item", &mixed), Err(StoreError::Unbalanced));
    assert_eq!(store.transactions().len(), 0);
}

#[test]
fn reused_ledger_id_is_a_conflict() {
    let mut store = LedgerStore::new();
    store.save_tx("item", &entry("01G2A0000000000000000000AA", "a")).unwrap();
    assert_eq!(store.save_tx("item", &entry("01G2A0000000000000000000AA", "b")), Err(StoreError::IdConflict));
}

#[test]
fn get_link_by_id() {
    let mut store = LedgerStore::new();
    let link = test_link("plaid-id-123");
    store.save_link(&link).unwrap();
    let fetch_link = store.link(&link.item_id).unwrap();
    assert_eq!(&link.alias, &fetch_link.alias);
    assert_eq!(&link.access_token, &fetch_link.access_token);
    assert_eq!(&link.item_id, &fetch_link.item_id);
    assert!(matches!(fetch_link.state, LinkStatus::Active));
    assert!(store.link("other").is_none());
}

#[test]
fn duplicate_link_is_refused() {
    let mut store = LedgerStore::new();
    store.save_link(&test_link("plaid-id-123")).unwrap();
    assert_eq!(store.save_link(&test_link("plaid-id-123")), Err(StoreError::AlreadyExists));
}

#[test]
fn get_account() {
    let mut store = LedgerStore::new();
    let link = test_link("item-1");
    store.save_link(&link).unwrap();
    let account = Account::from_upstream("account-id".into(), "Test Account".into(), UpstreamAccountType::Credit).unwrap();
    store.save_account(&link.item_id, &account).unwrap();
    let account = store.account_by_id("account-id").unwrap();
    assert_eq!(&account.name, "Test Account");
    assert_eq!(account.ty, AccountClass::CreditNormal);
    assert_eq!(store.save_account(&link.item_id, &account), Err(StoreError::AlreadyExists));
}

#[test]
fn accounts_are_listed_per_link() {
    let mut store = LedgerStore::new();
    let a = Account { id: "a".into(), name: "A".into(), ty: AccountClass::DebitNormal };
    let b = Account { id: "b".into(), name: "B".into(), ty: AccountClass::CreditNormal };
    let c = Account { id: "c".into(), name: "C".into(), ty: AccountClass::DebitNormal };
    store.save_account("item-1", &a).unwrap();
    store.save_account("item-2", &b).unwrap();
    store.save_account("item-1", &c).unwrap();
    let ids: Vec<String> = store.accounts_by_item("item-1").into_iter().map(|a| a.id).collect();
    assert_eq!(ids, vec!["a".to_string(), "c".to_string()]);
    assert!(store.accounts_by_item("item-3").is_empty());
}

#[test]
fn retrieve_link() {
    let mut store = LedgerStore::new();
    let link = test_link("01G2A0000000000000000000ZZ");
    store.save_link(&link).unwrap();
    let fetch_link = store.link(&link.item_id).unwrap();
    assert_eq!(&link.alias, &fetch_link.alias);
    assert_eq!(&link.access_token, &fetch_link.access_token);
    assert_eq!(&link.item_id, &fetch_link.item_id);
    assert!(matches!(link.state, LinkStatus::Active));
}

#[test]
fn list_links() {
    let mut store = LedgerStore::new();
    for i in 0..5 {
        store.save_link(&test_link(&format!("item-{}", i))).unwrap();
    }
    let links = store.links();
    assert_eq!(links.len(), 5);
}

#[test]
fn delete_link_hands_it_back() {
    let mut store = LedgerStore::new();
    store.save_link(&test_link("item-1")).unwrap();
    let gone = store.delete_link("item-1").unwrap();
    assert_eq!(gone.item_id, "item-1");
    assert!(store.links().is_empty());
    assert_eq!(store.delete_link("item-1").unwrap_err(), StoreError::NotFound);
}

#[test]
fn save_transaction() {
    let mut store = LedgerStore::new();
    let link = test_link("plaid-id-123");
    store.save_link(&link).unwrap();
    store
        .save_account(&link.item_id, &Account { id: "test-account-id".into(), ty: AccountClass::CreditNormal, name: "Test Account".into() })
        .unwrap();
    store.save_tx(&link.item_id, &entry("01G2A0000000000000000000AA", "1234-test")).unwrap();
    assert_eq!(store.by_upstream_id(&link.item_id, "1234-test"), Some("01G2A0000000000000000000AA".to_string()));
}

#[test]
fn delete() {
    let mut store = LedgerStore::new();
    let link = test_link("plaid-id-123");
    store.save_link(&link).unwrap();
    let txn_id = "01G2A0000000000000000000AA";
    store.save_tx(&link.item_id, &entry(txn_id, "1234-test")).unwrap();
    assert!(store.delete(txn_id));
    assert!(store.transactions().is_empty());
    assert_eq!(store.by_upstream_id(&link.item_id, "1234-test"), None);
    assert!(!store.delete(txn_id));
}

#[test]
fn update_source_replaces_only_the_source() {
    let mut store = LedgerStore::new();
    store.save_tx("item", &entry("01G2A0000000000000000000AA", "1234-test")).unwrap();
    let mut src = raw("1234-test");
    src.name = "Renamed".to_string();
    assert!(store.update_source("01G2A0000000000000000000AA", src));
    assert_eq!(store.transactions()[0].narration, "Test Transaction");
    assert!(!store.update_source("missing", raw("x")));
}

#[test]
fn institutions_are_saved_once() {
    let mut store = LedgerStore::new();
    store.save_institution(&Institution { id: "ins_1".into(), name: "Bank".into() }).unwrap();
    assert_eq!(
        store.save_institution(&Institution { id: "ins_1".into(), name: "Other".into() }),
        Err(StoreError::AlreadyExists)
    );
    assert_eq!(store.institution_name("ins_1"), Some("Bank".to_string()));
    assert_eq!(store.institutions().len(), 1);
}

#[test]
fn record_cursor_writes_only_changes() {
    let mut store = LedgerStore::new();
    store.save_link(&test_link("item")).unwrap();
    assert_eq!(store.record_cursor("item", "c1"), Ok(true));
    assert_eq!(store.record_cursor("item", "c1"), Ok(false));
    assert_eq!(store.link("item").unwrap().sync_cursor, Some("c1".to_string()));
    assert_eq!(store.record_cursor("other", "c1"), Err(StoreError::NotFound));
}

#[test]
fn saved_link_starts_without_cursor() {
    let mut store = LedgerStore::new();
    let mut link = test_link("item");
    link.sync_cursor = Some("cursor-1".to_string());
    store.save_link(&link).unwrap();
    assert_eq!(store.link("item").unwrap().sync_cursor, None);
}
