use clerk::ledger::{is_balanced, Date, Status};
use clerk::link::{from_status_enum, to_status_enum, Account, AccountClass, LinkStatus, UpstreamAccountType};
use clerk::upstream::{collect_events, resolve_currency, to_canonical_txn, ChangeEvent, RawTransaction, StreamItem, UpstreamError};

fn raw(date: &str, amount: i64, currency: Option<&str>) -> RawTransaction {
    RawTransaction {
        transaction_id: "t1".to_string(),
        pending_transaction_id: None,
        account_id: "acct-1".to_string(),
        name: "Coffee".to_string(),
        merchant_name: Some("Cafe".to_string()),
        amount,
        iso_currency_code: currency.map(|c| c.to_string()),
        date: date.to_string(),
        pending: true,
    }
}

#[test]
fn canonical_transaction_has_offsetting_postings() {
    let t = to_canonical_txn(&raw("2022-05-01", 3325, Some("EUR")), "ID".to_string(), "USD").unwrap();
    assert_eq!(t.id, "ID");
    assert_eq!(t.date, Date { year: 2022, month: 5, day: 1 });
    assert!(matches!(t.status, Status::Pending));
    assert_eq!(t.payee, Some("Cafe".to_string()));
    assert_eq!(t.narration, "Coffee");
    assert_eq!(t.postings.len(), 2);
    assert_eq!(t.postings[0].account, "acct-1");
    assert_eq!(t.postings[0].amount, -3325);
    assert_eq!(t.postings[1].account, "Expenses:Unclassified");
    assert_eq!(t.postings[1].amount, 3325);
    assert_eq!(t.postings[0].currency, "EUR");
    assert!(is_balanced(&t));
}

#[test]
fn invalid_date_is_refused() {
    assert_eq!(to_canonical_txn(&raw("2022-13-01", 1, None), "ID".into(), "USD").unwrap_err(), UpstreamError::InvalidDate);
    assert_eq!(to_canonical_txn(&raw("05/01/2022", 1, None), "ID".into(), "USD").unwrap_err(), UpstreamError::InvalidDate);
}

#[test]
fn unnegatable_amount_is_refused() {
    assert_eq!(
        to_canonical_txn(&raw("2022-05-01", i64::MIN, None), "ID".into(), "USD").unwrap_err(),
        UpstreamError::AmountOutOfRange
    );
}

#[test]
fn unknown_currency_falls_back_to_default() {
    assert_eq!(resolve_currency(&Some("EUR".to_string()), "USD"), "EUR");
    assert_eq!(resolve_currency(&Some("XQQ".to_string()), "USD"), "USD");
    assert_eq!(resolve_currency(&None, "CAD"), "CAD");
}

#[test]
fn feed_without_cursor_page_is_refused() {
    assert_eq!(collect_events(&vec![], "USD").unwrap_err(), UpstreamError::MissingCursor);
    let cut = vec![StreamItem::Done("c0".into()), StreamItem::Removed("x".into())];
    assert_eq!(collect_events(&cut, "USD").unwrap_err(), UpstreamError::MissingCursor);
}

#[test]
fn feed_events_keep_order_and_take_last_cursor() {
    let items = vec![
        StreamItem::Added(raw("2022-05-01", 10, None)),
        StreamItem::Done("mid".into()),
        StreamItem::Removed("gone".into()),
        StreamItem::Modified(raw("2022-05-02", 20, None)),
        StreamItem::Done("end".into()),
    ];
    let (events, cursor) = collect_events(&items, "USD").unwrap();
    assert_eq!(cursor, "end");
    assert_eq!(events.len(), 3);
    match &events[0] {
        ChangeEvent::Added(e) => {
            assert_eq!(e.canonical.id.len(), 26);
            assert_eq!(e.source.transaction_id, "t1");
        }
        _ => panic!("expected an addition"),
    }
    assert!(matches!(&events[1], ChangeEvent::Removed(id) if id == "gone"));
    assert!(matches!(&events[2], ChangeEvent::Modified(_)));
}

#[test]
fn fresh_ledger_ids_differ() {
    let items = vec![
        StreamItem::Added(raw("2022-05-01", 10, None)),
        StreamItem::Added(raw("2022-05-01", 10, None)),
        StreamItem::Done("end".into()),
    ];
    let (events, _) = collect_events(&items, "USD").unwrap();
    let ids: Vec<String> = events
        .iter()
        .map(|e| match e {
            ChangeEvent::Added(e) => e.canonical.id.clone(),
            _ => String::new(),
        })
        .collect();
    assert_ne!(ids[0], ids[1]);
}

#[test]
fn feed_with_bad_record_is_refused() {
    let items = vec![StreamItem::Added(raw("not a date", 10, None)), StreamItem::Done("end".into())];
    assert_eq!(collect_events(&items, "USD").unwrap_err(), UpstreamError::InvalidDate);
}

#[test]
fn link_status_round_trips_through_text() {
    assert_eq!(to_status_enum(&LinkStatus::Active), "ACTIVE");
    assert_eq!(to_status_enum(&LinkStatus::Degraded("x".into())), "REQUIRES_VERIFICATION");
    assert!(matches!(from_status_enum("ACTIVE"), Some(LinkStatus::Active)));
    assert!(matches!(from_status_enum("REQUIRES_VERIFICATION"), Some(LinkStatus::Degraded(r)) if r == "requires verification"));
    assert!(from_status_enum("active").is_none());
}

#[test]
fn transaction_status_text() {
    assert_eq!(Status::Resolved.to_string(), "RESOLVED");
    assert_eq!(Status::Pending.to_string(), "PENDING");
    assert_eq!(Status::from_text("PENDING"), Some(Status::Pending));
    assert_eq!(Status::from_text("RESOLVED"), Some(Status::Resolved));
    assert_eq!(Status::from_text("OTHER"), None);
}

#[test]
fn account_types_reduce_to_two_classes() {
    let class = |t| Account::from_upstream("id".into(), "n".into(), t).map(|a| a.ty);
    assert_eq!(class(UpstreamAccountType::Credit), Some(AccountClass::CreditNormal));
    assert_eq!(class(UpstreamAccountType::Loan), Some(AccountClass::CreditNormal));
    assert_eq!(class(UpstreamAccountType::Depository), Some(AccountClass::DebitNormal));
    assert_eq!(class(UpstreamAccountType::Investment), Some(AccountClass::DebitNormal));
    assert_eq!(class(UpstreamAccountType::Brokerage), Some(AccountClass::DebitNormal));
    assert_eq!(class(UpstreamAccountType::Other), None);
    assert_eq!(AccountClass::CreditNormal.as_string(), "CREDIT_NORMAL");
    assert_eq!(AccountClass::DebitNormal.as_string(), "DEBIT_NORMAL");
}

#[test]
fn first_bad_record_decides_the_error() {
    let items = vec![
        StreamItem::Added(raw("2022-05-01", 1, None)),
        StreamItem::Modified(raw("2022-05-01", i64::MIN, None)),
        StreamItem::Added(raw("bad", 1, None)),
        StreamItem::Done("end".into()),
    ];
    assert_eq!(collect_events(&items, "USD").unwrap_err(), UpstreamError::AmountOutOfRange);
}
