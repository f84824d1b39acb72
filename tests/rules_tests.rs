use clerk::connections::{state_after_check, LinkController};
use clerk::ledger::{Date, Posting, Status, Transaction};
use clerk::link::{Account, AccountClass, Institution, Link, LinkStatus};
use clerk::rules::{contains, Regexp, Rule, RuleError, RuleField, Transformer};
use clerk::store::{LedgerStore, StoreError};

fn txn() -> Transaction {
    Transaction {
        id: "01G2A0000000000000000000AA".to_string(),
        status: Status::Pending,
        date: Date { year: 2022, month: 5, day: 1 },
        payee: Some("Cafe".to_string()),
        narration: "STARBUCKS 123".to_string(),
        postings: vec![
            Posting { account: "acct-1".to_string(), amount: -450, currency: "USD".to_string() },
            Posting { account: "Expenses:Unclassified".to_string(), amount: 450, currency: "USD".to_string() },
        ],
    }
}

#[test]
fn no_rules_is_identity() {
    let t = Transformer::from_rules(vec![]);
    let v = t.apply(&txn()).unwrap();
    assert_eq!(v.dest_account, "Expenses:Unclassified");
    assert_eq!(v.source_account, "acct-1");
    assert_eq!(v.amount, -450);
    assert_eq!(v.payee, "STARBUCKS 123");
    assert_eq!(v.date, Date { year: 2022, month: 5, day: 1 });
    assert!(v.pending);
    assert_eq!(v.processor, "");
}

#[test]
fn matching_rule_renames_destination() {
    let t = Transformer::from_rules(vec![
        Rule { field: RuleField::Payee, pattern: "^STARBUCKS".into(), account: "Expenses:Coffee".into() },
        Rule { field: RuleField::SourceAccount, pattern: "nomatch".into(), account: "Expenses:Other".into() },
    ]);
    let v = t.apply(&txn()).unwrap();
    assert_eq!(v.dest_account, "Expenses:Coffee");
    assert_eq!(v.amount, -450);
}

#[test]
fn last_matching_rule_wins() {
    let t = Transformer::from_rules(vec![
        Rule { field: RuleField::Payee, pattern: "STAR".into(), account: "Expenses:Coffee".into() },
        Rule { field: RuleField::SourceAccount, pattern: "acct-\\d".into(), account: "Expenses:Card".into() },
    ]);
    assert_eq!(t.apply(&txn()).unwrap().dest_account, "Expenses:Card");
}

#[test]
fn invalid_pattern_fails_the_pass() {
    let t = Transformer::from_rules(vec![
        Rule { field: RuleField::Payee, pattern: "STAR".into(), account: "Expenses:Coffee".into() },
        Rule { field: RuleField::Payee, pattern: "(".into(), account: "Expenses:Other".into() },
    ]);
    assert_eq!(t.apply(&txn()).unwrap_err(), RuleError::InvalidPattern);
}

#[test]
fn contains_searches_text() {
    assert_eq!(contains(&Regexp { text: "Starbucks #12".into(), query: "bucks".into() }), Ok(true));
    assert_eq!(contains(&Regexp { text: "Starbucks".into(), query: "^bucks".into() }), Ok(false));
    assert_eq!(contains(&Regexp { text: "x".into(), query: "[".into() }), Err(RuleError::InvalidPattern));
}

fn link(item_id: &str, ins: Option<&str>) -> Link {
    Link {
        alias: format!("alias-{}", item_id),
        access_token: "tok".into(),
        item_id: item_id.into(),
        state: LinkStatus::Active,
        sync_cursor: None,
        institution_id: ins.map(|i| i.to_string()),
    }
}

#[test]
fn login_required_degrades_link() {
    let mut store = LedgerStore::new();
    store.save_link(&link("item", Some("ins"))).unwrap();
    let degraded = store.record_check("item", &Some("ITEM_LOGIN_REQUIRED".into()), &Some("log in again".into()));
    assert_eq!(degraded, Ok(true));
    assert!(matches!(store.link("item").unwrap().state, LinkStatus::Degraded(r) if r == "log in again"));
    assert_eq!(store.record_check("item", &Some("OTHER".into()), &None), Ok(false));
    assert_eq!(store.record_check("none", &None, &None), Err(StoreError::NotFound));
}

#[test]
fn state_after_check_keeps_state_on_other_errors() {
    assert!(matches!(state_after_check(&LinkStatus::Active, &Some("RATE_LIMIT".into()), &None), LinkStatus::Active));
    assert!(matches!(
        state_after_check(&LinkStatus::Active, &Some("ITEM_LOGIN_REQUIRED".into()), &None),
        LinkStatus::Degraded(r) if r == "ITEM_LOGIN_REQUIRED"
    ));
}

#[test]
fn controller_joins_links_institutions_and_accounts() {
    let mut store = LedgerStore::new();
    store.save_institution(&Institution { id: "ins".into(), name: "Bank".into() }).unwrap();
    store.save_link(&link("item", Some("ins"))).unwrap();
    store.save_account("item", &Account { id: "a".into(), name: "Checking".into(), ty: AccountClass::DebitNormal }).unwrap();
    let c = LinkController::new(&store).unwrap();
    let conns = c.connections();
    assert_eq!(conns.len(), 1);
    assert_eq!(conns[0].ins_name, "Bank");
    assert_eq!(conns[0].alias, "alias-item");
    assert_eq!(conns[0].accounts.len(), 1);
    store.save_link(&link("other", None)).unwrap();
    assert_eq!(LinkController::new(&store).unwrap_err(), StoreError::NotFound);
}

fn dated(id: &str, y: i32, m: u32, d: u32) -> Transaction {
    let mut t = txn();
    t.id = id.to_string();
    t.date = Date { year: y, month: m, day: d };
    t
}

#[test]
fn render_keeps_dates_within_bounds() {
    let t = Transformer::from_rules(vec![]);
    let txns = vec![dated("a", 2022, 4, 30), dated("b", 2022, 5, 1), dated("c", 2022, 5, 31), dated("d", 2022, 6, 1)];
    let out = t
        .render(&txns, Some(Date { year: 2022, month: 5, day: 1 }), Some(Date { year: 2022, month: 5, day: 31 }))
        .unwrap();
    assert_eq!(out.len(), 2);
    assert_eq!(t.render(&txns, None, None).unwrap().len(), 4);
    assert_eq!(t.render(&txns, None, Some(Date { year: 2021, month: 12, day: 31 })).unwrap().len(), 0);
}

#[test]
fn render_fails_whole_pass_on_bad_rule() {
    let t = Transformer::from_rules(vec![Rule { field: RuleField::Payee, pattern: "(".into(), account: "X".into() }]);
    let txns = vec![dated("a", 2022, 4, 30)];
    assert_eq!(t.render(&txns, None, None).unwrap_err(), RuleError::InvalidPattern);
    assert!(t.render(&vec![], None, None).unwrap().is_empty());
}

#[test]
fn observed_accounts_are_refreshed_in_place() {
    let mut store = LedgerStore::new();
    let a = Account { id: "a".into(), name: "Old".into(), ty: AccountClass::DebitNormal };
    assert!(store.observe_account("item", &a));
    let renamed = Account { id: "a".into(), name: "New".into(), ty: AccountClass::DebitNormal };
    assert!(!store.observe_account("item", &renamed));
    let listed = store.accounts_by_item("item");
    assert_eq!(listed.len(), 1);
    assert_eq!(listed[0].name, "New");
}

#[test]
fn rule_text_is_parsed_in_order() {
    let text = "# coffee\npayee Expenses:Coffee ^STAR BUCKS\n\nsource Expenses:Card acct-\\d\n";
    let rules = clerk::rule_text::parse_rules(text).unwrap();
    assert_eq!(rules.len(), 2);
    assert_eq!(rules[0].field, RuleField::Payee);
    assert_eq!(rules[0].account, "Expenses:Coffee");
    assert_eq!(rules[0].pattern, "^STAR BUCKS");
    assert_eq!(rules[1].field, RuleField::SourceAccount);
    assert_eq!(rules[1].pattern, "acct-\\d");
    let t = Transformer::from_rules(rules);
    assert_eq!(t.apply(&txn()).unwrap().dest_account, "Expenses:Card");
}

#[test]
fn malformed_rule_line_is_reported() {
    assert_eq!(clerk::rule_text::parse_rules("payee A x\nnarration B y\n").unwrap_err(), RuleError::Syntax(2));
    assert_eq!(clerk::rule_text::parse_rules("payee OnlyAccount").unwrap_err(), RuleError::Syntax(1));
    assert_eq!(clerk::rule_text::parse_rules("payee  pattern").unwrap_err(), RuleError::Syntax(1));
    assert_eq!(clerk::rule_text::parse_rules("payee A ").unwrap_err(), RuleError::Syntax(1));
    assert!(clerk::rule_text::parse_rules("").unwrap().is_empty());
}
