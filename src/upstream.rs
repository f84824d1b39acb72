use vstd::prelude::*;
use chrono::Datelike;
use crate::ledger::{
    duplicate_opt, opt_view, Date, Posting, PostingView, Status, Transaction, TransactionView,
};

verus! {

/// A transaction record as the upstream provider reports it. `amount` is in
/// minor units of the currency, positive when money leaves the account.
#[derive(Debug, Clone)]
pub struct RawTransaction {
    pub transaction_id: String,
    pub pending_transaction_id: Option<String>,
    pub account_id: String,
    pub name: String,
    pub merchant_name: Option<String>,
    pub amount: i64,
    pub iso_currency_code: Option<String>,
    pub date: String,
    pub pending: bool,
}

pub struct RawView {
    pub transaction_id: Seq<char>,
    pub pending_transaction_id: Option<Seq<char>>,
    pub account_id: Seq<char>,
    pub name: Seq<char>,
    pub merchant_name: Option<Seq<char>>,
    pub amount: int,
    pub iso_currency_code: Option<Seq<char>>,
    pub date: Seq<char>,
    pub pending: bool,
}

impl View for RawTransaction {
    type V = RawView;

    open spec fn view(&self) -> RawView {
        RawView {
            transaction_id: self.transaction_id@,
            pending_transaction_id: opt_view(self.pending_transaction_id),
            account_id: self.account_id@,
            name: self.name@,
            merchant_name: opt_view(self.merchant_name),
            amount: self.amount as int,
            iso_currency_code: opt_view(self.iso_currency_code),
            date: self.date@,
            pending: self.pending,
        }
    }
}

impl RawTransaction {
    pub fn duplicate(&self) -> (r: RawTransaction)
        ensures
            r@ == self@,
    {
        RawTransaction {
            transaction_id: self.transaction_id.clone(),
            pending_transaction_id: duplicate_opt(&self.pending_transaction_id),
            account_id: self.account_id.clone(),
            name: self.name.clone(),
            merchant_name: duplicate_opt(&self.merchant_name),
            amount: self.amount,
            iso_currency_code: duplicate_opt(&self.iso_currency_code),
            date: self.date.clone(),
            pending: self.pending,
        }
    }
}

/// Year, month and day of a text in the form `YYYY-MM-DD`, where it names a
/// calendar date.
pub uninterp spec fn iso_date_of(text: Seq<char>) -> Option<(i32, u32, u32)>;

/// Relies on chrono's `NaiveDate::parse_from_str` with the format `%Y-%m-%d`,
/// read back through `Datelike::{year, month, day}`; chrono documents months
/// as 1 to 12 and days as 1 to 31.
#[verifier::external_body]
fn parse_iso_date(text: &str) -> (r: Option<(i32, u32, u32)>)
    ensures
        r == iso_date_of(text@),
        r matches Some(d) ==> 1 <= d.1 <= 12 && 1 <= d.2 <= 31,
{
    chrono::NaiveDate::parse_from_str(text, "%Y-%m-%d").ok().map(|d| (d.year(), d.month(), d.day()))
}

/// Whether a text is an ISO-4217 alphabetic currency code.
pub uninterp spec fn iso_currency_known(code: Seq<char>) -> bool;

/// Relies on `rusty_money::iso::find`, which looks the code up in its
/// ISO-4217 table.
#[verifier::external_body]
fn is_iso_currency(code: &str) -> (r: bool)
    ensures
        r == iso_currency_known(code@),
{
    rusty_money::iso::find(code).is_some()
}

/// Relies on `ulid::Ulid::new` and `Ulid::to_string`: a new id from the time
/// and a random number, written as 26 base-32 characters.
#[verifier::external_body]
pub(crate) fn fresh_ledger_id() -> (r: String)
    ensures
        r@.len() == 26,
{
    ulid::Ulid::new().to_string()
}

/// The currency a record is booked in: its own code where that is a known
/// ISO-4217 code, else the configured default.
pub open spec fn chosen_currency(code: Option<Seq<char>>, known: bool, default: Seq<char>) -> Seq<char> {
    match code {
        Some(c) => if known {
            c
        } else {
            default
        },
        None => default,
    }
}

/// Picks the currency of a record, given whether its code is known.
pub fn pick_currency(code: &Option<String>, known: bool, default: &str) -> (r: String)
    ensures
        r@ == chosen_currency(opt_view(*code), known, default@),
{
    match code {
        Some(c) => if known {
            c.clone()
        } else {
            default.to_owned()
        },
        None => default.to_owned(),
    }
}

/// Whether a record's currency code is a known ISO-4217 code.
pub open spec fn code_known(code: Option<Seq<char>>) -> bool {
    match code {
        Some(c) => iso_currency_known(c),
        None => false,
    }
}

/// The currency a record is booked in; unknown codes fall back to the
/// default instead of failing.
pub fn resolve_currency(code: &Option<String>, default: &str) -> (r: String)
    ensures
        r@ == chosen_currency(opt_view(*code), code_known(opt_view(*code)), default@),
{
    let known = match code {
        Some(c) => is_iso_currency(c.as_str()),
        None => false,
    };
    pick_currency(code, known, default)
}

/// The account that receives the offsetting posting until a rule says
/// otherwise.
pub open spec fn unclassified_account() -> Seq<char> {
    "Expenses:Unclassified"@
}

/// The canonical ledger form of an upstream record, under ledger id `id`:
/// the funding account's posting carries the negated upstream amount, the
/// offsetting posting the amount itself.
pub open spec fn canonical_of(raw: RawView, id: Seq<char>, date: Date, currency: Seq<char>) -> TransactionView {
    TransactionView {
        id,
        status: if raw.pending {
            Status::Pending
        } else {
            Status::Resolved
        },
        date,
        payee: raw.merchant_name,
        narration: raw.name,
        postings: seq![
            PostingView { account: raw.account_id, amount: -raw.amount, currency },
            PostingView { account: unclassified_account(), amount: raw.amount, currency },
        ],
    }
}

/// Whatever ledger id and currency it is given, the ledger form of a record
/// balances: two postings in one currency whose amounts cancel.
pub proof fn canonical_balances(raw: RawView, id: Seq<char>, date: Date, currency: Seq<char>)
    ensures
        crate::ledger::balanced(canonical_of(raw, id, date, currency)),
{
    let ps = canonical_of(raw, id, date, currency).postings;
    let one = ps.drop_last();
    assert(one.drop_last() =~= Seq::<PostingView>::empty());
    assert(crate::ledger::units_total(one.drop_last()) == 0);
    assert(one.last() == ps[0]);
    assert(crate::ledger::units_total(one) == -raw.amount);
}

/// The date of a record, where its text names one.
pub open spec fn raw_date(raw: RawView) -> Option<Date> {
    match iso_date_of(raw.date) {
        Some(d) => Some(Date { year: d.0, month: d.1, day: d.2 }),
        None => None,
    }
}

/// Why an upstream record or page sequence cannot be taken in.
#[derive(Debug, Clone, Copy, PartialEq, Eq, Structural)]
pub enum UpstreamError {
    /// The record's date is not a `YYYY-MM-DD` calendar date.
    InvalidDate,
    /// The amount has no negation in 64 bits.
    AmountOutOfRange,
    /// The page sequence ended without the page that carries the next cursor.
    MissingCursor,
}

/// What converting a record gives, for a ledger id and a default currency.
pub open spec fn conversion(raw: RawView, id: Seq<char>, default: Seq<char>) -> Result<TransactionView, UpstreamError> {
    match raw_date(raw) {
        None => Err(UpstreamError::InvalidDate),
        Some(date) => if raw.amount == i64::MIN as int {
            Err(UpstreamError::AmountOutOfRange)
        } else {
            Ok(canonical_of(raw, id, date, chosen_currency(raw.iso_currency_code, code_known(raw.iso_currency_code), default)))
        },
    }
}

pub open spec fn txn_result_view(r: Result<Transaction, UpstreamError>) -> Result<TransactionView, UpstreamError> {
    match r {
        Ok(t) => Ok(t@),
        Err(e) => Err(e),
    }
}

/// Builds the ledger transaction for an upstream record under the given id.
/// Given the same record, id and default currency it gives the same result.
pub fn to_canonical_txn(raw: &RawTransaction, id: String, default_currency: &str) -> (r: Result<Transaction, UpstreamError>)
    ensures
        txn_result_view(r) == conversion(raw@, id@, default_currency@),
{
    let date = match parse_iso_date(raw.date.as_str()) {
        Some(d) => Date { year: d.0, month: d.1, day: d.2 },
        None => {
            return Err(UpstreamError::InvalidDate);
        },
    };
    if raw.amount == i64::MIN {
        return Err(UpstreamError::AmountOutOfRange);
    }
    let currency = resolve_currency(&raw.iso_currency_code, default_currency);
    let mut postings: Vec<Posting> = Vec::new();
    postings.push(Posting { account: raw.account_id.clone(), amount: -raw.amount, currency: currency.clone() });
    postings.push(Posting { account: "Expenses:Unclassified".to_owned(), amount: raw.amount, currency });
    let t = Transaction {
        id,
        status: if raw.pending {
            Status::Pending
        } else {
            Status::Resolved
        },
        date,
        payee: duplicate_opt(&raw.merchant_name),
        narration: raw.name.clone(),
        postings,
    };
    proof {
        assert(t@.postings =~= conversion(raw@, id@, default_currency@)->Ok_0.postings);
    }
    Ok(t)
}


/// One item of the upstream change feed, as its pages deliver it. `Done`
/// closes the feed and carries the cursor to resume from.
#[derive(Debug, Clone)]
pub enum StreamItem {
    Added(RawTransaction),
    Modified(RawTransaction),
    Removed(String),
    Done(String),
}

pub enum StreamItemView {
    Added(RawView),
    Modified(RawView),
    Removed(Seq<char>),
    Done(Seq<char>),
}

impl View for StreamItem {
    type V = StreamItemView;

    open spec fn view(&self) -> StreamItemView {
        match self {
            StreamItem::Added(r) => StreamItemView::Added(r@),
            StreamItem::Modified(r) => StreamItemView::Modified(r@),
            StreamItem::Removed(id) => StreamItemView::Removed(id@),
            StreamItem::Done(c) => StreamItemView::Done(c@),
        }
    }
}

/// An upstream record with its ledger form.
#[derive(Debug, Clone)]
pub struct TransactionEntry {
    pub canonical: Transaction,
    pub source: RawTransaction,
}

pub struct EntryView {
    pub canonical: TransactionView,
    pub source: RawView,
}

impl View for TransactionEntry {
    type V = EntryView;

    open spec fn view(&self) -> EntryView {
        EntryView { canonical: self.canonical@, source: self.source@ }
    }
}

/// A change to apply to the ledger, in feed order.
#[derive(Debug, Clone)]
pub enum ChangeEvent {
    Added(TransactionEntry),
    Modified(TransactionEntry),
    Removed(String),
}

pub enum ChangeEventView {
    Added(EntryView),
    Modified(EntryView),
    Removed(Seq<char>),
}

impl View for ChangeEvent {
    type V = ChangeEventView;

    open spec fn view(&self) -> ChangeEventView {
        match self {
            ChangeEvent::Added(e) => ChangeEventView::Added(e@),
            ChangeEvent::Modified(e) => ChangeEventView::Modified(e@),
            ChangeEvent::Removed(id) => ChangeEventView::Removed(id@),
        }
    }
}

/// The feed ends with the page that carries the next cursor.
pub open spec fn ends_with_cursor(items: Seq<StreamItemView>) -> bool {
    items.len() > 0 && items.last() is Done
}

/// Every record of the feed can be converted (the ledger id plays no part
/// in whether it can).
pub open spec fn all_convertible(items: Seq<StreamItemView>) -> bool {
    forall|i: int|
        0 <= i < items.len() ==> match #[trigger] items[i] {
            StreamItemView::Added(raw) | StreamItemView::Modified(raw) => raw_date(raw) is Some
                && raw.amount != i64::MIN as int,
            _ => true,
        }
}

/// Why a record cannot be converted, if it cannot.
pub open spec fn record_error(raw: RawView) -> Option<UpstreamError> {
    match raw_date(raw) {
        None => Some(UpstreamError::InvalidDate),
        Some(_) => if raw.amount == i64::MIN as int {
            Some(UpstreamError::AmountOutOfRange)
        } else {
            None
        },
    }
}

/// The error of the first record in the feed that cannot be converted.
pub open spec fn first_record_error(items: Seq<StreamItemView>) -> Option<UpstreamError>
    decreases items.len(),
{
    if items.len() == 0 {
        None
    } else {
        match items[0] {
            StreamItemView::Added(raw) | StreamItemView::Modified(raw) => match record_error(raw) {
                Some(e) => Some(e),
                None => first_record_error(items.drop_first()),
            },
            _ => first_record_error(items.drop_first()),
        }
    }
}

/// A feed whose records all convert has no failing record.
pub proof fn lemma_convertible_has_no_error(items: Seq<StreamItemView>)
    requires
        all_convertible(items),
    ensures
        first_record_error(items) is None,
    decreases items.len(),
{
    if items.len() > 0 {
        let rest = items.drop_first();
        assert forall|i: int| 0 <= i < rest.len() implies match #[trigger] rest[i] {
            StreamItemView::Added(raw) | StreamItemView::Modified(raw) => raw_date(raw) is Some
                && raw.amount != i64::MIN as int,
            _ => true,
        } by {
            assert(rest[i] == items[i + 1]);
        }
        lemma_convertible_has_no_error(rest);
        match items[0] {
            StreamItemView::Added(raw) | StreamItemView::Modified(raw) => {
                assert(raw_date(raw) is Some && raw.amount != i64::MIN as int);
            },
            _ => {},
        }
    }
}

/// An event is the ledger form of a feed item, under whatever ledger id it
/// was given.
pub open spec fn event_of(ev: ChangeEventView, item: StreamItemView, default: Seq<char>) -> bool {
    match (ev, item) {
        (ChangeEventView::Added(e), StreamItemView::Added(raw))
        | (ChangeEventView::Modified(e), StreamItemView::Modified(raw)) => e.source == raw
            && conversion(raw, e.canonical.id, default) == Ok::<TransactionView, UpstreamError>(e.canonical),
        (ChangeEventView::Removed(a), StreamItemView::Removed(b)) => a == b,
        _ => false,
    }
}

/// The events are the feed's items in order, without the cursor pages.
pub open spec fn events_follow(evs: Seq<ChangeEventView>, items: Seq<StreamItemView>, default: Seq<char>) -> bool
    decreases items.len(),
{
    if items.len() == 0 {
        evs.len() == 0
    } else if items.last() is Done {
        events_follow(evs, items.drop_last(), default)
    } else {
        evs.len() > 0 && event_of(evs.last(), items.last(), default) && events_follow(
            evs.drop_last(),
            items.drop_last(),
            default,
        )
    }
}

pub open spec fn items_view(items: Seq<StreamItem>) -> Seq<StreamItemView> {
    items.map_values(|i: StreamItem| i@)
}

pub open spec fn events_view(evs: Seq<ChangeEvent>) -> Seq<ChangeEventView> {
    evs.map_values(|e: ChangeEvent| e@)
}

/// Collects a whole change feed, all pages of it, into the events to apply
/// and the cursor to resume from. A feed that does not end with a cursor
/// page was cut short and is refused; so is a record that cannot be
/// converted. Each record gets a new ledger id.
pub fn collect_events(items: &Vec<StreamItem>, default_currency: &str) -> (r: Result<
    (Vec<ChangeEvent>, String),
    UpstreamError,
>)
    ensures
        !ends_with_cursor(items_view(items@)) <==> r == Err::<
            (Vec<ChangeEvent>, String),
            UpstreamError,
        >(UpstreamError::MissingCursor),
        r is Ok <==> ends_with_cursor(items_view(items@)) && all_convertible(
            items_view(items@),
        ),
        ends_with_cursor(items_view(items@)) && r is Err ==> first_record_error(items_view(items@))
            == Some(r->Err_0),
        r matches Ok(out) ==> out.1@ == items@.last()->Done_0@ && events_follow(
            events_view(out.0@),
            items_view(items@),
            default_currency@,
        ),
{
    let ghost iv = items_view(items@);
    let n = items.len();
    if n == 0 {
        return Err(UpstreamError::MissingCursor);
    }
    let cursor = match &items[n - 1] {
        StreamItem::Done(c) => c.clone(),
        _ => {
            return Err(UpstreamError::MissingCursor);
        },
    };
    proof {
        assert(iv.last() == items@[n - 1]@);
        assert(ends_with_cursor(iv));
    }
    let mut evs: Vec<ChangeEvent> = Vec::new();
    let mut i: usize = 0;
    proof {
        assert(iv.subrange(0, n as int) =~= iv);
    }
    while i < n
        invariant
            n == items@.len(),
            iv == items_view(items@),
            ends_with_cursor(iv),
            cursor@ == items@.last()->Done_0@,
            i <= n,
            all_convertible(iv.subrange(0, i as int)),
            first_record_error(iv) == first_record_error(iv.subrange(i as int, n as int)),
            events_follow(events_view(evs@), iv.subrange(0, i as int), default_currency@),
        decreases n - i,
    {
        let ghost before = evs@;
        proof {
            assert(iv.subrange(0, i + 1).drop_last() =~= iv.subrange(0, i as int));
            assert(iv.subrange(0, i + 1).last() == items@[i as int]@);
            assert(iv.subrange(i as int, n as int)[0] == items@[i as int]@);
            assert(iv.subrange(i as int, n as int).drop_first() =~= iv.subrange(i + 1, n as int));
        }
        match &items[i] {
            StreamItem::Added(raw) => {
                let id = fresh_ledger_id();
                match to_canonical_txn(raw, id, default_currency) {
                    Ok(t) => {
                        evs.push(ChangeEvent::Added(TransactionEntry { canonical: t, source: raw.duplicate() }));
                    },
                    Err(e) => {
                        proof {
                            assert(!all_convertible(iv)) by {
                                assert(iv[i as int] == items@[i as int]@);
                            }
                        }
                        return Err(e);
                    },
                }
            },
            StreamItem::Modified(raw) => {
                let id = fresh_ledger_id();
                match to_canonical_txn(raw, id, default_currency) {
                    Ok(t) => {
                        evs.push(ChangeEvent::Modified(TransactionEntry { canonical: t, source: raw.duplicate() }));
                    },
                    Err(e) => {
                        proof {
                            assert(!all_convertible(iv)) by {
                                assert(iv[i as int] == items@[i as int]@);
                            }
                        }
                        return Err(e);
                    },
                }
            },
            StreamItem::Removed(id) => {
                evs.push(ChangeEvent::Removed(id.clone()));
            },
            StreamItem::Done(_) => {},
        }
        proof {
            if evs@.len() > before.len() {
                assert(events_view(evs@).drop_last() =~= events_view(before));
            }
            assert forall|k: int| 0 <= k < i + 1 implies match #[trigger] iv.subrange(0, i + 1)[k] {
                StreamItemView::Added(raw) | StreamItemView::Modified(raw) => raw_date(raw) is Some
                    && raw.amount != i64::MIN as int,
                _ => true,
            } by {
                if k < i {
                    assert(iv.subrange(0, i + 1)[k] == iv.subrange(0, i as int)[k]);
                }
            }
        }
        i = i + 1;
    }
    proof {
        assert(iv.subrange(0, n as int) =~= iv);
    }
    Ok((evs, cursor))
}

} // verus!
