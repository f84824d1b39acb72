use vstd::prelude::*;

verus! {

/// Copies an optional string, keeping its view.
pub fn duplicate_opt(s: &Option<String>) -> (r: Option<String>)
    ensures
        opt_view(r) == opt_view(*s),
{
    match s {
        Some(v) => Some(v.clone()),
        None => None,
    }
}

/// The view of an optional string.
pub open spec fn opt_view(s: Option<String>) -> Option<Seq<char>> {
    match s {
        Some(v) => Some(v@),
        None => None,
    }
}

/// Settlement state of a transaction.
#[derive(Debug, Clone, Copy, PartialEq, Eq, Structural)]
pub enum Status {
    Resolved,
    Pending,
}

/// Stored spelling of a status.
pub open spec fn status_text(s: Status) -> Seq<char> {
    match s {
        Status::Resolved => "RESOLVED"@,
        Status::Pending => "PENDING"@,
    }
}

impl Status {
    /// The stored spelling: `RESOLVED` or `PENDING`.
    pub fn to_string(&self) -> (r: String)
        ensures
            r@ == status_text(*self),
    {
        match self {
            Status::Resolved => "RESOLVED".to_owned(),
            Status::Pending => "PENDING".to_owned(),
        }
    }

    /// Reads a stored spelling back; any other text is refused.
    pub fn from_text(s: &str) -> (r: Option<Status>)
        ensures
            r == Some(Status::Resolved) <==> s@ == "RESOLVED"@,
            r == Some(Status::Pending) <==> s@ == "PENDING"@,
            r.is_none() <==> (s@ != "RESOLVED"@ && s@ != "PENDING"@),
    {
        proof {
            reveal_strlit("RESOLVED");
            reveal_strlit("PENDING");
            assert("RESOLVED"@.len() != "PENDING"@.len());
        }
        let t = s.to_owned();
        if t == "RESOLVED".to_owned() {
            Some(Status::Resolved)
        } else if t == "PENDING".to_owned() {
            Some(Status::Pending)
        } else {
            None
        }
    }
}


/// A calendar date.
#[derive(Debug, Clone, Copy, PartialEq, Eq, Structural)]
pub struct Date {
    pub year: i32,
    pub month: u32,
    pub day: u32,
}

/// One leg of a transaction: an amount in minor units of a currency, booked
/// to an account.
#[derive(Debug, Clone)]
pub struct Posting {
    pub account: String,
    pub amount: i64,
    pub currency: String,
}

pub struct PostingView {
    pub account: Seq<char>,
    pub amount: int,
    pub currency: Seq<char>,
}

impl View for Posting {
    type V = PostingView;

    open spec fn view(&self) -> PostingView {
        PostingView { account: self.account@, amount: self.amount as int, currency: self.currency@ }
    }
}

impl Posting {
    pub fn duplicate(&self) -> (r: Posting)
        ensures
            r@ == self@,
    {
        Posting { account: self.account.clone(), amount: self.amount, currency: self.currency.clone() }
    }
}

/// A ledger transaction. `id` is the locally generated ledger id, which
/// stays the same for the life of the record.
#[derive(Debug, Clone)]
pub struct Transaction {
    pub id: String,
    pub status: Status,
    pub date: Date,
    pub payee: Option<String>,
    pub narration: String,
    pub postings: Vec<Posting>,
}

pub struct TransactionView {
    pub id: Seq<char>,
    pub status: Status,
    pub date: Date,
    pub payee: Option<Seq<char>>,
    pub narration: Seq<char>,
    pub postings: Seq<PostingView>,
}

/// The views of a sequence of postings.
pub open spec fn postings_view(ps: Seq<Posting>) -> Seq<PostingView> {
    ps.map_values(|p: Posting| p@)
}

impl View for Transaction {
    type V = TransactionView;

    open spec fn view(&self) -> TransactionView {
        TransactionView {
            id: self.id@,
            status: self.status,
            date: self.date,
            payee: opt_view(self.payee),
            narration: self.narration@,
            postings: postings_view(self.postings@),
        }
    }
}

/// Copies a list of postings, keeping their views.
pub fn duplicate_postings(ps: &Vec<Posting>) -> (r: Vec<Posting>)
    ensures
        postings_view(r@) == postings_view(ps@),
{
    let mut r: Vec<Posting> = Vec::new();
    let mut i: usize = 0;
    while i < ps.len()
        invariant
            i <= ps@.len(),
            r@.len() == i,
            forall|k: int| 0 <= k < i ==> #[trigger] r@[k]@ == ps@[k]@,
        decreases ps@.len() - i,
    {
        let p = ps[i].duplicate();
        r.push(p);
        i = i + 1;
    }
    proof {
        assert forall|k: int| 0 <= k < r@.len() implies #[trigger] postings_view(r@)[k]
            == postings_view(ps@)[k] by {
            assert(r@[k]@ == ps@[k]@);
        }
        assert(postings_view(r@) =~= postings_view(ps@));
    }
    r
}

impl Transaction {
    pub fn duplicate(&self) -> (r: Transaction)
        ensures
            r@ == self@,
    {
        Transaction {
            id: self.id.clone(),
            status: self.status,
            date: self.date,
            payee: duplicate_opt(&self.payee),
            narration: self.narration.clone(),
            postings: duplicate_postings(&self.postings),
        }
    }
}

/// Sum of the posting amounts.
pub open spec fn units_total(ps: Seq<PostingView>) -> int
    decreases ps.len(),
{
    if ps.len() == 0 {
        0
    } else {
        units_total(ps.drop_last()) + ps.last().amount
    }
}

/// All postings are in the currency of the first one.
pub open spec fn one_currency(ps: Seq<PostingView>) -> bool {
    forall|i: int| 0 <= i < ps.len() ==> #[trigger] ps[i].currency == ps[0].currency
}

/// Double-entry balance: at least two postings, one currency, summing to zero.
pub open spec fn balanced(t: TransactionView) -> bool {
    &&& t.postings.len() >= 2
    &&& one_currency(t.postings)
    &&& units_total(t.postings) == 0
}

/// Whether a transaction satisfies the double-entry balance rule.
pub fn is_balanced(t: &Transaction) -> (r: bool)
    ensures
        r == balanced(t@),
{
    let n = t.postings.len();
    if n < 2 {
        return false;
    }
    let ghost ps = t@.postings;
    let mut total: i128 = 0;
    let mut same = true;
    let mut i: usize = 0;
    while i < n
        invariant
            n == t.postings@.len(),
            ps == t@.postings,
            ps.len() == n,
            n >= 2,
            i <= n,
            total as int == units_total(ps.subrange(0, i as int)),
            -(i as int) * 0x8000_0000_0000_0000 <= total <= (i as int) * 0x8000_0000_0000_0000,
            same == (forall|j: int| 0 <= j < i ==> #[trigger] ps[j].currency == ps[0].currency),
        decreases n - i,
    {
        let p = &t.postings[i];
        proof {
            assert(ps.subrange(0, i + 1).drop_last() =~= ps.subrange(0, i as int));
            assert(ps[i as int] == t.postings@[i as int]@);
        }
        total = total + p.amount as i128;
        let first = &t.postings[0];
        proof {
            assert(ps[0] == t.postings@[0]@);
        }
        let eq = p.currency == first.currency;
        proof {
            assert(eq == (ps[i as int].currency == ps[0].currency));
            if !eq {
                assert(!(forall|j: int| 0 <= j < i + 1 ==> #[trigger] ps[j].currency == ps[0].currency));
            }
        }
        if !eq {
            same = false;
        }
        i = i + 1;
    }
    proof {
        assert(ps.subrange(0, n as int) =~= ps);
    }
    same && total == 0
}

} // verus!
