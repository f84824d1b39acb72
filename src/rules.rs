use vstd::prelude::*;
use crate::ledger::{Date, Status, Transaction, TransactionView};

verus! {

/// The read-only projection of a transaction that rules see and rewrite.
/// `amount` is the funding posting's amount in minor units; `payee` is the
/// transaction's narration.
#[derive(Debug, Clone)]
pub struct TransactionValue {
    pub source_account: String,
    pub dest_account: String,
    pub pending: bool,
    pub payee: String,
    pub amount: i64,
    pub date: Date,
    pub processor: String,
}

pub struct ValueView {
    pub source_account: Seq<char>,
    pub dest_account: Seq<char>,
    pub pending: bool,
    pub payee: Seq<char>,
    pub amount: int,
    pub date: Date,
    pub processor: Seq<char>,
}

impl View for TransactionValue {
    type V = ValueView;

    open spec fn view(&self) -> ValueView {
        ValueView {
            source_account: self.source_account@,
            dest_account: self.dest_account@,
            pending: self.pending,
            payee: self.payee@,
            amount: self.amount as int,
            date: self.date,
            processor: self.processor@,
        }
    }
}

/// The projection of a transaction: its first posting is the source, its
/// last the destination.
pub open spec fn project(t: TransactionView) -> ValueView
    recommends
        t.postings.len() > 0,
{
    ValueView {
        source_account: t.postings[0].account,
        dest_account: t.postings.last().account,
        pending: t.status == Status::Pending,
        payee: t.narration,
        amount: t.postings[0].amount,
        date: t.date,
        processor: Seq::empty(),
    }
}

/// A text to search and a regular expression to search it for.
#[derive(Debug, Clone)]
pub struct Regexp {
    pub text: String,
    pub query: String,
}

/// Whether a regular expression matches somewhere in a text, or `None`
/// where the expression does not compile.
pub uninterp spec fn regex_verdict(pattern: Seq<char>, text: Seq<char>) -> Option<bool>;

/// Relies on `regex::Regex::new`, which refuses a pattern that does not
/// compile, and `Regex::is_match`, which searches the whole text.
#[verifier::external_body]
fn regex_search(pattern: &str, text: &str) -> (r: Option<bool>)
    ensures
        r == regex_verdict(pattern@, text@),
{
    match regex::Regex::new(pattern) {
        Ok(re) => Some(re.is_match(text)),
        Err(_) => None,
    }
}

/// Why a render pass failed. No partial rewrite is ever handed out.
#[derive(Debug, Clone, Copy, PartialEq, Eq, Structural)]
pub enum RuleError {
    /// A rule's pattern is not a valid regular expression.
    InvalidPattern,
    /// This line of a rule file (counting from 1) is not a rule.
    Syntax(usize),
}

pub open spec fn verdict_result(v: Option<bool>) -> Result<bool, RuleError> {
    match v {
        Some(b) => Ok(b),
        None => Err(RuleError::InvalidPattern),
    }
}

/// Whether `query.query` matches somewhere in `query.text`.
pub fn contains(query: &Regexp) -> (r: Result<bool, RuleError>)
    ensures
        r == verdict_result(regex_verdict(query.query@, query.text@)),
{
    match regex_search(query.query.as_str(), query.text.as_str()) {
        Some(b) => Ok(b),
        None => Err(RuleError::InvalidPattern),
    }
}

/// The projection field a rule inspects.
#[derive(Debug, Clone, Copy, PartialEq, Eq, Structural)]
pub enum RuleField {
    Payee,
    SourceAccount,
}

/// When `field` matches `pattern`, book the transaction to `account`.
#[derive(Debug, Clone)]
pub struct Rule {
    pub field: RuleField,
    pub pattern: String,
    pub account: String,
}

pub struct RuleView {
    pub field: RuleField,
    pub pattern: Seq<char>,
    pub account: Seq<char>,
}

impl View for Rule {
    type V = RuleView;

    open spec fn view(&self) -> RuleView {
        RuleView { field: self.field, pattern: self.pattern@, account: self.account@ }
    }
}

pub open spec fn rules_view(rs: Seq<Rule>) -> Seq<RuleView> {
    rs.map_values(|r: Rule| r@)
}

/// The text of the field a rule inspects. Rules rewrite only the
/// destination account, so these fields never change during a pass.
pub open spec fn field_text(v: ValueView, f: RuleField) -> Seq<char> {
    match f {
        RuleField::Payee => v.payee,
        RuleField::SourceAccount => v.source_account,
    }
}

/// The rules applied in order to a projection, given whether each one
/// matches. A rule that matches books the transaction to its account, and
/// a later one overrides an earlier one. A rule whose pattern does not
/// compile fails the whole rendering.
pub open spec fn rewritten(v: ValueView, rules: Seq<RuleView>, verdicts: Seq<Option<bool>>) -> Result<ValueView, RuleError>
    decreases rules.len(),
{
    if rules.len() == 0 {
        Ok(v)
    } else {
        match rewritten(v, rules.drop_last(), verdicts) {
            Err(e) => Err(e),
            Ok(w) => match verdicts[rules.len() - 1] {
                None => Err(RuleError::InvalidPattern),
                Some(true) => Ok(ValueView { dest_account: rules.last().account, ..w }),
                Some(false) => Ok(w),
            },
        }
    }
}

/// The verdict of each rule on a projection.
pub open spec fn verdicts_of(v: ValueView, rules: Seq<RuleView>) -> Seq<Option<bool>> {
    Seq::new(rules.len(), |i: int| regex_verdict(rules[i].pattern, field_text(v, rules[i].field)))
}

pub open spec fn value_result_view(r: Result<TransactionValue, RuleError>) -> Result<ValueView, RuleError> {
    match r {
        Ok(v) => Ok(v@),
        Err(e) => Err(e),
    }
}

/// Applies rules to a projection given each rule's match verdict.
pub fn rewrite(value: TransactionValue, rules: &Vec<Rule>, verdicts: &Vec<Option<bool>>) -> (r: Result<TransactionValue, RuleError>)
    requires
        verdicts@.len() == rules@.len(),
    ensures
        value_result_view(r) == rewritten(value@, rules_view(rules@), verdicts@),
{
    let ghost v0 = value@;
    let ghost rv = rules_view(rules@);
    let mut v = value;
    let mut i: usize = 0;
    while i < rules.len()
        invariant
            verdicts@.len() == rules@.len(),
            v0 == value@,
            rv == rules_view(rules@),
            i <= rules@.len(),
            rewritten(v0, rv.subrange(0, i as int), verdicts@) == Ok::<ValueView, RuleError>(v@),
        decreases rules@.len() - i,
    {
        proof {
            assert(rv.subrange(0, i + 1).drop_last() =~= rv.subrange(0, i as int));
            assert(rv.subrange(0, i + 1).last() == rules@[i as int]@);
        }
        match verdicts[i] {
            None => {
                proof {
                    assert(verdicts@[i as int] is None);
                    assert(rewritten(v0, rv.subrange(0, i + 1), verdicts@) is Err);
                    lemma_rewrite_stops(v0, rv, verdicts@, i + 1);
                }
                return Err(RuleError::InvalidPattern);
            },
            Some(true) => {
                v.dest_account = rules[i].account.clone();
            },
            Some(false) => {},
        }
        i = i + 1;
    }
    proof {
        assert(rv.subrange(0, rules@.len() as int) =~= rv);
    }
    Ok(v)
}

/// Once a pattern has failed, later rules change nothing.
proof fn lemma_rewrite_stops(v: ValueView, rules: Seq<RuleView>, verdicts: Seq<Option<bool>>, k: int)
    requires
        0 <= k <= rules.len(),
        rewritten(v, rules.subrange(0, k), verdicts) is Err,
    ensures
        rewritten(v, rules, verdicts) == rewritten(v, rules.subrange(0, k), verdicts),
    decreases rules.len() - k,
{
    if k < rules.len() {
        assert(rules.subrange(0, k + 1).drop_last() =~= rules.subrange(0, k));
        lemma_rewrite_stops(v, rules, verdicts, k + 1);
    } else {
        assert(rules.subrange(0, k) =~= rules);
    }
}

/// Rules compiled once, applied to each transaction as it is rendered.
pub struct Transformer {
    rules: Vec<Rule>,
}

impl View for Transformer {
    type V = Seq<RuleView>;

    closed spec fn view(&self) -> Seq<RuleView> {
        rules_view(self.rules@)
    }
}

impl Transformer {
    /// A transformer over the given rules, applied in the given order.
    pub fn from_rules(rules: Vec<Rule>) -> (r: Transformer)
        ensures
            r@ == rules_view(rules@),
    {
        Transformer { rules }
    }

    /// The projection of a transaction before any rule is applied.
    pub fn project(txn: &Transaction) -> (r: TransactionValue)
        requires
            txn@.postings.len() > 0,
        ensures
            r@ == project(txn@),
    {
        let n = txn.postings.len();
        let first = &txn.postings[0];
        let last = &txn.postings[n - 1];
        proof {
            assert(txn@.postings[0] == first@);
            assert(txn@.postings.last() == last@);
        }
        TransactionValue {
            processor: String::new(),
            payee: txn.narration.clone(),
            date: txn.date,
            source_account: first.account.clone(),
            dest_account: last.account.clone(),
            amount: first.amount,
            pending: match txn.status {
                Status::Pending => true,
                Status::Resolved => false,
            },
        }
    }

    /// Runs the rules over the projection of a transaction. With no rules
    /// this is the projection itself. A rule whose pattern does not compile
    /// fails the whole pass.
    pub fn apply(&self, txn: &Transaction) -> (r: Result<TransactionValue, RuleError>)
        requires
            txn@.postings.len() > 0,
        ensures
            value_result_view(r) == rewritten(project(txn@), self@, verdicts_of(project(txn@), self@)),
            self@.len() == 0 ==> value_result_view(r) == Ok::<ValueView, RuleError>(project(txn@)),
    {
        let value = Self::project(txn);
        let mut verdicts: Vec<Option<bool>> = Vec::new();
        let mut i: usize = 0;
        while i < self.rules.len()
            invariant
                i <= self.rules@.len(),
                value@ == project(txn@),
                verdicts@.len() == i,
                forall|k: int| 0 <= k < i ==> #[trigger] verdicts@[k] == verdicts_of(value@, self@)[k],
            decreases self.rules@.len() - i,
        {
            let rule = &self.rules[i];
            proof {
                assert(self@[i as int] == rule@);
            }
            let text = match rule.field {
                RuleField::Payee => value.payee.as_str(),
                RuleField::SourceAccount => value.source_account.as_str(),
            };
            verdicts.push(regex_search(rule.pattern.as_str(), text));
            i = i + 1;
        }
        proof {
            assert(verdicts@ =~= verdicts_of(value@, self@));
        }
        rewrite(value, &self.rules, &verdicts)
    }
}

/// With no rules the transformer is the identity: what it hands out is the
/// untouched projection, whose destination is the transaction's last
/// posting, with amount, date and payee unchanged.
pub proof fn no_rules_is_identity(t: TransactionView)
    requires
        t.postings.len() > 0,
    ensures
        rewritten(project(t), Seq::empty(), Seq::empty()) == Ok::<ValueView, RuleError>(project(t)),
        project(t).dest_account == t.postings.last().account,
        project(t).amount == t.postings[0].amount,
        project(t).date == t.date,
        project(t).payee == t.narration,
{
}

/// `a` is on or before `b`.
pub open spec fn date_le(a: Date, b: Date) -> bool {
    a.year < b.year || (a.year == b.year && (a.month < b.month || (a.month == b.month && a.day <= b.day)))
}

/// Whether `a` is on or before `b`.
pub fn on_or_before(a: Date, b: Date) -> (r: bool)
    ensures
        r == date_le(a, b),
{
    a.year < b.year || (a.year == b.year && (a.month < b.month || (a.month == b.month && a.day <= b.day)))
}

/// The date lies within the optional bounds, both inclusive.
pub open spec fn in_range(d: Date, begin: Option<Date>, until: Option<Date>) -> bool {
    (match begin {
        Some(b) => date_le(b, d),
        None => true,
    }) && (match until {
        Some(u) => date_le(d, u),
        None => true,
    })
}

/// The rendering of the transactions within the bounds, in order: each
/// one's projection rewritten by the rules. The first failure fails the
/// whole rendering.
pub open spec fn rendered(
    txns: Seq<TransactionView>,
    rules: Seq<RuleView>,
    begin: Option<Date>,
    until: Option<Date>,
) -> Result<Seq<ValueView>, RuleError>
    decreases txns.len(),
{
    if txns.len() == 0 {
        Ok(Seq::empty())
    } else {
        match rendered(txns.drop_last(), rules, begin, until) {
            Err(e) => Err(e),
            Ok(out) => {
                let t = txns.last();
                if in_range(t.date, begin, until) {
                    let v = project(t);
                    match rewritten(v, rules, verdicts_of(v, rules)) {
                        Err(e) => Err(e),
                        Ok(w) => Ok(out.push(w)),
                    }
                } else {
                    Ok(out)
                }
            },
        }
    }
}

proof fn lemma_rendered_stops(
    txns: Seq<TransactionView>,
    rules: Seq<RuleView>,
    begin: Option<Date>,
    until: Option<Date>,
    k: int,
)
    requires
        0 <= k <= txns.len(),
        rendered(txns.subrange(0, k), rules, begin, until) is Err,
    ensures
        rendered(txns, rules, begin, until) == rendered(txns.subrange(0, k), rules, begin, until),
    decreases txns.len() - k,
{
    if k < txns.len() {
        assert(txns.subrange(0, k + 1).drop_last() =~= txns.subrange(0, k));
        lemma_rendered_stops(txns, rules, begin, until, k + 1);
    } else {
        assert(txns.subrange(0, k) =~= txns);
    }
}

pub open spec fn txns_view(ts: Seq<Transaction>) -> Seq<TransactionView> {
    ts.map_values(|t: Transaction| t@)
}

pub open spec fn values_view(vs: Seq<TransactionValue>) -> Seq<ValueView> {
    vs.map_values(|v: TransactionValue| v@)
}

impl Transformer {
    /// Renders the transactions dated within the optional bounds (both
    /// inclusive), in order, each through the rules. A rule failure fails
    /// the whole rendering: no partial output is handed out.
    pub fn render(&self, txns: &Vec<Transaction>, begin: Option<Date>, until: Option<Date>) -> (r: Result<Vec<TransactionValue>, RuleError>)
        requires
            forall|i: int| 0 <= i < txns@.len() ==> (#[trigger] txns@[i])@.postings.len() > 0,
        ensures
            match r {
                Ok(vs) => rendered(txns_view(txns@), self@, begin, until) == Ok::<Seq<ValueView>, RuleError>(values_view(vs@)),
                Err(e) => rendered(txns_view(txns@), self@, begin, until) == Err::<Seq<ValueView>, RuleError>(e),
            },
    {
        let ghost tv = txns_view(txns@);
        let mut out: Vec<TransactionValue> = Vec::new();
        let mut i: usize = 0;
        proof {
            assert(values_view(out@) =~= Seq::<ValueView>::empty());
        }
        while i < txns.len()
            invariant
                tv == txns_view(txns@),
                i <= txns@.len(),
                forall|k: int| 0 <= k < txns@.len() ==> (#[trigger] txns@[k])@.postings.len() > 0,
                rendered(tv.subrange(0, i as int), self@, begin, until) == Ok::<Seq<ValueView>, RuleError>(values_view(out@)),
            decreases txns@.len() - i,
        {
            let t = &txns[i];
            proof {
                assert(tv.subrange(0, i + 1).drop_last() =~= tv.subrange(0, i as int));
                assert(tv.subrange(0, i + 1).last() == t@);
            }
            let after = match begin {
                Some(b) => on_or_before(b, t.date),
                None => true,
            };
            let before = match until {
                Some(u) => on_or_before(t.date, u),
                None => true,
            };
            if after && before {
                match self.apply(t) {
                    Ok(v) => {
                        let ghost prev = out@;
                        out.push(v);
                        proof {
                            assert(values_view(out@) =~= values_view(prev).push(v@));
                        }
                    },
                    Err(e) => {
                        proof {
                            assert(rendered(tv.subrange(0, i + 1), self@, begin, until) == Err::<Seq<ValueView>, RuleError>(e));
                            lemma_rendered_stops(tv, self@, begin, until, i + 1);
                        }
                        return Err(e);
                    },
                }
            }
            i = i + 1;
        }
        proof {
            assert(tv.subrange(0, txns@.len() as int) =~= tv);
        }
        Ok(out)
    }
}

} // verus!
