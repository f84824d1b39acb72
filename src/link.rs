use vstd::prelude::*;
use crate::ledger::{duplicate_opt, opt_view};

verus! {

/// Health of a link: usable, or degraded because the upstream rejected its
/// credential (with the reason given).
#[derive(Debug, Clone)]
pub enum LinkStatus {
    Active,
    Degraded(String),
}

pub enum LinkStatusView {
    Active,
    Degraded(Seq<char>),
}

impl View for LinkStatus {
    type V = LinkStatusView;

    open spec fn view(&self) -> LinkStatusView {
        match self {
            LinkStatus::Active => LinkStatusView::Active,
            LinkStatus::Degraded(r) => LinkStatusView::Degraded(r@),
        }
    }
}

impl LinkStatus {
    pub fn duplicate(&self) -> (r: LinkStatus)
        ensures
            r@ == self@,
    {
        match self {
            LinkStatus::Active => LinkStatus::Active,
            LinkStatus::Degraded(reason) => LinkStatus::Degraded(reason.clone()),
        }
    }
}

/// Stored spelling of a link state.
pub open spec fn status_enum_text(s: LinkStatusView) -> Seq<char> {
    match s {
        LinkStatusView::Active => "ACTIVE"@,
        LinkStatusView::Degraded(_) => "REQUIRES_VERIFICATION"@,
    }
}

/// The reason recorded for a degraded link read back from storage.
pub open spec fn stored_degraded_reason() -> Seq<char> {
    "requires verification"@
}

pub open spec fn status_opt_view(s: Option<LinkStatus>) -> Option<LinkStatusView> {
    match s {
        Some(v) => Some(v@),
        None => None,
    }
}

/// The stored spelling of a link state: `ACTIVE` or `REQUIRES_VERIFICATION`.
pub fn to_status_enum(status: &LinkStatus) -> (r: String)
    ensures
        r@ == status_enum_text(status@),
{
    match status {
        LinkStatus::Degraded(_) => "REQUIRES_VERIFICATION".to_owned(),
        LinkStatus::Active => "ACTIVE".to_owned(),
    }
}

/// Reads a stored link state back. The reason of a degraded link is not
/// stored, so it comes back as a fixed text. Any other spelling is refused.
pub fn from_status_enum(status: &str) -> (r: Option<LinkStatus>)
    ensures
        status@ == "ACTIVE"@ ==> status_opt_view(r) == Some(LinkStatusView::Active),
        status@ == "REQUIRES_VERIFICATION"@ ==> status_opt_view(r) == Some(
            LinkStatusView::Degraded(stored_degraded_reason()),
        ),
        r.is_none() <==> (status@ != "ACTIVE"@ && status@ != "REQUIRES_VERIFICATION"@),
{
    proof {
        reveal_strlit("ACTIVE");
        reveal_strlit("REQUIRES_VERIFICATION");
        assert("ACTIVE"@.len() != "REQUIRES_VERIFICATION"@.len());
    }
    let t = status.to_owned();
    if t == "ACTIVE".to_owned() {
        Some(LinkStatus::Active)
    } else if t == "REQUIRES_VERIFICATION".to_owned() {
        Some(LinkStatus::Degraded("requires verification".to_owned()))
    } else {
        None
    }
}

/// One authorised upstream connection.
#[derive(Debug, Clone)]
pub struct Link {
    pub alias: String,
    pub access_token: String,
    pub item_id: String,
    pub state: LinkStatus,
    pub sync_cursor: Option<String>,
    pub institution_id: Option<String>,
}

pub struct LinkView {
    pub alias: Seq<char>,
    pub access_token: Seq<char>,
    pub item_id: Seq<char>,
    pub state: LinkStatusView,
    pub sync_cursor: Option<Seq<char>>,
    pub institution_id: Option<Seq<char>>,
}

impl View for Link {
    type V = LinkView;

    open spec fn view(&self) -> LinkView {
        LinkView {
            alias: self.alias@,
            access_token: self.access_token@,
            item_id: self.item_id@,
            state: self.state@,
            sync_cursor: opt_view(self.sync_cursor),
            institution_id: opt_view(self.institution_id),
        }
    }
}

impl Link {
    pub fn duplicate(&self) -> (r: Link)
        ensures
            r@ == self@,
    {
        Link {
            alias: self.alias.clone(),
            access_token: self.access_token.clone(),
            item_id: self.item_id.clone(),
            state: self.state.duplicate(),
            sync_cursor: duplicate_opt(&self.sync_cursor),
            institution_id: duplicate_opt(&self.institution_id),
        }
    }
}

/// A financial institution known to the upstream provider.
#[derive(Debug, Clone)]
pub struct Institution {
    pub id: String,
    pub name: String,
}

impl View for Institution {
    type V = (Seq<char>, Seq<char>);

    open spec fn view(&self) -> (Seq<char>, Seq<char>) {
        (self.id@, self.name@)
    }
}

impl Institution {
    pub fn duplicate(&self) -> (r: Institution)
        ensures
            r@ == self@,
    {
        Institution { id: self.id.clone(), name: self.name.clone() }
    }
}

/// Normal balance of an account, which decides where it stands in the
/// ledger: credit-normal for credit and loan instruments, debit-normal for
/// depository, investment and brokerage ones.
#[derive(Debug, Clone, Copy, PartialEq, Eq, Structural)]
pub enum AccountClass {
    CreditNormal,
    DebitNormal,
}

pub open spec fn class_text(c: AccountClass) -> Seq<char> {
    match c {
        AccountClass::CreditNormal => "CREDIT_NORMAL"@,
        AccountClass::DebitNormal => "DEBIT_NORMAL"@,
    }
}

impl AccountClass {
    /// The stored spelling: `CREDIT_NORMAL` or `DEBIT_NORMAL`.
    pub fn as_string(&self) -> (r: String)
        ensures
            r@ == class_text(*self),
    {
        match self {
            AccountClass::CreditNormal => "CREDIT_NORMAL".to_owned(),
            AccountClass::DebitNormal => "DEBIT_NORMAL".to_owned(),
        }
    }
}

/// The account types the upstream provider reports.
#[derive(Debug, Clone, Copy, PartialEq, Eq, Structural)]
pub enum UpstreamAccountType {
    Credit,
    Loan,
    Depository,
    Investment,
    Brokerage,
    Other,
}

/// The class of an upstream account type, where it has one.
pub open spec fn class_of(t: UpstreamAccountType) -> Option<AccountClass> {
    match t {
        UpstreamAccountType::Credit | UpstreamAccountType::Loan => Some(AccountClass::CreditNormal),
        UpstreamAccountType::Other => None,
        _ => Some(AccountClass::DebitNormal),
    }
}

/// An account that a link gives access to.
#[derive(Debug, Clone)]
pub struct Account {
    pub id: String,
    pub name: String,
    pub ty: AccountClass,
}

impl View for Account {
    type V = (Seq<char>, Seq<char>, AccountClass);

    open spec fn view(&self) -> (Seq<char>, Seq<char>, AccountClass) {
        (self.id@, self.name@, self.ty)
    }
}

impl Account {
    pub fn duplicate(&self) -> (r: Account)
        ensures
            r@ == self@,
    {
        Account { id: self.id.clone(), name: self.name.clone(), ty: self.ty }
    }

    /// Builds an account from what the upstream reports of it. An account
    /// type without a normal balance is refused.
    pub fn from_upstream(id: String, name: String, ty: UpstreamAccountType) -> (r: Option<Account>)
        ensures
            class_of(ty) is None <==> r is None,
            r matches Some(a) ==> a@ == (id@, name@, class_of(ty)->Some_0),
    {
        let class = match ty {
            UpstreamAccountType::Credit | UpstreamAccountType::Loan => AccountClass::CreditNormal,
            UpstreamAccountType::Depository
            | UpstreamAccountType::Investment
            | UpstreamAccountType::Brokerage => AccountClass::DebitNormal,
            UpstreamAccountType::Other => {
                return None;
            },
        };
        Some(Account { id, name, ty: class })
    }
}

} // verus!
