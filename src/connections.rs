use vstd::prelude::*;
use crate::link::{Account, Link, LinkStatus, LinkStatusView, LinkView};
use crate::store::{
    accounts_of, accounts_view, has_institution, has_link, link_pos, link_replaced, wf, LedgerStore,
    StoreError, StoreView,
};

verus! {

/// The upstream error code that means the link's credential is no longer
/// accepted.
pub open spec fn login_required_code() -> Seq<char> {
    "ITEM_LOGIN_REQUIRED"@
}

/// The state of a link after the upstream reported on its item: a
/// login-required error degrades it, with the error's message (or, lacking
/// one, the code) as the reason; anything else leaves the state as it was.
pub open spec fn checked_state(current: LinkStatusView, code: Option<Seq<char>>, message: Option<Seq<char>>) -> LinkStatusView {
    if code == Some(login_required_code()) {
        LinkStatusView::Degraded(
            match message {
                Some(m) => m,
                None => login_required_code(),
            },
        )
    } else {
        current
    }
}

/// The state a link takes after a status check.
pub fn state_after_check(current: &LinkStatus, code: &Option<String>, message: &Option<String>) -> (r: LinkStatus)
    ensures
        r@ == checked_state(current@, crate::ledger::opt_view(*code), crate::ledger::opt_view(*message)),
{
    let required = "ITEM_LOGIN_REQUIRED".to_owned();
    let login_required = match code {
        Some(c) => *c == required,
        None => false,
    };
    if login_required {
        match message {
            Some(m) => LinkStatus::Degraded(m.clone()),
            None => LinkStatus::Degraded(required),
        }
    } else {
        current.duplicate()
    }
}

impl LedgerStore {
    /// Records the outcome of a status check of link `item_id` at once,
    /// whatever a sync pass later does, so that a degraded link is not
    /// retried with a stale credential. Answers whether the link is
    /// degraded by this check.
    pub fn record_check(&mut self, item_id: &str, code: &Option<String>, message: &Option<String>) -> (r: Result<bool, StoreError>)
        requires
            wf(old(self)@),
        ensures
            wf(final(self)@),
            !has_link(old(self)@, item_id@) ==> r == Err::<bool, StoreError>(StoreError::NotFound)
                && final(self)@ == old(self)@,
            has_link(old(self)@, item_id@) ==> ({
                let l = old(self)@.links[link_pos(old(self)@, item_id@)];
                let degraded = crate::ledger::opt_view(*code) == Some(login_required_code());
                &&& r == Ok::<bool, StoreError>(degraded)
                &&& final(self)@ == if degraded {
                    link_replaced(
                        old(self)@,
                        LinkView {
                            state: checked_state(l.state, crate::ledger::opt_view(*code), crate::ledger::opt_view(*message)),
                            ..l
                        },
                    )
                } else {
                    old(self)@
                }
            }),
    {
        let link = match self.link(item_id) {
            Some(l) => l,
            None => {
                return Err(StoreError::NotFound);
            },
        };
        proof {
            reveal_strlit("ITEM_LOGIN_REQUIRED");
        }
        let required = "ITEM_LOGIN_REQUIRED".to_owned();
        let degraded = match code {
            Some(c) => *c == required,
            None => false,
        };
        if !degraded {
            return Ok(false);
        }
        let updated = Link {
            alias: link.alias,
            access_token: link.access_token,
            item_id: link.item_id,
            state: state_after_check(&link.state, code, message),
            sync_cursor: link.sync_cursor,
            institution_id: link.institution_id,
        };
        match self.update_link(&updated) {
            Ok(()) => Ok(true),
            Err(e) => Err(e),
        }
    }
}

/// A link as it is listed: its alias, item id, state, institution name and
/// accounts.
#[derive(Debug, Clone)]
pub struct Connection {
    pub alias: String,
    pub item_id: String,
    pub state: LinkStatus,
    pub ins_name: String,
    pub accounts: Vec<Account>,
}

/// Every link of the store, joined with its institution and accounts.
#[derive(Debug, Clone)]
pub struct LinkController {
    connections: Vec<Connection>,
}

/// Every link names an institution that the store holds.
pub open spec fn institutions_known(v: StoreView) -> bool {
    forall|i: int|
        0 <= i < v.links.len() ==> (#[trigger] v.links[i]).institution_id is Some && has_institution(
            v,
            v.links[i].institution_id->Some_0,
        )
}

/// A connection lists link `l` of store `v`.
pub open spec fn lists(c: Connection, l: LinkView, v: StoreView) -> bool {
    &&& c.alias@ == l.alias
    &&& c.item_id@ == l.item_id
    &&& c.state@ == l.state
    &&& v.institutions.contains((l.institution_id->Some_0, c.ins_name@))
    &&& accounts_view(c.accounts@) == accounts_of(v.accounts, l.item_id)
}

impl View for LinkController {
    type V = Seq<Connection>;

    closed spec fn view(&self) -> Seq<Connection> {
        self.connections@
    }
}

impl LinkController {
    /// Lists the store's links in stored order. A link whose institution
    /// is not known is refused as `NotFound`.
    pub fn new(store: &LedgerStore) -> (r: Result<LinkController, StoreError>)
        ensures
            r is Ok <==> institutions_known(store@),
            r is Err ==> r == Err::<LinkController, StoreError>(StoreError::NotFound),
            r matches Ok(c) ==> c@.len() == store@.links.len() && forall|i: int|
                0 <= i < c@.len() ==> lists(#[trigger] c@[i], store@.links[i], store@),
    {
        let links = store.links();
        let mut connections: Vec<Connection> = Vec::new();
        let mut i: usize = 0;
        while i < links.len()
            invariant
                links@.len() == store@.links.len(),
                forall|k: int| 0 <= k < links@.len() ==> #[trigger] links@[k]@ == store@.links[k],
                i <= links@.len(),
                connections@.len() == i,
                forall|k: int| 0 <= k < i ==> lists(#[trigger] connections@[k], store@.links[k], store@),
                forall|k: int|
                    0 <= k < i ==> (#[trigger] store@.links[k]).institution_id is Some && has_institution(
                        store@,
                        store@.links[k].institution_id->Some_0,
                    ),
            decreases links@.len() - i,
        {
            let link = &links[i];
            proof {
                assert(links@[i as int]@ == store@.links[i as int]);
            }
            let ins_id = match &link.institution_id {
                Some(id) => id,
                None => {
                    proof {
                        assert(!institutions_known(store@)) by {
                            assert(store@.links[i as int].institution_id is None);
                        }
                    }
                    return Err(StoreError::NotFound);
                },
            };
            let ins_name = match store.institution_name(ins_id.as_str()) {
                Some(n) => n,
                None => {
                    proof {
                        assert(!institutions_known(store@)) by {
                            assert(!has_institution(store@, store@.links[i as int].institution_id->Some_0));
                        }
                    }
                    return Err(StoreError::NotFound);
                },
            };
            let accounts = store.accounts_by_item(link.item_id.as_str());
            connections.push(
                Connection {
                    alias: link.alias.clone(),
                    item_id: link.item_id.clone(),
                    state: link.state.duplicate(),
                    ins_name,
                    accounts,
                },
            );
            i = i + 1;
        }
        Ok(LinkController { connections })
    }

    /// The listed links, in stored order.
    pub fn connections(&self) -> (r: &Vec<Connection>)
        ensures
            r@ == self@,
    {
        &self.connections
    }
}

} // verus!
