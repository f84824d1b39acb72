use vstd::prelude::*;
use crate::ledger::{balanced, is_balanced, Transaction, TransactionView};
use crate::link::{Account, Institution, Link, LinkStatus, LinkView};
use crate::upstream::{RawTransaction, RawView, TransactionEntry, EntryView};

verus! {

/// Why a store operation was refused.
#[derive(Debug, Clone, Copy, PartialEq, Eq, Structural)]
pub enum StoreError {
    /// The record, or the upstream record it comes from, is already stored.
    AlreadyExists,
    /// No record has the given id.
    NotFound,
    /// The transaction's postings do not balance.
    Unbalanced,
    /// Another transaction already has this ledger id.
    IdConflict,
}

/// A persisted transaction with the account it was funded from and the
/// upstream record it was built from.
#[derive(Debug)]
pub struct StoredTransaction {
    pub txn: Transaction,
    pub account_id: String,
    pub source: RawTransaction,
}

pub struct StoredView {
    pub txn: TransactionView,
    pub account_id: Seq<char>,
    pub source: RawView,
}

impl View for StoredTransaction {
    type V = StoredView;

    open spec fn view(&self) -> StoredView {
        StoredView { txn: self.txn@, account_id: self.account_id@, source: self.source@ }
    }
}

/// Mapping row: the upstream record `upstream_id` of link `item_id` is the
/// ledger transaction `txn_id`. A retired row belongs to a pending record
/// whose posted version has taken its place: it still marks the pending
/// record as taken in, but no longer leads to the transaction.
#[derive(Debug)]
pub struct UpstreamRef {
    pub item_id: String,
    pub upstream_id: String,
    pub txn_id: String,
    pub retired: bool,
}

pub struct RefView {
    pub item_id: Seq<char>,
    pub upstream_id: Seq<char>,
    pub txn_id: Seq<char>,
    pub retired: bool,
}

impl UpstreamRef {
    pub fn duplicate(&self) -> (r: UpstreamRef)
        ensures
            r@ == self@,
    {
        UpstreamRef {
            item_id: self.item_id.clone(),
            upstream_id: self.upstream_id.clone(),
            txn_id: self.txn_id.clone(),
            retired: self.retired,
        }
    }
}

pub open spec fn refs_view(rs: Seq<UpstreamRef>) -> Seq<RefView> {
    rs.map_values(|r: UpstreamRef| r@)
}

impl View for UpstreamRef {
    type V = RefView;

    open spec fn view(&self) -> RefView {
        RefView {
            item_id: self.item_id@,
            upstream_id: self.upstream_id@,
            txn_id: self.txn_id@,
            retired: self.retired,
        }
    }
}

/// The local store: links, accounts, institutions, transactions with their
/// postings, and the upstream-to-ledger id mapping.
pub struct LedgerStore {
    links: Vec<Link>,
    accounts: Vec<(String, Account)>,
    institutions: Vec<Institution>,
    txns: Vec<StoredTransaction>,
    refs: Vec<UpstreamRef>,
}

pub struct StoreView {
    pub links: Seq<LinkView>,
    pub accounts: Seq<(Seq<char>, (Seq<char>, Seq<char>, crate::link::AccountClass))>,
    pub institutions: Seq<(Seq<char>, Seq<char>)>,
    pub txns: Seq<StoredView>,
    pub refs: Seq<RefView>,
}

impl View for LedgerStore {
    type V = StoreView;

    closed spec fn view(&self) -> StoreView {
        StoreView {
            links: self.links@.map_values(|l: Link| l@),
            accounts: self.accounts@.map_values(|a: (String, Account)| (a.0@, a.1@)),
            institutions: self.institutions@.map_values(|i: Institution| i@),
            txns: self.txns@.map_values(|t: StoredTransaction| t@),
            refs: refs_view(self.refs@),
        }
    }
}

/// The mapping holds an entry for this link and upstream record.
pub open spec fn has_ref(v: StoreView, item: Seq<char>, up: Seq<char>) -> bool {
    exists|i: int| 0 <= i < v.refs.len() && #[trigger] v.refs[i].item_id == item && v.refs[i].upstream_id == up
}

/// Position of the mapping row of a link and upstream record.
pub open spec fn ref_pos(v: StoreView, item: Seq<char>, up: Seq<char>) -> int {
    choose|i: int| 0 <= i < v.refs.len() && #[trigger] v.refs[i].item_id == item && v.refs[i].upstream_id == up
}

/// The ledger id that the mapping gives for a link and upstream record;
/// a retired row gives none.
pub open spec fn ref_target(v: StoreView, item: Seq<char>, up: Seq<char>) -> Option<Seq<char>> {
    if has_ref(v, item, up) && !v.refs[ref_pos(v, item, up)].retired {
        Some(v.refs[ref_pos(v, item, up)].txn_id)
    } else {
        None
    }
}

/// A stored transaction has this ledger id.
pub open spec fn has_txn(v: StoreView, id: Seq<char>) -> bool {
    exists|i: int| 0 <= i < v.txns.len() && #[trigger] v.txns[i].txn.id == id
}

/// Position of the stored transaction with this ledger id.
pub open spec fn txn_pos(v: StoreView, id: Seq<char>) -> int {
    choose|i: int| 0 <= i < v.txns.len() && #[trigger] v.txns[i].txn.id == id
}

/// The store's invariant: keys are unique, every persisted transaction
/// balances, and every mapping row names a stored transaction.
pub open spec fn wf(v: StoreView) -> bool {
    &&& forall|i: int, j: int|
        0 <= i < j < v.refs.len() ==> !(#[trigger] v.refs[i].item_id == #[trigger] v.refs[j].item_id
            && v.refs[i].upstream_id == v.refs[j].upstream_id)
    &&& forall|i: int, j: int|
        0 <= i < j < v.txns.len() ==> #[trigger] v.txns[i].txn.id != #[trigger] v.txns[j].txn.id
    &&& forall|i: int| 0 <= i < v.txns.len() ==> balanced(#[trigger] v.txns[i].txn)
    &&& forall|i: int| 0 <= i < v.refs.len() ==> has_txn(v, #[trigger] v.refs[i].txn_id)
    &&& forall|i: int, j: int|
        0 <= i < j < v.links.len() ==> #[trigger] v.links[i].item_id != #[trigger] v.links[j].item_id
    &&& forall|i: int, j: int|
        0 <= i < j < v.accounts.len() ==> #[trigger] v.accounts[i].1.0 != #[trigger] v.accounts[j].1.0
    &&& forall|i: int, j: int|
        0 <= i < j < v.institutions.len() ==> #[trigger] v.institutions[i].0
            != #[trigger] v.institutions[j].0
}

/// The store after a transaction is saved for a link.
pub open spec fn saved(v: StoreView, item: Seq<char>, e: EntryView) -> StoreView {
    StoreView {
        txns: v.txns.push(StoredView { txn: e.canonical, account_id: e.source.account_id, source: e.source }),
        refs: v.refs.push(
            RefView { item_id: item, upstream_id: e.source.transaction_id, txn_id: e.canonical.id, retired: false },
        ),
        ..v
    }
}

/// What saving a transaction for a link answers.
pub open spec fn save_result(v: StoreView, item: Seq<char>, e: EntryView) -> Result<(), StoreError> {
    if has_ref(v, item, e.source.transaction_id) {
        Err(StoreError::AlreadyExists)
    } else if !balanced(e.canonical) {
        Err(StoreError::Unbalanced)
    } else if has_txn(v, e.canonical.id) {
        Err(StoreError::IdConflict)
    } else {
        Ok(())
    }
}

/// The store after the source record of transaction `id` is replaced.
pub open spec fn source_updated(v: StoreView, id: Seq<char>, src: RawView) -> StoreView {
    StoreView {
        txns: Seq::new(
            v.txns.len(),
            |i: int|
                if v.txns[i].txn.id == id {
                    StoredView { source: src, ..v.txns[i] }
                } else {
                    v.txns[i]
                },
        ),
        ..v
    }
}

/// The mapping rows that do not name ledger transaction `id`, in order.
pub open spec fn unlinked(rs: Seq<RefView>, id: Seq<char>) -> Seq<RefView>
    decreases rs.len(),
{
    if rs.len() == 0 {
        rs
    } else if rs.last().txn_id == id {
        unlinked(rs.drop_last(), id)
    } else {
        unlinked(rs.drop_last(), id).push(rs.last())
    }
}

/// The store after transaction `id` is deleted with its postings and every
/// mapping row that names it.
pub open spec fn deleted(v: StoreView, id: Seq<char>) -> StoreView {
    if has_txn(v, id) {
        StoreView { txns: v.txns.remove(txn_pos(v, id)), refs: unlinked(v.refs, id), ..v }
    } else {
        v
    }
}

/// No two mapping rows share a link and upstream id.
pub open spec fn refs_unique(rs: Seq<RefView>) -> bool {
    forall|i: int, j: int|
        0 <= i < j < rs.len() ==> !(#[trigger] rs[i].item_id == #[trigger] rs[j].item_id && rs[i].upstream_id
            == rs[j].upstream_id)
}

proof fn lemma_unlinked(rs: Seq<RefView>, id: Seq<char>)
    ensures
        forall|k: int| 0 <= k < unlinked(rs, id).len() ==> (#[trigger] unlinked(rs, id)[k]).txn_id != id,
        forall|k: int| 0 <= k < unlinked(rs, id).len() ==> rs.contains(#[trigger] unlinked(rs, id)[k]),
        refs_unique(rs) ==> refs_unique(unlinked(rs, id)),
    decreases rs.len(),
{
    if rs.len() > 0 {
        let pre = rs.drop_last();
        lemma_unlinked(pre, id);
        let d = unlinked(pre, id);
        assert forall|k: int| 0 <= k < d.len() implies rs.contains(#[trigger] d[k]) by {
            let j = choose|j: int| 0 <= j < pre.len() && pre[j] == d[k];
            assert(rs[j] == d[k]);
        }
        if rs.last().txn_id != id {
            let u = d.push(rs.last());
            assert forall|k: int| 0 <= k < u.len() implies rs.contains(#[trigger] u[k]) by {
                if k < d.len() {
                    assert(u[k] == d[k]);
                } else {
                    assert(u[k] == rs[rs.len() - 1]);
                }
            }
            if refs_unique(rs) {
                assert(refs_unique(pre));
                assert forall|a: int, b: int| 0 <= a < b < u.len() implies !(#[trigger] u[a].item_id
                    == #[trigger] u[b].item_id && u[a].upstream_id == u[b].upstream_id) by {
                    if b == d.len() {
                        let j = choose|j: int| 0 <= j < pre.len() && pre[j] == d[a];
                        assert(!(rs[j].item_id == rs[rs.len() - 1].item_id && rs[j].upstream_id
                            == rs[rs.len() - 1].upstream_id));
                    } else {
                        assert(u[a] == d[a] && u[b] == d[b]);
                    }
                }
            }
        } else {
            if refs_unique(rs) {
                assert(refs_unique(pre));
            }
        }
    }
}

/// Transaction `t` under the ledger id `id`.
pub open spec fn with_id(t: TransactionView, id: Seq<char>) -> TransactionView {
    TransactionView { id, ..t }
}

/// The store after the posted version `e` of pending record `pending`
/// takes the place of the ledger transaction that record maps to, which
/// keeps its id. The pending record's row is retired, and the posted
/// record maps to the same ledger id.
pub open spec fn superseded(v: StoreView, item: Seq<char>, pending: Seq<char>, e: EntryView) -> StoreView {
    let id = ref_target(v, item, pending)->Some_0;
    let p = ref_pos(v, item, pending);
    StoreView {
        txns: v.txns.update(
            txn_pos(v, id),
            StoredView { txn: with_id(e.canonical, id), account_id: e.source.account_id, source: e.source },
        ),
        refs: v.refs.update(p, RefView { retired: true, ..v.refs[p] }).push(
            RefView { item_id: item, upstream_id: e.source.transaction_id, txn_id: id, retired: false },
        ),
        ..v
    }
}

/// What superseding pending record `pending` with `e` answers.
pub open spec fn supersede_result(v: StoreView, item: Seq<char>, pending: Seq<char>, e: EntryView) -> Result<(), StoreError> {
    if has_ref(v, item, e.source.transaction_id) {
        Err(StoreError::AlreadyExists)
    } else if !balanced(e.canonical) {
        Err(StoreError::Unbalanced)
    } else {
        match ref_target(v, item, pending) {
            Some(id) => if has_txn(v, id) {
                Ok(())
            } else {
                Err(StoreError::NotFound)
            },
            None => Err(StoreError::NotFound),
        }
    }
}

pub proof fn lemma_ref_target(v: StoreView, item: Seq<char>, up: Seq<char>, i: int)
    requires
        wf(v),
        0 <= i < v.refs.len(),
        v.refs[i].item_id == item,
        v.refs[i].upstream_id == up,
    ensures
        has_ref(v, item, up),
        ref_pos(v, item, up) == i,
        ref_target(v, item, up) == if v.refs[i].retired {
            None
        } else {
            Some(v.refs[i].txn_id)
        },
{
    let j = ref_pos(v, item, up);
    if j < i {
        assert(!(v.refs[j].item_id == v.refs[i].item_id && v.refs[j].upstream_id == v.refs[i].upstream_id));
    } else if i < j {
        assert(!(v.refs[i].item_id == v.refs[j].item_id && v.refs[i].upstream_id == v.refs[j].upstream_id));
    }
}

proof fn lemma_txn_pos(v: StoreView, id: Seq<char>, i: int)
    requires
        wf(v),
        0 <= i < v.txns.len(),
        v.txns[i].txn.id == id,
    ensures
        has_txn(v, id),
        txn_pos(v, id) == i,
{
    let j = txn_pos(v, id);
    if j < i {
        assert(v.txns[j].txn.id != v.txns[i].txn.id);
    } else if i < j {
        assert(v.txns[i].txn.id != v.txns[j].txn.id);
    }
}

impl LedgerStore {
    /// An empty store.
    pub fn new() -> (r: LedgerStore)
        ensures
            wf(r@),
            r@.links.len() == 0,
            r@.accounts.len() == 0,
            r@.institutions.len() == 0,
            r@.txns.len() == 0,
            r@.refs.len() == 0,
    {
        LedgerStore {
            links: Vec::new(),
            accounts: Vec::new(),
            institutions: Vec::new(),
            txns: Vec::new(),
            refs: Vec::new(),
        }
    }

    fn find_ref(&self, item_id: &str, upstream_id: &str) -> (r: Option<usize>)
        ensures
            r matches Some(i) ==> i < self@.refs.len() && self@.refs[i as int].item_id == item_id@
                && self@.refs[i as int].upstream_id == upstream_id@,
            r is None ==> !has_ref(self@, item_id@, upstream_id@),
    {
        let item = item_id.to_owned();
        let up = upstream_id.to_owned();
        let mut i: usize = 0;
        while i < self.refs.len()
            invariant
                i <= self.refs@.len(),
                item@ == item_id@,
                up@ == upstream_id@,
                forall|k: int|
                    0 <= k < i ==> !(#[trigger] self@.refs[k].item_id == item_id@ && self@.refs[k].upstream_id
                        == upstream_id@),
            decreases self.refs@.len() - i,
        {
            let r = &self.refs[i];
            proof {
                assert(self@.refs[i as int] == r@);
            }
            if r.item_id == item && r.upstream_id == up {
                return Some(i);
            }
            i = i + 1;
        }
        None
    }

    fn find_txn(&self, id: &str) -> (r: Option<usize>)
        ensures
            r matches Some(i) ==> i < self@.txns.len() && self@.txns[i as int].txn.id == id@,
            r is None ==> !has_txn(self@, id@),
    {
        let key = id.to_owned();
        let mut i: usize = 0;
        while i < self.txns.len()
            invariant
                i <= self.txns@.len(),
                key@ == id@,
                forall|k: int| 0 <= k < i ==> #[trigger] self@.txns[k].txn.id != id@,
            decreases self.txns@.len() - i,
        {
            let t = &self.txns[i];
            proof {
                assert(self@.txns[i as int] == t@);
            }
            if t.txn.id == key {
                return Some(i);
            }
            i = i + 1;
        }
        None
    }

    /// The ledger id of the transaction built from upstream record
    /// `upstream_id` of link `item_id`, if the mapping has a live row for it.
    pub fn by_upstream_id(&self, item_id: &str, upstream_id: &str) -> (r: Option<String>)
        requires
            wf(self@),
        ensures
            crate::ledger::opt_view(r) == ref_target(self@, item_id@, upstream_id@),
            r matches Some(l) ==> has_txn(self@, l@),
    {
        match self.find_ref(item_id, upstream_id) {
            Some(i) => {
                proof {
                    lemma_ref_target(self@, item_id@, upstream_id@, i as int);
                    assert(self@.refs[i as int] == self.refs@[i as int]@);
                }
                proof {
                    assert(has_txn(self@, self@.refs[i as int].txn_id));
                }
                if self.refs[i].retired {
                    None
                } else {
                    Some(self.refs[i].txn_id.clone())
                }
            },
            None => None,
        }
    }

    /// Whether upstream record `upstream_id` of link `item_id` was ever
    /// taken in, retired rows included.
    pub fn has_upstream(&self, item_id: &str, upstream_id: &str) -> (r: bool)
        ensures
            r == has_ref(self@, item_id@, upstream_id@),
    {
        self.find_ref(item_id, upstream_id).is_some()
    }

    /// Whether a transaction has this ledger id.
    pub fn has_transaction(&self, id: &str) -> (r: bool)
        ensures
            r == has_txn(self@, id@),
    {
        self.find_txn(id).is_some()
    }

    /// Persists a transaction built from an upstream record of link
    /// `item_id`, with its postings and its mapping row, all or nothing.
    /// A record that the mapping already holds is refused as
    /// `AlreadyExists`; so is nothing else, so replays can be skipped.
    pub fn save_tx(&mut self, item_id: &str, entry: &TransactionEntry) -> (r: Result<(), StoreError>)
        requires
            wf(old(self)@),
        ensures
            wf(final(self)@),
            r == save_result(old(self)@, item_id@, entry@),
            final(self)@ == (if r is Ok {
                saved(old(self)@, item_id@, entry@)
            } else {
                old(self)@
            }),
    {
        if self.find_ref(item_id, entry.source.transaction_id.as_str()).is_some() {
            return Err(StoreError::AlreadyExists);
        }
        if !is_balanced(&entry.canonical) {
            return Err(StoreError::Unbalanced);
        }
        if self.find_txn(entry.canonical.id.as_str()).is_some() {
            return Err(StoreError::IdConflict);
        }
        let ghost v0 = self@;
        let rec = StoredTransaction {
            txn: entry.canonical.duplicate(),
            account_id: entry.source.account_id.clone(),
            source: entry.source.duplicate(),
        };
        let link = UpstreamRef {
            item_id: item_id.to_owned(),
            upstream_id: entry.source.transaction_id.clone(),
            txn_id: entry.canonical.id.clone(),
            retired: false,
        };
        self.txns.push(rec);
        self.refs.push(link);
        proof {
            let v1 = saved(v0, item_id@, entry@);
            lemma_saved_wf(v0, item_id@, entry@);
            assert(self@.txns =~= v1.txns);
            assert(self@.refs =~= v1.refs);
            assert(self@.links =~= v1.links);
            assert(self@.accounts =~= v1.accounts);
            assert(self@.institutions =~= v1.institutions);
        }
        Ok(())
    }

    /// Replaces the stored source record of ledger transaction `id`; the
    /// transaction and the mapping are left as they are. An unknown id
    /// changes nothing.
    pub fn update_source(&mut self, id: &str, source: RawTransaction) -> (r: bool)
        requires
            wf(old(self)@),
        ensures
            wf(final(self)@),
            r == has_txn(old(self)@, id@),
            final(self)@ == source_updated(old(self)@, id@, source@),
            !r ==> final(self)@ == old(self)@,
    {
        let ghost v0 = self@;
        match self.find_txn(id) {
            Some(i) => {
                proof {
                    lemma_txn_pos(v0, id@, i as int);
                }
                let mut rec = self.txns.remove(i);
                rec.source = source;
                self.txns.insert(i, rec);
                proof {
                    let v1 = source_updated(v0, id@, source@);
                    lemma_source_updated_wf(v0, id@, source@);
                    assert forall|k: int| 0 <= k < v1.txns.len() implies #[trigger] self@.txns[k] == v1.txns[k] by {
                        if k != i {
                            assert(v0.txns[k].txn.id != id@ || k == i) by {
                                if v0.txns[k].txn.id == id@ {
                                    lemma_txn_pos(v0, id@, k);
                                }
                            }
                        }
                    }
                    assert(self@.txns =~= v1.txns);
                    assert(self@.refs =~= v1.refs);
                    assert(self@.links =~= v1.links);
                    assert(self@.accounts =~= v1.accounts);
                    assert(self@.institutions =~= v1.institutions);
                }
                true
            },
            None => {
                proof {
                    let v1 = source_updated(v0, id@, source@);
                    assert forall|k: int| 0 <= k < v1.txns.len() implies #[trigger] v0.txns[k] == v1.txns[k] by {
                        assert(v0.txns[k].txn.id != id@);
                    }
                    assert(v0.txns =~= v1.txns);
                }
                false
            },
        }
    }

    /// Deletes ledger transaction `id` with its postings; answers whether
    /// there was one. Deleting an unknown id is no error.
    pub fn delete(&mut self, id: &str) -> (r: bool)
        requires
            wf(old(self)@),
        ensures
            wf(final(self)@),
            r == has_txn(old(self)@, id@),
            final(self)@ == deleted(old(self)@, id@),
    {
        let ghost v0 = self@;
        match self.find_txn(id) {
            Some(i) => {
                proof {
                    lemma_txn_pos(v0, id@, i as int);
                }
                let _gone = self.txns.remove(i);
                let key = id.to_owned();
                let mut kept: Vec<UpstreamRef> = Vec::new();
                let mut k: usize = 0;
                proof {
                    assert(refs_view(kept@) =~= unlinked(v0.refs.subrange(0, 0), id@));
                }
                while k < self.refs.len()
                    invariant
                        k <= self.refs@.len(),
                        key@ == id@,
                        refs_view(self.refs@) == v0.refs,
                        refs_view(kept@) == unlinked(v0.refs.subrange(0, k as int), id@),
                    decreases self.refs@.len() - k,
                {
                    let row = &self.refs[k];
                    proof {
                        assert(v0.refs[k as int] == row@);
                        assert(v0.refs.subrange(0, k + 1).drop_last() =~= v0.refs.subrange(0, k as int));
                    }
                    if !(row.txn_id == key) {
                        let ghost before = kept@;
                        kept.push(row.duplicate());
                        proof {
                            assert(refs_view(kept@) =~= refs_view(before).push(row@));
                        }
                    }
                    k = k + 1;
                }
                proof {
                    assert(v0.refs.subrange(0, v0.refs.len() as int) =~= v0.refs);
                }
                self.refs = kept;
                proof {
                    let v1 = deleted(v0, id@);
                    assert(self@.txns =~= v1.txns);
                    assert(self@.refs == v1.refs);
                    assert(self@.links =~= v1.links);
                    assert(self@.accounts =~= v1.accounts);
                    assert(self@.institutions =~= v1.institutions);
                    lemma_deleted_wf(v0, id@);
                }
                true
            },
            None => false,
        }
    }

    /// Lets the posted version `entry` of pending record `pending_id` take
    /// the place of the ledger transaction that record maps to, which keeps
    /// its id, all or nothing: the pending record's row is retired and the
    /// posted record maps to the same id. A posted record that the mapping
    /// already holds is refused as `AlreadyExists`; a pending record with no
    /// live row or no transaction as `NotFound`.
    pub fn supersede(&mut self, item_id: &str, pending_id: &str, entry: &TransactionEntry) -> (r: Result<(), StoreError>)
        requires
            wf(old(self)@),
        ensures
            wf(final(self)@),
            r == supersede_result(old(self)@, item_id@, pending_id@, entry@),
            final(self)@ == (if r is Ok {
                superseded(old(self)@, item_id@, pending_id@, entry@)
            } else {
                old(self)@
            }),
    {
        if self.find_ref(item_id, entry.source.transaction_id.as_str()).is_some() {
            return Err(StoreError::AlreadyExists);
        }
        if !is_balanced(&entry.canonical) {
            return Err(StoreError::Unbalanced);
        }
        let ghost v0 = self@;
        let j = match self.find_ref(item_id, pending_id) {
            Some(j) => j,
            None => {
                return Err(StoreError::NotFound);
            },
        };
        proof {
            lemma_ref_target(v0, item_id@, pending_id@, j as int);
            assert(v0.refs[j as int] == self.refs@[j as int]@);
        }
        if self.refs[j].retired {
            return Err(StoreError::NotFound);
        }
        let id = self.refs[j].txn_id.clone();
        let i = match self.find_txn(id.as_str()) {
            Some(i) => i,
            None => {
                return Err(StoreError::NotFound);
            },
        };
        proof {
            lemma_txn_pos(v0, id@, i as int);
        }
        let c = &entry.canonical;
        let txn = Transaction {
            id: id.clone(),
            status: c.status,
            date: c.date,
            payee: crate::ledger::duplicate_opt(&c.payee),
            narration: c.narration.clone(),
            postings: crate::ledger::duplicate_postings(&c.postings),
        };
        let rec = StoredTransaction {
            txn,
            account_id: entry.source.account_id.clone(),
            source: entry.source.duplicate(),
        };
        let _old_rec = self.txns.remove(i);
        self.txns.insert(i, rec);
        let mut row = self.refs.remove(j);
        row.retired = true;
        self.refs.insert(j, row);
        self.refs.push(
            UpstreamRef {
                item_id: item_id.to_owned(),
                upstream_id: entry.source.transaction_id.clone(),
                txn_id: id,
                retired: false,
            },
        );
        proof {
            let v1 = superseded(v0, item_id@, pending_id@, entry@);
            assert(self@.txns =~= v1.txns);
            assert(self@.refs =~= v1.refs);
            assert(self@.links =~= v1.links);
            assert(self@.accounts =~= v1.accounts);
            assert(self@.institutions =~= v1.institutions);
            lemma_superseded_wf(v0, item_id@, pending_id@, entry@);
        }
        Ok(())
    }

    /// All stored transactions, in the order they were saved.
    pub fn transactions(&self) -> (r: Vec<Transaction>)
        ensures
            r@.len() == self@.txns.len(),
            forall|i: int| 0 <= i < r@.len() ==> #[trigger] r@[i]@ == self@.txns[i].txn,
    {
        let mut out: Vec<Transaction> = Vec::new();
        let mut i: usize = 0;
        while i < self.txns.len()
            invariant
                i <= self.txns@.len(),
                out@.len() == i,
                forall|k: int| 0 <= k < i ==> #[trigger] out@[k]@ == self@.txns[k].txn,
            decreases self.txns@.len() - i,
        {
            out.push(self.txns[i].txn.duplicate());
            i = i + 1;
        }
        out
    }

    fn find_link(&self, item_id: &str) -> (r: Option<usize>)
        ensures
            r matches Some(i) ==> i < self@.links.len() && self@.links[i as int].item_id == item_id@,
            r is None ==> !has_link(self@, item_id@),
    {
        let key = item_id.to_owned();
        let mut i: usize = 0;
        while i < self.links.len()
            invariant
                i <= self.links@.len(),
                key@ == item_id@,
                forall|k: int| 0 <= k < i ==> #[trigger] self@.links[k].item_id != item_id@,
            decreases self.links@.len() - i,
        {
            let l = &self.links[i];
            proof {
                assert(self@.links[i as int] == l@);
            }
            if l.item_id == key {
                return Some(i);
            }
            i = i + 1;
        }
        None
    }

    /// The link with this item id.
    pub fn link(&self, item_id: &str) -> (r: Option<Link>)
        requires
            wf(self@),
        ensures
            has_link(self@, item_id@) <==> r is Some,
            r matches Some(l) ==> l@ == self@.links[link_pos(self@, item_id@)],
    {
        match self.find_link(item_id) {
            Some(i) => {
                proof {
                    lemma_link_pos(self@, item_id@, i as int);
                    assert(self@.links[i as int] == self.links@[i as int]@);
                }
                Some(self.links[i].duplicate())
            },
            None => None,
        }
    }

    /// All links, in the order they were saved.
    pub fn links(&self) -> (r: Vec<Link>)
        ensures
            r@.len() == self@.links.len(),
            forall|i: int| 0 <= i < r@.len() ==> #[trigger] r@[i]@ == self@.links[i],
    {
        let mut out: Vec<Link> = Vec::new();
        let mut i: usize = 0;
        while i < self.links.len()
            invariant
                i <= self.links@.len(),
                out@.len() == i,
                forall|k: int| 0 <= k < i ==> #[trigger] out@[k]@ == self@.links[k],
            decreases self.links@.len() - i,
        {
            out.push(self.links[i].duplicate());
            i = i + 1;
        }
        out
    }

    /// Stores a new link, which has not been synced yet: whatever cursor
    /// the given link carries, it is stored with none. One with the same
    /// item id is refused.
    pub fn save_link(&mut self, link: &Link) -> (r: Result<(), StoreError>)
        requires
            wf(old(self)@),
        ensures
            wf(final(self)@),
            r is Err <==> has_link(old(self)@, link@.item_id),
            r is Err ==> r == Err::<(), StoreError>(StoreError::AlreadyExists) && final(self)@ == old(self)@,
            r is Ok ==> final(self)@ == (StoreView {
                links: old(self)@.links.push(LinkView { sync_cursor: None, ..link@ }),
                ..old(self)@
            }),
    {
        if self.find_link(link.item_id.as_str()).is_some() {
            return Err(StoreError::AlreadyExists);
        }
        let ghost v0 = self@;
        let fresh = Link {
            alias: link.alias.clone(),
            access_token: link.access_token.clone(),
            item_id: link.item_id.clone(),
            state: link.state.duplicate(),
            sync_cursor: None,
            institution_id: crate::ledger::duplicate_opt(&link.institution_id),
        };
        self.links.push(fresh);
        proof {
            assert(self@.links =~= v0.links.push(LinkView { sync_cursor: None, ..link@ }));
            assert(self@.txns =~= v0.txns);
            assert(self@.refs =~= v0.refs);
            assert(self@.accounts =~= v0.accounts);
            assert(self@.institutions =~= v0.institutions);
        }
        Ok(())
    }

    /// Replaces the stored link that has the same item id.
    pub fn update_link(&mut self, link: &Link) -> (r: Result<(), StoreError>)
        requires
            wf(old(self)@),
        ensures
            wf(final(self)@),
            r is Err <==> !has_link(old(self)@, link@.item_id),
            r is Err ==> r == Err::<(), StoreError>(StoreError::NotFound) && final(self)@ == old(self)@,
            r is Ok ==> final(self)@ == link_replaced(old(self)@, link@),
    {
        let i = match self.find_link(link.item_id.as_str()) {
            Some(i) => i,
            None => {
                return Err(StoreError::NotFound);
            },
        };
        let ghost v0 = self@;
        proof {
            lemma_link_pos(v0, link@.item_id, i as int);
        }
        let _prev = self.links.remove(i);
        self.links.insert(i, link.duplicate());
        proof {
            assert(self@.links =~= link_replaced(v0, link@).links);
            assert(self@.txns =~= v0.txns);
            assert(self@.refs =~= v0.refs);
            assert(self@.accounts =~= v0.accounts);
            assert(self@.institutions =~= v0.institutions);
            assert forall|a: int, b: int| 0 <= a < b < self@.links.len() implies
                #[trigger] self@.links[a].item_id != #[trigger] self@.links[b].item_id by {
                assert(v0.links[a].item_id != v0.links[b].item_id);
            }
        }
        Ok(())
    }

    /// Removes the link with this item id and hands it back.
    pub fn delete_link(&mut self, item_id: &str) -> (r: Result<Link, StoreError>)
        requires
            wf(old(self)@),
        ensures
            wf(final(self)@),
            r is Err <==> !has_link(old(self)@, item_id@),
            r is Err ==> r == Err::<Link, StoreError>(StoreError::NotFound) && final(self)@ == old(self)@,
            r matches Ok(l) ==> l@ == old(self)@.links[link_pos(old(self)@, item_id@)] && final(self)@ == (
            StoreView { links: old(self)@.links.remove(link_pos(old(self)@, item_id@)), ..old(self)@ }),
    {
        let i = match self.find_link(item_id) {
            Some(i) => i,
            None => {
                return Err(StoreError::NotFound);
            },
        };
        let ghost v0 = self@;
        proof {
            lemma_link_pos(v0, item_id@, i as int);
        }
        let l = self.links.remove(i);
        proof {
            assert(self@.links =~= v0.links.remove(i as int));
            assert(self@.txns =~= v0.txns);
            assert(self@.refs =~= v0.refs);
            assert(self@.accounts =~= v0.accounts);
            assert(self@.institutions =~= v0.institutions);
            assert forall|a: int, b: int| 0 <= a < b < self@.links.len() implies
                #[trigger] self@.links[a].item_id != #[trigger] self@.links[b].item_id by {
                let a0 = if a < i { a } else { a + 1 };
                let b0 = if b < i { b } else { b + 1 };
                assert(v0.links[a0].item_id != v0.links[b0].item_id);
            }
        }
        Ok(l)
    }

    /// The item ids of the links a sync run visits, in stored order: the
    /// active ones. A degraded link is skipped until it is renewed.
    pub fn active_links(&self) -> (r: Vec<String>)
        ensures
            strings_view(r@) == active_ids(self@.links),
    {
        let mut out: Vec<String> = Vec::new();
        let mut i: usize = 0;
        proof {
            assert(strings_view(out@) =~= Seq::<Seq<char>>::empty());
        }
        while i < self.links.len()
            invariant
                i <= self.links@.len(),
                strings_view(out@) == active_ids(self@.links.subrange(0, i as int)),
            decreases self.links@.len() - i,
        {
            let l = &self.links[i];
            let ghost before = out@;
            proof {
                assert(self@.links[i as int] == l@);
                assert(self@.links.subrange(0, i + 1).drop_last() =~= self@.links.subrange(0, i as int));
            }
            if let LinkStatus::Active = l.state {
                out.push(l.item_id.clone());
                proof {
                    assert(strings_view(out@) =~= strings_view(before).push(l.item_id@));
                }
            }
            i = i + 1;
        }
        proof {
            assert(self@.links.subrange(0, self@.links.len() as int) =~= self@.links);
        }
        out
    }

    /// Ends the removal of link `item_id`. The local link is deleted only
    /// once the upstream has confirmed that its credential was revoked;
    /// otherwise nothing changes, so the credential is never left live
    /// upstream without a local record of it.
    pub fn finish_removal(&mut self, item_id: &str, revoked: bool) -> (r: Result<Option<Link>, StoreError>)
        requires
            wf(old(self)@),
        ensures
            wf(final(self)@),
            !revoked ==> r == Ok::<Option<Link>, StoreError>(None) && final(self)@ == old(self)@,
            revoked && !has_link(old(self)@, item_id@) ==> r == Err::<Option<Link>, StoreError>(StoreError::NotFound)
                && final(self)@ == old(self)@,
            revoked && has_link(old(self)@, item_id@) ==> (r matches Ok(Some(l)) && l@ == old(self)@.links[link_pos(
                old(self)@,
                item_id@,
            )]) && final(self)@ == (StoreView {
                links: old(self)@.links.remove(link_pos(old(self)@, item_id@)),
                ..old(self)@
            }),
    {
        if !revoked {
            return Ok(None);
        }
        match self.delete_link(item_id) {
            Ok(l) => Ok(Some(l)),
            Err(e) => Err(e),
        }
    }

    /// Records the cursor a sync pass of link `item_id` ended at. The link
    /// is written only when the cursor changed; the answer says whether it
    /// was.
    pub fn record_cursor(&mut self, item_id: &str, cursor: &str) -> (r: Result<bool, StoreError>)
        requires
            wf(old(self)@),
        ensures
            wf(final(self)@),
            final(self)@ == cursor_recorded(old(self)@, item_id@, cursor@),
            r == cursor_outcome(old(self)@, item_id@, cursor@),
    {
        let i = match self.find_link(item_id) {
            Some(i) => i,
            None => {
                return Err(StoreError::NotFound);
            },
        };
        let ghost v0 = self@;
        proof {
            lemma_link_pos(v0, item_id@, i as int);
            assert(v0.links[i as int] == self.links@[i as int]@);
        }
        let c = cursor.to_owned();
        let unchanged = match &self.links[i].sync_cursor {
            Some(prev) => *prev == c,
            None => false,
        };
        if unchanged {
            return Ok(false);
        }
        let mut l = self.links.remove(i);
        l.sync_cursor = Some(c);
        self.links.insert(i, l);
        proof {
            assert(self@.links =~= cursor_recorded(v0, item_id@, cursor@).links);
            assert(self@.txns =~= v0.txns);
            assert(self@.refs =~= v0.refs);
            assert(self@.accounts =~= v0.accounts);
            assert(self@.institutions =~= v0.institutions);
            assert forall|a: int, b: int| 0 <= a < b < self@.links.len() implies
                #[trigger] self@.links[a].item_id != #[trigger] self@.links[b].item_id by {
                assert(v0.links[a].item_id != v0.links[b].item_id);
            }
        }
        Ok(true)
    }
    /// Stores an account of link `item_id`; one with the same account id is
    /// refused.
    pub fn save_account(&mut self, item_id: &str, account: &Account) -> (r: Result<(), StoreError>)
        requires
            wf(old(self)@),
        ensures
            wf(final(self)@),
            r is Err <==> has_account(old(self)@, account@.0),
            r is Err ==> r == Err::<(), StoreError>(StoreError::AlreadyExists) && final(self)@ == old(self)@,
            r is Ok ==> final(self)@ == (StoreView {
                accounts: old(self)@.accounts.push((item_id@, account@)),
                ..old(self)@
            }),
    {
        if self.account_by_id(account.id.as_str()).is_some() {
            return Err(StoreError::AlreadyExists);
        }
        let ghost v0 = self@;
        self.accounts.push((item_id.to_owned(), account.duplicate()));
        proof {
            assert(self@.accounts =~= v0.accounts.push((item_id@, account@)));
            assert(self@.links =~= v0.links);
            assert(self@.txns =~= v0.txns);
            assert(self@.refs =~= v0.refs);
            assert(self@.institutions =~= v0.institutions);
        }
        Ok(())
    }

    /// Records an account of link `item_id` as the upstream reports it now:
    /// a new account is added, a known one is refreshed in place. Answers
    /// whether the account was new.
    pub fn observe_account(&mut self, item_id: &str, account: &Account) -> (r: bool)
        requires
            wf(old(self)@),
        ensures
            wf(final(self)@),
            r == !has_account(old(self)@, account@.0),
            final(self)@ == account_observed(old(self)@, item_id@, account@),
    {
        let ghost v0 = self@;
        let key = account.id.clone();
        let mut i: usize = 0;
        while i < self.accounts.len()
            invariant
                i <= self.accounts@.len(),
                self@ == v0,
                v0 == old(self)@,
                wf(v0),
                key@ == account@.0,
                forall|k: int| 0 <= k < i ==> #[trigger] v0.accounts[k].1.0 != account@.0,
            decreases self.accounts@.len() - i,
        {
            proof {
                assert(v0.accounts[i as int] == (self.accounts@[i as int].0@, self.accounts@[i as int].1@));
            }
            if self.accounts[i].1.id == key {
                proof {
                    lemma_account_pos(v0, account@.0, i as int);
                }
                let _prev = self.accounts.remove(i);
                self.accounts.insert(i, (item_id.to_owned(), account.duplicate()));
                proof {
                    let v1 = account_observed(v0, item_id@, account@);
                    assert(self@.accounts =~= v1.accounts);
                    assert(self@.links =~= v0.links);
                    assert(self@.txns =~= v0.txns);
                    assert(self@.refs =~= v0.refs);
                    assert(self@.institutions =~= v0.institutions);
                    assert forall|a: int, b: int| 0 <= a < b < self@.accounts.len() implies
                        #[trigger] self@.accounts[a].1.0 != #[trigger] self@.accounts[b].1.0 by {
                        assert(v0.accounts[a].1.0 != v0.accounts[b].1.0);
                    }
                }
                return false;
            }
            i = i + 1;
        }
        self.accounts.push((item_id.to_owned(), account.duplicate()));
        proof {
            let v1 = account_observed(v0, item_id@, account@);
            assert(self@.accounts =~= v1.accounts);
            assert(self@.links =~= v0.links);
            assert(self@.txns =~= v0.txns);
            assert(self@.refs =~= v0.refs);
            assert(self@.institutions =~= v0.institutions);
        }
        true
    }

    /// The account with this id.
    pub fn account_by_id(&self, id: &str) -> (r: Option<Account>)
        ensures
            has_account(self@, id@) <==> r is Some,
            r matches Some(a) ==> a@.0 == id@ && exists|i: int|
                0 <= i < self@.accounts.len() && #[trigger] self@.accounts[i].1 == a@,
    {
        let key = id.to_owned();
        let mut i: usize = 0;
        while i < self.accounts.len()
            invariant
                i <= self.accounts@.len(),
                key@ == id@,
                forall|k: int| 0 <= k < i ==> #[trigger] self@.accounts[k].1.0 != id@,
            decreases self.accounts@.len() - i,
        {
            let a = &self.accounts[i];
            proof {
                assert(self@.accounts[i as int] == (a.0@, a.1@));
            }
            if a.1.id == key {
                let found = a.1.duplicate();
                proof {
                    assert(self@.accounts[i as int].1.0 == id@);
                    assert(self@.accounts[i as int].1 == found@);
                }
                return Some(found);
            }
            i = i + 1;
        }
        None
    }

    /// The accounts of link `item_id`, in the order they were saved.
    pub fn accounts_by_item(&self, item_id: &str) -> (r: Vec<Account>)
        ensures
            accounts_view(r@) == accounts_of(self@.accounts, item_id@),
    {
        let key = item_id.to_owned();
        let mut out: Vec<Account> = Vec::new();
        let mut i: usize = 0;
        while i < self.accounts.len()
            invariant
                i <= self.accounts@.len(),
                key@ == item_id@,
                accounts_view(out@) == accounts_of(self@.accounts.subrange(0, i as int), item_id@),
            decreases self.accounts@.len() - i,
        {
            let a = &self.accounts[i];
            let ghost before = out@;
            proof {
                assert(self@.accounts[i as int] == (a.0@, a.1@));
                assert(self@.accounts.subrange(0, i + 1).drop_last() =~= self@.accounts.subrange(0, i as int));
            }
            if a.0 == key {
                out.push(a.1.duplicate());
                proof {
                    assert(accounts_view(out@) =~= accounts_view(before).push(a.1@));
                }
            }
            i = i + 1;
        }
        proof {
            assert(self@.accounts.subrange(0, self@.accounts.len() as int) =~= self@.accounts);
        }
        out
    }

    /// Stores an institution; one with the same id is refused.
    pub fn save_institution(&mut self, ins: &Institution) -> (r: Result<(), StoreError>)
        requires
            wf(old(self)@),
        ensures
            wf(final(self)@),
            r is Err <==> has_institution(old(self)@, ins@.0),
            r is Err ==> r == Err::<(), StoreError>(StoreError::AlreadyExists) && final(self)@ == old(self)@,
            r is Ok ==> final(self)@ == (StoreView {
                institutions: old(self)@.institutions.push(ins@),
                ..old(self)@
            }),
    {
        if self.institution_name(ins.id.as_str()).is_some() {
            return Err(StoreError::AlreadyExists);
        }
        let ghost v0 = self@;
        self.institutions.push(ins.duplicate());
        proof {
            assert(self@.institutions =~= v0.institutions.push(ins@));
            assert(self@.links =~= v0.links);
            assert(self@.txns =~= v0.txns);
            assert(self@.refs =~= v0.refs);
            assert(self@.accounts =~= v0.accounts);
        }
        Ok(())
    }

    /// The name of the institution with this id.
    pub fn institution_name(&self, id: &str) -> (r: Option<String>)
        ensures
            has_institution(self@, id@) <==> r is Some,
            r matches Some(n) ==> self@.institutions.contains((id@, n@)),
    {
        let key = id.to_owned();
        let mut i: usize = 0;
        while i < self.institutions.len()
            invariant
                i <= self.institutions@.len(),
                key@ == id@,
                forall|k: int| 0 <= k < i ==> #[trigger] self@.institutions[k].0 != id@,
            decreases self.institutions@.len() - i,
        {
            let ins = &self.institutions[i];
            proof {
                assert(self@.institutions[i as int] == ins@);
            }
            if ins.id == key {
                proof {
                    assert(self@.institutions[i as int].0 == id@);
                }
                return Some(ins.name.clone());
            }
            i = i + 1;
        }
        None
    }

    /// All institutions, in the order they were saved.
    pub fn institutions(&self) -> (r: Vec<Institution>)
        ensures
            r@.len() == self@.institutions.len(),
            forall|i: int| 0 <= i < r@.len() ==> #[trigger] r@[i]@ == self@.institutions[i],
    {
        let mut out: Vec<Institution> = Vec::new();
        let mut i: usize = 0;
        while i < self.institutions.len()
            invariant
                i <= self.institutions@.len(),
                out@.len() == i,
                forall|k: int| 0 <= k < i ==> #[trigger] out@[k]@ == self@.institutions[k],
            decreases self.institutions@.len() - i,
        {
            out.push(self.institutions[i].duplicate());
            i = i + 1;
        }
        out
    }
}

/// An account with this id is stored.
pub open spec fn has_account(v: StoreView, id: Seq<char>) -> bool {
    exists|i: int| 0 <= i < v.accounts.len() && #[trigger] v.accounts[i].1.0 == id
}

/// Position of the account with this id.
pub open spec fn account_pos(v: StoreView, id: Seq<char>) -> int {
    choose|i: int| 0 <= i < v.accounts.len() && #[trigger] v.accounts[i].1.0 == id
}

/// The store after an account of link `item` was observed: refreshed in
/// place when its id is known, added otherwise.
pub open spec fn account_observed(
    v: StoreView,
    item: Seq<char>,
    a: (Seq<char>, Seq<char>, crate::link::AccountClass),
) -> StoreView {
    if has_account(v, a.0) {
        StoreView { accounts: v.accounts.update(account_pos(v, a.0), (item, a)), ..v }
    } else {
        StoreView { accounts: v.accounts.push((item, a)), ..v }
    }
}

proof fn lemma_account_pos(v: StoreView, id: Seq<char>, i: int)
    requires
        wf(v),
        0 <= i < v.accounts.len(),
        v.accounts[i].1.0 == id,
    ensures
        has_account(v, id),
        account_pos(v, id) == i,
{
    let j = account_pos(v, id);
    if j < i {
        assert(v.accounts[j].1.0 != v.accounts[i].1.0);
    } else if i < j {
        assert(v.accounts[i].1.0 != v.accounts[j].1.0);
    }
}

/// An institution with this id is stored.
pub open spec fn has_institution(v: StoreView, id: Seq<char>) -> bool {
    exists|i: int| 0 <= i < v.institutions.len() && #[trigger] v.institutions[i].0 == id
}

pub open spec fn accounts_view(s: Seq<Account>) -> Seq<(Seq<char>, Seq<char>, crate::link::AccountClass)> {
    s.map_values(|a: Account| a@)
}

/// The accounts of one link, in stored order.
pub open spec fn accounts_of(
    s: Seq<(Seq<char>, (Seq<char>, Seq<char>, crate::link::AccountClass))>,
    item: Seq<char>,
) -> Seq<(Seq<char>, Seq<char>, crate::link::AccountClass)>
    decreases s.len(),
{
    if s.len() == 0 {
        Seq::empty()
    } else if s.last().0 == item {
        accounts_of(s.drop_last(), item).push(s.last().1)
    } else {
        accounts_of(s.drop_last(), item)
    }
}

pub open spec fn strings_view(s: Seq<String>) -> Seq<Seq<char>> {
    s.map_values(|x: String| x@)
}

/// The item ids of the active links, in order.
pub open spec fn active_ids(links: Seq<LinkView>) -> Seq<Seq<char>>
    decreases links.len(),
{
    if links.len() == 0 {
        Seq::empty()
    } else if links.last().state is Active {
        active_ids(links.drop_last()).push(links.last().item_id)
    } else {
        active_ids(links.drop_last())
    }
}

/// A link with this item id is stored.
pub open spec fn has_link(v: StoreView, item: Seq<char>) -> bool {
    exists|i: int| 0 <= i < v.links.len() && #[trigger] v.links[i].item_id == item
}

/// Position of the link with this item id.
pub open spec fn link_pos(v: StoreView, item: Seq<char>) -> int {
    choose|i: int| 0 <= i < v.links.len() && #[trigger] v.links[i].item_id == item
}

/// The store with the link of the same item id replaced.
pub open spec fn link_replaced(v: StoreView, l: LinkView) -> StoreView {
    StoreView { links: v.links.update(link_pos(v, l.item_id), l), ..v }
}

/// The store after a pass of link `item` ended at cursor `c`: the link's
/// cursor is `c`, and nothing else changed.
pub open spec fn cursor_recorded(v: StoreView, item: Seq<char>, c: Seq<char>) -> StoreView {
    if has_link(v, item) && v.links[link_pos(v, item)].sync_cursor != Some(c) {
        StoreView {
            links: v.links.update(
                link_pos(v, item),
                LinkView { sync_cursor: Some(c), ..v.links[link_pos(v, item)] },
            ),
            ..v
        }
    } else {
        v
    }
}

/// What recording a cursor answers: whether the link had to be written.
pub open spec fn cursor_outcome(v: StoreView, item: Seq<char>, c: Seq<char>) -> Result<bool, StoreError> {
    if !has_link(v, item) {
        Err(StoreError::NotFound)
    } else {
        Ok(v.links[link_pos(v, item)].sync_cursor != Some(c))
    }
}

proof fn lemma_link_pos(v: StoreView, item: Seq<char>, i: int)
    requires
        wf(v),
        0 <= i < v.links.len(),
        v.links[i].item_id == item,
    ensures
        has_link(v, item),
        link_pos(v, item) == i,
{
    let j = link_pos(v, item);
    if j < i {
        assert(v.links[j].item_id != v.links[i].item_id);
    } else if i < j {
        assert(v.links[i].item_id != v.links[j].item_id);
    }
}

/// Saving keeps the store's invariant.
pub proof fn lemma_saved_wf(v: StoreView, item: Seq<char>, e: EntryView)
    requires
        wf(v),
        save_result(v, item, e) is Ok,
    ensures
        wf(saved(v, item, e)),
{
    let w = saved(v, item, e);
    assert forall|i: int, j: int| 0 <= i < j < w.txns.len() implies
        #[trigger] w.txns[i].txn.id != #[trigger] w.txns[j].txn.id by {
        if j == v.txns.len() {
            assert(v.txns[i].txn.id != e.canonical.id);
        }
    }
    assert forall|i: int, j: int| 0 <= i < j < w.refs.len() implies !(#[trigger] w.refs[i].item_id
        == #[trigger] w.refs[j].item_id && w.refs[i].upstream_id == w.refs[j].upstream_id) by {
        if j == v.refs.len() {
            assert(!(v.refs[i].item_id == item && v.refs[i].upstream_id == e.source.transaction_id));
        }
    }
    assert forall|k: int| 0 <= k < w.refs.len() implies has_txn(w, #[trigger] w.refs[k].txn_id) by {
        if k < v.refs.len() {
            assert(has_txn(v, v.refs[k].txn_id));
            let t = choose|t: int| 0 <= t < v.txns.len() && #[trigger] v.txns[t].txn.id == v.refs[k].txn_id;
            assert(w.txns[t] == v.txns[t]);
        } else {
            assert(w.txns[v.txns.len() as int].txn.id == e.canonical.id);
        }
    }
}

/// Superseding keeps the store's invariant.
pub proof fn lemma_superseded_wf(v: StoreView, item: Seq<char>, pending: Seq<char>, e: EntryView)
    requires
        wf(v),
        supersede_result(v, item, pending, e) is Ok,
    ensures
        wf(superseded(v, item, pending, e)),
{
    let w = superseded(v, item, pending, e);
    let id = ref_target(v, item, pending)->Some_0;
    let p = txn_pos(v, id);
    let q = ref_pos(v, item, pending);
    assert(with_id(e.canonical, id).postings == e.canonical.postings);
    assert forall|i: int, j: int| 0 <= i < j < w.txns.len() implies
        #[trigger] w.txns[i].txn.id != #[trigger] w.txns[j].txn.id by {
        assert(v.txns[i].txn.id != v.txns[j].txn.id);
    }
    assert forall|i: int| 0 <= i < w.txns.len() implies balanced(#[trigger] w.txns[i].txn) by {
        if i != p {
            assert(balanced(v.txns[i].txn));
        }
    }
    assert forall|i: int, j: int| 0 <= i < j < w.refs.len() implies !(#[trigger] w.refs[i].item_id
        == #[trigger] w.refs[j].item_id && w.refs[i].upstream_id == w.refs[j].upstream_id) by {
        if j == v.refs.len() {
            assert(w.refs[i].item_id == v.refs[i].item_id && w.refs[i].upstream_id == v.refs[i].upstream_id);
            assert(!(v.refs[i].item_id == item && v.refs[i].upstream_id == e.source.transaction_id));
        } else {
            assert(!(v.refs[i].item_id == v.refs[j].item_id && v.refs[i].upstream_id == v.refs[j].upstream_id));
        }
    }
    assert forall|k: int| 0 <= k < w.txns.len() implies #[trigger] w.txns[k].txn.id == v.txns[k].txn.id by {
        if k == p {
            assert(v.txns[p].txn.id == id);
        }
    }
    assert forall|k: int| 0 <= k < w.refs.len() implies has_txn(w, #[trigger] w.refs[k].txn_id) by {
        let x = if k < v.refs.len() { v.refs[k].txn_id } else { id };
        assert(w.refs[k].txn_id == x);
        if k < v.refs.len() {
            assert(has_txn(v, v.refs[k].txn_id));
        }
        assert(has_txn(v, x));
        let t = choose|t: int| 0 <= t < v.txns.len() && #[trigger] v.txns[t].txn.id == x;
        assert(w.txns[t].txn.id == x);
    }
}

/// Replacing a source record keeps the store's invariant.
pub proof fn lemma_source_updated_wf(v: StoreView, id: Seq<char>, src: RawView)
    requires
        wf(v),
    ensures
        wf(source_updated(v, id, src)),
{
    let w = source_updated(v, id, src);
    assert forall|i: int, j: int| 0 <= i < j < w.txns.len() implies
        #[trigger] w.txns[i].txn.id != #[trigger] w.txns[j].txn.id by {
        assert(v.txns[i].txn.id != v.txns[j].txn.id);
    }
    assert forall|i: int| 0 <= i < w.txns.len() implies balanced(#[trigger] w.txns[i].txn) by {
        assert(balanced(v.txns[i].txn));
    }
    assert forall|k: int| 0 <= k < w.refs.len() implies has_txn(w, #[trigger] w.refs[k].txn_id) by {
        assert(has_txn(v, v.refs[k].txn_id));
        let t = choose|t: int| 0 <= t < v.txns.len() && #[trigger] v.txns[t].txn.id == v.refs[k].txn_id;
        assert(w.txns[t].txn.id == v.txns[t].txn.id);
    }
}

/// Deleting keeps the store's invariant.
pub proof fn lemma_deleted_wf(v: StoreView, id: Seq<char>)
    requires
        wf(v),
    ensures
        wf(deleted(v, id)),
{
    if has_txn(v, id) {
        let w = deleted(v, id);
        let p = txn_pos(v, id);
        assert forall|a: int, b: int| 0 <= a < b < w.txns.len() implies
            #[trigger] w.txns[a].txn.id != #[trigger] w.txns[b].txn.id by {
            let a0 = if a < p { a } else { a + 1 };
            let b0 = if b < p { b } else { b + 1 };
            assert(v.txns[a0].txn.id != v.txns[b0].txn.id);
        }
        assert forall|a: int| 0 <= a < w.txns.len() implies balanced(#[trigger] w.txns[a].txn) by {
            let a0 = if a < p { a } else { a + 1 };
            assert(balanced(v.txns[a0].txn));
        }
        lemma_unlinked(v.refs, id);
        assert(refs_unique(v.refs));
        assert(refs_unique(w.refs));
        assert forall|k: int| 0 <= k < w.refs.len() implies has_txn(w, #[trigger] w.refs[k].txn_id) by {
            let j = choose|j: int| 0 <= j < v.refs.len() && v.refs[j] == w.refs[k];
            assert(has_txn(v, v.refs[j].txn_id));
            let t = choose|t: int| 0 <= t < v.txns.len() && #[trigger] v.txns[t].txn.id == v.refs[j].txn_id;
            assert(t != p);
            let t1 = if t < p { t } else { t - 1 };
            assert(w.txns[t1] == v.txns[t]);
        }
    }
}

/// Saving the same upstream record of a link twice persists exactly one
/// transaction: the second save is refused as `AlreadyExists` and leaves
/// the store as the first one left it.
pub proof fn save_twice_keeps_one(v: StoreView, item: Seq<char>, e: EntryView)
    requires
        wf(v),
        save_result(v, item, e) is Ok,
    ensures
        saved(v, item, e).txns.len() == v.txns.len() + 1,
        save_result(saved(v, item, e), item, e) == Err::<(), StoreError>(StoreError::AlreadyExists),
{
    let w = saved(v, item, e);
    assert(w.refs[v.refs.len() as int].item_id == item);
    assert(has_ref(w, item, e.source.transaction_id));
}

/// Every persisted transaction balances: it has at least two postings in
/// one currency, and their amounts sum to zero.
pub proof fn persisted_transactions_balance(v: StoreView)
    requires
        wf(v),
    ensures
        forall|i: int| 0 <= i < v.txns.len() ==> balanced(#[trigger] v.txns[i].txn),
{
}

} // verus!
