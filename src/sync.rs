use vstd::prelude::*;
use crate::ledger::balanced;
use crate::link::LinkStatus;
use crate::store::{
    lemma_deleted_wf, lemma_ref_target, lemma_saved_wf, lemma_source_updated_wf, lemma_superseded_wf,
    link_pos, has_ref, txn_pos, cursor_recorded, deleted, has_link, has_txn, ref_target, save_result, saved, source_updated,
    superseded, supersede_result, wf, LedgerStore, StoreError, StoreView,
};
use crate::upstream::{
    collect_events, ends_with_cursor, first_record_error, items_view, lemma_convertible_has_no_error, events_follow, events_view, ChangeEvent, ChangeEventView, EntryView, StreamItem,
    UpstreamError,
};

verus! {

/// Why a sync pass of a link failed. The link's cursor is then left where
/// it was, so the next pass asks for the same changes again.
#[derive(Debug, Clone, Copy, PartialEq, Eq, Structural)]
pub enum SyncError {
    /// A modification arrived for an upstream record the ledger never took in.
    ModifiedWithoutBase,
    /// The store refused a write.
    Store(StoreError),
    /// The change feed could not be taken in.
    Upstream(UpstreamError),
    /// No link has this item id.
    UnknownLink,
    /// The link is degraded: its credential must be renewed before it is
    /// synced again.
    LinkDegraded,
}

/// What one event did to the ledger.
#[derive(Debug, Clone, Copy, PartialEq, Eq, Structural)]
pub enum Applied {
    Added,
    Modified,
    Removed,
    /// Nothing to do: a replayed addition, or a removal of a record the
    /// ledger does not hold.
    Unchanged,
}

/// Counts of what a sync pass did.
#[derive(Debug, Clone, Copy, PartialEq, Eq, Structural)]
pub struct Tally {
    pub added: usize,
    pub modified: usize,
    pub removed: usize,
}

/// The link is stored and active.
pub open spec fn link_active(v: StoreView, item: Seq<char>) -> bool {
    has_link(v, item) && v.links[link_pos(v, item)].state is Active
}

/// The link is stored and degraded.
pub open spec fn link_degraded(v: StoreView, item: Seq<char>) -> bool {
    has_link(v, item) && v.links[link_pos(v, item)].state is Degraded
}

/// The tally after one more event.
pub open spec fn bumped(t: (int, int, int), a: Applied) -> (int, int, int) {
    match a {
        Applied::Added => (t.0 + 1, t.1, t.2),
        Applied::Modified => (t.0, t.1 + 1, t.2),
        Applied::Removed => (t.0, t.1, t.2 + 1),
        Applied::Unchanged => t,
    }
}

/// Replaying an addition that was applied once changes nothing: the second
/// application finds the record in the mapping and reports it unchanged.
pub proof fn replayed_addition_is_skipped(v: StoreView, item: Seq<char>, e: EntryView)
    requires
        wf(v),
        step(v, item, ChangeEventView::Added(e)).1 is Ok,
    ensures
        ({
            let w = step(v, item, ChangeEventView::Added(e)).0;
            step(w, item, ChangeEventView::Added(e)) == (w, Ok::<Applied, SyncError>(Applied::Unchanged))
        }),
{
    let w = step(v, item, ChangeEventView::Added(e)).0;
    if step(v, item, ChangeEventView::Added(e)).1 == Ok::<Applied, SyncError>(Applied::Added) {
        assert(w.refs[v.refs.len() as int].item_id == item);
        assert(w.refs[v.refs.len() as int].upstream_id == e.source.transaction_id);
        assert(has_ref(w, item, e.source.transaction_id));
    }
}

/// A modification whose upstream record the mapping does not hold fails
/// the pass and leaves the store as it was: no transaction is made up for it.
pub proof fn modified_without_base_fails(v: StoreView, item: Seq<char>, e: EntryView)
    requires
        !has_ref(v, item, e.source.transaction_id),
    ensures
        step(v, item, ChangeEventView::Modified(e)) == (v, Err::<Applied, SyncError>(SyncError::ModifiedWithoutBase)),
{
}

/// A pending record taken in, then its posted version that names it as its
/// pending predecessor: the posted version takes the pending one's place
/// under the same ledger id, and no second transaction is booked. The
/// pending record stays known, so replaying it changes nothing, and a later
/// removal of it leaves the posted transaction alone.
pub proof fn posted_takes_pending_place(v: StoreView, item: Seq<char>, pending: EntryView, posted: EntryView)
    requires
        wf(v),
        pending.source.pending,
        step(v, item, ChangeEventView::Added(pending)).1 == Ok::<Applied, SyncError>(Applied::Added),
        !posted.source.pending,
        posted.source.pending_transaction_id == Some(pending.source.transaction_id),
        posted.source.transaction_id != pending.source.transaction_id,
        !has_ref(v, item, posted.source.transaction_id),
        balanced(posted.canonical),
    ensures
        ({
            let w1 = step(v, item, ChangeEventView::Added(pending)).0;
            let (w2, r) = step(w1, item, ChangeEventView::Added(posted));
            &&& r == Ok::<Applied, SyncError>(Applied::Added)
            &&& w2.txns.len() == w1.txns.len()
            &&& w1.txns.len() == v.txns.len() + 1
            &&& ref_target(w2, item, posted.source.transaction_id) == Some(pending.canonical.id)
            &&& has_txn(w2, pending.canonical.id)
            &&& has_ref(w2, item, pending.source.transaction_id)
            &&& step(w2, item, ChangeEventView::Removed(pending.source.transaction_id)) == (w2, Ok::<Applied, SyncError>(Applied::Unchanged))
        }),
{
    let w1 = saved(v, item, pending);
    lemma_saved_wf(v, item, pending);
    let last = v.refs.len() as int;
    let p = pending.source.transaction_id;
    let id = pending.canonical.id;
    assert(w1.refs[last].item_id == item && w1.refs[last].upstream_id == p);
    lemma_ref_target(w1, item, p, last);
    assert(w1.txns[v.txns.len() as int].txn.id == id);
    assert(has_txn(w1, id));
    assert(predecessor(w1, item, posted) == Some(p));
    assert(!has_ref(w1, item, posted.source.transaction_id)) by {
        if has_ref(w1, item, posted.source.transaction_id) {
            let k = choose|k: int| 0 <= k < w1.refs.len() && #[trigger] w1.refs[k].item_id == item
                && w1.refs[k].upstream_id == posted.source.transaction_id;
            if k < last {
                assert(v.refs[k].item_id == item);
            }
        }
    }
    assert(supersede_result(w1, item, p, posted) is Ok);
    lemma_superseded_wf(w1, item, p, posted);
    let w2 = superseded(w1, item, p, posted);
    let last2 = w1.refs.len() as int;
    assert(w2.refs[last2].item_id == item && w2.refs[last2].upstream_id == posted.source.transaction_id);
    lemma_ref_target(w2, item, posted.source.transaction_id, last2);
    assert(w2.refs[last].item_id == item && w2.refs[last].upstream_id == p);
    lemma_ref_target(w2, item, p, last);
    let tp = txn_pos(w1, id);
    assert(w2.txns[tp].txn.id == id);
    assert(has_txn(w2, id));
}

/// Within a pass, a modification whose upstream record has no mapping row
/// when it is reached fails the pass there: the store is as the events
/// before it left it, and nothing is made up for the modification.
pub proof fn pass_fails_at_unbased_modification(v: StoreView, item: Seq<char>, evs: Seq<ChangeEventView>, k: int)
    requires
        0 <= k < evs.len(),
        run(v, item, evs.subrange(0, k)).1 is Ok,
        evs[k] is Modified,
        !has_ref(run(v, item, evs.subrange(0, k)).0, item, evs[k]->Modified_0.source.transaction_id),
    ensures
        run(v, item, evs) == (run(v, item, evs.subrange(0, k)).0, Err::<(int, int, int), SyncError>(
            SyncError::ModifiedWithoutBase,
        )),
{
    assert(evs.subrange(0, k + 1).drop_last() =~= evs.subrange(0, k));
    assert(evs.subrange(0, k + 1).last() == evs[k]);
    lemma_run_stops(v, item, evs, k + 1);
}

/// Within a pass, a removal of an upstream id the mapping does not hold
/// when it is reached is tolerated: the store and the tally stay as they
/// were.
pub proof fn pass_tolerates_unknown_removal(v: StoreView, item: Seq<char>, evs: Seq<ChangeEventView>, k: int)
    requires
        0 <= k < evs.len(),
        evs[k] is Removed,
        !has_ref(run(v, item, evs.subrange(0, k)).0, item, evs[k]->Removed_0),
    ensures
        run(v, item, evs.subrange(0, k + 1)) == run(v, item, evs.subrange(0, k)),
{
    assert(evs.subrange(0, k + 1).drop_last() =~= evs.subrange(0, k));
    assert(evs.subrange(0, k + 1).last() == evs[k]);
}

/// Within a pass, the posted version of a pending record whose transaction
/// the ledger holds when it is reached takes that transaction's place: the
/// number of transactions does not grow and the posted record maps to the
/// pending one's ledger id.
pub proof fn pass_keeps_pending_id(v: StoreView, item: Seq<char>, evs: Seq<ChangeEventView>, k: int)
    requires
        wf(v),
        0 <= k < evs.len(),
        run(v, item, evs.subrange(0, k)).1 is Ok,
        evs[k] is Added,
        ({
            let w = run(v, item, evs.subrange(0, k)).0;
            let e = evs[k]->Added_0;
            &&& !e.source.pending
            &&& e.source.pending_transaction_id is Some
            &&& ref_target(w, item, e.source.pending_transaction_id->Some_0) is Some
            &&& has_txn(w, ref_target(w, item, e.source.pending_transaction_id->Some_0)->Some_0)
            &&& !has_ref(w, item, e.source.transaction_id)
            &&& balanced(e.canonical)
        }),
    ensures
        ({
            let w = run(v, item, evs.subrange(0, k)).0;
            let e = evs[k]->Added_0;
            let id = ref_target(w, item, e.source.pending_transaction_id->Some_0)->Some_0;
            let u = run(v, item, evs.subrange(0, k + 1));
            &&& u.1 is Ok
            &&& u.0.txns.len() == w.txns.len()
            &&& ref_target(u.0, item, e.source.transaction_id) == Some(id)
            &&& has_txn(u.0, id)
        }),
{
    let w = run(v, item, evs.subrange(0, k)).0;
    let e = evs[k]->Added_0;
    let p = e.source.pending_transaction_id->Some_0;
    let id = ref_target(w, item, p)->Some_0;
    lemma_run_wf(v, item, evs.subrange(0, k));
    assert(evs.subrange(0, k + 1).drop_last() =~= evs.subrange(0, k));
    assert(evs.subrange(0, k + 1).last() == evs[k]);
    assert(predecessor(w, item, e) == Some(p));
    assert(supersede_result(w, item, p, e) is Ok);
    lemma_superseded_wf(w, item, p, e);
    let w2 = superseded(w, item, p, e);
    let last = w.refs.len() as int;
    assert(w2.refs[last].item_id == item && w2.refs[last].upstream_id == e.source.transaction_id);
    lemma_ref_target(w2, item, e.source.transaction_id, last);
    let tp = txn_pos(w, id);
    assert(w2.txns[tp].txn.id == id);
}

/// After a pass whose events were all applied, the link's stored cursor is
/// the one the feed ended with; a failed pass leaves every link, and so
/// every cursor, as it was.
pub proof fn pass_moves_cursor_only_on_success(v: StoreView, item: Seq<char>, evs: Seq<ChangeEventView>, c: Seq<char>)
    requires
        wf(v),
        has_link(v, item),
    ensures
        run(v, item, evs).1 is Ok ==> ({
            let w = cursor_recorded(run(v, item, evs).0, item, c);
            has_link(w, item) && w.links[link_pos(w, item)].sync_cursor == Some(c)
        }),
        run(v, item, evs).1 is Err ==> run(v, item, evs).0.links == v.links,
{
    lemma_run_keeps_links(v, item, evs);
    lemma_run_wf(v, item, evs);
    let u = run(v, item, evs).0;
    let p = link_pos(u, item);
    let w = cursor_recorded(u, item, c);
    if run(v, item, evs).1 is Ok {
        assert(u.links[p].item_id == item);
        if u.links[p].sync_cursor != Some(c) {
            assert(w.links[p].item_id == item);
            assert forall|a: int, b: int| 0 <= a < b < w.links.len() implies
                #[trigger] w.links[a].item_id != #[trigger] w.links[b].item_id by {
                assert(u.links[a].item_id != u.links[b].item_id);
            }
            assert(link_pos(w, item) == p) by {
                let q = link_pos(w, item);
                if q != p {
                    if q < p {
                        assert(w.links[q].item_id != w.links[p].item_id);
                    } else {
                        assert(w.links[p].item_id != w.links[q].item_id);
                    }
                }
            }
        }
    }
}

pub open spec fn tally_view(t: Tally) -> (int, int, int) {
    (t.added as int, t.modified as int, t.removed as int)
}

/// The ledger transaction that a posted record replaces: the one its
/// pending predecessor was taken in as, if any.
pub open spec fn predecessor(v: StoreView, item: Seq<char>, e: EntryView) -> Option<Seq<char>> {
    if !e.source.pending && e.source.pending_transaction_id is Some {
        let p = e.source.pending_transaction_id->Some_0;
        match ref_target(v, item, p) {
            Some(id) => if has_txn(v, id) {
                Some(p)
            } else {
                None
            },
            None => None,
        }
    } else {
        None
    }
}

/// One event of link `item` applied to the store.
///
/// - An addition is saved. When it is the posted version of a pending
///   record whose transaction the ledger still holds, it takes that
///   transaction's place under the same ledger id instead, so the same
///   payment is never booked twice; the pending record's row is retired. A
///   replayed addition changes nothing.
/// - A modification replaces the stored source record of the transaction
///   its upstream id maps to. With no mapping row at all the pass fails;
///   a retired row, or one whose transaction was removed, changes nothing.
/// - A removal deletes the transaction its upstream id maps to, with
///   every mapping row that names it, so a later addition of the same
///   record is taken in anew; an unknown id, or a retired row, changes
///   nothing.
pub open spec fn step(v: StoreView, item: Seq<char>, ev: ChangeEventView) -> (StoreView, Result<Applied, SyncError>) {
    match ev {
        ChangeEventView::Added(e) => {
            let r = match predecessor(v, item, e) {
                Some(id) => supersede_result(v, item, id, e),
                None => save_result(v, item, e),
            };
            let w = match predecessor(v, item, e) {
                Some(id) => superseded(v, item, id, e),
                None => saved(v, item, e),
            };
            match r {
                Ok(_) => (w, Ok(Applied::Added)),
                Err(StoreError::AlreadyExists) => (v, Ok(Applied::Unchanged)),
                Err(x) => (v, Err(SyncError::Store(x))),
            }
        },
        ChangeEventView::Modified(e) => if !has_ref(v, item, e.source.transaction_id) {
            (v, Err(SyncError::ModifiedWithoutBase))
        } else {
            match ref_target(v, item, e.source.transaction_id) {
                Some(id) => if has_txn(v, id) {
                    (source_updated(v, id, e.source), Ok(Applied::Modified))
                } else {
                    (v, Ok(Applied::Unchanged))
                },
                None => (v, Ok(Applied::Unchanged)),
            }
        },
        ChangeEventView::Removed(up) => match ref_target(v, item, up) {
            None => (v, Ok(Applied::Unchanged)),
            Some(id) => if has_txn(v, id) {
                (deleted(v, id), Ok(Applied::Removed))
            } else {
                (v, Ok(Applied::Unchanged))
            },
        },
    }
}

/// The events of link `item` applied in order, stopping at the first
/// failure, with the tally of what was done.
pub open spec fn run(v: StoreView, item: Seq<char>, evs: Seq<ChangeEventView>) -> (StoreView, Result<(int, int, int), SyncError>)
    decreases evs.len(),
{
    if evs.len() == 0 {
        (v, Ok((0, 0, 0)))
    } else {
        let (w, r) = run(v, item, evs.drop_last());
        match r {
            Err(e) => (w, Err(e)),
            Ok(t) => {
                let (w2, s) = step(w, item, evs.last());
                match s {
                    Err(e) => (w2, Err(e)),
                    Ok(a) => (w2, Ok(bumped(t, a))),
                }
            },
        }
    }
}

/// Once a run has failed, later events change nothing.
proof fn lemma_run_stops(v: StoreView, item: Seq<char>, evs: Seq<ChangeEventView>, k: int)
    requires
        0 <= k <= evs.len(),
        run(v, item, evs.subrange(0, k)).1 is Err,
    ensures
        run(v, item, evs) == run(v, item, evs.subrange(0, k)),
    decreases evs.len() - k,
{
    if k < evs.len() {
        assert(evs.subrange(0, k + 1).drop_last() =~= evs.subrange(0, k));
        lemma_run_stops(v, item, evs, k + 1);
    } else {
        assert(evs.subrange(0, k) =~= evs);
    }
}

/// A run counts at most one thing per event.
proof fn lemma_run_counts(v: StoreView, item: Seq<char>, evs: Seq<ChangeEventView>)
    ensures
        run(v, item, evs).1 matches Ok(t) ==> 0 <= t.0 && 0 <= t.1 && 0 <= t.2 && t.0 + t.1 + t.2
            <= evs.len(),
    decreases evs.len(),
{
    if evs.len() > 0 {
        lemma_run_counts(v, item, evs.drop_last());
    }
}

/// A run keeps the store's invariant.
proof fn lemma_run_wf(v: StoreView, item: Seq<char>, evs: Seq<ChangeEventView>)
    requires
        wf(v),
    ensures
        wf(run(v, item, evs).0),
    decreases evs.len(),
{
    if evs.len() > 0 {
        lemma_run_wf(v, item, evs.drop_last());
        let w = run(v, item, evs.drop_last()).0;
        if run(v, item, evs.drop_last()).1 is Ok {
            lemma_step_wf(w, item, evs.last());
        }
    }
}

/// A step keeps the store's invariant.
proof fn lemma_step_wf(v: StoreView, item: Seq<char>, ev: ChangeEventView)
    requires
        wf(v),
    ensures
        wf(step(v, item, ev).0),
{
    match ev {
        ChangeEventView::Added(e) => {
            match predecessor(v, item, e) {
                Some(id) => if supersede_result(v, item, id, e) is Ok {
                    lemma_superseded_wf(v, item, id, e);
                },
                None => if save_result(v, item, e) is Ok {
                    lemma_saved_wf(v, item, e);
                },
            }
        },
        ChangeEventView::Modified(e) => {
            if let Some(id) = ref_target(v, item, e.source.transaction_id) {
                lemma_source_updated_wf(v, id, e.source);
            }
        },
        ChangeEventView::Removed(up) => {
            if let Some(id) = ref_target(v, item, up) {
                if has_txn(v, id) {
                    lemma_deleted_wf(v, id);
                }
            }
        },
    }
}

/// A run fails only on a missing base or a refused write.
proof fn lemma_run_errors(v: StoreView, item: Seq<char>, evs: Seq<ChangeEventView>)
    ensures
        run(v, item, evs).1 matches Err(e) ==> (e is ModifiedWithoutBase || e is Store),
    decreases evs.len(),
{
    if evs.len() > 0 {
        lemma_run_errors(v, item, evs.drop_last());
    }
}

/// A run touches transactions and the mapping only, never the links.
proof fn lemma_run_keeps_links(v: StoreView, item: Seq<char>, evs: Seq<ChangeEventView>)
    ensures
        run(v, item, evs).0.links == v.links,
    decreases evs.len(),
{
    if evs.len() > 0 {
        lemma_run_keeps_links(v, item, evs.drop_last());
    }
}

impl LedgerStore {
    /// Applies one change event of link `item_id`.
    pub fn apply_event(&mut self, item_id: &str, ev: &ChangeEvent) -> (r: Result<Applied, SyncError>)
        requires
            wf(old(self)@),
        ensures
            wf(final(self)@),
            (final(self)@, r) == step(old(self)@, item_id@, ev@),
    {
        match ev {
            ChangeEvent::Added(e) => {
                let mut pred: Option<&str> = None;
                if !e.source.pending {
                    if let Some(p) = &e.source.pending_transaction_id {
                        if let Some(id) = self.by_upstream_id(item_id, p.as_str()) {
                            if self.has_transaction(id.as_str()) {
                                pred = Some(p.as_str());
                            }
                        }
                    }
                }
                proof {
                    match pred {
                        Some(pp) => assert(predecessor(self@, item_id@, e@) == Some(pp@)),
                        None => assert(predecessor(self@, item_id@, e@) is None),
                    }
                }
                let r = match pred {
                    Some(p) => self.supersede(item_id, p, e),
                    None => self.save_tx(item_id, e),
                };
                match r {
                    Ok(()) => Ok(Applied::Added),
                    Err(StoreError::AlreadyExists) => Ok(Applied::Unchanged),
                    Err(x) => Err(SyncError::Store(x)),
                }
            },
            ChangeEvent::Modified(e) => {
                if !self.has_upstream(item_id, e.source.transaction_id.as_str()) {
                    return Err(SyncError::ModifiedWithoutBase);
                }
                match self.by_upstream_id(item_id, e.source.transaction_id.as_str()) {
                    None => Ok(Applied::Unchanged),
                    Some(id) => {
                        if self.update_source(id.as_str(), e.source.duplicate()) {
                            Ok(Applied::Modified)
                        } else {
                            Ok(Applied::Unchanged)
                        }
                    },
                }
            },
            ChangeEvent::Removed(up) => {
                match self.by_upstream_id(item_id, up.as_str()) {
                    None => Ok(Applied::Unchanged),
                    Some(id) => {
                        if self.delete(id.as_str()) {
                            Ok(Applied::Removed)
                        } else {
                            Ok(Applied::Unchanged)
                        }
                    },
                }
            },
        }
    }

    /// Applies the events of one pull of link `item_id` in arrival order,
    /// and counts what was added, modified and removed. The first failure
    /// ends the pass; the events before it stay applied, which is safe
    /// because a repeated pass skips what is already there.
    pub fn apply(&mut self, item_id: &str, events: &Vec<ChangeEvent>) -> (r: Result<Tally, SyncError>)
        requires
            wf(old(self)@),
        ensures
            wf(final(self)@),
            final(self)@ == run(old(self)@, item_id@, events_view(events@)).0,
            match r {
                Ok(t) => run(old(self)@, item_id@, events_view(events@)).1 == Ok::<
                    (int, int, int),
                    SyncError,
                >(tally_view(t)),
                Err(e) => run(old(self)@, item_id@, events_view(events@)).1 == Err::<
                    (int, int, int),
                    SyncError,
                >(e),
            },
    {
        let ghost v0 = self@;
        let ghost evs = events_view(events@);
        let mut tally = Tally { added: 0, modified: 0, removed: 0 };
        let mut i: usize = 0;
        while i < events.len()
            invariant
                wf(self@),
                v0 == old(self)@,
                evs == events_view(events@),
                i <= events@.len(),
                run(v0, item_id@, evs.subrange(0, i as int)) == (self@, Ok::<(int, int, int), SyncError>(tally_view(tally))),
            decreases events@.len() - i,
        {
            proof {
                assert(evs.subrange(0, i + 1).drop_last() =~= evs.subrange(0, i as int));
                assert(evs.subrange(0, i + 1).last() == events@[i as int]@);
                lemma_run_counts(v0, item_id@, evs.subrange(0, i as int));
            }
            let ghost before = self@;
            match self.apply_event(item_id, &events[i]) {
                Ok(a) => {
                    match a {
                        Applied::Added => tally.added = tally.added + 1,
                        Applied::Modified => tally.modified = tally.modified + 1,
                        Applied::Removed => tally.removed = tally.removed + 1,
                        Applied::Unchanged => {},
                    }
                },
                Err(e) => {
                    proof {
                        assert(step(before, item_id@, evs[i as int]) == (self@, Err::<Applied, SyncError>(e)));
                        assert(run(v0, item_id@, evs.subrange(0, i + 1)) == (self@, Err::<(int, int, int), SyncError>(e)));
                        lemma_run_stops(v0, item_id@, evs, i + 1);
                        assert(v0 == old(self)@);
                        assert(run(v0, item_id@, evs) == (self@, Err::<(int, int, int), SyncError>(e)));
                    }
                    return Err(e);
                },
            }
            i = i + 1;
        }
        proof {
            assert(evs.subrange(0, events@.len() as int) =~= evs);
        }
        Ok(tally)
    }

    /// One sync pass of link `item_id` over already collected events: the
    /// events are applied, and only if all of them were is the link's
    /// cursor moved to `next_cursor` (written only when it changed).
    pub fn sync_link(&mut self, item_id: &str, events: &Vec<ChangeEvent>, next_cursor: &str) -> (r: Result<Tally, SyncError>)
        requires
            wf(old(self)@),
        ensures
            wf(final(self)@),
            !has_link(old(self)@, item_id@) ==> r == Err::<Tally, SyncError>(SyncError::UnknownLink)
                && final(self)@ == old(self)@,
            link_degraded(old(self)@, item_id@) ==> r == Err::<Tally, SyncError>(SyncError::LinkDegraded)
                && final(self)@ == old(self)@,
            link_active(old(self)@, item_id@) ==> match run(old(self)@, item_id@, events_view(events@)) {
                (w, Ok(t)) => r == Ok::<Tally, SyncError>(Tally { added: t.0 as usize, modified: t.1 as usize, removed: t.2 as usize })
                    && final(self)@ == cursor_recorded(w, item_id@, next_cursor@),
                (w, Err(e)) => r == Err::<Tally, SyncError>(e) && final(self)@ == w,
            },
    {
        match self.link(item_id) {
            None => {
                return Err(SyncError::UnknownLink);
            },
            Some(l) => {
                if let LinkStatus::Degraded(_) = l.state {
                    return Err(SyncError::LinkDegraded);
                }
            },
        }
        let t = match self.apply(item_id, events) {
            Ok(t) => t,
            Err(e) => {
                return Err(e);
            },
        };
        let ghost w = self@;
        proof {
            lemma_run_keeps_links(old(self)@, item_id@, events_view(events@));
        }
        match self.record_cursor(item_id, next_cursor) {
            Ok(_) => Ok(t),
            Err(x) => Err(SyncError::Store(x)),
        }
    }

    /// One full sync pass of link `item_id` over the pages of its change
    /// feed: the feed is collected (each record under a new ledger id),
    /// applied in order, and the link's cursor moved to the feed's cursor
    /// only if everything was applied. A feed cut short of its cursor page,
    /// or holding a record that cannot be converted, changes nothing. Once
    /// the feed is collected, the outcome and the store are those of `run`
    /// over the collected events, whatever ledger ids they were given.
    pub fn pull(&mut self, item_id: &str, items: &Vec<StreamItem>, default_currency: &str) -> (r: Result<Tally, SyncError>)
        requires
            wf(old(self)@),
        ensures
            wf(final(self)@),
            !has_link(old(self)@, item_id@) ==> r == Err::<Tally, SyncError>(SyncError::UnknownLink)
                && final(self)@ == old(self)@,
            link_degraded(old(self)@, item_id@) ==> r == Err::<Tally, SyncError>(SyncError::LinkDegraded)
                && final(self)@ == old(self)@,
            link_active(old(self)@, item_id@) && !ends_with_cursor(items_view(items@))
                ==> r == Err::<Tally, SyncError>(SyncError::Upstream(UpstreamError::MissingCursor))
                && final(self)@ == old(self)@,
            r == Err::<Tally, SyncError>(SyncError::Upstream(UpstreamError::MissingCursor)) ==> !ends_with_cursor(
                items_view(items@),
            ),
            r matches Err(SyncError::Upstream(_)) ==> final(self)@ == old(self)@,
            link_active(old(self)@, item_id@) && ends_with_cursor(items_view(items@)) ==> match first_record_error(
                items_view(items@),
            ) {
                Some(e) => r == Err::<Tally, SyncError>(SyncError::Upstream(e)) && final(self)@ == old(self)@,
                None => exists|evs: Seq<ChangeEventView>|
                    #[trigger] events_follow(evs, items_view(items@), default_currency@) && match run(
                        old(self)@,
                        item_id@,
                        evs,
                    ) {
                        (w, Ok(t)) => r == Ok::<Tally, SyncError>(
                            Tally { added: t.0 as usize, modified: t.1 as usize, removed: t.2 as usize },
                        ) && final(self)@ == cursor_recorded(w, item_id@, items@.last()->Done_0@),
                        (w, Err(e)) => r == Err::<Tally, SyncError>(e) && final(self)@ == w,
                    },
            },
    {
        match self.link(item_id) {
            None => {
                return Err(SyncError::UnknownLink);
            },
            Some(l) => {
                if let LinkStatus::Degraded(_) = l.state {
                    return Err(SyncError::LinkDegraded);
                }
            },
        }
        let (events, cursor) = match collect_events(items, default_currency) {
            Ok(out) => out,
            Err(e) => {
                return Err(SyncError::Upstream(e));
            },
        };
        let ghost v0 = self@;
        let n = events.len();
        proof {
            lemma_convertible_has_no_error(items_view(items@));
        }
        let r = self.sync_link(item_id, &events, cursor.as_str());
        proof {
            let evs = events_view(events@);
            lemma_run_counts(v0, item_id@, evs);
            lemma_run_errors(v0, item_id@, evs);
            assert(v0 == old(self)@);
            assert(link_active(v0, item_id@));
            assert(evs.len() == n);
            assert(cursor@ == items@.last()->Done_0@);
            assert(events_follow(evs, items_view(items@), default_currency@));
        }
        r
    }
}

/// How a call to the upstream provider failed.
#[derive(Debug, Clone, Copy, PartialEq, Eq, Structural)]
pub enum CallFailure {
    /// The network or transport failed; trying again may work.
    Transient,
    /// The upstream no longer accepts the link's credential.
    Authorization,
}

/// What to do after a failed upstream call.
#[derive(Debug, Clone, Copy, PartialEq, Eq, Structural)]
pub enum CallAction {
    /// Wait this many milliseconds, then call again.
    Retry(u64),
    /// Stop trying; the pass fails and the next link is synced.
    GiveUp,
    /// Mark the link degraded and stop syncing it until it is renewed.
    Degrade,
}

/// Bounded exponential backoff for transient failures.
#[derive(Debug, Clone, Copy, PartialEq, Eq, Structural)]
pub struct RetryPolicy {
    pub max_attempts: u32,
    pub base_delay_ms: u64,
    pub max_delay_ms: u64,
}

/// `base` doubled `n` times.
pub open spec fn doubled(base: int, n: nat) -> int
    decreases n,
{
    if n == 0 {
        base
    } else {
        2 * doubled(base, (n - 1) as nat)
    }
}

pub open spec fn capped(x: int, cap: int) -> int {
    if x < cap {
        x
    } else {
        cap
    }
}

/// The action after `attempts` calls (the last one failed): authorization
/// failures are never retried and degrade the link; transient ones are
/// retried, waiting the base delay doubled once per earlier attempt but
/// never longer than the cap, until `max_attempts` calls have been made.
pub open spec fn action_after(p: RetryPolicy, attempts: nat, f: CallFailure) -> CallAction {
    match f {
        CallFailure::Authorization => CallAction::Degrade,
        CallFailure::Transient => if attempts < p.max_attempts {
            CallAction::Retry(
                capped(
                    doubled(p.base_delay_ms as int, if attempts > 0 { (attempts - 1) as nat } else { 0 }),
                    p.max_delay_ms as int,
                ) as u64,
            )
        } else {
            CallAction::GiveUp
        },
    }
}

proof fn lemma_doubled_grows(base: int, n: nat)
    requires
        base >= 0,
    ensures
        doubled(base, n) >= 0,
        doubled(base, n + 1) >= doubled(base, n),
    decreases n,
{
    if n > 0 {
        lemma_doubled_grows(base, (n - 1) as nat);
    }
}

/// Decides what follows a failed upstream call.
pub fn after_failure(policy: &RetryPolicy, attempts: u32, failure: CallFailure) -> (r: CallAction)
    ensures
        r == action_after(*policy, attempts as nat, failure),
{
    match failure {
        CallFailure::Authorization => CallAction::Degrade,
        CallFailure::Transient => {
            if attempts >= policy.max_attempts {
                return CallAction::GiveUp;
            }
            let cap = policy.max_delay_ms;
            let base = policy.base_delay_ms;
            let ghost b = base as int;
            let n: u32 = if attempts > 0 { attempts - 1 } else { 0 };
            let mut d: u64 = if base < cap { base } else { cap };
            let mut j: u32 = 0;
            while j < n
                invariant
                    j <= n,
                    b == base as int,
                    cap == policy.max_delay_ms,
                    d as int == capped(doubled(b, j as nat), cap as int),
                decreases n - j,
            {
                proof {
                    lemma_doubled_grows(b, j as nat);
                }
                if d >= cap {
                    d = cap;
                } else if d > cap - d {
                    d = cap;
                } else {
                    d = d + d;
                }
                j = j + 1;
            }
            CallAction::Retry(d)
        },
    }
}

} // verus!
