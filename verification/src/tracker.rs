//! The incremental updater and the snapshot loader: how presence
//! notifications and an initial snapshot drive the presence store.

use vstd::prelude::*;

use crate::classify::{classify, is_online, Status};
use crate::store::{
    lemma_pairs_to_map_domain, lemma_pairs_to_map_index, pairs_to_map, unique_keys, PresenceStore,
};

verus! {

/// One presence-change notification: an entity, its new status, and the
/// monotonic instant at which the notification is applied.
#[derive(Clone, Copy, PartialEq, Eq, Structural, Debug)]
pub struct Notification {
    pub id: u64,
    pub status: Status,
    pub now: u64,
}

/// The store mapping after one notification: an entity newly classified
/// online is inserted at `now`, one already tracked is left untouched, and
/// one classified offline is removed. A two-state machine per entity, with
/// self-transitions as no-ops.
pub open spec fn step(m: Map<u64, u64>, n: Notification) -> Map<u64, u64> {
    if is_online(n.status) {
        if m.dom().contains(n.id) {
            m
        } else {
            m.insert(n.id, n.now)
        }
    } else {
        m.remove(n.id)
    }
}

/// The store mapping after a whole sequence of notifications, applied in
/// delivery order.
pub open spec fn run_events(m: Map<u64, u64>, events: Seq<Notification>) -> Map<u64, u64>
    decreases events.len(),
{
    if events.len() == 0 {
        m
    } else {
        step(run_events(m, events.drop_last()), events.last())
    }
}

/// The status carried by the most recent notification for `id`, if any.
pub open spec fn last_status_for(events: Seq<Notification>, id: u64) -> Option<Status>
    decreases events.len(),
{
    if events.len() == 0 {
        None
    } else if events.last().id == id {
        Some(events.last().status)
    } else {
        last_status_for(events.drop_last(), id)
    }
}

/// Applies one presence-change notification to the store: insert-if-newly-
/// online, remove-if-newly-offline, otherwise a no-op.
pub fn apply_notification(store: &mut PresenceStore, id: u64, status: Status, now: u64)
    requires
        old(store).wf(),
    ensures
        final(store).wf(),
        final(store)@ == step(old(store)@, Notification { id, status, now }),
{
    let online = classify(status);
    if online {
        store.upsert(id, now);
    } else {
        store.remove(id);
        proof {
            assert(final(store)@ =~= old(store)@.remove(id));
        }
    }
}

/// After any sequence of notifications, an entity is in the store exactly
/// when its most recent notification classified it online — or, if it was
/// never notified at all, when the initial mapping (for instance a snapshot
/// entry) held it.
pub proof fn lemma_store_tracks_last_notification(
    m: Map<u64, u64>,
    events: Seq<Notification>,
    id: u64,
)
    ensures
        run_events(m, events).dom().contains(id) <==> match last_status_for(events, id) {
            Some(st) => is_online(st),
            None => m.dom().contains(id),
        },
    decreases events.len(),
{
    if events.len() > 0 {
        lemma_store_tracks_last_notification(m, events.drop_last(), id);
    }
}

/// Idempotence of online notifications: once a notification has put an
/// entity online, repeating it — at any later instant — changes nothing;
/// in particular the online-since timestamp is not reset.
pub proof fn lemma_online_idempotent(m: Map<u64, u64>, id: u64, status: Status, t1: u64, t2: u64)
    requires
        is_online(status),
    ensures
        step(step(m, Notification { id, status, now: t1 }), Notification { id, status, now: t2 })
            == step(m, Notification { id, status, now: t1 }),
{
}

/// Idempotence of offline notifications: removing an entity that is already
/// absent leaves the mapping exactly as it was.
pub proof fn lemma_remove_absent_noop(m: Map<u64, u64>, n: Notification)
    requires
        !is_online(n.status),
        !m.dom().contains(n.id),
    ensures
        step(m, n) == m,
{
    assert(m.remove(n.id) =~= m);
}

/// The snapshot entries computed from a full status listing: each listed
/// entity whose status classifies as online, paired with the snapshot
/// instant `now`, in listing order.
pub open spec fn online_entries(listing: Seq<(u64, Status)>, now: u64) -> Seq<(u64, u64)>
    decreases listing.len(),
{
    if listing.len() == 0 {
        Seq::empty()
    } else {
        online_entries(listing.drop_last(), now) + if is_online(listing.last().1) {
            seq![(listing.last().0, now)]
        } else {
            Seq::empty()
        }
    }
}

/// No two entries of the listing carry the same entity id.
pub open spec fn unique_ids(listing: Seq<(u64, Status)>) -> bool {
    forall|i: int, j: int| 0 <= i < j < listing.len() ==> listing[i].0 != listing[j].0
}

/// Soundness of the snapshot entries: every entry carries the instant
/// `now`, and its id is that of some listed entity classified online.
pub proof fn lemma_online_entries_sound(listing: Seq<(u64, Status)>, now: u64)
    ensures
        forall|k: int| #![trigger online_entries(listing, now)[k]]
            0 <= k < online_entries(listing, now).len() ==> online_entries(listing, now)[k].1
                == now && exists|i: int|
                0 <= i < listing.len() && listing[i].0 == online_entries(listing, now)[k].0
                    && is_online(listing[i].1),
    decreases listing.len(),
{
    if listing.len() > 0 {
        lemma_online_entries_sound(listing.drop_last(), now);
        let prev = online_entries(listing.drop_last(), now);
        let cur = online_entries(listing, now);
        assert forall|k: int| 0 <= k < cur.len() implies cur[k].1 == now && exists|i: int|
            0 <= i < listing.len() && listing[i].0 == cur[k].0 && is_online(listing[i].1) by {
            if k < prev.len() {
                assert(cur[k] == prev[k]);
                let i = choose|i: int|
                    0 <= i < listing.drop_last().len() && listing.drop_last()[i].0 == prev[k].0
                        && is_online(listing.drop_last()[i].1);
                assert(listing[i].0 == cur[k].0 && is_online(listing[i].1));
            } else {
                assert(is_online(listing.last().1));
                assert(cur[k] == (listing.last().0, now));
                assert(listing[listing.len() - 1].0 == cur[k].0);
            }
        }
    }
}

/// Completeness of the snapshot entries: every listed entity classified
/// online appears among them.
pub proof fn lemma_online_entries_complete(listing: Seq<(u64, Status)>, now: u64)
    ensures
        forall|i: int| #![trigger listing[i]]
            0 <= i < listing.len() && is_online(listing[i].1) ==> exists|k: int|
                0 <= k < online_entries(listing, now).len() && online_entries(listing, now)[k].0
                    == listing[i].0,
    decreases listing.len(),
{
    if listing.len() > 0 {
        lemma_online_entries_complete(listing.drop_last(), now);
        let prev = online_entries(listing.drop_last(), now);
        let cur = online_entries(listing, now);
        assert forall|i: int|
            0 <= i < listing.len() && is_online(listing[i].1) implies exists|k: int|
            0 <= k < cur.len() && cur[k].0 == listing[i].0 by {
            if i < listing.len() - 1 {
                assert(listing.drop_last()[i] == listing[i]);
                let k = choose|k: int| 0 <= k < prev.len() && prev[k].0 == listing[i].0;
                assert(cur[k] == prev[k]);
            } else {
                assert(cur[cur.len() - 1] == (listing.last().0, now));
            }
        }
    }
}

/// The snapshot entries inherit the listing's key uniqueness.
pub proof fn lemma_online_entries_unique(listing: Seq<(u64, Status)>, now: u64)
    requires
        unique_ids(listing),
    ensures
        unique_keys(online_entries(listing, now)),
    decreases listing.len(),
{
    if listing.len() > 0 {
        assert(unique_ids(listing.drop_last())) by {
            assert(forall|i: int, j: int|
                0 <= i < j < listing.drop_last().len() ==> listing.drop_last()[i] == listing[i]
                    && listing.drop_last()[j] == listing[j]);
        }
        lemma_online_entries_unique(listing.drop_last(), now);
        lemma_online_entries_sound(listing.drop_last(), now);
        let prev = online_entries(listing.drop_last(), now);
        let cur = online_entries(listing, now);
        assert forall|p: int, q: int| 0 <= p < q < cur.len() implies cur[p].0 != cur[q].0 by {
            if q < prev.len() {
                assert(cur[p] == prev[p] && cur[q] == prev[q]);
            } else {
                assert(cur[p] == prev[p]);
                assert(cur[q] == (listing.last().0, now));
                let i = choose|i: int|
                    0 <= i < listing.drop_last().len() && listing.drop_last()[i].0 == prev[p].0
                        && is_online(listing.drop_last()[i].1);
                assert(listing[i].0 == prev[p].0);
                assert(listing[i].0 != listing.last().0);
            }
        }
    }
}

/// The mapping a snapshot installs, pointwise: an entity is tracked after
/// `load_snapshot` exactly when the listing classifies it online, and every
/// tracked entity's online-since timestamp is the snapshot instant `now`.
pub proof fn lemma_snapshot_mapping(listing: Seq<(u64, Status)>, now: u64, id: u64)
    requires
        unique_ids(listing),
    ensures
        pairs_to_map(online_entries(listing, now)).dom().contains(id) <==> exists|i: int|
            0 <= i < listing.len() && listing[i].0 == id && is_online(listing[i].1),
        pairs_to_map(online_entries(listing, now)).dom().contains(id) ==> pairs_to_map(
            online_entries(listing, now),
        )[id] == now,
{
    let oe = online_entries(listing, now);
    lemma_online_entries_unique(listing, now);
    lemma_online_entries_sound(listing, now);
    lemma_online_entries_complete(listing, now);
    lemma_pairs_to_map_domain(oe, id);
    if pairs_to_map(oe).dom().contains(id) {
        let k = choose|k: int| 0 <= k < oe.len() && oe[k].0 == id;
        lemma_pairs_to_map_index(oe, k);
    }
    if exists|i: int| 0 <= i < listing.len() && listing[i].0 == id && is_online(listing[i].1) {
        let i = choose|i: int|
            0 <= i < listing.len() && listing[i].0 == id && is_online(listing[i].1);
        assert(listing[i] == listing[i]);
        let k = choose|k: int| 0 <= k < oe.len() && oe[k].0 == listing[i].0;
        assert(oe[k].0 == id);
    }
}

/// Computes the snapshot entries from a full status listing: the online-
/// classified entities, each mapped to the snapshot instant `now`.
pub fn build_snapshot(listing: &Vec<(u64, Status)>, now: u64) -> (v: Vec<(u64, u64)>)
    ensures
        v@ == online_entries(listing@, now),
{
    let n = listing.len();
    let mut v: Vec<(u64, u64)> = Vec::new();
    for i in 0..n
        invariant
            n == listing@.len(),
            v@ == online_entries(listing@.subrange(0, i as int), now),
    {
        proof {
            assert(listing@.subrange(0, i + 1 as int).drop_last() =~= listing@.subrange(
                0,
                i as int,
            ));
            assert(listing@.subrange(0, i + 1 as int).last() == listing@[i as int]);
        }
        if classify(listing[i].1) {
            v.push((listing[i].0, now));
            proof {
                assert(v@ =~= online_entries(listing@.subrange(0, i + 1 as int), now));
            }
        } else {
            proof {
                assert(v@ =~= online_entries(listing@.subrange(0, i + 1 as int), now));
            }
        }
    }
    proof {
        assert(listing@.subrange(0, n as int) =~= listing@);
    }
    v
}

/// Rebuilds the store from a full status listing, discarding all prior
/// entries: a fresh tracking epoch. Runs once per connection, before any
/// incremental activity is guaranteed to be visible.
pub fn load_snapshot(store: &mut PresenceStore, listing: &Vec<(u64, Status)>, now: u64)
    requires
        unique_ids(listing@),
    ensures
        final(store).wf(),
        final(store)@ == pairs_to_map(online_entries(listing@, now)),
        final(store).entries_seq() == online_entries(listing@, now),
{
    let entries = build_snapshot(listing, now);
    proof {
        lemma_online_entries_unique(listing@, now);
    }
    store.replace_all(entries);
}

} // verus!
