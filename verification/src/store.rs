//! The presence store: the mapping of tracked entity to online-since
//! timestamp, with idempotent insert and remove, an atomic snapshot
//! replacement, and a consistent point-in-time read.

use vstd::prelude::*;

verus! {

/// The mapping denoted by a sequence of `(id, since)` pairs; a later pair
/// with the same id wins, though a well-formed store never holds one.
pub open spec fn pairs_to_map(s: Seq<(u64, u64)>) -> Map<u64, u64>
    decreases s.len(),
{
    if s.len() == 0 {
        Map::empty()
    } else {
        pairs_to_map(s.drop_last()).insert(s.last().0, s.last().1)
    }
}

/// No two pairs of the sequence carry the same entity id.
pub open spec fn unique_keys(s: Seq<(u64, u64)>) -> bool {
    forall|i: int, j: int| 0 <= i < j < s.len() ==> s[i].0 != s[j].0
}

/// An id is in the mapping of a pair sequence exactly when some pair carries it.
pub proof fn lemma_pairs_to_map_domain(s: Seq<(u64, u64)>, id: u64)
    ensures
        pairs_to_map(s).dom().contains(id) <==> exists|i: int|
            0 <= i < s.len() && s[i].0 == id,
    decreases s.len(),
{
    if s.len() > 0 {
        lemma_pairs_to_map_domain(s.drop_last(), id);
        if s.last().0 != id && pairs_to_map(s).dom().contains(id) {
            let i = choose|i: int| 0 <= i < s.drop_last().len() && s.drop_last()[i].0 == id;
            assert(s[i].0 == id);
        }
        if exists|i: int| 0 <= i < s.len() && s[i].0 == id {
            let i = choose|i: int| 0 <= i < s.len() && s[i].0 == id;
            if i < s.len() - 1 {
                assert(s.drop_last()[i].0 == id);
            }
        }
    }
}

/// Under unique keys, each pair's id is mapped to that pair's timestamp.
pub proof fn lemma_pairs_to_map_index(s: Seq<(u64, u64)>, i: int)
    requires
        unique_keys(s),
        0 <= i < s.len(),
    ensures
        pairs_to_map(s).dom().contains(s[i].0),
        pairs_to_map(s)[s[i].0] == s[i].1,
    decreases s.len(),
{
    if i < s.len() - 1 {
        assert(s.drop_last()[i] == s[i]);
        lemma_pairs_to_map_index(s.drop_last(), i);
        assert(s[i].0 != s.last().0);
    }
}

/// Removing the pair at index `i` removes exactly its id from the mapping,
/// provided keys are unique.
proof fn lemma_pairs_to_map_remove(s: Seq<(u64, u64)>, i: int)
    requires
        unique_keys(s),
        0 <= i < s.len(),
    ensures
        pairs_to_map(s.remove(i)) =~= pairs_to_map(s).remove(s[i].0),
    decreases s.len(),
{
    if i == s.len() - 1 {
        assert(s.remove(i) =~= s.drop_last());
        lemma_pairs_to_map_domain(s.drop_last(), s[i].0);
        assert(forall|j: int| 0 <= j < s.drop_last().len() ==> s.drop_last()[j].0 != s[i].0);
        assert(!pairs_to_map(s.drop_last()).dom().contains(s[i].0));
        assert(pairs_to_map(s.drop_last()).insert(s.last().0, s.last().1).remove(s[i].0)
            =~= pairs_to_map(s.drop_last()));
    } else {
        assert(s.remove(i).drop_last() =~= s.drop_last().remove(i));
        assert(s.remove(i).last() == s.last());
        lemma_pairs_to_map_remove(s.drop_last(), i);
        assert(s.drop_last()[i] == s[i]);
        assert(s[i].0 != s.last().0);
        assert(pairs_to_map(s.remove(i)) =~= pairs_to_map(s.drop_last()).remove(s[i].0).insert(
            s.last().0,
            s.last().1,
        ));
    }
}

/// Maps each tracked entity id to the monotonic timestamp at which it was
/// first observed online in the current tracking epoch.
///
/// Invariant: an id appears at most once; it appears exactly when the
/// entity is currently believed online. The mapping is reachable only
/// through these methods; a caller that shares the store across
/// concurrent contexts guards it with one mutual-exclusion domain.
pub struct PresenceStore {
    entries: Vec<(u64, u64)>,
}

impl View for PresenceStore {
    type V = Map<u64, u64>;

    open spec fn view(&self) -> Map<u64, u64> {
        pairs_to_map(self.entries_seq())
    }
}

impl PresenceStore {
    /// The `(id, since)` pairs in iteration order.
    pub closed spec fn entries_seq(&self) -> Seq<(u64, u64)> {
        self.entries@
    }

    /// Well-formedness: no entity id appears twice.
    pub open spec fn wf(&self) -> bool {
        unique_keys(self.entries_seq())
    }

    /// An empty store: nothing is tracked.
    pub fn new() -> (s: Self)
        ensures
            s.wf(),
            s@ =~= Map::<u64, u64>::empty(),
            s.entries_seq() == Seq::<(u64, u64)>::empty(),
    {
        PresenceStore { entries: Vec::new() }
    }

    /// The number of tracked entities.
    pub fn len(&self) -> (n: usize)
        ensures
            n == self.entries_seq().len(),
    {
        self.entries.len()
    }

    /// Whether `id` is currently tracked, that is, believed online.
    pub fn contains(&self, id: u64) -> (r: bool)
        ensures
            r == self@.dom().contains(id),
    {
        let n = self.entries.len();
        for i in 0..n
            invariant
                n == self.entries@.len(),
                forall|j: int| 0 <= j < i ==> self.entries@[j].0 != id,
        {
            if self.entries[i].0 == id {
                proof {
                    lemma_pairs_to_map_domain(self.entries_seq(), id);
                    assert(self.entries_seq()[i as int].0 == id);
                }
                return true;
            }
        }
        proof {
            lemma_pairs_to_map_domain(self.entries_seq(), id);
        }
        false
    }

    /// The online-since timestamp of `id`, if it is tracked.
    pub fn get_since(&self, id: u64) -> (r: Option<u64>)
        requires
            self.wf(),
        ensures
            r == if self@.dom().contains(id) {
                Some(self@[id])
            } else {
                None::<u64>
            },
    {
        let n = self.entries.len();
        for i in 0..n
            invariant
                self.wf(),
                n == self.entries@.len(),
                forall|j: int| 0 <= j < i ==> self.entries@[j].0 != id,
        {
            if self.entries[i].0 == id {
                proof {
                    assert(self.entries_seq()[i as int].0 == id);
                    lemma_pairs_to_map_index(self.entries_seq(), i as int);
                }
                return Some(self.entries[i].1);
            }
        }
        proof {
            lemma_pairs_to_map_domain(self.entries_seq(), id);
        }
        None
    }

    /// Inserts `id -> now` only if `id` is absent; a no-op if it is already
    /// tracked, so a repeated online notification never resets a timestamp.
    pub fn upsert(&mut self, id: u64, now: u64)
        requires
            old(self).wf(),
        ensures
            final(self).wf(),
            final(self)@ == if old(self)@.dom().contains(id) {
                old(self)@
            } else {
                old(self)@.insert(id, now)
            },
            final(self).entries_seq() == if old(self)@.dom().contains(id) {
                old(self).entries_seq()
            } else {
                old(self).entries_seq().push((id, now))
            },
    {
        proof {
            lemma_pairs_to_map_domain(self.entries_seq(), id);
        }
        if !self.contains(id) {
            self.entries.push((id, now));
            proof {
                assert(self.entries@.drop_last() =~= old(self).entries@);
            }
        }
    }

    /// Deletes `id` if present; a no-op if absent.
    pub fn remove(&mut self, id: u64)
        requires
            old(self).wf(),
        ensures
            final(self).wf(),
            final(self)@ =~= old(self)@.remove(id),
            !final(self)@.dom().contains(id),
    {
        let n = self.entries.len();
        for i in 0..n
            invariant
                self == old(self),
                old(self).wf(),
                n == self.entries@.len(),
                forall|j: int| 0 <= j < i ==> self.entries@[j].0 != id,
        {
            if self.entries[i].0 == id {
                proof {
                    lemma_pairs_to_map_remove(self.entries_seq(), i as int);
                }
                let ghost before = self.entries@;
                self.entries.remove(i);
                proof {
                    assert(self.entries@ =~= before.remove(i as int));
                    assert forall|j: int, k: int|
                        0 <= j < k < self.entries@.len() implies self.entries@[j].0
                        != self.entries@[k].0 by {
                        assert(self.entries@[j] == if j < i {
                            before[j]
                        } else {
                            before[j + 1]
                        });
                        assert(self.entries@[k] == if k < i {
                            before[k]
                        } else {
                            before[k + 1]
                        });
                    }
                }
                return;
            }
        }
        proof {
            lemma_pairs_to_map_domain(self.entries_seq(), id);
            assert(!old(self)@.dom().contains(id));
            assert(old(self)@.remove(id) =~= old(self)@);
        }
    }

    /// Atomically discards the whole current mapping and installs `entries`
    /// as the new one, whatever the prior history; used once per connection
    /// lifecycle, when a snapshot opens a new tracking epoch.
    pub fn replace_all(&mut self, entries: Vec<(u64, u64)>)
        requires
            unique_keys(entries@),
        ensures
            final(self).wf(),
            final(self)@ == pairs_to_map(entries@),
            final(self).entries_seq() == entries@,
    {
        self.entries = entries;
    }

    /// A consistent, point-in-time copy of the `(id, since)` pairs, for
    /// reading outside the store's critical section. Iteration order is
    /// the store's own; insertion order is not guaranteed to callers.
    pub fn snapshot_view(&self) -> (v: Vec<(u64, u64)>)
        ensures
            v@ == self.entries_seq(),
    {
        let n = self.entries.len();
        let mut v: Vec<(u64, u64)> = Vec::new();
        for i in 0..n
            invariant
                n == self.entries@.len(),
                v@ == self.entries@.subrange(0, i as int),
        {
            v.push((self.entries[i].0, self.entries[i].1));
            proof {
                assert(v@ =~= self.entries@.subrange(0, i + 1 as int));
            }
        }
        proof {
            assert(v@ =~= self.entries@);
        }
        v
    }
}

} // verus!
