//! The collector's aggregation window: the most recent snapshot of every
//! agent that reported since the last flush, plus the set of contributing
//! identities.
//!
//! The window is the one cross-task mutable resource of the collector; the
//! surrounding runtime holds it behind a lock, so `ingest` calls from
//! different connections apply one at a time in some arbitrary order.
//! [`lemma_ingest_interleaving`] shows that any such order leaves the window
//! holding exactly the ingesting identities. A flush serializes the buffered
//! snapshots into one aggregated-state command addressed to exactly the
//! contributors and clears the window atomically.

use vstd::prelude::*;
use crate::codec;
use crate::protocol::{CommandKind, FleetCommand, StateSnapshot};

verus! {

/// The snapshots an association list holds, as a map: a later entry for the
/// same identity wins.
pub open spec fn spec_map_of(entries: Seq<(u64, StateSnapshot)>) -> Map<u64, StateSnapshot>
    decreases entries.len(),
{
    if entries.len() == 0 {
        Map::empty()
    } else {
        spec_map_of(entries.drop_last()).insert(entries.last().0, entries.last().1)
    }
}

/// A window's contents after a sequence of ingests, each overwriting its
/// identity's previous snapshot.
pub open spec fn spec_apply_ingests(
    m: Map<u64, StateSnapshot>,
    ops: Seq<(u64, StateSnapshot)>,
) -> Map<u64, StateSnapshot>
    decreases ops.len(),
{
    if ops.len() == 0 {
        m
    } else {
        spec_apply_ingests(m, ops.drop_last()).insert(ops.last().0, ops.last().1)
    }
}

/// With distinct keys, an association list's mapping has exactly as many
/// keys as the list has entries.
proof fn lemma_distinct_keys_count(entries: Seq<(u64, StateSnapshot)>)
    requires
        forall|i: int, j: int|
            0 <= i < j < entries.len() ==> (#[trigger] entries[i]).0 != (#[trigger] entries[j]).0,
    ensures
        spec_map_of(entries).dom().finite(),
        spec_map_of(entries).dom().len() == entries.len(),
    decreases entries.len(),
{
    lemma_map_of_keys(entries);
    if entries.len() > 0 {
        lemma_distinct_keys_count(entries.drop_last());
        lemma_map_of_keys(entries.drop_last());
        assert(!spec_map_of(entries.drop_last()).dom().contains(entries.last().0));
        assert(spec_map_of(entries).dom() =~= spec_map_of(entries.drop_last()).dom().insert(
            entries.last().0,
        ));
    }
}

/// The key list of an association list covers exactly its mapping's domain.
proof fn lemma_keys_to_set(entries: Seq<(u64, StateSnapshot)>)
    ensures
        entries.map_values(|e: (u64, StateSnapshot)| e.0).to_set() == spec_map_of(entries).dom(),
    decreases entries.len(),
{
    let mapped = entries.map_values(|e: (u64, StateSnapshot)| e.0);
    if entries.len() == 0 {
        assert(mapped.to_set() =~= Set::<u64>::empty());
        assert(spec_map_of(entries).dom() =~= Set::<u64>::empty());
    } else {
        lemma_keys_to_set(entries.drop_last());
        let mprev = entries.drop_last().map_values(|e: (u64, StateSnapshot)| e.0);
        assert(mapped =~= mprev.push(entries.last().0));
        mprev.lemma_push_to_set_commute(entries.last().0);
        assert(spec_map_of(entries).dom() =~= spec_map_of(entries.drop_last()).dom().insert(
            entries.last().0,
        ));
        assert(mapped.to_set() =~= spec_map_of(entries).dom());
    }
}

/// The mapping an association list defines contains exactly the listed keys.
proof fn lemma_map_of_keys(entries: Seq<(u64, StateSnapshot)>)
    ensures
        forall|id: u64| #[trigger]
            spec_map_of(entries).dom().contains(id) <==> exists|i: int|
                0 <= i < entries.len() && (#[trigger] entries[i]).0 == id,
        spec_map_of(entries).dom().finite(),
    decreases entries.len(),
{
    if entries.len() > 0 {
        lemma_map_of_keys(entries.drop_last());
        assert forall|id: u64| #[trigger] spec_map_of(entries).dom().contains(id) implies exists|
            i: int,
        |
            0 <= i < entries.len() && (#[trigger] entries[i]).0 == id by {
            if id == entries.last().0 {
                assert(entries[entries.len() - 1].0 == id);
            } else {
                let i = choose|i: int|
                    0 <= i < entries.drop_last().len() && (#[trigger] entries.drop_last()[i]).0
                        == id;
                assert(entries[i].0 == id);
            }
        }
        assert forall|id: u64|
            exists|i: int| 0 <= i < entries.len() && (#[trigger] entries[i]).0 == id implies
            #[trigger] spec_map_of(entries).dom().contains(id) by {
            let i = choose|i: int| 0 <= i < entries.len() && (#[trigger] entries[i]).0 == id;
            if i < entries.len() - 1 {
                assert(entries.drop_last()[i].0 == id);
            }
        }
    }
}

/// Removing the entry at `k` removes exactly its key from the mapping,
/// provided no other entry shares that key.
proof fn lemma_map_of_remove(entries: Seq<(u64, StateSnapshot)>, k: int)
    requires
        0 <= k < entries.len(),
        forall|i: int, j: int|
            0 <= i < j < entries.len() ==> (#[trigger] entries[i]).0 != (#[trigger] entries[j]).0,
    ensures
        spec_map_of(entries.remove(k)) == spec_map_of(entries).remove(entries[k].0),
    decreases entries.len(),
{
    let key = entries[k].0;
    if k == entries.len() - 1 {
        lemma_map_of_keys(entries.drop_last());
        assert(forall|i: int|
            0 <= i < entries.len() - 1 ==> (#[trigger] entries[i]).0 != key);
        assert(!spec_map_of(entries.drop_last()).dom().contains(key));
        assert(entries.remove(k) =~= entries.drop_last());
        assert(spec_map_of(entries.drop_last()) =~= spec_map_of(entries).remove(key));
    } else {
        let shorter = entries.drop_last();
        lemma_map_of_remove(shorter, k);
        assert(entries.remove(k).drop_last() =~= shorter.remove(k));
        assert(entries.remove(k).last() == entries.last());
        assert(spec_map_of(entries.remove(k)) == spec_map_of(shorter.remove(k)).insert(
            entries.last().0,
            entries.last().1,
        ));
        assert(key != entries.last().0);
        assert(spec_map_of(shorter).remove(key).insert(entries.last().0, entries.last().1)
            =~= spec_map_of(entries).remove(key));
    }
}

/// The window: agent identities paired with their most recent snapshot, each
/// identity at most once.
pub struct AggregationWindow {
    entries: Vec<(u64, StateSnapshot)>,
}

impl AggregationWindow {
    /// No identity occurs twice.
    pub closed spec fn wf(&self) -> bool {
        forall|i: int, j: int|
            0 <= i < j < self.entries@.len() ==> (#[trigger] self.entries@[i]).0 != (
            #[trigger] self.entries@[j]).0
    }

    /// The most recent snapshot of every agent that reported since the last
    /// flush.
    pub closed spec fn contents(&self) -> Map<u64, StateSnapshot> {
        spec_map_of(self.entries@)
    }

    /// The contributing identities in window order, oldest first.
    pub closed spec fn ordered_identities(&self) -> Seq<u64> {
        self.entries@.map_values(|e: (u64, StateSnapshot)| e.0)
    }

    /// The buffered snapshots in window order, matching
    /// [`Self::ordered_identities`] position by position.
    pub closed spec fn ordered_snapshots(&self) -> Seq<StateSnapshot> {
        self.entries@.map_values(|e: (u64, StateSnapshot)| e.1)
    }

    /// The identities that contributed to the current window.
    pub open spec fn identities(&self) -> Set<u64> {
        self.contents().dom()
    }

    /// An empty window.
    pub fn new() -> (r: AggregationWindow)
        ensures
            r.wf(),
            r.contents() == Map::<u64, StateSnapshot>::empty(),
            r.identities() == Set::<u64>::empty(),
    {
        let r = AggregationWindow { entries: Vec::new() };
        proof {
            assert(r.identities() =~= Set::<u64>::empty());
        }
        r
    }

    /// How many identities have contributed since the last flush.
    pub fn identity_count(&self) -> (r: usize)
        requires
            self.wf(),
        ensures
            self.identities().finite(),
            r == self.identities().len(),
            r == self.ordered_identities().len(),
    {
        proof {
            lemma_map_of_keys(self.entries@);
            lemma_distinct_keys_count(self.entries@);
        }
        self.entries.len()
    }

    /// Records one report: the snapshot replaces the identity's previous one,
    /// and the identity joins the contributor set. Exactly one entry per
    /// identity survives, however often it re-ingests.
    pub fn ingest(&mut self, id: u64, snapshot: StateSnapshot)
        requires
            old(self).wf(),
        ensures
            final(self).wf(),
            final(self).contents() == old(self).contents().insert(id, snapshot),
            final(self).identities() == old(self).identities().insert(id),
    {
        let ghost entries0 = self.entries@;
        let mut k: usize = 0;
        let n = self.entries.len();
        while k < n
            invariant
                n == self.entries@.len(),
                0 <= k <= n,
                self.entries@ == entries0,
                entries0 == old(self).entries@,
                forall|i: int, j: int|
                    0 <= i < j < entries0.len() ==> (#[trigger] entries0[i]).0 != (
                    #[trigger] entries0[j]).0,
                forall|j: int| 0 <= j < k ==> (#[trigger] entries0[j]).0 != id,
            decreases n - k,
        {
            if self.entries[k].0 == id {
                proof {
                    lemma_map_of_remove(entries0, k as int);
                }
                self.entries.remove(k);
                self.entries.push((id, snapshot));
                proof {
                    assert(self.entries@.drop_last() =~= entries0.remove(k as int));
                    assert(forall|i: int, j: int|
                        0 <= i < j < entries0.remove(k as int).len() ==> (
                        #[trigger] entries0.remove(k as int)[i]).0 != (#[trigger] entries0.remove(
                            k as int,
                        )[j]).0);
                    lemma_map_of_keys(entries0.remove(k as int));
                    assert(forall|j: int|
                        0 <= j < entries0.remove(k as int).len() ==> (#[trigger] entries0.remove(
                            k as int,
                        )[j]).0 != id);
                    assert(self.wf());
                    assert(self.entries@.last() == (id, snapshot));
                    assert(self.contents() == spec_map_of(entries0.remove(k as int)).insert(
                        id,
                        snapshot,
                    ));
                    assert(spec_map_of(entries0.remove(k as int)) == spec_map_of(entries0).remove(
                        id,
                    ));
                    assert(self.contents() == spec_map_of(entries0).remove(id).insert(
                        id,
                        snapshot,
                    ));
                    assert(spec_map_of(entries0).remove(id).insert(id, snapshot)
                        =~= spec_map_of(entries0).insert(id, snapshot));
                    assert(self.contents() == old(self).contents().insert(id, snapshot));
                    assert(self.identities() =~= old(self).identities().insert(id));
                }
                return ;
            }
            k = k + 1;
        }
        self.entries.push((id, snapshot));
        proof {
            assert(self.entries@.drop_last() =~= entries0);
            assert(self.wf());
            assert(self.identities() =~= old(self).identities().insert(id));
        }
    }

    /// Serializes the window into one aggregated-state command addressed to
    /// exactly the contributing identities, and clears the window: every
    /// buffered snapshot is flushed, none is retained.
    pub fn flush(&mut self) -> (r: FleetCommand)
        requires
            old(self).wf(),
        ensures
            final(self).wf(),
            final(self).contents() == Map::<u64, StateSnapshot>::empty(),
            final(self).identities() == Set::<u64>::empty(),
            r.kind == CommandKind::Aggregate,
            r.server_ids@ == old(self).ordered_identities(),
            r.server_ids@.to_set() == old(self).identities(),
            r.data@ == codec::spec_json_of_snapshots(old(self).ordered_snapshots()),
    {
        let ghost entries0 = self.entries@;
        let mut ids: Vec<u64> = Vec::new();
        let mut snaps: Vec<StateSnapshot> = Vec::new();
        let mut k: usize = 0;
        let n = self.entries.len();
        while k < n
            invariant
                n == self.entries@.len(),
                0 <= k <= n,
                self.entries@ == entries0,
                ids@ == entries0.subrange(0, k as int).map_values(
                    |e: (u64, StateSnapshot)| e.0,
                ),
                snaps@ == entries0.subrange(0, k as int).map_values(
                    |e: (u64, StateSnapshot)| e.1,
                ),
            decreases n - k,
        {
            let e = self.entries[k];
            ids.push(e.0);
            snaps.push(e.1);
            proof {
                assert(entries0.subrange(0, k as int + 1) =~= entries0.subrange(0, k as int).push(
                    entries0[k as int],
                ));
                assert(ids@ =~= entries0.subrange(0, k as int + 1).map_values(
                    |e: (u64, StateSnapshot)| e.0,
                ));
                assert(snaps@ =~= entries0.subrange(0, k as int + 1).map_values(
                    |e: (u64, StateSnapshot)| e.1,
                ));
            }
            k = k + 1;
        }
        proof {
            assert(entries0.subrange(0, n as int) =~= entries0);
        }
        let data = codec::encode_snapshots(&snaps);
        self.entries = Vec::new();
        proof {
            assert(self.identities() =~= Set::<u64>::empty());
            lemma_keys_to_set(entries0);
        }
        FleetCommand { kind: CommandKind::Aggregate, data, server_ids: ids }
    }
}

/// Each listed pair of a distinct-key association list is in its mapping.
proof fn lemma_map_of_pairs(entries: Seq<(u64, StateSnapshot)>)
    requires
        forall|i: int, j: int|
            0 <= i < j < entries.len() ==> (#[trigger] entries[i]).0 != (#[trigger] entries[j]).0,
    ensures
        forall|i: int|
            0 <= i < entries.len() ==> spec_map_of(entries).contains_pair(
                (#[trigger] entries[i]).0,
                entries[i].1,
            ),
    decreases entries.len(),
{
    if entries.len() > 0 {
        let dl = entries.drop_last();
        assert(forall|i: int, j: int|
            0 <= i < j < dl.len() ==> (#[trigger] dl[i]).0 != (#[trigger] dl[j]).0);
        lemma_map_of_pairs(dl);
        assert forall|i: int| 0 <= i < entries.len() implies spec_map_of(entries).contains_pair(
            (#[trigger] entries[i]).0,
            entries[i].1,
        ) by {
            if i < entries.len() - 1 {
                assert(dl[i] == entries[i]);
                assert(spec_map_of(dl).contains_pair(entries[i].0, entries[i].1));
                assert(entries[i].0 != entries.last().0);
            }
        }
    }
}

/// The flush task's gate: a wake-up proceeds to flush only while the number
/// of distinct contributors is below the fleet-size ceiling; at or above it
/// the wake-up is skipped as back-pressure.
pub fn should_flush(identity_count: usize, ceiling: usize) -> (r: bool)
    ensures
        r == (identity_count < ceiling),
{
    identity_count < ceiling
}

/// Law: a flush's outputs line up position by position — the recipient list
/// and the payload's snapshot list have one entry per contributor, the
/// recipient list repeats nobody, and the k-th recipient is paired with the
/// k-th snapshot exactly as the window held them.
pub proof fn lemma_flush_pairing(w: &AggregationWindow)
    requires
        w.wf(),
    ensures
        w.ordered_identities().len() == w.ordered_snapshots().len(),
        forall|i: int, j: int|
            0 <= i < j < w.ordered_identities().len() ==> w.ordered_identities()[i]
                != w.ordered_identities()[j],
        forall|k: int|
            0 <= k < w.ordered_identities().len() ==> w.contents().contains_pair(
                w.ordered_identities()[k],
                w.ordered_snapshots()[k],
            ),
{
    lemma_map_of_pairs(w.entries@);
    assert forall|k: int| 0 <= k < w.ordered_identities().len() implies w.contents().contains_pair(
        w.ordered_identities()[k],
        w.ordered_snapshots()[k],
    ) by {
        assert(w.ordered_identities()[k] == w.entries@[k].0);
        assert(w.ordered_snapshots()[k] == w.entries@[k].1);
        assert(w.contents().contains_pair(w.entries@[k].0, w.entries@[k].1));
    }
}

/// Law: however concurrent `ingest` calls interleave — the lock serializes
/// them into some arbitrary order `ops` — a window that starts empty ends up
/// containing exactly the ingesting identities; re-ingestion from the same
/// identity overwrites rather than duplicates, so with distinct identities
/// the identity set's size equals the number of ingests.
pub proof fn lemma_ingest_interleaving(ops: Seq<(u64, StateSnapshot)>)
    ensures
        forall|id: u64| #[trigger]
            spec_apply_ingests(Map::empty(), ops).dom().contains(id) <==> exists|i: int|
                0 <= i < ops.len() && (#[trigger] ops[i]).0 == id,
        spec_apply_ingests(Map::empty(), ops).dom().finite(),
        (forall|i: int, j: int|
            0 <= i < j < ops.len() ==> (#[trigger] ops[i]).0 != (#[trigger] ops[j]).0)
            ==> spec_apply_ingests(Map::empty(), ops).dom().len() == ops.len(),
    decreases ops.len(),
{
    lemma_apply_ingests_is_map_of(ops);
    lemma_map_of_keys(ops);
    if forall|i: int, j: int|
        0 <= i < j < ops.len() ==> (#[trigger] ops[i]).0 != (#[trigger] ops[j]).0 {
        lemma_distinct_keys_count(ops);
    }
}

/// Ingesting into an empty window is the association-list mapping.
proof fn lemma_apply_ingests_is_map_of(ops: Seq<(u64, StateSnapshot)>)
    ensures
        spec_apply_ingests(Map::empty(), ops) == spec_map_of(ops),
    decreases ops.len(),
{
    if ops.len() > 0 {
        lemma_apply_ingests_is_map_of(ops.drop_last());
    }
}

} // verus!
