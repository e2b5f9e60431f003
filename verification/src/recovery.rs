//! Crash-recovery bookkeeping: the recovery states, the audit trail of
//! events, per-collection quarantine decisions and the summary report.

use std::collections::HashMap;

use vstd::prelude::*;
use vstd::std_specs::hash::spec_hash_map_iter;
use vstd::std_specs::iter::IteratorSpec;

use crate::clock::unix_time_ms;
use crate::codec::concat_str;
use crate::text::{decimal_nat, decimal_u64};
use crate::format::header::FileHeader;

verus! {

broadcast use vstd::std_specs::hash::group_hash_axioms;

/// Current phase of the recovery state machine.
#[derive(Debug, Clone, PartialEq, Eq)]
pub enum RecoveryState {
    /// File just opened, nothing verified yet.
    Cold,
    /// Verifying page 0, the WAL_ACTIVE flag and the shadow page.
    Checking,
    /// Replaying WAL records above the last checkpoint.
    RecoveringWal,
    /// Rebuilding the tier-0 index.
    RecoveringIdx,
    /// Isolating one or more corrupt collections.
    Quarantining,
    /// Recovery complete; the engine is ready.
    Warm,
    /// Recovery could not complete; manual repair required.
    Failed(String),
}

/// Severity of estimated data loss after recovery.
#[derive(Debug, Clone, Copy, PartialEq, Eq, Structural)]
pub enum DataLossSeverity {
    /// No data loss detected.
    NoLoss,
    /// Some uncommitted transactions were discarded.
    Minor,
    /// One or more committed transactions could not be replayed, or a
    /// collection was quarantined.
    Major,
}

/// One event of the recovery audit trail.
#[derive(Debug)]
pub struct RecoveryEvent {
    pub timestamp_ms: u64,
    pub kind: String,
    pub detail: String,
}

/// What an event says, without its time stamp.
pub open spec fn event_text(e: RecoveryEvent) -> (Seq<char>, Seq<char>) {
    (e.kind@, e.detail@)
}

impl RecoveryEvent {
    /// An event stamped with the current wall-clock time.
    pub fn new(kind: &str, detail: String) -> (e: Self)
        ensures
            e.kind@ == kind@,
            e.detail@ == detail@,
    {
        RecoveryEvent { timestamp_ms: unix_time_ms(), kind: kind.to_owned(), detail }
    }

    /// A field-by-field copy.
    pub fn duplicate(&self) -> (e: Self)
        ensures
            e.timestamp_ms == self.timestamp_ms,
            e.kind@ == self.kind@,
            e.detail@ == self.detail@,
    {
        RecoveryEvent {
            timestamp_ms: self.timestamp_ms,
            kind: self.kind.clone(),
            detail: self.detail.clone(),
        }
    }
}

/// Status of a collection after recovery.
#[derive(Debug, Clone, Copy, PartialEq, Eq, Structural)]
pub enum CollectionStatus {
    /// Collection recovered successfully.
    Recovered,
    /// Collection isolated because of corruption.
    Quarantined,
}

/// Summary of a recovery run.
#[derive(Debug)]
pub struct RecoveryReport {
    /// Number of WAL transactions replayed.
    pub recovered_txids: u64,
    /// Number of transactions discarded.
    pub discarded_txids: u64,
    /// One label per quarantined collection.
    pub quarantined_collections: Vec<String>,
    /// Estimated severity of data loss.
    pub data_loss_estimate: DataLossSeverity,
    /// Time taken, in milliseconds.
    pub duration_ms: u64,
    /// Full audit trail.
    pub events: Vec<RecoveryEvent>,
}

/// The ids that `m` marks as quarantined.
pub open spec fn quarantined_ids(m: Map<u32, CollectionStatus>) -> Set<u32> {
    Set::new(|id: u32| m.contains_key(id) && m[id] == CollectionStatus::Quarantined)
}

/// The report label of a quarantined collection: `coll_id=` and its id in
/// decimal.
pub open spec fn quarantine_label(id: u32) -> Seq<char> {
    "coll_id="@ + decimal_nat(id as nat)
}

/// Severity of a report: quarantine outweighs discarded transactions.
pub open spec fn severity_of(quarantined: nat, discarded: u64) -> DataLossSeverity {
    if quarantined > 0 {
        DataLossSeverity::Major
    } else if discarded > 0 {
        DataLossSeverity::Minor
    } else {
        DataLossSeverity::NoLoss
    }
}

/// Crash-recovery bookkeeping for one database file.
pub struct RecoveryEngine {
    path: String,
    header: Option<FileHeader>,
    recovery_log: Vec<RecoveryEvent>,
    collection_status: HashMap<u32, CollectionStatus>,
}

/// The keys of `v`'s first `n` entries whose status is `Quarantined`.
spec fn quarantined_prefix(v: Seq<(&u32, &CollectionStatus)>, n: int) -> Set<u32> {
    Set::new(|id: u32| exists|i: int| 0 <= i < n && *v[i].0 == id && *v[i].1 == CollectionStatus::Quarantined)
}

impl RecoveryEngine {
    /// The database path.
    pub closed spec fn spec_path(&self) -> Seq<char> {
        self.path@
    }

    /// The header read during checking, if any.
    pub closed spec fn spec_header(&self) -> Option<FileHeader> {
        self.header
    }

    /// The audit trail, without time stamps.
    pub closed spec fn spec_log(&self) -> Seq<(Seq<char>, Seq<char>)> {
        self.recovery_log@.map_values(|e: RecoveryEvent| event_text(e))
    }

    /// Per-collection decisions.
    pub closed spec fn spec_status(&self) -> Map<u32, CollectionStatus> {
        self.collection_status@
    }

    /// A fresh engine for the database at `path`: no header, no events,
    /// no decisions.
    pub fn new(path: &str) -> (r: Self)
        ensures
            r.spec_path() == path@,
            r.spec_header() is None,
            r.spec_log().len() == 0,
            r.spec_status() == Map::<u32, CollectionStatus>::empty(),
    {
        RecoveryEngine {
            path: path.to_owned(),
            header: None,
            recovery_log: Vec::new(),
            collection_status: HashMap::new(),
        }
    }

    /// The database path.
    pub fn path(&self) -> (r: &str)
        ensures
            r@ == self.spec_path(),
    {
        self.path.as_str()
    }

    /// The status recorded for `coll_id`, if any.
    pub fn collection_status(&self, coll_id: u32) -> (r: Option<CollectionStatus>)
        ensures
            r == (if self.spec_status().contains_key(coll_id) {
                Some(self.spec_status()[coll_id])
            } else {
                None
            }),
    {
        match self.collection_status.get(&coll_id) {
            Some(s) => Some(*s),
            None => None,
        }
    }

    /// The number of events logged so far.
    pub fn event_count(&self) -> (r: usize)
        ensures
            r == self.spec_log().len(),
    {
        self.recovery_log.len()
    }

    /// Append an event to the audit trail.
    fn log_event(&mut self, kind: &str, detail: String)
        ensures
            final(self).spec_log() == old(self).spec_log().push((kind@, detail@)),
            final(self).spec_status() == old(self).spec_status(),
            final(self).spec_path() == old(self).spec_path(),
            final(self).spec_header() == old(self).spec_header(),
    {
        let ghost before = self.recovery_log@;
        let event = RecoveryEvent::new(kind, detail);
        self.recovery_log.push(event);
        assert(self.recovery_log@.map_values(|e: RecoveryEvent| event_text(e)) =~= before.map_values(
            |e: RecoveryEvent| event_text(e),
        ).push((kind@, detail@)));
    }

    /// Isolate a corrupt collection so that the rest of the database stays
    /// accessible: the collection is marked `Quarantined` and a `quarantine`
    /// event is logged.
    pub fn quarantine_collection(&mut self, coll_id: u32) -> (r: CollectionStatus)
        ensures
            r == CollectionStatus::Quarantined,
            final(self).spec_status() == old(self).spec_status().insert(coll_id, CollectionStatus::Quarantined),
            final(self).spec_log().len() == old(self).spec_log().len() + 1,
            final(self).spec_log().take(old(self).spec_log().len() as int) == old(self).spec_log(),
            final(self).spec_log().last().0 == "quarantine"@,
            final(self).spec_log().last().1 == "Collection id="@ + decimal_nat(coll_id as nat)
                + " isolated due to corruption"@,
            final(self).spec_path() == old(self).spec_path(),
            final(self).spec_header() == old(self).spec_header(),
    {
        let digits = decimal_u64(coll_id as u64);
        let detail = concat_str("Collection id=".to_string(), digits.as_str());
        let detail = concat_str(detail, " isolated due to corruption");
        let ghost before = self.spec_log();
        self.log_event("quarantine", detail);
        assert(self.spec_log().take(before.len() as int) =~= before);
        self.collection_status.insert(coll_id, CollectionStatus::Quarantined);
        CollectionStatus::Quarantined
    }

    /// The ids of the quarantined collections, each once.
    fn quarantined_list(&self) -> (ids: Vec<u32>)
        ensures
            ids@.no_duplicates(),
            ids@.to_set() == quarantined_ids(self.spec_status()),
    {
        let m = &self.collection_status;
        let ghost v = spec_hash_map_iter(m).remaining();
        let mut ids: Vec<u32> = Vec::new();
        assert(ids@.to_set() =~= quarantined_prefix(v, 0));
        for pair in it: m.iter()
            invariant
                it.seq() == v,
                v == spec_hash_map_iter(m).remaining(),
                v.no_duplicates(),
                forall|i: int| 0 <= i < v.len() ==> m@.contains_key(*v[i].0) && m@[*v[i].0] == *v[i].1,
                ids@.no_duplicates(),
                ids@.to_set() == quarantined_prefix(v, it.index()),
        {
            let (id, st) = pair;
            let ghost k = it.index();
            let ghost before = ids@;
            assert(pair == v[k]);
            if *st == CollectionStatus::Quarantined {
                proof {
                    if ids@.to_set().contains(*id) {
                        let j = choose|j: int| 0 <= j < k && *v[j].0 == *id && *v[j].1 == CollectionStatus::Quarantined;
                        assert(v[j] == v[k]);
                    }
                    assert(!ids@.contains(*id));
                }
                ids.push(*id);
            }
            proof {
                broadcast use vstd::seq_lib::group_seq_properties;
                if *st == CollectionStatus::Quarantined {
                    assert(ids@ == before.push(*id));
                    assert forall|x: u32| ids@.to_set().contains(x) <==> before.to_set().contains(x) || x == *id by {
                        assert(ids@.contains(x) <==> before.contains(x) || x == *id);
                    }
                } else {
                    assert(ids@ == before);
                }
                assert forall|x: u32| #[trigger] quarantined_prefix(v, k + 1).contains(x) <==> quarantined_prefix(v, k).contains(x) || (x == *id && *st == CollectionStatus::Quarantined) by {
                    if quarantined_prefix(v, k + 1).contains(x) {
                        let i = choose|i: int| 0 <= i < k + 1 && *v[i].0 == x && *v[i].1 == CollectionStatus::Quarantined;
                        if i < k {
                            assert(quarantined_prefix(v, k).contains(x));
                        }
                    }
                    if quarantined_prefix(v, k).contains(x) {
                        let i = choose|i: int| 0 <= i < k && *v[i].0 == x && *v[i].1 == CollectionStatus::Quarantined;
                        assert(0 <= i < k + 1);
                    }
                    if x == *id && *st == CollectionStatus::Quarantined {
                        assert(*v[k].0 == x);
                    }
                }
                assert(ids@.to_set() =~= quarantined_prefix(v, k + 1));
            }
        }
        proof {
            assert forall|id: u32| quarantined_ids(m@).contains(id) implies quarantined_prefix(v, v.len() as int).contains(id) by {
                assert(m@.contains_key(id));
                assert(v.contains((&id, &m@[id])));
                let i = choose|i: int| 0 <= i < v.len() && v[i] == (&id, &m@[id]);
                assert(*v[i].0 == id);
            }
            assert(ids@.to_set() =~= quarantined_ids(m@));
        }
        ids
    }

    /// The summary of a run that replayed `recovered` transactions and
    /// discarded `discarded`, taking `duration_ms`: one label per
    /// quarantined collection, the severity (`Major` when a collection is
    /// quarantined, else `Minor` when transactions were discarded, else
    /// `NoLoss`) and a copy of the audit trail.
    pub fn generate_report(&self, recovered: u64, discarded: u64, duration_ms: u64) -> (r: RecoveryReport)
        ensures
            r.recovered_txids == recovered,
            r.discarded_txids == discarded,
            r.duration_ms == duration_ms,
            r.quarantined_collections@.len() == quarantined_ids(self.spec_status()).len(),
            exists|ids: Seq<u32>|
                {
                    &&& ids.no_duplicates()
                    &&& ids.to_set() == quarantined_ids(self.spec_status())
                    &&& ids.len() == r.quarantined_collections@.len()
                    &&& forall|k: int|
                        0 <= k < ids.len() ==> (#[trigger] r.quarantined_collections@[k])@
                            == quarantine_label(ids[k])
                },
            r.data_loss_estimate == severity_of(quarantined_ids(self.spec_status()).len(), discarded),
            r.events@.map_values(|e: RecoveryEvent| event_text(e)) == self.spec_log(),
    {
        let ids = self.quarantined_list();
        proof {
            ids@.unique_seq_to_set();
        }
        let mut labels: Vec<String> = Vec::new();
        let mut i: usize = 0;
        while i < ids.len()
            invariant
                i <= ids@.len(),
                labels@.len() == i,
                forall|k: int| 0 <= k < i ==> (#[trigger] labels@[k])@ == quarantine_label(ids@[k]),
            decreases ids@.len() - i,
        {
            let digits = decimal_u64(ids[i] as u64);
            labels.push(concat_str("coll_id=".to_string(), digits.as_str()));
            i = i + 1;
        }
        assert(ids@.len() == labels@.len());
        let severity = if labels.len() > 0 {
            DataLossSeverity::Major
        } else if discarded > 0 {
            DataLossSeverity::Minor
        } else {
            DataLossSeverity::NoLoss
        };
        let mut events: Vec<RecoveryEvent> = Vec::new();
        let mut j: usize = 0;
        while j < self.recovery_log.len()
            invariant
                j <= self.recovery_log@.len(),
                events@.len() == j,
                forall|x: int| 0 <= x < j ==> event_text(#[trigger] events@[x]) == event_text(self.recovery_log@[x]),
            decreases self.recovery_log@.len() - j,
        {
            events.push(self.recovery_log[j].duplicate());
            j = j + 1;
        }
        assert(events@.map_values(|e: RecoveryEvent| event_text(e)) =~= self.spec_log());
        RecoveryReport {
            recovered_txids: recovered,
            discarded_txids: discarded,
            quarantined_collections: labels,
            data_loss_estimate: severity,
            duration_ms,
            events,
        }
    }
}

} // verus!
