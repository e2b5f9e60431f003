//! Multi-version concurrency control: transaction ids, snapshots, version
//! chains and the hybrid logical clock.
//!
//! Every document write adds a version stamped with a transaction id. A
//! reader sees, for each document, the newest version its snapshot can see:
//! one stamped at or before the snapshot and not by a transaction that was
//! still running when the snapshot was taken.

pub mod change_stream;
pub mod hlc;
pub mod session;

use std::collections::{HashMap, HashSet};

use vstd::prelude::*;
use vstd::std_specs::hash::spec_hash_map_iter;
use vstd::std_specs::iter::IteratorSpec;
use vstd::utf8::{decode_utf8, valid_utf8};

use crate::clock::unix_time_us;
use crate::codec::copy_range;
use crate::error::{OvnError, OvnResult};
use crate::format::obe::value::bytes_equal;

verus! {

broadcast use vstd::std_specs::hash::group_hash_axioms;

/// Transaction id generator: a counter seeded with the clock.
pub struct TxIdGenerator {
    counter: u64,
}

impl TxIdGenerator {
    /// The counter value.
    pub closed spec fn spec_counter(&self) -> u64 {
        self.counter
    }

    /// A generator seeded with the current time in microseconds, so that ids
    /// keep growing across restarts.
    pub fn new() -> (g: Self) {
        TxIdGenerator { counter: unix_time_us() }
    }

    /// Return the next id and advance the counter by one (wrapping at
    /// `u64::MAX`, as `fetch_add` does).
    pub fn next(&mut self) -> (id: u64)
        ensures
            id == old(self).spec_counter(),
            final(self).spec_counter() == if id == u64::MAX {
                0
            } else {
                (id + 1) as u64
            },
    {
        let v = self.counter;
        self.counter = if v == u64::MAX {
            0
        } else {
            v + 1
        };
        v
    }

    /// The counter value, without advancing it.
    pub fn current(&self) -> (id: u64)
        ensures
            id == self.spec_counter(),
    {
        self.counter
    }
}

impl Default for TxIdGenerator {
    fn default() -> (g: Self) {
        TxIdGenerator::new()
    }
}

/// Whether a version stamped `v` is visible to a snapshot taken at `txid`
/// while the transactions in `active` were running.
pub open spec fn visible(txid: u64, active: Set<u64>, v: u64) -> bool {
    v <= txid && !active.contains(v)
}

/// A consistent point-in-time view.
#[derive(Debug)]
pub struct Snapshot {
    /// The transaction id at which the snapshot was taken.
    pub txid: u64,
    /// Transactions still running when it was taken (invisible to it).
    pub active_txids: HashSet<u64>,
}

impl Snapshot {
    /// Whether a version stamped `version_txid` is visible: stamped at or
    /// before the snapshot, and not by a transaction then running.
    pub fn is_visible(&self, version_txid: u64) -> (b: bool)
        ensures
            b == visible(self.txid, self.active_txids@, version_txid),
    {
        version_txid <= self.txid && !self.active_txids.contains(&version_txid)
    }
}

/// The keys of a read set, as a set.
pub open spec fn key_set(s: Seq<Vec<u8>>) -> Set<Seq<u8>> {
    Set::new(|k: Seq<u8>| exists|i: int| 0 <= i < s.len() && (#[trigger] s[i])@ == k)
}

/// The map a write set denotes: each key to its value, later entries
/// overriding earlier ones.
pub open spec fn pairs_map(s: Seq<(Vec<u8>, Vec<u8>)>) -> Map<Seq<u8>, Seq<u8>>
    decreases s.len(),
{
    if s.len() == 0 {
        Map::empty()
    } else {
        pairs_map(s.drop_last()).insert(s.last().0@, s.last().1@)
    }
}

/// Overwriting the last entry of a key is inserting into the map.
proof fn lemma_pairs_map_update(s: Seq<(Vec<u8>, Vec<u8>)>, i: int, k: Vec<u8>, v: Vec<u8>)
    requires
        0 <= i < s.len(),
        s[i].0@ == k@,
        forall|j: int| i < j < s.len() ==> (#[trigger] s[j]).0@ != k@,
    ensures
        pairs_map(s.update(i, (k, v))) == pairs_map(s).insert(k@, v@),
    decreases s.len(),
{
    let t = s.update(i, (k, v));
    if i == s.len() - 1 {
        assert(t.drop_last() =~= s.drop_last());
        assert(pairs_map(t) =~= pairs_map(s).insert(k@, v@));
    } else {
        assert(t.drop_last() =~= s.drop_last().update(i, (k, v)));
        assert(s.last() == s[s.len() - 1]);
        lemma_pairs_map_update(s.drop_last(), i, k, v);
        assert(pairs_map(t) =~= pairs_map(s).insert(k@, v@));
    }
}

/// A transaction: its id, its snapshot, and the keys it read and wrote.
#[derive(Debug)]
pub struct Transaction {
    /// Transaction id.
    pub txid: u64,
    /// The snapshot it reads from.
    pub snapshot: Snapshot,
    /// Keys read (for conflict detection), each once.
    pub read_set: Vec<Vec<u8>>,
    /// Keys written, with the value last written to each.
    pub write_set: Vec<(Vec<u8>, Vec<u8>)>,
    /// Whether it has been committed.
    pub committed: bool,
    /// Whether it has been aborted.
    pub aborted: bool,
}

impl Transaction {
    /// A running transaction with empty read and write sets.
    pub fn new(txid: u64, snapshot: Snapshot) -> (t: Self)
        ensures
            t.txid == txid,
            t.snapshot == snapshot,
            t.read_set@.len() == 0,
            t.write_set@.len() == 0,
            !t.committed,
            !t.aborted,
    {
        Transaction {
            txid,
            snapshot,
            read_set: Vec::new(),
            write_set: Vec::new(),
            committed: false,
            aborted: false,
        }
    }

    /// Record that `key` was read: it is appended unless already there.
    pub fn record_read(&mut self, key: Vec<u8>)
        ensures
            key_set(final(self).read_set@) == key_set(old(self).read_set@).insert(key@),
            final(self).read_set@ == if key_set(old(self).read_set@).contains(key@) {
                old(self).read_set@
            } else {
                old(self).read_set@.push(key)
            },
            final(self).txid == old(self).txid,
            final(self).snapshot == old(self).snapshot,
            final(self).write_set == old(self).write_set,
            final(self).committed == old(self).committed,
            final(self).aborted == old(self).aborted,
    {
        let mut i: usize = 0;
        while i < self.read_set.len()
            invariant
                i <= self.read_set@.len(),
                forall|j: int| 0 <= j < i ==> (#[trigger] self.read_set@[j])@ != key@,
            decreases self.read_set@.len() - i,
        {
            if bytes_equal(self.read_set[i].as_slice(), key.as_slice()) {
                assert(key_set(self.read_set@).contains(key@));
                assert(key_set(self.read_set@).insert(key@) =~= key_set(self.read_set@));
                return;
            }
            i = i + 1;
        }
        let ghost before = self.read_set@;
        assert(!key_set(before).contains(key@));
        self.read_set.push(key);
        proof {
            assert forall|k: Seq<u8>| #[trigger] key_set(self.read_set@).contains(k) == key_set(
                before,
            ).insert(key@).contains(k) by {
                if key_set(before).contains(k) {
                    let j = choose|j: int| 0 <= j < before.len() && (#[trigger] before[j])@ == k;
                    assert(self.read_set@[j] == before[j]);
                }
                if k == key@ {
                    assert(self.read_set@[before.len() as int]@ == k);
                }
                if key_set(self.read_set@).contains(k) {
                    let j = choose|j: int|
                        0 <= j < self.read_set@.len() && (#[trigger] self.read_set@[j])@ == k;
                    if j < before.len() {
                        assert(before[j] == self.read_set@[j]);
                    }
                }
            }
            assert(key_set(self.read_set@) =~= key_set(before).insert(key@));
        }
    }

    /// Record that `value` was written under `key`.
    pub fn record_write(&mut self, key: Vec<u8>, value: Vec<u8>)
        ensures
            pairs_map(final(self).write_set@) == pairs_map(old(self).write_set@).insert(key@, value@),
            final(self).txid == old(self).txid,
            final(self).snapshot == old(self).snapshot,
            final(self).read_set == old(self).read_set,
            final(self).committed == old(self).committed,
            final(self).aborted == old(self).aborted,
    {
        let mut i: usize = self.write_set.len();
        let mut found = false;
        while i > 0 && !found
            invariant
                i <= self.write_set@.len(),
                found ==> i > 0 && self.write_set@[i - 1].0@ == key@,
                forall|j: int| i <= j < self.write_set@.len() ==> (#[trigger] self.write_set@[j]).0@ != key@,
            decreases i + (if found { 0int } else { 1int }),
        {
            if bytes_equal(self.write_set[i - 1].0.as_slice(), key.as_slice()) {
                found = true;
            } else {
                i = i - 1;
            }
        }
        let ghost before = self.write_set@;
        if found {
            proof {
                lemma_pairs_map_update(before, i - 1, key, value);
            }
            self.write_set[i - 1] = (key, value);
        } else {
            self.write_set.push((key, value));
            proof {
                assert(self.write_set@.drop_last() =~= before);
            }
        }
    }
}

/// One version of a document.
#[derive(Debug, Clone)]
pub struct VersionEntry {
    /// Transaction that created the version.
    pub txid: u64,
    /// OBE-encoded document bytes.
    pub data: Vec<u8>,
    /// Whether the version is a deletion tombstone.
    pub tombstone: bool,
}

/// The version a snapshot reads from a chain (newest first): the first
/// visible one, unless it is a tombstone.
pub open spec fn chain_read(chain: Seq<VersionEntry>, txid: u64, active: Set<u64>) -> Option<VersionEntry>
    decreases chain.len(),
{
    if chain.len() == 0 {
        None
    } else if visible(txid, active, chain[0].txid) {
        if chain[0].tombstone {
            None
        } else {
            Some(chain[0])
        }
    } else {
        chain_read(chain.drop_first(), txid, active)
    }
}

/// Index of the first chain held for `key`, searching from `i`.
pub open spec fn chain_index(chains: Seq<(Vec<u8>, Vec<VersionEntry>)>, key: Seq<u8>, i: nat) -> Option<nat>
    decreases chains.len() - i,
{
    if i >= chains.len() {
        None
    } else if chains[i as int].0@ == key {
        Some(i)
    } else {
        chain_index(chains, key, i + 1)
    }
}

/// The versions held for `key`, newest first.
pub open spec fn chain_of(chains: Seq<(Vec<u8>, Vec<VersionEntry>)>, key: Seq<u8>) -> Seq<VersionEntry> {
    match chain_index(chains, key, 0) {
        Some(i) => chains[i as int].1@,
        None => Seq::empty(),
    }
}

/// The first version of `chain` from `j` on committed after a snapshot at
/// `txid` by a transaction not running at it.
pub open spec fn conflict_in(chain: Seq<VersionEntry>, txid: u64, active: Set<u64>, j: nat) -> Option<u64>
    decreases chain.len() - j,
{
    if j >= chain.len() {
        None
    } else if chain[j as int].txid > txid && !active.contains(chain[j as int].txid) {
        Some(chain[j as int].txid)
    } else {
        conflict_in(chain, txid, active, j + 1)
    }
}

/// The first read key (from `i` on, in read order) with such a version,
/// and that version's id.
pub open spec fn first_conflict(
    keys: Seq<Vec<u8>>,
    chains: Seq<(Vec<u8>, Vec<VersionEntry>)>,
    txid: u64,
    active: Set<u64>,
    i: nat,
) -> Option<(Seq<u8>, u64)>
    decreases keys.len() - i,
{
    if i >= keys.len() {
        None
    } else {
        match conflict_in(chain_of(chains, keys[i as int]@), txid, active, 0) {
            Some(w) => Some((keys[i as int]@, w)),
            None => first_conflict(keys, chains, txid, active, i + 1),
        }
    }
}

/// How many versions garbage collection keeps of a chain: up to and
/// including the first version after the newest that is below `horizon`.
pub open spec fn keep_len(chain: Seq<VersionEntry>, horizon: u64, i: nat) -> nat
    decreases chain.len() - i,
{
    if i >= chain.len() {
        chain.len()
    } else if i >= 1 && chain[i as int].txid < horizon {
        i + 1
    } else {
        keep_len(chain, horizon, i + 1)
    }
}

/// `h` is the smallest of `ids`, or `dflt` when there is none.
pub open spec fn is_min_or(h: u64, ids: Set<u64>, dflt: u64) -> bool {
    if ids == Set::<u64>::empty() {
        h == dflt
    } else {
        ids.contains(h) && forall|y: u64| #[trigger] ids.contains(y) ==> h <= y
    }
}

/// `String::from_utf8_lossy`: bytes as text, invalid sequences replaced by
/// U+FFFD. Named, as its result depends on the bytes alone.
pub uninterp spec fn utf8_lossy_of(b: Seq<u8>) -> Seq<char>;

/// `String::from_utf8_lossy(b).to_string()`: valid UTF-8 comes back
/// unchanged (decoded); otherwise the text is `utf8_lossy_of(b)`.
#[verifier::external_body]
fn utf8_lossy(b: &[u8]) -> (s: String)
    ensures
        s@ == utf8_lossy_of(b@),
        valid_utf8(b@) ==> s@ == decode_utf8(b@),
{
    String::from_utf8_lossy(b).to_string()
}

/// How many versions the chains hold in all.
pub open spec fn total_versions(chains: Seq<(Vec<u8>, Vec<VersionEntry>)>) -> nat
    decreases chains.len(),
{
    if chains.len() == 0 {
        0
    } else {
        total_versions(chains.drop_last()) + chains.last().1@.len()
    }
}

/// `n` capped at `usize::MAX`.
pub open spec fn cap_usize(n: int) -> int {
    if n <= usize::MAX {
        n
    } else {
        usize::MAX as int
    }
}

/// Coordinates snapshots, transactions, version chains and garbage
/// collection.
pub struct MvccManager {
    txid_gen: TxIdGenerator,
    active_transactions: HashMap<u64, Transaction>,
    version_chains: Vec<(Vec<u8>, Vec<VersionEntry>)>,
    horizon_txid: u64,
}

impl MvccManager {
    /// The running transactions, by id.
    pub closed spec fn spec_active(&self) -> Map<u64, Transaction> {
        self.active_transactions@
    }

    /// The ids of the running transactions.
    pub open spec fn spec_active_ids(&self) -> Set<u64> {
        self.spec_active().dom()
    }

    /// The version chains, keyed by document key.
    pub closed spec fn spec_chains(&self) -> Seq<(Vec<u8>, Vec<VersionEntry>)> {
        self.version_chains@
    }

    /// The horizon: the smallest running id (or the generator's counter).
    pub closed spec fn spec_horizon(&self) -> u64 {
        self.horizon_txid
    }

    /// The id generator's counter.
    pub closed spec fn spec_counter(&self) -> u64 {
        self.txid_gen.spec_counter()
    }

    /// Every running transaction is stored under its own id.
    pub open spec fn wf(&self) -> bool {
        forall|k: u64| #[trigger] self.spec_active().contains_key(k) ==> self.spec_active()[k].txid == k
    }

    /// A manager with no transactions and no versions.
    pub fn new() -> (m: Self)
        ensures
            m.wf(),
            m.spec_active() == Map::<u64, Transaction>::empty(),
            m.spec_chains().len() == 0,
            m.spec_horizon() == 0,
    {
        MvccManager {
            txid_gen: TxIdGenerator::new(),
            active_transactions: HashMap::new(),
            version_chains: Vec::new(),
            horizon_txid: 0,
        }
    }

    /// The set of running ids.
    fn active_id_set(&self) -> (s: HashSet<u64>)
        ensures
            s@ == self.spec_active_ids(),
    {
        let m = &self.active_transactions;
        let ghost v = spec_hash_map_iter(m).remaining();
        let mut s: HashSet<u64> = HashSet::new();
        for pair in it: m.iter()
            invariant
                it.seq() == v,
                v == spec_hash_map_iter(m).remaining(),
                forall|i: int| 0 <= i < v.len() ==> m@.contains_key(*v[i].0) && m@[*v[i].0] == *v[i].1,
                forall|x: u64| #[trigger] s@.contains(x) <==> exists|i: int| 0 <= i < it.index() && *v[i].0 == x,
        {
            let (id, _) = pair;
            let ghost k = it.index();
            proof {
                assert(pair == v[k]);
            }
            s.insert(*id);
            proof {
                assert forall|x: u64| #[trigger] s@.contains(x) <==> exists|i: int| 0 <= i < k + 1 && *v[i].0 == x by {
                    if exists|i: int| 0 <= i < k + 1 && *v[i].0 == x {
                        let i = choose|i: int| 0 <= i < k + 1 && *v[i].0 == x;
                        if i < k {
                            assert(exists|j: int| 0 <= j < k && *v[j].0 == x);
                        }
                    }
                    if x == *id {
                        assert(*v[k].0 == x);
                    }
                }
            }
        }
        proof {
            assert forall|x: u64| #[trigger] s@.contains(x) <==> self.spec_active_ids().contains(x) by {
                if self.spec_active_ids().contains(x) {
                    assert(v.contains((&x, &m@[x])));
                    let i = choose|i: int| 0 <= i < v.len() && v[i] == (&x, &m@[x]);
                    assert(*v[i].0 == x);
                }
            }
            assert(s@ =~= self.spec_active_ids());
        }
        s
    }

    /// Recompute the horizon: the smallest running id, or the generator's
    /// counter when nothing runs.
    fn update_horizon(&mut self)
        ensures
            is_min_or(final(self).spec_horizon(), old(self).spec_active_ids(), old(self).spec_counter()),
            final(self).spec_active() == old(self).spec_active(),
            final(self).spec_chains() == old(self).spec_chains(),
            final(self).spec_counter() == old(self).spec_counter(),
    {
        let mut low = self.txid_gen.current();
        let mut seen = false;
        let m = &self.active_transactions;
        let ghost v = spec_hash_map_iter(m).remaining();
        for pair in it: m.iter()
            invariant
                it.seq() == v,
                v == spec_hash_map_iter(m).remaining(),
                forall|i: int| 0 <= i < v.len() ==> m@.contains_key(*v[i].0) && m@[*v[i].0] == *v[i].1,
                seen == (it.index() > 0),
                !seen ==> low == self.txid_gen.spec_counter(),
                seen ==> exists|i: int| 0 <= i < it.index() && *v[i].0 == low,
                seen ==> forall|i: int| 0 <= i < it.index() ==> low <= *v[i].0,
        {
            let (id, _) = pair;
            let ghost k = it.index();
            proof {
                assert(pair == v[k]);
            }
            if !seen || *id < low {
                low = *id;
                proof {
                    assert(*v[k].0 == low);
                }
            }
            seen = true;
        }
        assert(is_min_or(low, self.spec_active_ids(), self.txid_gen.spec_counter())) by {
            let ids = self.spec_active_ids();
            if ids == Set::<u64>::empty() {
                if v.len() > 0 {
                    assert(m@.contains_key(*v[0].0));
                    assert(ids.contains(*v[0].0));
                }
            } else {
                assert(exists|x: u64| ids.contains(x)) by {
                    if !(exists|x: u64| ids.contains(x)) {
                        assert(ids =~= Set::<u64>::empty());
                    }
                }
                let x = choose|x: u64| ids.contains(x);
                assert(v.contains((&x, &m@[x])));
                assert(seen);
                assert forall|y: u64| #[trigger] ids.contains(y) implies low <= y by {
                    assert(v.contains((&y, &m@[y])));
                    let j2 = choose|j2: int| 0 <= j2 < v.len() && v[j2] == (&y, &m@[y]);
                    assert(low <= *v[j2].0);
                }
                assert(ids.contains(low)) by {
                    let i = choose|i: int| 0 <= i < v.len() && *v[i].0 == low;
                    assert(m@.contains_key(*v[i].0));
                }
            }
        }
        self.horizon_txid = low;
    }

    /// Begin a transaction: take the next id and a snapshot of the ids
    /// running now, and register it as running.
    pub fn begin_transaction(&mut self) -> (t: Transaction)
        requires
            old(self).wf(),
        ensures
            final(self).wf(),
            t.txid == old(self).spec_counter(),
            t.snapshot.txid == t.txid,
            t.snapshot.active_txids@ == old(self).spec_active_ids(),
            t.read_set@.len() == 0 && t.write_set@.len() == 0 && !t.committed && !t.aborted,
            final(self).spec_active() == old(self).spec_active().insert(t.txid, final(self).spec_active()[t.txid]),
            final(self).spec_active()[t.txid].snapshot.txid == t.txid,
            final(self).spec_active()[t.txid].snapshot.active_txids@ == old(self).spec_active_ids(),
            final(self).spec_active()[t.txid].txid == t.txid,
            final(self).spec_active()[t.txid].read_set@.len() == 0,
            final(self).spec_active()[t.txid].write_set@.len() == 0,
            final(self).spec_chains() == old(self).spec_chains(),
            is_min_or(final(self).spec_horizon(), final(self).spec_active_ids(), final(self).spec_counter()),
    {
        let txid = self.txid_gen.next();
        let ids = self.active_id_set();
        let ids_copy = self.active_id_set();
        let txn = Transaction::new(txid, Snapshot { txid, active_txids: ids });
        let stored = Transaction::new(txid, Snapshot { txid, active_txids: ids_copy });
        let ghost before = self.spec_active();
        assert(before == old(self).spec_active());
        self.active_transactions.insert(txid, stored);
        assert(self.spec_active() == before.insert(txid, stored));
        assert(self.wf());
        self.update_horizon();
        txn
    }

    /// The first version of `chain` committed after `snap` by a
    /// transaction not running at it.
    fn chain_conflict(chain: &Vec<VersionEntry>, snap: &Snapshot) -> (r: Option<u64>)
        ensures
            r == conflict_in(chain@, snap.txid, snap.active_txids@, 0),
    {
        let mut v: usize = 0;
        while v < chain.len()
            invariant
                v <= chain@.len(),
                conflict_in(chain@, snap.txid, snap.active_txids@, 0) == conflict_in(
                    chain@,
                    snap.txid,
                    snap.active_txids@,
                    v as nat,
                ),
            decreases chain@.len() - v,
        {
            let vt = chain[v].txid;
            if vt > snap.txid && !snap.active_txids.contains(&vt) {
                return Some(vt);
            }
            v = v + 1;
        }
        None
    }

    /// The first key read by `txn` with a conflicting version: its position
    /// in the read set and the version's id.
    fn find_conflict(&self, txn: &Transaction) -> (r: Option<(usize, u64)>)
        ensures
            match first_conflict(
                txn.read_set@,
                self.spec_chains(),
                txn.snapshot.txid,
                txn.snapshot.active_txids@,
                0,
            ) {
                Some((k, w)) => r matches Some((i, x)) && i < txn.read_set@.len() && txn.read_set@[i as int]@
                    == k && x == w,
                None => r is None,
            },
    {
        let mut i: usize = 0;
        while i < txn.read_set.len()
            invariant
                i <= txn.read_set@.len(),
                first_conflict(
                    txn.read_set@,
                    self.spec_chains(),
                    txn.snapshot.txid,
                    txn.snapshot.active_txids@,
                    0,
                ) == first_conflict(
                    txn.read_set@,
                    self.spec_chains(),
                    txn.snapshot.txid,
                    txn.snapshot.active_txids@,
                    i as nat,
                ),
            decreases txn.read_set@.len() - i,
        {
            proof {
                lemma_chain_index(self.version_chains@, txn.read_set@[i as int]@, 0);
            }
            match self.find_chain(txn.read_set[i].as_slice()) {
                Some(c) => {
                    match Self::chain_conflict(&self.version_chains[c].1, &txn.snapshot) {
                        Some(w) => return Some((i, w)),
                        None => {},
                    }
                },
                None => {
                    assert(chain_of(self.spec_chains(), txn.read_set@[i as int]@) =~= Seq::<VersionEntry>::empty());
                },
            }
            i = i + 1;
        }
        None
    }

    /// Record on the running transaction `txid` that `key` was read, so that
    /// its commit checks the key for conflicts. `false`, changing nothing,
    /// when `txid` is not running.
    pub fn record_read(&mut self, txid: u64, key: Vec<u8>) -> (found: bool)
        requires
            old(self).wf(),
        ensures
            final(self).wf(),
            final(self).spec_chains() == old(self).spec_chains(),
            final(self).spec_horizon() == old(self).spec_horizon(),
            final(self).spec_counter() == old(self).spec_counter(),
            found == old(self).spec_active().contains_key(txid),
            !found ==> final(self).spec_active() == old(self).spec_active(),
            found ==> {
                let t0 = old(self).spec_active()[txid];
                let t1 = final(self).spec_active()[txid];
                &&& final(self).spec_active() == old(self).spec_active().insert(txid, t1)
                &&& t1.read_set@ == (if key_set(t0.read_set@).contains(key@) {
                    t0.read_set@
                } else {
                    t0.read_set@.push(key)
                })
                &&& t1.txid == t0.txid && t1.snapshot == t0.snapshot && t1.write_set == t0.write_set
                &&& t1.committed == t0.committed && t1.aborted == t0.aborted
            },
    {
        match self.active_transactions.remove(&txid) {
            None => {
                assert(old(self).spec_active().remove(txid) =~= old(self).spec_active());
                false
            },
            Some(t) => {
                let mut t = t;
                t.record_read(key);
                self.active_transactions.insert(txid, t);
                assert(self.spec_active() =~= old(self).spec_active().insert(txid, t));
                true
            },
        }
    }

    /// Commit a running transaction. It is refused with `TransactionAborted`
    /// when `txid` is not running. Otherwise the transaction stops running,
    /// and the commit is refused with `WriteConflict` when a key it read has
    /// a version committed after its snapshot by a transaction not running
    /// at the snapshot (the first such key and version are reported).
    pub fn commit(&mut self, txid: u64) -> (r: OvnResult<()>)
        requires
            old(self).wf(),
        ensures
            final(self).wf(),
            final(self).spec_chains() == old(self).spec_chains(),
            !old(self).spec_active().contains_key(txid) ==> (r matches Err(
                OvnError::TransactionAborted { txid: t, reason: _ },
            ) && t == txid) && final(self).spec_active() == old(self).spec_active(),
            old(self).spec_active().contains_key(txid) ==> {
                let txn = old(self).spec_active()[txid];
                &&& final(self).spec_active() == old(self).spec_active().remove(txid)
                &&& is_min_or(final(self).spec_horizon(), final(self).spec_active_ids(), final(self).spec_counter())
                &&& match first_conflict(
                    txn.read_set@,
                    old(self).spec_chains(),
                    txn.snapshot.txid,
                    txn.snapshot.active_txids@,
                    0,
                ) {
                    Some((key, w)) => r matches Err(
                        OvnError::WriteConflict { doc_id: d, winner_txid: wt, loser_txid: l },
                    ) && d@ == utf8_lossy_of(key) && wt == w && l == txid,
                    None => r is Ok,
                }
            },
    {
        let conflict = match self.active_transactions.get(&txid) {
            None => {
                return Err(OvnError::TransactionAborted { txid, reason: "Transaction not found".to_string() });
            },
            Some(t) => match self.find_conflict(t) {
                Some((ki, w)) => Some((utf8_lossy(t.read_set[ki].as_slice()), w)),
                None => None,
            },
        };
        self.active_transactions.remove(&txid);
        self.update_horizon();
        match conflict {
            Some((doc_id, winner_txid)) => Err(OvnError::WriteConflict { doc_id, winner_txid, loser_txid: txid }),
            None => Ok(()),
        }
    }

    /// Abort a transaction: it no longer runs.
    pub fn abort(&mut self, txid: u64)
        requires
            old(self).wf(),
        ensures
            final(self).wf(),
            final(self).spec_active() == old(self).spec_active().remove(txid),
            final(self).spec_chains() == old(self).spec_chains(),
            is_min_or(final(self).spec_horizon(), final(self).spec_active_ids(), final(self).spec_counter()),
    {
        self.active_transactions.remove(&txid);
        assert(self.spec_active() == old(self).spec_active().remove(txid));
        assert(self.wf());
        self.update_horizon();
    }

    /// Position of the chain held for `key`.
    fn find_chain(&self, key: &[u8]) -> (r: Option<usize>)
        ensures
            match chain_index(self.spec_chains(), key@, 0) {
                Some(i) => r matches Some(x) && x == i,
                None => r is None,
            },
    {
        let mut c: usize = 0;
        while c < self.version_chains.len()
            invariant
                c <= self.version_chains@.len(),
                chain_index(self.version_chains@, key@, 0) == chain_index(self.version_chains@, key@, c as nat),
            decreases self.version_chains@.len() - c,
        {
            if bytes_equal(self.version_chains[c].0.as_slice(), key) {
                return Some(c);
            }
            c = c + 1;
        }
        None
    }

    /// Add a version of `key` as its newest.
    pub fn add_version(&mut self, key: Vec<u8>, entry: VersionEntry)
        requires
            old(self).wf(),
        ensures
            final(self).wf(),
            chain_of(final(self).spec_chains(), key@) == seq![entry] + chain_of(old(self).spec_chains(), key@),
            forall|k: Seq<u8>| k != key@ ==> chain_of(final(self).spec_chains(), k) == chain_of(
                old(self).spec_chains(),
                k,
            ),
            final(self).spec_active() == old(self).spec_active(),
            final(self).spec_horizon() == old(self).spec_horizon(),
            final(self).spec_counter() == old(self).spec_counter(),
    {
        let ghost before = self.version_chains@;
        proof {
            lemma_chain_index(before, key@, 0);
        }
        match self.find_chain(key.as_slice()) {
            Some(c) => {
                let (k, mut chain) = self.version_chains.remove(c);
                let ghost old_chain = chain@;
                chain.insert(0, entry);
                self.version_chains.insert(c, (k, chain));
                proof {
                    let after = self.version_chains@;
                    assert(after =~= before.update(c as int, (k, chain)));
                    assert(chain@ =~= seq![entry] + old_chain);
                    lemma_chain_index_update(before, c as int, (k, chain));
                }
            },
            None => {
                let mut chain: Vec<VersionEntry> = Vec::new();
                chain.push(entry);
                self.version_chains.push((key, chain));
                proof {
                    let after = self.version_chains@;
                    lemma_chain_index_push(before, (key, chain));
                    assert(chain@ =~= seq![entry] + Seq::<VersionEntry>::empty());
                }
            },
        }
        assert(self.spec_active() == old(self).spec_active());
    }

    /// The version of `key` the snapshot reads: the newest visible one,
    /// unless it is a tombstone.
    pub fn read_version(&self, key: &[u8], snapshot: &Snapshot) -> (r: Option<VersionEntry>)
        ensures
            match chain_read(chain_of(self.spec_chains(), key@), snapshot.txid, snapshot.active_txids@) {
                Some(e) => r matches Some(v) && v.txid == e.txid && v.data@ == e.data@ && !v.tombstone,
                None => r is None,
            },
    {
        proof {
            lemma_chain_index(self.version_chains@, key@, 0);
        }
        let c = match self.find_chain(key) {
            Some(c) => c,
            None => return None,
        };
        let chain = &self.version_chains[c].1;
        assert(chain@ == chain_of(self.spec_chains(), key@));
        assert(chain@.skip(0) =~= chain@);
        let mut i: usize = 0;
        while i < chain.len()
            invariant
                i <= chain@.len(),
                chain@ == chain_of(self.spec_chains(), key@),
                chain_read(chain@, snapshot.txid, snapshot.active_txids@) == chain_read(
                    chain@.skip(i as int),
                    snapshot.txid,
                    snapshot.active_txids@,
                ),
            decreases chain@.len() - i,
        {
            proof {
                assert(chain@.skip(i as int).drop_first() =~= chain@.skip(i + 1));
                assert(chain@.skip(i as int)[0] == chain@[i as int]);
            }
            let v = &chain[i];
            if snapshot.is_visible(v.txid) {
                if v.tombstone {
                    return None;
                }
                let data = copy_range(v.data.as_slice(), 0, v.data.len());
                assert(data@ =~= v.data@);
                return Some(VersionEntry { txid: v.txid, data, tombstone: false });
            }
            i = i + 1;
        }
        None
    }

    /// Garbage-collect old versions: each chain keeps its newest version and
    /// everything down to the first later one stamped below the horizon.
    /// Returns how many versions were dropped (saturating at `usize::MAX`).
    pub fn gc(&mut self) -> (purged: usize)
        requires
            old(self).wf(),
        ensures
            final(self).wf(),
            final(self).spec_chains().len() == old(self).spec_chains().len(),
            forall|i: int|
                0 <= i < old(self).spec_chains().len() ==> {
                    let (k0, c0) = #[trigger] old(self).spec_chains()[i];
                    let (k1, c1) = final(self).spec_chains()[i];
                    k1 == k0 && c1@ == c0@.take(keep_len(c0@, old(self).spec_horizon(), 0) as int)
                },
            final(self).spec_active() == old(self).spec_active(),
            final(self).spec_horizon() == old(self).spec_horizon(),
            final(self).spec_counter() == old(self).spec_counter(),
            purged == cap_usize(total_versions(old(self).spec_chains()) - total_versions(final(self).spec_chains())),
    {
        let horizon = self.horizon_txid;
        let mut purged: usize = 0;
        let ghost orig = self.version_chains@;
        assert(orig.take(0) =~= Seq::<(Vec<u8>, Vec<VersionEntry>)>::empty());
        assert(self.version_chains@.take(0) =~= Seq::<(Vec<u8>, Vec<VersionEntry>)>::empty());
        let mut i: usize = 0;
        while i < self.version_chains.len()
            invariant
                i <= self.version_chains@.len(),
                self.version_chains@.len() == old(self).version_chains@.len(),
                horizon == old(self).horizon_txid,
                self.active_transactions == old(self).active_transactions,
                self.txid_gen == old(self).txid_gen,
                self.horizon_txid == old(self).horizon_txid,
                forall|j: int|
                    0 <= j < old(self).version_chains@.len() ==> {
                        let (k0, c0) = #[trigger] old(self).version_chains@[j];
                        let (k1, c1) = self.version_chains@[j];
                        k1 == k0 && (j < i ==> c1@ == c0@.take(keep_len(c0@, horizon, 0) as int)) && (j >= i
                            ==> c1@ == c0@)
                    },
                orig == old(self).version_chains@,
                purged == cap_usize(total_versions(orig.take(i as int)) - total_versions(self.version_chains@.take(i as int))),
            decreases old(self).version_chains@.len() - i,
        {
            let ghost before = self.version_chains@;
            let ghost p0 = purged;
            let (k, mut chain) = self.version_chains.remove(i);
            let ghost c0 = chain@;
            let keep = Self::keep_count(&chain, horizon);
            proof {
                lemma_keep_len(c0, horizon, 0);
            }
            if chain.len() > keep {
                let removed = chain.len() - keep;
                chain.truncate(keep);
                purged = purged.saturating_add(removed);
            } else {
                assert(c0.take(keep as int) =~= c0);
            }
            self.version_chains.insert(i, (k, chain));
            proof {
                assert(self.version_chains@ =~= before.update(i as int, (k, chain)));
                let now = self.version_chains@;
                assert(orig.take(i + 1).drop_last() =~= orig.take(i as int));
                assert(now.take(i + 1).drop_last() =~= now.take(i as int));
                assert(now.take(i as int) =~= before.take(i as int));
                assert(orig[i as int].1@ == c0);
                assert(orig.take(i + 1).last() == orig[i as int]);
                assert(now.take(i + 1).last() == now[i as int]);
                assert(now[i as int].1@ == chain@);
                assert(chain@.len() <= c0.len());
            }
            i = i + 1;
        }
        assert(self.spec_active() == old(self).spec_active());
        assert(orig.take(i as int) =~= orig);
        assert(self.version_chains@.take(i as int) =~= self.version_chains@);
        purged
    }

    /// How many versions of `chain` garbage collection keeps.
    fn keep_count(chain: &Vec<VersionEntry>, horizon: u64) -> (n: usize)
        ensures
            n == keep_len(chain@, horizon, 0),
    {
        let mut v: usize = 0;
        while v < chain.len()
            invariant
                v <= chain@.len(),
                keep_len(chain@, horizon, 0) == keep_len(chain@, horizon, v as nat),
            decreases chain@.len() - v,
        {
            if v >= 1 && chain[v].txid < horizon {
                return v + 1;
            }
            v = v + 1;
        }
        chain.len()
    }

    /// The current horizon.
    pub fn horizon(&self) -> (h: u64)
        ensures
            h == self.spec_horizon(),
    {
        self.horizon_txid
    }

    /// A fresh id for a write outside any transaction.
    pub fn next_txid(&mut self) -> (id: u64)
        requires
            old(self).wf(),
        ensures
            final(self).wf(),
            id == old(self).spec_counter(),
            final(self).spec_counter() == if id == u64::MAX {
                0
            } else {
                (id + 1) as u64
            },
            final(self).spec_active() == old(self).spec_active(),
            final(self).spec_chains() == old(self).spec_chains(),
            final(self).spec_horizon() == old(self).spec_horizon(),
    {
        let id = self.txid_gen.next();
        assert(self.spec_active() == old(self).spec_active());
        id
    }

    /// How many transactions are running.
    pub fn active_count(&self) -> (n: usize)
        ensures
            n == self.spec_active().len(),
    {
        self.active_transactions.len()
    }
}

impl Default for MvccManager {
    fn default() -> (m: Self)
        ensures
            m.wf(),
            m.spec_active() == Map::<u64, Transaction>::empty(),
            m.spec_chains().len() == 0,
    {
        MvccManager::new()
    }
}

/// `first_conflict` from `i` finds a conflict exactly when one of the keys
/// read from `i` on has one.
proof fn lemma_first_conflict_from(
    keys: Seq<Vec<u8>>,
    chains: Seq<(Vec<u8>, Vec<VersionEntry>)>,
    txid: u64,
    active: Set<u64>,
    i: nat,
)
    ensures
        first_conflict(keys, chains, txid, active, i) is None <==> forall|k: int|
            i <= k < keys.len() ==> (#[trigger] conflict_in(chain_of(chains, keys[k]@), txid, active, 0)) is None,
    decreases keys.len() - i,
{
    if i < keys.len() {
        lemma_first_conflict_from(keys, chains, txid, active, i + 1);
    }
}

/// A commit reports a write conflict exactly when some key the transaction
/// read has a version committed after its snapshot by a transaction not
/// running at it; the reported key is one it read and the reported version
/// is one such version of it.
pub proof fn lemma_commit_conflict(
    keys: Seq<Vec<u8>>,
    chains: Seq<(Vec<u8>, Vec<VersionEntry>)>,
    txid: u64,
    active: Set<u64>,
)
    ensures
        first_conflict(keys, chains, txid, active, 0) is Some <==> exists|k: int|
            0 <= k < keys.len() && (#[trigger] conflict_in(chain_of(chains, keys[k]@), txid, active, 0)) is Some,
        first_conflict(keys, chains, txid, active, 0) matches Some((key, w)) ==> exists|k: int|
            0 <= k < keys.len() && keys[k]@ == key && #[trigger] conflict_in(chain_of(chains, keys[k]@), txid, active, 0)
                == Some(w),
{
    lemma_first_conflict_from(keys, chains, txid, active, 0);
    lemma_first_conflict_found(keys, chains, txid, active, 0);
}

/// What `first_conflict` from `i` reports comes from a key read at or
/// after `i`.
proof fn lemma_first_conflict_found(
    keys: Seq<Vec<u8>>,
    chains: Seq<(Vec<u8>, Vec<VersionEntry>)>,
    txid: u64,
    active: Set<u64>,
    i: nat,
)
    ensures
        first_conflict(keys, chains, txid, active, i) matches Some((key, w)) ==> exists|k: int|
            i <= k < keys.len() && keys[k]@ == key && #[trigger] conflict_in(chain_of(chains, keys[k]@), txid, active, 0)
                == Some(w),
    decreases keys.len() - i,
{
    if i < keys.len() {
        lemma_first_conflict_found(keys, chains, txid, active, i + 1);
        match conflict_in(chain_of(chains, keys[i as int]@), txid, active, 0) {
            Some(w) => {
                assert(first_conflict(keys, chains, txid, active, i) == Some((keys[i as int]@, w)));
            },
            None => {},
        }
    }
}

/// `chain_index` finds the first chain for `key`.
proof fn lemma_chain_index(chains: Seq<(Vec<u8>, Vec<VersionEntry>)>, key: Seq<u8>, i: nat)
    ensures
        match chain_index(chains, key, i) {
            Some(j) => i <= j < chains.len() && chains[j as int].0@ == key && forall|m: int|
                i <= m < j ==> (#[trigger] chains[m]).0@ != key,
            None => forall|m: int| i <= m < chains.len() ==> (#[trigger] chains[m]).0@ != key,
        },
    decreases chains.len() - i,
{
    if i < chains.len() && chains[i as int].0@ != key {
        lemma_chain_index(chains, key, i + 1);
    }
}

/// Replacing a chain under the same key leaves every lookup but that one.
proof fn lemma_chain_index_update(
    chains: Seq<(Vec<u8>, Vec<VersionEntry>)>,
    c: int,
    x: (Vec<u8>, Vec<VersionEntry>),
)
    requires
        0 <= c < chains.len(),
        x.0@ == chains[c].0@,
        chain_index(chains, x.0@, 0) == Some(c as nat),
    ensures
        chain_of(chains.update(c, x), x.0@) == x.1@,
        forall|k: Seq<u8>| k != x.0@ ==> chain_of(chains.update(c, x), k) == chain_of(chains, k),
{
    let t = chains.update(c, x);
    lemma_chain_index(chains, x.0@, 0);
    lemma_chain_index(t, x.0@, 0);
    assert(t[c] == x);
    match chain_index(t, x.0@, 0) {
        Some(j) => {
            if j < c {
                assert(t[j as int] == chains[j as int]);
            } else if j > c {
                assert(t[c].0@ == x.0@);
            }
            assert(j == c);
        },
        None => {
            assert(t[c].0@ == x.0@);
        },
    }
    assert forall|k: Seq<u8>| k != x.0@ implies chain_of(t, k) == chain_of(chains, k) by {
        lemma_chain_index(chains, k, 0);
        lemma_chain_index(t, k, 0);
        match chain_index(chains, k, 0) {
            Some(j) => {
                assert(t[j as int] == chains[j as int]);
                match chain_index(t, k, 0) {
                    Some(j2) => {
                        if j2 < j {
                            assert(t[j2 as int] == chains[j2 as int]);
                        }
                    },
                    None => {},
                }
            },
            None => {
                match chain_index(t, k, 0) {
                    Some(j2) => {
                        assert(t[j2 as int] == chains[j2 as int]);
                    },
                    None => {},
                }
            },
        }
    }
}

/// Appending a chain for a key not yet held makes it that key's chain.
proof fn lemma_chain_index_push(chains: Seq<(Vec<u8>, Vec<VersionEntry>)>, x: (Vec<u8>, Vec<VersionEntry>))
    requires
        chain_index(chains, x.0@, 0) is None,
    ensures
        chain_of(chains.push(x), x.0@) == x.1@,
        forall|k: Seq<u8>| k != x.0@ ==> chain_of(chains.push(x), k) == chain_of(chains, k),
{
    let t = chains.push(x);
    lemma_chain_index(chains, x.0@, 0);
    lemma_chain_index(t, x.0@, 0);
    match chain_index(t, x.0@, 0) {
        Some(j) => {
            if j < chains.len() {
                assert(t[j as int] == chains[j as int]);
            }
        },
        None => {
            assert(t[chains.len() as int] == x);
        },
    }
    assert forall|k: Seq<u8>| k != x.0@ implies chain_of(t, k) == chain_of(chains, k) by {
        lemma_chain_index(chains, k, 0);
        lemma_chain_index(t, k, 0);
        match chain_index(chains, k, 0) {
            Some(j) => {
                assert(t[j as int] == chains[j as int]);
                match chain_index(t, k, 0) {
                    Some(j2) => {
                        if j2 < j {
                            assert(t[j2 as int] == chains[j2 as int]);
                        }
                    },
                    None => {},
                }
            },
            None => {
                match chain_index(t, k, 0) {
                    Some(j2) => {
                        if j2 < chains.len() {
                            assert(t[j2 as int] == chains[j2 as int]);
                        } else {
                            assert(t[j2 as int] == x);
                        }
                    },
                    None => {},
                }
            },
        }
    }
}

/// `keep_len` lies between its start (plus one) and the chain length.
proof fn lemma_keep_len(chain: Seq<VersionEntry>, horizon: u64, i: nat)
    requires
        i <= chain.len(),
    ensures
        keep_len(chain, horizon, i) <= chain.len(),
        i < chain.len() ==> keep_len(chain, horizon, i) > i,
    decreases chain.len() - i,
{
    if i < chain.len() && !(i >= 1 && chain[i as int].txid < horizon) {
        lemma_keep_len(chain, horizon, i + 1);
    }
}

/// Reading after adding a version: a version the snapshot sees becomes what
/// it reads (nothing, for a tombstone); one it does not see changes nothing.
pub proof fn lemma_read_after_add(chain: Seq<VersionEntry>, e: VersionEntry, txid: u64, active: Set<u64>)
    ensures
        chain_read(seq![e] + chain, txid, active) == if visible(txid, active, e.txid) {
            if e.tombstone {
                None
            } else {
                Some(e)
            }
        } else {
            chain_read(chain, txid, active)
        },
{
    assert((seq![e] + chain).drop_first() =~= chain);
}

/// What `keep_len` keeps from position `i` on.
proof fn lemma_keep_from(chain: Seq<VersionEntry>, horizon: u64, i: nat)
    requires
        1 <= i <= chain.len(),
    ensures
        i <= keep_len(chain, horizon, i) <= chain.len(),
        forall|j: int| i <= j < keep_len(chain, horizon, i) - 1 ==> (#[trigger] chain[j]).txid >= horizon,
        keep_len(chain, horizon, i) < chain.len() ==> keep_len(chain, horizon, i) > i && chain[keep_len(
            chain,
            horizon,
            i,
        ) - 1].txid < horizon,
    decreases chain.len() - i,
{
    if i < chain.len() && chain[i as int].txid >= horizon {
        lemma_keep_from(chain, horizon, i + 1);
    }
}

/// Of a non-empty chain (newest first), garbage collection keeps the newest
/// version and the later ones down to and including the first stamped
/// below the horizon; every version it keeps between the newest and that
/// one is at or above the horizon, and it keeps the whole chain when no
/// later version is below the horizon.
pub proof fn lemma_gc_keep_exact(chain: Seq<VersionEntry>, horizon: u64)
    requires
        chain.len() > 0,
    ensures
        ({
            let k = keep_len(chain, horizon, 0);
            &&& 1 <= k <= chain.len()
            &&& forall|j: int| 1 <= j < k - 1 ==> (#[trigger] chain[j]).txid >= horizon
            &&& k < chain.len() ==> k >= 2 && chain[k - 1].txid < horizon
            &&& (forall|j: int| 1 <= j < chain.len() ==> (#[trigger] chain[j]).txid >= horizon) ==> k == chain.len()
        }),
{
    assert(keep_len(chain, horizon, 0) == keep_len(chain, horizon, 1));
    lemma_keep_from(chain, horizon, 1);
}

/// Garbage collection keeps the newest version of every non-empty chain.
pub proof fn lemma_gc_keeps_newest(chain: Seq<VersionEntry>, horizon: u64)
    requires
        chain.len() > 0,
    ensures
        keep_len(chain, horizon, 0) >= 1,
        chain.take(keep_len(chain, horizon, 0) as int)[0] == chain[0],
{
    lemma_keep_len(chain, horizon, 0);
}

} // verus!
