//! Savepoints within a transaction.
//!
//! The write log records, for each key a transaction wrote, what the key
//! held before the transaction's first write to it. A savepoint copies the
//! log; rolling back to it returns the entries written since (so their
//! original values can be restored) and resets the log to the copy.

use vstd::prelude::*;

use crate::codec::copy_range;
use crate::error::{OvnError, OvnResult};

verus! {

/// The deepest savepoint nesting allowed.
pub const MAX_SAVEPOINT_DEPTH: usize = 16;

/// What a key held before the transaction first wrote it.
#[derive(Debug, Clone)]
pub enum SavepointOriginalValue {
    /// The key existed with this value.
    Existing(Vec<u8>),
    /// The key did not exist (the write inserted it).
    New,
}

/// The value an original denotes: the old bytes, or none for a new key.
pub open spec fn original_view(o: SavepointOriginalValue) -> Option<Seq<u8>> {
    match o {
        SavepointOriginalValue::Existing(v) => Some(v@),
        SavepointOriginalValue::New => None,
    }
}

/// One write-log entry: key, original value, collection id.
pub type LogEntry = (Vec<u8>, SavepointOriginalValue, u32);

/// What a log entry denotes.
pub open spec fn entry_view(e: LogEntry) -> (Seq<u8>, Option<Seq<u8>>, u32) {
    (e.0@, original_view(e.1), e.2)
}

/// What a write log denotes, entry by entry.
pub open spec fn log_view(s: Seq<LogEntry>) -> Seq<(Seq<u8>, Option<Seq<u8>>, u32)> {
    s.map_values(|e: LogEntry| entry_view(e))
}

/// Whether a log holds `key`.
pub open spec fn log_has(s: Seq<(Seq<u8>, Option<Seq<u8>>, u32)>, key: Seq<u8>) -> bool {
    exists|i: int| 0 <= i < s.len() && (#[trigger] s[i]).0 == key
}

/// No key occurs twice in a log.
#[verifier::opaque]
pub open spec fn log_keys_distinct(s: Seq<(Seq<u8>, Option<Seq<u8>>, u32)>) -> bool {
    forall|i: int, j: int| 0 <= i < j < s.len() ==> (#[trigger] s[i]).0 != (#[trigger] s[j]).0
}

/// The entries of `log` whose keys `snap` lacks, in log order.
#[verifier::opaque]
pub open spec fn undo_entries(
    log: Seq<(Seq<u8>, Option<Seq<u8>>, u32)>,
    snap: Seq<(Seq<u8>, Option<Seq<u8>>, u32)>,
) -> Seq<(Seq<u8>, Option<Seq<u8>>, u32)> {
    log.filter(|e: (Seq<u8>, Option<Seq<u8>>, u32)| !log_has(snap, e.0))
}

/// A savepoint: its name and a copy of the write log when it was made.
#[derive(Debug, Clone)]
pub struct Savepoint {
    pub name: String,
    pub state_snapshot: Vec<LogEntry>,
}

/// Per-transaction savepoint state.
#[derive(Debug)]
pub struct SavepointState {
    /// Savepoints, oldest first.
    pub savepoints: Vec<Savepoint>,
    /// Keys written, each with its original value and collection, in order
    /// of first write.
    pub write_log: Vec<LogEntry>,
}

/// A copy of an original value.
fn copy_original(o: &SavepointOriginalValue) -> (r: SavepointOriginalValue)
    ensures
        original_view(r) == original_view(*o),
{
    match o {
        SavepointOriginalValue::Existing(v) => {
            let c = copy_range(v.as_slice(), 0, v.len());
            assert(c@ =~= v@);
            SavepointOriginalValue::Existing(c)
        },
        SavepointOriginalValue::New => SavepointOriginalValue::New,
    }
}

/// A copy of a log entry.
fn copy_entry(e: &LogEntry) -> (r: LogEntry)
    ensures
        entry_view(r) == entry_view(*e),
{
    let k = copy_range(e.0.as_slice(), 0, e.0.len());
    assert(k@ =~= e.0@);
    (k, copy_original(&e.1), e.2)
}

/// A copy of a write log.
fn copy_log(s: &Vec<LogEntry>) -> (r: Vec<LogEntry>)
    ensures
        log_view(r@) == log_view(s@),
{
    let mut r: Vec<LogEntry> = Vec::new();
    let mut i: usize = 0;
    while i < s.len()
        invariant
            i <= s@.len(),
            r@.len() == i,
            log_view(r@) == log_view(s@.take(i as int)),
        decreases s@.len() - i,
    {
        let e = copy_entry(&s[i]);
        let ghost before = r@;
        r.push(e);
        proof {
            assert forall|j: int| 0 <= j < i + 1 implies #[trigger] log_view(r@)[j] == log_view(s@.take(i + 1))[j] by {
                if j < i {
                    assert(r@[j] == before[j]);
                    assert(log_view(before)[j] == log_view(s@.take(i as int))[j]);
                    assert(s@.take(i as int)[j] == s@.take(i + 1)[j]);
                }
            }
            assert(log_view(r@) =~= log_view(s@.take(i + 1)));
        }
        i = i + 1;
    }
    assert(s@.take(i as int) =~= s@);
    r
}

/// Whether `key` is in the log.
fn log_contains(s: &Vec<LogEntry>, key: &[u8]) -> (b: bool)
    ensures
        b == log_has(log_view(s@), key@),
{
    let mut i: usize = 0;
    while i < s.len()
        invariant
            i <= s@.len(),
            forall|j: int| 0 <= j < i ==> (#[trigger] s@[j]).0@ != key@,
        decreases s@.len() - i,
    {
        if crate::format::obe::value::bytes_equal(s[i].0.as_slice(), key) {
            assert(log_view(s@)[i as int].0 == key@);
            return true;
        }
        i = i + 1;
    }
    assert forall|j: int| 0 <= j < log_view(s@).len() implies (#[trigger] log_view(s@)[j]).0 != key@ by {
        assert(log_view(s@)[j].0 == s@[j].0@);
    }
    false
}

/// The names of the savepoints, oldest first.
pub open spec fn savepoint_names(s: Seq<Savepoint>) -> Seq<Seq<char>> {
    s.map_values(|sp: Savepoint| sp.name@)
}

/// Index of the last savepoint named `name`.
pub open spec fn last_named(s: Seq<Savepoint>, name: Seq<char>) -> Option<nat>
    decreases s.len(),
{
    if s.len() == 0 {
        None
    } else if s.last().name@ == name {
        Some((s.len() - 1) as nat)
    } else {
        last_named(s.drop_last(), name)
    }
}

/// `last_named` finds the last savepoint with the name.
proof fn lemma_last_named(s: Seq<Savepoint>, name: Seq<char>)
    ensures
        match last_named(s, name) {
            Some(i) => i < s.len() && s[i as int].name@ == name && forall|j: int| i < j < s.len() ==> (
            #[trigger] s[j]).name@ != name,
            None => forall|j: int| 0 <= j < s.len() ==> (#[trigger] s[j]).name@ != name,
        },
    decreases s.len(),
{
    if s.len() > 0 && s.last().name@ != name {
        lemma_last_named(s.drop_last(), name);
        assert forall|j: int| 0 <= j < s.len() - 1 implies s.drop_last()[j] == s[j] by {}
    }
}

impl SavepointState {
    /// No savepoints and an empty write log.
    pub fn new() -> (s: Self)
        ensures
            s.savepoints@.len() == 0,
            s.write_log@.len() == 0,
    {
        SavepointState { savepoints: Vec::new(), write_log: Vec::new() }
    }

    /// Record a write of `key`: only the first write of a key is kept.
    pub fn record_write(&mut self, key: Vec<u8>, original: SavepointOriginalValue, collection_id: u32)
        ensures
            log_view(final(self).write_log@) == if log_has(log_view(old(self).write_log@), key@) {
                log_view(old(self).write_log@)
            } else {
                log_view(old(self).write_log@).push((key@, original_view(original), collection_id))
            },
            log_keys_distinct(log_view(old(self).write_log@)) ==> log_keys_distinct(
                log_view(final(self).write_log@),
            ),
            final(self).savepoints == old(self).savepoints,
    {
        if log_contains(&self.write_log, key.as_slice()) {
            return;
        }
        let ghost before = log_view(self.write_log@);
        self.write_log.push((key, original, collection_id));
        proof {
            reveal(log_keys_distinct);
            assert(log_view(self.write_log@) =~= before.push((key@, original_view(original), collection_id)));
            let after = log_view(self.write_log@);
            assert forall|i: int, j: int| 0 <= i < j < after.len() && log_keys_distinct(before) implies (
            #[trigger] after[i]).0 != (#[trigger] after[j]).0 by {
                if j == after.len() - 1 {
                    assert(after[i] == before[i]);
                } else {
                    assert(after[i] == before[i] && after[j] == before[j]);
                }
            }
        }
    }

    /// Index of the first savepoint named `name`, if any.
    fn position_of(&self, name: &str) -> (r: Option<usize>)
        ensures
            r is Some <==> savepoint_names(self.savepoints@).contains(name@),
    {
        let mut i: usize = 0;
        while i < self.savepoints.len()
            invariant
                i <= self.savepoints@.len(),
                forall|j: int| 0 <= j < i ==> (#[trigger] self.savepoints@[j]).name@ != name@,
            decreases self.savepoints@.len() - i,
        {
            if crate::codec::str_eq(self.savepoints[i].name.as_str(), name) {
                assert(savepoint_names(self.savepoints@)[i as int] == name@);
                return Some(i);
            }
            i = i + 1;
        }
        assert forall|j: int| 0 <= j < savepoint_names(self.savepoints@).len() implies #[trigger] savepoint_names(
            self.savepoints@,
        )[j] != name@ by {
            assert(savepoint_names(self.savepoints@)[j] == self.savepoints@[j].name@);
        }
        None
    }

    /// Index of the last savepoint named `name`, if any.
    fn rposition_of(&self, name: &str) -> (r: Option<usize>)
        ensures
            match last_named(self.savepoints@, name@) {
                Some(i) => r matches Some(x) && x == i,
                None => r is None,
            },
    {
        proof {
            lemma_last_named(self.savepoints@, name@);
        }
        let mut i: usize = self.savepoints.len();
        while i > 0
            invariant
                i <= self.savepoints@.len(),
                forall|j: int| i <= j < self.savepoints@.len() ==> (#[trigger] self.savepoints@[j]).name@ != name@,
            decreases i,
        {
            if crate::codec::str_eq(self.savepoints[i - 1].name.as_str(), name) {
                proof {
                    lemma_last_named_at(self.savepoints@, name@, (i - 1) as int);
                }
                return Some(i - 1);
            }
            i = i - 1;
        }
        None
    }

    /// Create a savepoint named `name` holding a copy of the write log.
    /// Refused with `SavepointDepthError` when 16 savepoints exist, and with
    /// `SavepointError` when the name is taken.
    pub fn create_savepoint(&mut self, name: &str) -> (r: OvnResult<()>)
        ensures
            old(self).savepoints@.len() >= MAX_SAVEPOINT_DEPTH ==> r == Err::<(), OvnError>(
                OvnError::SavepointDepthError { max_depth: MAX_SAVEPOINT_DEPTH },
            ) && final(self).savepoints@ == old(self).savepoints@,
            old(self).savepoints@.len() < MAX_SAVEPOINT_DEPTH && savepoint_names(old(self).savepoints@).contains(
                name@,
            ) ==> (r matches Err(OvnError::SavepointError { name: n, reason: rs }) && n@ == name@
                && rs@ == "Savepoint name already exists"@) && final(self).savepoints@ == old(
                self,
            ).savepoints@,
            old(self).savepoints@.len() < MAX_SAVEPOINT_DEPTH && !savepoint_names(old(self).savepoints@).contains(
                name@,
            ) ==> r is Ok && final(self).savepoints@.len() == old(self).savepoints@.len() + 1
                && final(self).savepoints@.drop_last() == old(self).savepoints@
                && final(self).savepoints@.last().name@ == name@ && log_view(
                final(self).savepoints@.last().state_snapshot@,
            ) == log_view(old(self).write_log@),
            final(self).write_log == old(self).write_log,
    {
        if self.savepoints.len() >= MAX_SAVEPOINT_DEPTH {
            return Err(OvnError::SavepointDepthError { max_depth: MAX_SAVEPOINT_DEPTH });
        }
        if self.position_of(name).is_some() {
            return Err(
                OvnError::SavepointError {
                    name: name.to_string(),
                    reason: "Savepoint name already exists".to_string(),
                },
            );
        }
        let snapshot = copy_log(&self.write_log);
        let ghost before = self.savepoints@;
        self.savepoints.push(Savepoint { name: name.to_string(), state_snapshot: snapshot });
        assert(self.savepoints@.drop_last() =~= before);
        Ok(())
    }

    /// Roll back to the last savepoint named `name`: return the log entries
    /// written since it was made (keys its copy lacks, in log order), reset
    /// the log to its copy, and drop it and every later savepoint. Refused
    /// with `SavepointError` when no savepoint has the name.
    pub fn rollback_to_savepoint(&mut self, name: &str) -> (r: OvnResult<Vec<LogEntry>>)
        ensures
            match last_named(old(self).savepoints@, name@) {
                None => (r matches Err(OvnError::SavepointError { name: n, reason: rs }) && n@ == name@
                    && rs@ == "Savepoint not found"@) && final(self).savepoints@ == old(
                    self,
                ).savepoints@ && final(self).write_log@ == old(self).write_log@,
                Some(i) => {
                    let snap = log_view(old(self).savepoints@[i as int].state_snapshot@);
                    &&& r matches Ok(undo) && log_view(undo@) == undo_entries(
                        log_view(old(self).write_log@),
                        snap,
                    )
                    &&& log_view(final(self).write_log@) == snap
                    &&& final(self).savepoints@ == old(self).savepoints@.take(i as int)
                },
            },
    {
        proof {
            lemma_last_named(self.savepoints@, name@);
        }
        let idx = match self.rposition_of(name) {
            Some(i) => i,
            None => {
                return Err(
                    OvnError::SavepointError {
                        name: name.to_string(),
                        reason: "Savepoint not found".to_string(),
                    },
                );
            },
        };
        let mut undo: Vec<LogEntry> = Vec::new();
        let mut i: usize = 0;
        let ghost log = log_view(self.write_log@);
        let ghost snap = log_view(self.savepoints@[idx as int].state_snapshot@);
        proof {
            reveal(undo_entries);
            reveal(Seq::filter);
            assert(log.take(0) =~= Seq::<(Seq<u8>, Option<Seq<u8>>, u32)>::empty());
            assert(log_view(undo@) =~= Seq::<(Seq<u8>, Option<Seq<u8>>, u32)>::empty());
        }
        while i < self.write_log.len()
            invariant
                i <= self.write_log@.len(),
                idx < self.savepoints@.len(),
                log == log_view(self.write_log@),
                snap == log_view(self.savepoints@[idx as int].state_snapshot@),
                log_view(undo@) == undo_entries(log.take(i as int), snap),
            decreases self.write_log@.len() - i,
        {
            let e = &self.write_log[i];
            let present = log_contains(&self.savepoints[idx].state_snapshot, e.0.as_slice());
            proof {
                assert(log.take(i + 1) =~= log.take(i as int).push(log[i as int]));
                assert(log[i as int] == entry_view(*e));
            }
            if !present {
                let c = copy_entry(e);
                let ghost before = undo@;
                undo.push(c);
                proof {
                    lemma_undo_push(log.take(i as int), log[i as int], snap);
                    assert(log_view(undo@) =~= log_view(before).push(entry_view(c)));
                }
            } else {
                proof {
                    lemma_undo_skip(log.take(i as int), log[i as int], snap);
                }
            }
            i = i + 1;
        }
        proof {
            assert(log.take(i as int) =~= log);
        }
        let snapshot = copy_log(&self.savepoints[idx].state_snapshot);
        self.write_log = snapshot;
        self.savepoints.truncate(idx);
        Ok(undo)
    }

    /// Drop the last savepoint named `name`, keeping the log. Refused with
    /// `SavepointError` when no savepoint has the name.
    pub fn release_savepoint(&mut self, name: &str) -> (r: OvnResult<()>)
        ensures
            match last_named(old(self).savepoints@, name@) {
                None => (r matches Err(OvnError::SavepointError { name: n, reason: rs }) && n@ == name@
                    && rs@ == "Savepoint not found"@) && final(self).savepoints@ == old(
                    self,
                ).savepoints@,
                Some(i) => r is Ok && final(self).savepoints@ == old(self).savepoints@.remove(i as int),
            },
            final(self).write_log == old(self).write_log,
    {
        proof {
            lemma_last_named(self.savepoints@, name@);
        }
        let idx = match self.rposition_of(name) {
            Some(i) => i,
            None => {
                return Err(
                    OvnError::SavepointError {
                        name: name.to_string(),
                        reason: "Savepoint not found".to_string(),
                    },
                );
            },
        };
        self.savepoints.remove(idx);
        Ok(())
    }
}

/// A savepoint found from the end is the last one with its name.
proof fn lemma_last_named_at(s: Seq<Savepoint>, name: Seq<char>, i: int)
    requires
        0 <= i < s.len(),
        s[i].name@ == name,
        forall|j: int| i < j < s.len() ==> (#[trigger] s[j]).name@ != name,
    ensures
        last_named(s, name) == Some(i as nat),
    decreases s.len(),
{
    if i < s.len() - 1 {
        assert(s.last() == s[s.len() - 1]);
        assert forall|j: int| i < j < s.len() - 1 implies (#[trigger] s.drop_last()[j]).name@ != name by {
            assert(s.drop_last()[j] == s[j]);
        }
        assert(s.drop_last()[i] == s[i]);
        lemma_last_named_at(s.drop_last(), name, i);
    }
}

/// Rolling back undoes exactly the writes made since the savepoint: when the
/// savepoint's copy is a prefix of the log (writes only append) and the log
/// names no key twice, the copy followed by the returned entries is the
/// whole log.
pub proof fn lemma_rollback_undoes_suffix(
    log: Seq<(Seq<u8>, Option<Seq<u8>>, u32)>,
    snap: Seq<(Seq<u8>, Option<Seq<u8>>, u32)>,
)
    requires
        log_keys_distinct(log),
        snap.len() <= log.len(),
        log.take(snap.len() as int) == snap,
    ensures
        snap + undo_entries(log, snap) == log,
    decreases log.len(),
{
    if log.len() == snap.len() {
        lemma_undo_of_copy(log, snap);
        assert(snap + Seq::<(Seq<u8>, Option<Seq<u8>>, u32)>::empty() =~= log);
    } else {
        let init = log.drop_last();
        let last = log.last();
        lemma_distinct_init(log);
        assert(init.take(snap.len() as int) =~= snap);
        lemma_rollback_undoes_suffix(init, snap);
        lemma_last_not_in_snap(log, snap);
        assert(log == init.push(last));
        lemma_undo_push(init, last, snap);
        let u = undo_entries(init, snap);
        assert(snap + u.push(last) =~= (snap + u).push(last));
    }
}

/// A key the savepoint's copy holds is not undone.
proof fn lemma_undo_skip(
    init: Seq<(Seq<u8>, Option<Seq<u8>>, u32)>,
    x: (Seq<u8>, Option<Seq<u8>>, u32),
    snap: Seq<(Seq<u8>, Option<Seq<u8>>, u32)>,
)
    requires
        log_has(snap, x.0),
    ensures
        undo_entries(init.push(x), snap) == undo_entries(init, snap),
{
    reveal(undo_entries);
    lemma_filter_push(init, x, |e: (Seq<u8>, Option<Seq<u8>>, u32)| !log_has(snap, e.0));
}

/// A write after the savepoint is undone, after the earlier ones.
proof fn lemma_undo_push(
    init: Seq<(Seq<u8>, Option<Seq<u8>>, u32)>,
    last: (Seq<u8>, Option<Seq<u8>>, u32),
    snap: Seq<(Seq<u8>, Option<Seq<u8>>, u32)>,
)
    requires
        !log_has(snap, last.0),
    ensures
        undo_entries(init.push(last), snap) == undo_entries(init, snap).push(last),
{
    reveal(undo_entries);
    lemma_filter_push(init, last, |e: (Seq<u8>, Option<Seq<u8>>, u32)| !log_has(snap, e.0));
}

/// Nothing is undone when the log is the savepoint's copy.
proof fn lemma_undo_of_copy(log: Seq<(Seq<u8>, Option<Seq<u8>>, u32)>, snap: Seq<(Seq<u8>, Option<Seq<u8>>, u32)>)
    requires
        log.len() == snap.len(),
        log.take(snap.len() as int) == snap,
    ensures
        undo_entries(log, snap) == Seq::<(Seq<u8>, Option<Seq<u8>>, u32)>::empty(),
{
    reveal(undo_entries);
    let p = |e: (Seq<u8>, Option<Seq<u8>>, u32)| !log_has(snap, e.0);
    assert(log =~= snap);
    assert forall|i: int| 0 <= i < log.len() implies !p(#[trigger] log[i]) by {
        assert(log_has(snap, snap[i].0));
    }
    lemma_filter_none(log, p);
}

/// A log without its last entry still names no key twice.
proof fn lemma_distinct_init(log: Seq<(Seq<u8>, Option<Seq<u8>>, u32)>)
    requires
        log_keys_distinct(log),
        log.len() > 0,
    ensures
        log_keys_distinct(log.drop_last()),
{
    reveal(log_keys_distinct);
    let init = log.drop_last();
    assert forall|i: int, j: int| 0 <= i < j < init.len() implies (#[trigger] init[i]).0 != (
    #[trigger] init[j]).0 by {
        assert(init[i] == log[i] && init[j] == log[j]);
    }
}

/// The last entry of a log longer than the savepoint's copy is not in it.
proof fn lemma_last_not_in_snap(log: Seq<(Seq<u8>, Option<Seq<u8>>, u32)>, snap: Seq<(Seq<u8>, Option<Seq<u8>>, u32)>)
    requires
        log_keys_distinct(log),
        snap.len() < log.len(),
        log.take(snap.len() as int) == snap,
    ensures
        !log_has(snap, log.last().0),
{
    reveal(log_keys_distinct);
    if log_has(snap, log.last().0) {
        let k = choose|k: int| 0 <= k < snap.len() && (#[trigger] snap[k]).0 == log.last().0;
        assert(log.take(snap.len() as int)[k] == log[k]);
        assert(log[log.len() - 1] == log.last());
        assert(log[k].0 != log[log.len() - 1].0);
    }
}

/// Filtering a sequence with one more element at the end.
proof fn lemma_filter_push<A>(s: Seq<A>, x: A, p: spec_fn(A) -> bool)
    ensures
        s.push(x).filter(p) == if p(x) {
            s.filter(p).push(x)
        } else {
            s.filter(p)
        },
{
    reveal(Seq::filter);
    assert(s.push(x).drop_last() =~= s);
    assert(s.push(x).last() == x);
}

/// Filtering out every element leaves nothing.
proof fn lemma_filter_none<A>(s: Seq<A>, p: spec_fn(A) -> bool)
    requires
        forall|i: int| 0 <= i < s.len() ==> !p(#[trigger] s[i]),
    ensures
        s.filter(p) == Seq::<A>::empty(),
    decreases s.len(),
{
    reveal(Seq::filter);
    if s.len() > 0 {
        let init = s.drop_last();
        assert forall|i: int| 0 <= i < init.len() implies !p(#[trigger] init[i]) by {
            assert(init[i] == s[i]);
        }
        lemma_filter_none(init, p);
        assert(s =~= init.push(s.last()));
        lemma_filter_push(init, s.last(), p);
    }
    assert(s.filter(p) =~= Seq::<A>::empty());
}

} // verus!
