//! Client sessions and retryable writes: the result of a completed write is
//! cached per logical session id and transaction number, so that a retried
//! write is answered from the cache instead of being applied twice.

use std::collections::HashMap;

use vstd::prelude::*;

verus! {

broadcast use vstd::std_specs::hash::group_hash_axioms;

/// Result of a completed write, cached for idempotency.
#[derive(Debug)]
pub enum WriteResult {
    InsertId(String),
    ModifiedCount(u64),
    DeletedCount(u64),
}

/// What a write result says.
pub enum WriteResultModel {
    InsertId(Seq<char>),
    ModifiedCount(u64),
    DeletedCount(u64),
}

impl View for WriteResult {
    type V = WriteResultModel;

    open spec fn view(&self) -> WriteResultModel {
        match self {
            WriteResult::InsertId(s) => WriteResultModel::InsertId(s@),
            WriteResult::ModifiedCount(n) => WriteResultModel::ModifiedCount(*n),
            WriteResult::DeletedCount(n) => WriteResultModel::DeletedCount(*n),
        }
    }
}

impl WriteResult {
    /// A copy of the result.
    pub fn duplicate(&self) -> (r: WriteResult)
        ensures
            r@ == self@,
    {
        match self {
            WriteResult::InsertId(s) => WriteResult::InsertId(s.clone()),
            WriteResult::ModifiedCount(n) => WriteResult::ModifiedCount(*n),
            WriteResult::DeletedCount(n) => WriteResult::DeletedCount(*n),
        }
    }
}

/// The integer whose little-endian bytes are `b`.
pub open spec fn le_value(b: Seq<u8>) -> nat
    decreases b.len(),
{
    if b.len() == 0 {
        0
    } else {
        b[0] as nat + 256 * le_value(b.drop_first())
    }
}

/// 256 to the power `n`.
pub open spec fn pow256(n: nat) -> nat
    decreases n,
{
    if n == 0 {
        1
    } else {
        256 * pow256((n - 1) as nat)
    }
}

/// The value of `n` little-endian bytes is below 256^n.
proof fn lemma_le_value_bound(b: Seq<u8>)
    ensures
        le_value(b) < pow256(b.len()),
    decreases b.len(),
{
    if b.len() > 0 {
        lemma_le_value_bound(b.drop_first());
    }
}

/// Powers of 256 grow with the exponent.
proof fn lemma_pow256_mono(a: nat, c: nat)
    requires
        a <= c,
    ensures
        pow256(a) <= pow256(c),
    decreases c,
{
    if a < c {
        lemma_pow256_mono(a, (c - 1) as nat);
    }
}

/// The session key of a logical session id: the integer whose
/// little-endian bytes are the 16 bytes of the id (as `u128::from_le_bytes`).
fn session_key(lsid: &[u8; 16]) -> (k: u128)
    ensures
        k == le_value(lsid@),
{
    let mut k: u128 = 0;
    let mut i: usize = 16;
    assert(lsid@.subrange(16, 16) =~= Seq::<u8>::empty());
    assert(pow256(16) == 0x1_0000_0000_0000_0000_0000_0000_0000_0000) by {
        reveal_with_fuel(pow256, 17);
    }
    while i > 0
        invariant
            i <= 16,
            lsid@.len() == 16,
            k == le_value(lsid@.subrange(i as int, 16)),
            pow256(16) == 0x1_0000_0000_0000_0000_0000_0000_0000_0000,
        decreases i,
    {
        let ghost rest = lsid@.subrange(i as int, 16);
        proof {
            lemma_le_value_bound(rest);
            lemma_pow256_mono(rest.len(), 15);
            assert(lsid@.subrange(i - 1, 16).drop_first() =~= rest);
            assert(lsid@.subrange(i - 1, 16)[0] == lsid@[i - 1]);
        }
        assert(k < pow256(15));
        assert(pow256(16) == 256 * pow256(15));
        k = k * 256 + lsid[i - 1] as u128;
        i = i - 1;
    }
    assert(lsid@.subrange(0, 16) =~= lsid@);
    k
}

/// Idempotency cache for retryable writes: per session, the most recent
/// transaction number and its result.
pub struct SessionManager {
    cache: HashMap<u128, (u64, WriteResult)>,
}

/// The cache entry of a session: its transaction number and result.
pub open spec fn entry_view(e: (u64, WriteResult)) -> (u64, WriteResultModel) {
    (e.0, e.1@)
}

impl SessionManager {
    /// Per session key, the cached transaction number and result.
    pub closed spec fn spec_cache(&self) -> Map<u128, (u64, WriteResultModel)> {
        self.cache@.map_values(|e: (u64, WriteResult)| entry_view(e))
    }

    /// An empty cache.
    pub fn new() -> (m: Self)
        ensures
            m.spec_cache() == Map::<u128, (u64, WriteResultModel)>::empty(),
    {
        let m = SessionManager { cache: HashMap::new() };
        assert(m.spec_cache() =~= Map::<u128, (u64, WriteResultModel)>::empty());
        m
    }

    /// The cached result of transaction `txn_number` of session `lsid`, if
    /// that transaction is the one the cache holds for the session.
    pub fn check_idempotent(&self, lsid: &[u8; 16], txn_number: u64) -> (r: Option<WriteResult>)
        ensures
            ({
                let k = le_value(lsid@) as u128;
                if self.spec_cache().contains_key(k) && self.spec_cache()[k].0 == txn_number {
                    r matches Some(w) && w@ == self.spec_cache()[k].1
                } else {
                    r is None
                }
            }),
    {
        let k = session_key(lsid);
        match self.cache.get(&k) {
            Some(entry) => {
                if entry.0 == txn_number {
                    Some(entry.1.duplicate())
                } else {
                    None
                }
            },
            None => None,
        }
    }

    /// Record the result of transaction `txn_number` of session `lsid`,
    /// replacing what the cache held for the session.
    pub fn record_result(&mut self, lsid: [u8; 16], txn_number: u64, result: WriteResult)
        ensures
            final(self).spec_cache() == old(self).spec_cache().insert(
                le_value(lsid@) as u128,
                (txn_number, result@),
            ),
    {
        let k = session_key(&lsid);
        let ghost rv = result@;
        self.cache.insert(k, (txn_number, result));
        assert(self.spec_cache() =~= old(self).spec_cache().insert(k, (txn_number, rv)));
    }
}

impl Default for SessionManager {
    fn default() -> (m: Self)
        ensures
            m.spec_cache() == Map::<u128, (u64, WriteResultModel)>::empty(),
    {
        SessionManager::new()
    }
}

/// A retried write is answered from the cache: after recording the result
/// of transaction `n` of a session, checking that transaction gives the
/// recorded result back, and checking any other transaction number of the
/// session gives nothing.
pub proof fn lemma_retry_answered(
    before: Map<u128, (u64, WriteResultModel)>,
    key: u128,
    n: u64,
    other: u64,
    w: WriteResultModel,
)
    requires
        other != n,
    ensures
        ({
            let after = before.insert(key, (n, w));
            &&& after.contains_key(key) && after[key].0 == n && after[key].1 == w
            &&& !(after.contains_key(key) && after[key].0 == other)
        }),
{
}

} // verus!
