//! Chained HMAC-SHA256 over WAL records: each record's HMAC covers the
//! previous record's HMAC followed by the record's payload, so a deleted or
//! reordered record breaks the chain.

use vstd::prelude::*;

use ::hmac::{KeyInit, Mac};

use crate::error::{OvnError, OvnResult};
use crate::format::obe::value::bytes_equal;

verus! {

broadcast use vstd::array::group_array_axioms;

/// HMAC-SHA256 of `msg` under `key`, as the `hmac` and `sha2` crates
/// compute it. Named: it is a function of its arguments alone.
pub uninterp spec fn hmac_sha256_of(key: Seq<u8>, msg: Seq<u8>) -> Seq<u8>;

/// `Hmac::<Sha256>::new_from_slice(key)`, then `update(prev)`,
/// `update(payload)` and `finalize().into_bytes()`: the HMAC-SHA256 of
/// `prev` followed by `payload` (successive updates hash the
/// concatenation). HMAC accepts keys of any length, so the key is never
/// refused.
#[verifier::external_body]
fn hmac_sha256(key: &[u8; 32], prev: &[u8; 32], payload: &[u8]) -> (out: [u8; 32])
    ensures
        out@ == hmac_sha256_of(key@, prev@ + payload@),
{
    let mut mac = <::hmac::Hmac<::sha2::Sha256> as KeyInit>::new_from_slice(key).unwrap();
    mac.update(prev);
    mac.update(payload);
    let result = mac.finalize().into_bytes();
    let mut out = [0u8; 32];
    out.copy_from_slice(&result);
    out
}

/// The chain value after `payload`, from chain value `prev` under `key`.
pub open spec fn chain_step(key: Seq<u8>, prev: Seq<u8>, payload: Seq<u8>) -> Seq<u8> {
    hmac_sha256_of(key, prev + payload)
}

/// Verifies (and extends) a chain of WAL record HMACs.
pub struct ChainedHmacVerifier {
    key: [u8; 32],
    prev_hmac: [u8; 32],
}

impl ChainedHmacVerifier {
    /// The key.
    pub closed spec fn spec_key(&self) -> Seq<u8> {
        self.key@
    }

    /// The chain value so far.
    pub closed spec fn spec_prev(&self) -> Seq<u8> {
        self.prev_hmac@
    }

    /// A verifier for `key` at the start of a chain (chain value all zeros).
    pub fn new(key: &[u8; 32]) -> (v: Self)
        ensures
            v.spec_key() == key@,
            v.spec_prev() == Seq::new(32, |i: int| 0u8),
    {
        let v = ChainedHmacVerifier { key: *key, prev_hmac: [0u8; 32] };
        assert(v.prev_hmac@ =~= Seq::new(32, |i: int| 0u8));
        v
    }

    /// The HMAC the next record with `record_payload` must carry.
    pub fn compute(&self, record_payload: &[u8]) -> (h: [u8; 32])
        ensures
            h@ == chain_step(self.spec_key(), self.spec_prev(), record_payload@),
    {
        hmac_sha256(&self.key, &self.prev_hmac, record_payload)
    }

    /// Check a record's stored HMAC against the chain; on a match the chain
    /// advances to it, otherwise an encoding error reports the break and the
    /// chain stays.
    pub fn verify_and_advance(&mut self, record_payload: &[u8], stored_hmac: &[u8; 32]) -> (r: OvnResult<()>)
        ensures
            final(self).spec_key() == old(self).spec_key(),
            stored_hmac@ == chain_step(old(self).spec_key(), old(self).spec_prev(), record_payload@) ==> r is Ok
                && final(self).spec_prev() == stored_hmac@,
            stored_hmac@ != chain_step(old(self).spec_key(), old(self).spec_prev(), record_payload@) ==> (
            r matches Err(OvnError::EncodingError(_))) && final(self).spec_prev() == old(self).spec_prev(),
    {
        let expected = self.compute(record_payload);
        if !bytes_equal(expected.as_slice(), stored_hmac.as_slice()) {
            return Err(
                OvnError::EncodingError(
                    "WAL record HMAC chain broken — tampering or data loss detected".to_string(),
                ),
            );
        }
        self.prev_hmac = expected;
        Ok(())
    }

    /// Extend the chain with a record (when writing): returns its HMAC,
    /// which becomes the chain value.
    pub fn advance(&mut self, record_payload: &[u8]) -> (h: [u8; 32])
        ensures
            h@ == chain_step(old(self).spec_key(), old(self).spec_prev(), record_payload@),
            final(self).spec_prev() == h@,
            final(self).spec_key() == old(self).spec_key(),
    {
        let h = self.compute(record_payload);
        self.prev_hmac = h;
        h
    }

    /// The chain value so far.
    pub fn current_hmac(&self) -> (h: &[u8; 32])
        ensures
            h@ == self.spec_prev(),
    {
        &self.prev_hmac
    }
}

/// The HMACs a writer produces by advancing from chain value `prev` through
/// `payloads` in order.
pub open spec fn chain_run(key: Seq<u8>, prev: Seq<u8>, payloads: Seq<Seq<u8>>) -> Seq<Seq<u8>>
    decreases payloads.len(),
{
    if payloads.len() == 0 {
        Seq::empty()
    } else {
        let h = chain_step(key, prev, payloads[0]);
        seq![h] + chain_run(key, h, payloads.drop_first())
    }
}

/// Whether a verifier at chain value `prev` accepts every record in turn:
/// each stored HMAC is the one `verify_and_advance` requires at that point.
pub open spec fn replay_accepts(key: Seq<u8>, prev: Seq<u8>, payloads: Seq<Seq<u8>>, hmacs: Seq<Seq<u8>>) -> bool
    decreases payloads.len(),
{
    if payloads.len() == 0 {
        hmacs.len() == 0
    } else {
        &&& hmacs.len() > 0
        &&& hmacs[0] == chain_step(key, prev, payloads[0])
        &&& replay_accepts(key, hmacs[0], payloads.drop_first(), hmacs.drop_first())
    }
}

/// A verifier with the writer's key and starting chain value accepts, in
/// order, every record the writer produced.
pub proof fn lemma_replay_accepts(key: Seq<u8>, prev: Seq<u8>, payloads: Seq<Seq<u8>>)
    ensures
        replay_accepts(key, prev, payloads, chain_run(key, prev, payloads)),
    decreases payloads.len(),
{
    if payloads.len() > 0 {
        let h = chain_step(key, prev, payloads[0]);
        lemma_replay_accepts(key, h, payloads.drop_first());
        assert((seq![h] + chain_run(key, h, payloads.drop_first())).drop_first() =~= chain_run(
            key,
            h,
            payloads.drop_first(),
        ));
    }
}

/// Install the syscall allow-list. Only Linux builds with the `seccomp`
/// feature install one, and this crate defines no such feature, so here it
/// always succeeds without doing anything.
pub fn apply_seccomp_profile() -> (r: OvnResult<()>)
    ensures
        r is Ok,
{
    Ok(())
}

} // verus!
