//! Raft consensus roles and log for multi-node replication.

use std::collections::HashMap;

use vstd::prelude::*;

verus! {

broadcast use vstd::std_specs::hash::group_hash_axioms;

/// Raft node role.
#[derive(Debug, Clone, Copy, PartialEq, Eq, Structural)]
pub enum RaftRole {
    Follower,
    Candidate,
    Leader,
}

/// Raft node configuration.
#[derive(Debug, Clone)]
pub struct RaftConfig {
    pub node_id: u64,
    pub election_timeout_ms: u64,
    pub heartbeat_interval_ms: u64,
    pub peers: Vec<u64>,
}

impl Default for RaftConfig {
    /// Node 1, 300 ms election timeout, 100 ms heartbeat, no peers.
    fn default() -> (c: Self)
        ensures
            c.node_id == 1,
            c.election_timeout_ms == 300,
            c.heartbeat_interval_ms == 100,
            c.peers@.len() == 0,
    {
        RaftConfig { node_id: 1, election_timeout_ms: 300, heartbeat_interval_ms: 100, peers: Vec::new() }
    }
}

/// A Raft log entry.
#[derive(Debug, Clone)]
pub struct RaftLogEntry {
    pub term: u64,
    pub index: u64,
    pub data: Vec<u8>,
}

/// Raft log positions are consecutive from 1.
pub open spec fn log_indexed(log: Seq<RaftLogEntry>) -> bool {
    forall|i: int| 0 <= i < log.len() ==> (#[trigger] log[i]).index == i + 1
}

/// The map giving every peer the value `v`.
pub open spec fn peers_map(peers: Seq<u64>, v: u64) -> Map<u64, u64> {
    Map::new(|p: u64| peers.contains(p), |p: u64| v)
}

/// A Raft node's state.
pub struct RaftNode {
    pub config: RaftConfig,
    pub role: RaftRole,
    pub current_term: u64,
    pub voted_for: Option<u64>,
    pub commit_index: u64,
    pub last_applied: u64,
    pub log: Vec<RaftLogEntry>,
    pub next_index: HashMap<u64, u64>,
    pub match_index: HashMap<u64, u64>,
}

/// Set every peer's entry of `m` to `v`.
fn set_all(m: &mut HashMap<u64, u64>, peers: &Vec<u64>, v: u64)
    ensures
        final(m)@ == old(m)@.union_prefer_right(peers_map(peers@, v)),
{
    let mut i: usize = 0;
    while i < peers.len()
        invariant
            i <= peers@.len(),
            m@ == old(m)@.union_prefer_right(peers_map(peers@.take(i as int), v)),
        decreases peers@.len() - i,
    {
        let ghost before = m@;
        m.insert(peers[i], v);
        proof {
            let p = peers@[i as int];
            assert forall|q: u64| peers@.take(i + 1).contains(q) <==> peers@.take(i as int).contains(q) || q == p by {
                if peers@.take(i + 1).contains(q) {
                    let j = choose|j: int| 0 <= j < i + 1 && #[trigger] peers@.take(i + 1)[j] == q;
                    if j < i {
                        assert(peers@.take(i as int)[j] == q);
                    }
                }
                if peers@.take(i as int).contains(q) {
                    let j = choose|j: int| 0 <= j < i && #[trigger] peers@.take(i as int)[j] == q;
                    assert(peers@.take(i + 1)[j] == q);
                }
                if q == p {
                    assert(peers@.take(i + 1)[i as int] == q);
                }
            }
            assert(m@ =~= old(m)@.union_prefer_right(peers_map(peers@.take(i + 1), v)));
        }
        i = i + 1;
    }
    assert(peers@.take(i as int) =~= peers@);
}

impl RaftNode {
    /// A follower at term 0 with an empty log; every peer's next index is 1
    /// and match index 0.
    pub fn new(config: RaftConfig) -> (n: Self)
        ensures
            n.config == config,
            n.role == RaftRole::Follower,
            n.current_term == 0,
            n.voted_for is None,
            n.commit_index == 0,
            n.last_applied == 0,
            n.log@.len() == 0,
            n.next_index@ == peers_map(config.peers@, 1),
            n.match_index@ == peers_map(config.peers@, 0),
    {
        let mut next_index: HashMap<u64, u64> = HashMap::new();
        let mut match_index: HashMap<u64, u64> = HashMap::new();
        set_all(&mut next_index, &config.peers, 1);
        set_all(&mut match_index, &config.peers, 0);
        assert(next_index@ =~= peers_map(config.peers@, 1));
        assert(match_index@ =~= peers_map(config.peers@, 0));
        RaftNode {
            config,
            role: RaftRole::Follower,
            current_term: 0,
            voted_for: None,
            commit_index: 0,
            last_applied: 0,
            log: Vec::new(),
            next_index,
            match_index,
        }
    }

    /// Append an entry at the current term (leaders only), returning its
    /// index (one past the log's former length); `None` for other roles.
    pub fn propose(&mut self, data: Vec<u8>) -> (r: Option<u64>)
        requires
            old(self).log@.len() < u64::MAX,
        ensures
            old(self).role != RaftRole::Leader ==> r is None && final(self).log@ == old(self).log@,
            old(self).role == RaftRole::Leader ==> r == Some((old(self).log@.len() + 1) as u64)
                && final(self).log@ == old(self).log@.push(
                RaftLogEntry { term: old(self).current_term, index: (old(self).log@.len() + 1) as u64, data },
            ),
            log_indexed(old(self).log@) ==> log_indexed(final(self).log@),
            final(self).role == old(self).role,
            final(self).current_term == old(self).current_term,
            final(self).voted_for == old(self).voted_for,
            final(self).commit_index == old(self).commit_index,
            final(self).last_applied == old(self).last_applied,
            final(self).config == old(self).config,
            final(self).next_index@ == old(self).next_index@,
            final(self).match_index@ == old(self).match_index@,
    {
        if self.role != RaftRole::Leader {
            return None;
        }
        let index = self.log.len() as u64 + 1;
        let ghost before = self.log@;
        self.log.push(RaftLogEntry { term: self.current_term, index, data });
        proof {
            assert forall|i: int| 0 <= i < self.log@.len() && log_indexed(before) implies (
            #[trigger] self.log@[i]).index == i + 1 by {
                if i < before.len() {
                    assert(self.log@[i] == before[i]);
                }
            }
        }
        Some(index)
    }

    /// Become a candidate: next term, voting for itself.
    pub fn start_election(&mut self)
        requires
            old(self).current_term < u64::MAX,
        ensures
            final(self).role == RaftRole::Candidate,
            final(self).current_term == old(self).current_term + 1,
            final(self).voted_for == Some(old(self).config.node_id),
            final(self).log@ == old(self).log@,
            final(self).config == old(self).config,
            final(self).commit_index == old(self).commit_index,
            final(self).last_applied == old(self).last_applied,
            final(self).next_index@ == old(self).next_index@,
            final(self).match_index@ == old(self).match_index@,
    {
        self.role = RaftRole::Candidate;
        self.current_term = self.current_term + 1;
        self.voted_for = Some(self.config.node_id);
    }

    /// Become leader: every peer's next index is one past the log's length
    /// and its match index 0.
    pub fn become_leader(&mut self)
        requires
            old(self).log@.len() < u64::MAX,
        ensures
            final(self).role == RaftRole::Leader,
            final(self).next_index@ == old(self).next_index@.union_prefer_right(
                peers_map(old(self).config.peers@, (old(self).log@.len() + 1) as u64),
            ),
            final(self).match_index@ == old(self).match_index@.union_prefer_right(
                peers_map(old(self).config.peers@, 0),
            ),
            final(self).current_term == old(self).current_term,
            final(self).voted_for == old(self).voted_for,
            final(self).commit_index == old(self).commit_index,
            final(self).last_applied == old(self).last_applied,
            final(self).log@ == old(self).log@,
            final(self).config == old(self).config,
    {
        self.role = RaftRole::Leader;
        let last_log_index = self.log.len() as u64 + 1;
        set_all(&mut self.next_index, &self.config.peers, last_log_index);
        set_all(&mut self.match_index, &self.config.peers, 0);
    }
}

} // verus!
