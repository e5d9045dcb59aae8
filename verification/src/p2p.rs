//! The peer scheduler: tit-for-tat unchoke selection and per-peer
//! bandwidth allocation.
//!
//! A peer's score weighs what it contributed — seven parts downloaded-from
//! to three parts uploaded-to, scaled by its reliability — and the unchoke
//! set is the top scorers plus one random optimistic pick from the rest.
//! The selection's `ensures` carry the set-size bound and the dominance of
//! the regular picks; `lemma_top_peers_unchoked` derives the strict-order
//! top-`R` membership law from them.

use vstd::prelude::*;

use crate::crypto::random_below;
use crate::errors::P2pError;
use crate::sysapi::unix_now_ms;
use crate::types::{ChunkId, PeerId, PeerStats, spec_default_peer_stats};

verus! {

/// Scheduler configuration.
#[derive(Debug, Clone)]
pub struct P2PConfig {
    pub max_upload_mbps: u64,
    pub max_download_mbps: u64,
    pub unchoke_interval_seconds: u64,
    pub regular_unchoke_count: usize,
    pub optimistic_unchoke_count: usize,
}

impl Default for P2PConfig {
    /// 50 Mb/s up, 100 Mb/s down, a ten-second interval, four regular and
    /// one optimistic unchoke slot.
    fn default() -> (r: P2PConfig)
        ensures
            r.max_upload_mbps == 50,
            r.max_download_mbps == 100,
            r.unchoke_interval_seconds == 10,
            r.regular_unchoke_count == 4,
            r.optimistic_unchoke_count == 1,
    {
        P2PConfig {
            max_upload_mbps: 50,
            max_download_mbps: 100,
            unchoke_interval_seconds: 10,
            regular_unchoke_count: 4,
            optimistic_unchoke_count: 1,
        }
    }
}

/// A peer's lifecycle state.
#[derive(Debug, Clone, Copy, PartialEq, Eq, Structural)]
pub enum PeerState {
    Discovered,
    Connected,
    Interested,
    Unchoked,
    Choked,
    Disconnected,
}

/// The tit-for-tat score: seven parts downloaded, three parts uploaded,
/// scaled by reliability.
pub open spec fn peer_score(st: PeerStats) -> int {
    (7 * st.downloaded_bytes + 3 * st.uploaded_bytes) * st.reliability_ppm
}

/// The statistics stored for `id`, scanning from the front.
pub open spec fn lookup(peers: Seq<(u64, PeerStats)>, id: u64) -> Option<PeerStats>
    decreases peers.len(),
{
    if peers.len() == 0 {
        None
    } else if peers[0].0 == id {
        Some(peers[0].1)
    } else {
        lookup(peers.drop_first(), id)
    }
}

/// Whether an id occurs in an unchoke list.
pub open spec fn contains_id(s: Seq<PeerId>, id: u64) -> bool {
    exists|t: int| 0 <= t < s.len() && #[trigger] s[t].0 == id
}

/// All entries carry distinct ids.
pub open spec fn distinct_ids(peers: Seq<(u64, PeerStats)>) -> bool {
    forall|i: int, j: int| #![trigger peers[i], peers[j]]
        0 <= i < j < peers.len() ==> peers[i].0 != peers[j].0
}

/// A valid unchoke set for `peers` under `config`: bounded by the slot
/// counts, made of distinct known peers, with the regular picks dominating
/// every peer left out.
pub open spec fn unchoke_set_ok(
    u: Seq<PeerId>,
    peers: Seq<(u64, PeerStats)>,
    regular: nat,
    optimistic: nat,
) -> bool {
    let reg_eff: nat = if regular <= peers.len() {
        regular
    } else {
        peers.len()
    };
    &&& u.len() == reg_eff + if optimistic > 0 && peers.len() > reg_eff {
        1nat
    } else {
        0nat
    }
    &&& forall|s: int| 0 <= s < u.len() ==> lookup(peers, #[trigger] u[s].0) is Some
    &&& forall|s1: int, s2: int| #![trigger u[s1], u[s2]]
        0 <= s1 < s2 < u.len() ==> u[s1].0 != u[s2].0
    &&& forall|s: int, j: int| #![trigger u[s], peers[j]]
        (0 <= s < reg_eff && 0 <= j < peers.len() && !contains_id(u, peers[j].0)) ==> peer_score(
            peers[j].1,
        ) <= peer_score(lookup(peers, u[s].0)->Some_0)
}

/// The unchoke set never exceeds the configured slot counts: at most the
/// regular count plus the optimistic count, and at most one optimistic
/// pick.
pub proof fn lemma_unchoke_set_bounded(
    u: Seq<PeerId>,
    peers: Seq<(u64, PeerStats)>,
    regular: nat,
    optimistic: nat,
)
    requires
        unchoke_set_ok(u, peers, regular, optimistic),
    ensures
        u.len() <= regular + optimistic || (optimistic == 0 && u.len() <= regular),
        u.len() <= regular + 1,
{
}

/// The scheduler.
pub struct P2PEngine {
    peer_stats: Vec<(u64, PeerStats)>,
    unchoked_peers: Vec<PeerId>,
    config: P2PConfig,
}

impl P2PEngine {
    /// The per-peer statistics, in insertion order.
    pub closed spec fn spec_peers(self) -> Seq<(u64, PeerStats)> {
        self.peer_stats@
    }

    /// The published unchoke set.
    pub closed spec fn spec_unchoked(self) -> Seq<PeerId> {
        self.unchoked_peers@
    }

    /// The configuration.
    pub closed spec fn spec_config(self) -> P2PConfig {
        self.config
    }

    /// Statistics entries carry distinct peer ids.
    pub closed spec fn inv(self) -> bool {
        distinct_ids(self.peer_stats@)
    }

    /// What the invariant publishes: the statistics entries carry
    /// distinct peer ids, so the top-peers law applies to any reachable
    /// engine state.
    pub proof fn lemma_inv_distinct(&self)
        requires
            self.inv(),
        ensures
            distinct_ids(self.spec_peers()),
    {
    }

    /// A fresh scheduler: no peers, nothing unchoked.
    pub fn new(config: P2PConfig) -> (r: P2PEngine)
        ensures
            r.inv(),
            r.spec_peers() == Seq::<(u64, PeerStats)>::empty(),
            r.spec_unchoked() == Seq::<PeerId>::empty(),
            r.spec_config() == config,
    {
        P2PEngine { peer_stats: Vec::new(), unchoked_peers: Vec::new(), config }
    }

    /// Find the position of a peer's entry.
    fn find_peer(&self, id: u64) -> (r: Option<usize>)
        requires
            self.inv(),
        ensures
            r matches Some(i) ==> i < self.spec_peers().len() && self.spec_peers()[i as int].0
                == id && lookup(self.spec_peers(), id) == Some(self.spec_peers()[i as int].1),
            r is None <==> lookup(self.spec_peers(), id) is None,
    {
        let mut i: usize = 0;
        while i < self.peer_stats.len()
            invariant
                self.inv(),
                i <= self.peer_stats@.len(),
                forall|j: int| 0 <= j < i ==> #[trigger] self.peer_stats@[j].0 != id,
            decreases self.peer_stats@.len() - i,
        {
            if self.peer_stats[i].0 == id {
                proof {
                    lemma_lookup_found(self.peer_stats@, id, i as int);
                }
                return Some(i);
            }
            i = i + 1;
        }
        proof {
            lemma_lookup_missing(self.peer_stats@, id);
        }
        None
    }

    /// Register a peer with fresh default statistics, replacing any entry
    /// it already had.
    pub fn add_peer(&mut self, peer: PeerId)
        requires
            old(self).inv(),
        ensures
            final(self).inv(),
            final(self).spec_config() == old(self).spec_config(),
            final(self).spec_unchoked() == old(self).spec_unchoked(),
            lookup(final(self).spec_peers(), peer.0) == Some(spec_default_peer_stats()),
            forall|id: u64| id != peer.0 ==> #[trigger] lookup(final(self).spec_peers(), id)
                == lookup(old(self).spec_peers(), id),
    {
        self.upsert(peer.0, PeerStats::default());
    }

    /// Store the given statistics for a peer, replacing any entry.
    pub fn update_peer_state(&mut self, peer: PeerId, stats: PeerStats)
        requires
            old(self).inv(),
        ensures
            final(self).inv(),
            final(self).spec_config() == old(self).spec_config(),
            final(self).spec_unchoked() == old(self).spec_unchoked(),
            lookup(final(self).spec_peers(), peer.0) == Some(stats),
            forall|id: u64| id != peer.0 ==> #[trigger] lookup(final(self).spec_peers(), id)
                == lookup(old(self).spec_peers(), id),
    {
        self.upsert(peer.0, stats);
    }

    /// Replace or append one entry.
    fn upsert(&mut self, id: u64, stats: PeerStats)
        requires
            old(self).inv(),
        ensures
            final(self).inv(),
            final(self).spec_config() == old(self).spec_config(),
            final(self).spec_unchoked() == old(self).spec_unchoked(),
            lookup(final(self).spec_peers(), id) == Some(stats),
            forall|other: u64| other != id ==> #[trigger] lookup(final(self).spec_peers(), other)
                == lookup(old(self).spec_peers(), other),
    {
        let found = self.find_peer(id);
        match found {
            Some(i) => {
                self.peer_stats.set(i, (id, stats));
                proof {
                    lemma_lookup_update(old(self).peer_stats@, self.peer_stats@, i as int, id, stats);
                }
            },
            None => {
                self.peer_stats.push((id, stats));
                proof {
                    lemma_lookup_push(old(self).peer_stats@, id, stats);
                }
            },
        }
    }

    /// Drop a peer's entry.
    pub fn remove_peer(&mut self, peer: &PeerId)
        requires
            old(self).inv(),
        ensures
            final(self).inv(),
            final(self).spec_config() == old(self).spec_config(),
            final(self).spec_unchoked() == old(self).spec_unchoked(),
            lookup(final(self).spec_peers(), peer.0) is None,
            forall|id: u64| id != peer.0 ==> #[trigger] lookup(final(self).spec_peers(), id)
                == lookup(old(self).spec_peers(), id),
    {
        let found = self.find_peer(peer.0);
        match found {
            Some(i) => {
                self.peer_stats.remove(i);
                proof {
                    lemma_lookup_remove(old(self).peer_stats@, i as int, peer.0);
                }
            },
            None => {},
        }
    }

    /// Add to a peer's uploaded-bytes figure, saturating; an unknown peer
    /// is left unregistered.
    pub fn update_uploaded(&mut self, peer: PeerId, bytes: u64)
        requires
            old(self).inv(),
        ensures
            final(self).inv(),
            final(self).spec_config() == old(self).spec_config(),
            final(self).spec_unchoked() == old(self).spec_unchoked(),
            forall|id: u64| id != peer.0 ==> #[trigger] lookup(final(self).spec_peers(), id)
                == lookup(old(self).spec_peers(), id),
            lookup(old(self).spec_peers(), peer.0) matches Some(st) ==> lookup(
                final(self).spec_peers(),
                peer.0,
            ) == Some(PeerStats {
                uploaded_bytes: if st.uploaded_bytes + bytes <= u64::MAX {
                    (st.uploaded_bytes + bytes) as u64
                } else {
                    u64::MAX
                },
                ..st
            }),
            lookup(old(self).spec_peers(), peer.0) is None ==> lookup(
                final(self).spec_peers(),
                peer.0,
            ) is None,
    {
        let found = self.find_peer(peer.0);
        match found {
            Some(i) => {
                let st = self.peer_stats[i].1;
                let updated = PeerStats { uploaded_bytes: st.uploaded_bytes.saturating_add(bytes), ..st };
                self.peer_stats.set(i, (peer.0, updated));
                proof {
                    lemma_lookup_update(old(self).peer_stats@, self.peer_stats@, i as int, peer.0, updated);
                }
            },
            None => {},
        }
    }

    /// Add to a peer's downloaded-bytes figure, saturating; an unknown
    /// peer is left unregistered.
    pub fn update_downloaded(&mut self, peer: PeerId, bytes: u64)
        requires
            old(self).inv(),
        ensures
            final(self).inv(),
            final(self).spec_config() == old(self).spec_config(),
            final(self).spec_unchoked() == old(self).spec_unchoked(),
            forall|id: u64| id != peer.0 ==> #[trigger] lookup(final(self).spec_peers(), id)
                == lookup(old(self).spec_peers(), id),
            lookup(old(self).spec_peers(), peer.0) matches Some(st) ==> lookup(
                final(self).spec_peers(),
                peer.0,
            ) == Some(PeerStats {
                downloaded_bytes: if st.downloaded_bytes + bytes <= u64::MAX {
                    (st.downloaded_bytes + bytes) as u64
                } else {
                    u64::MAX
                },
                ..st
            }),
            lookup(old(self).spec_peers(), peer.0) is None ==> lookup(
                final(self).spec_peers(),
                peer.0,
            ) is None,
    {
        let found = self.find_peer(peer.0);
        match found {
            Some(i) => {
                let st = self.peer_stats[i].1;
                let updated = PeerStats {
                    downloaded_bytes: st.downloaded_bytes.saturating_add(bytes),
                    ..st
                };
                self.peer_stats.set(i, (peer.0, updated));
                proof {
                    lemma_lookup_update(old(self).peer_stats@, self.peer_stats@, i as int, peer.0, updated);
                }
            },
            None => {},
        }
    }

    /// A peer's statistics.
    pub fn get_peer_stats(&self, peer: &PeerId) -> (r: Option<PeerStats>)
        requires
            self.inv(),
        ensures
            r == lookup(self.spec_peers(), peer.0),
    {
        let found = self.find_peer(peer.0);
        match found {
            Some(i) => Some(self.peer_stats[i].1),
            None => None,
        }
    }

    /// Every peer with its statistics, in insertion order.
    pub fn get_all_stats(&self) -> (r: Vec<(PeerId, PeerStats)>)
        ensures
            r@.len() == self.spec_peers().len(),
            forall|i: int| 0 <= i < r@.len() ==> #[trigger] r@[i] == (PeerId(
                self.spec_peers()[i].0,
            ), self.spec_peers()[i].1),
    {
        let mut out: Vec<(PeerId, PeerStats)> = Vec::new();
        let mut i: usize = 0;
        while i < self.peer_stats.len()
            invariant
                i <= self.peer_stats@.len(),
                out@.len() == i,
                forall|j: int| 0 <= j < i ==> #[trigger] out@[j] == (PeerId(
                    self.peer_stats@[j].0,
                ), self.peer_stats@[j].1),
            decreases self.peer_stats@.len() - i,
        {
            let entry = self.peer_stats[i];
            out.push((PeerId(entry.0), entry.1));
            i = i + 1;
        }
        out
    }

    /// The published unchoke set.
    pub fn get_unchoked_peers(&self) -> (r: Vec<PeerId>)
        ensures
            r@ == self.spec_unchoked(),
    {
        let mut out: Vec<PeerId> = Vec::new();
        let mut i: usize = 0;
        while i < self.unchoked_peers.len()
            invariant
                i <= self.unchoked_peers@.len(),
                out@ =~= self.unchoked_peers@.take(i as int),
            decreases self.unchoked_peers@.len() - i,
        {
            out.push(self.unchoked_peers[i]);
            i = i + 1;
            proof {
                assert(out@ =~= self.unchoked_peers@.take(i as int));
            }
        }
        proof {
            assert(self.unchoked_peers@.take(self.unchoked_peers@.len() as int)
                =~= self.unchoked_peers@);
        }
        out
    }

    /// Admit a chunk request: allowed exactly for peers in the current
    /// unchoke set; an allowed requester's last-interaction instant is
    /// refreshed from the clock.
    pub fn handle_chunk_request(&mut self, peer: PeerId, _chunk_id: ChunkId) -> (r: Result<
        (),
        P2pError,
    >)
        requires
            old(self).inv(),
        ensures
            final(self).inv(),
            final(self).spec_config() == old(self).spec_config(),
            final(self).spec_unchoked() == old(self).spec_unchoked(),
            r is Ok <==> contains_id(old(self).spec_unchoked(), peer.0),
            r matches Err(e) ==> e == P2pError::PeerChoked && final(self).spec_peers() == old(
                self,
            ).spec_peers(),
            forall|id: u64| id != peer.0 ==> #[trigger] lookup(final(self).spec_peers(), id)
                == lookup(old(self).spec_peers(), id),
            r is Ok ==> (lookup(old(self).spec_peers(), peer.0) matches Some(st) ==> (lookup(
                final(self).spec_peers(),
                peer.0,
            ) matches Some(st2) && st2.uploaded_bytes == st.uploaded_bytes && st2.downloaded_bytes
                == st.downloaded_bytes && st2.reliability_ppm == st.reliability_ppm
                && st2.last_interaction_ms is Some)),
    {
        let mut unchoked: bool = false;
        let mut i: usize = 0;
        while i < self.unchoked_peers.len()
            invariant
                i <= self.unchoked_peers@.len(),
                unchoked == exists|t: int| 0 <= t < i && #[trigger] self.unchoked_peers@[t].0
                    == peer.0,
            decreases self.unchoked_peers@.len() - i,
        {
            if self.unchoked_peers[i].0 == peer.0 {
                unchoked = true;
            }
            i = i + 1;
        }
        if !unchoked {
            return Err(P2pError::PeerChoked);
        }
        let now: u64 = unix_now_ms();
        let found = self.find_peer(peer.0);
        match found {
            Some(idx) => {
                let st = self.peer_stats[idx].1;
                let updated = PeerStats { last_interaction_ms: Some(now), ..st };
                self.peer_stats.set(idx, (peer.0, updated));
                proof {
                    lemma_lookup_update(old(self).peer_stats@, self.peer_stats@, idx as int, peer.0, updated);
                }
            },
            None => {},
        }
        Ok(())
    }

    /// Note an outbound chunk request: a known peer's last-interaction
    /// instant is refreshed, an unknown peer is registered fresh.
    pub fn request_chunk(&mut self, peer: PeerId, _chunk_id: ChunkId) -> (r: Result<(), P2pError>)
        requires
            old(self).inv(),
        ensures
            final(self).inv(),
            r is Ok,
            final(self).spec_config() == old(self).spec_config(),
            final(self).spec_unchoked() == old(self).spec_unchoked(),
            forall|id: u64| id != peer.0 ==> #[trigger] lookup(final(self).spec_peers(), id)
                == lookup(old(self).spec_peers(), id),
            lookup(final(self).spec_peers(), peer.0) is Some,
    {
        let found = self.find_peer(peer.0);
        match found {
            Some(idx) => {
                let now: u64 = unix_now_ms();
                let st = self.peer_stats[idx].1;
                let updated = PeerStats { last_interaction_ms: Some(now), ..st };
                self.peer_stats.set(idx, (peer.0, updated));
                proof {
                    lemma_lookup_update(old(self).peer_stats@, self.peer_stats@, idx as int, peer.0, updated);
                }
            },
            None => {
                self.upsert(peer.0, PeerStats::default());
            },
        }
        Ok(())
    }

    /// Recompute and publish the unchoke set: the top scorers fill the
    /// regular slots, and one random further peer fills the optimistic
    /// slot when any remain and the slot is configured.
    pub fn update_unchoke_set(&mut self) -> (r: Result<(), P2pError>)
        requires
            old(self).inv(),
        ensures
            final(self).inv(),
            r is Ok,
            final(self).spec_config() == old(self).spec_config(),
            final(self).spec_peers() == old(self).spec_peers(),
            unchoke_set_ok(
                final(self).spec_unchoked(),
                old(self).spec_peers(),
                old(self).spec_config().regular_unchoke_count as nat,
                old(self).spec_config().optimistic_unchoke_count as nat,
            ),
    {
        let new_set = self.calculate_unchoke_set();
        self.unchoked_peers = new_set;
        Ok(())
    }

    /// Compute a fresh unchoke set without publishing it.
    #[verifier::rlimit(60)]
    #[verifier::spinoff_prover]
    fn calculate_unchoke_set(&self) -> (r: Vec<PeerId>)
        requires
            self.inv(),
        ensures
            unchoke_set_ok(
                r@,
                self.spec_peers(),
                self.spec_config().regular_unchoke_count as nat,
                self.spec_config().optimistic_unchoke_count as nat,
            ),
    {
        let ghost peers = self.peer_stats@;
        let n: usize = self.peer_stats.len();
        let regular: usize = self.config.regular_unchoke_count;
        let reg_eff: usize = if regular <= n {
            regular
        } else {
            n
        };
        let mut used: Vec<bool> = Vec::new();
        let mut t: usize = 0;
        while t < n
            invariant
                t <= n,
                used@.len() == t,
                forall|j: int| 0 <= j < t ==> !used@[j],
            decreases n - t,
        {
            used.push(false);
            t = t + 1;
        }
        let mut picked: Vec<PeerId> = Vec::new();
        let mut round: usize = 0;
        while round < reg_eff
            invariant
                self.inv(),
                peers == self.peer_stats@,
                n == peers.len(),
                reg_eff <= n,
                round <= reg_eff,
                used@.len() == n,
                picked@.len() == round,
                forall|s: int| #![trigger picked@[s]]
                    0 <= s < round ==> (exists|j: int|
                        0 <= j < n && #[trigger] used@[j] && peers[j].0 == picked@[s].0),
                forall|j: int| #[trigger]
                    used@[j] && 0 <= j < n ==> (exists|s: int|
                        0 <= s < round && #[trigger] picked@[s].0 == peers[j].0),
                forall|s: int, j: int| #![trigger picked@[s], peers[j]]
                    (0 <= s < round && 0 <= j < n && !used@[j]) ==> peer_score(peers[j].1)
                        <= peer_score(lookup(peers, picked@[s].0)->Some_0),
                forall|s1: int, s2: int| #![trigger picked@[s1], picked@[s2]]
                    0 <= s1 < s2 < round ==> picked@[s1].0 != picked@[s2].0,
                forall|s: int| 0 <= s < round ==> lookup(peers, #[trigger] picked@[s].0) is Some,
            decreases reg_eff - round,
        {
            let mut best: usize = 0;
            let mut best_found: bool = false;
            let mut best_score: u128 = 0;
            let mut j: usize = 0;
            while j < n
                invariant
                    j <= n,
                    n == peers.len(),
                    peers == self.peer_stats@,
                    used@.len() == n,
                    best_found ==> best < j && !used@[best as int] && best_score == peer_score(
                        peers[best as int].1,
                    ),
                    forall|u: int| #![trigger used@[u]]
                        (0 <= u < j && !used@[u]) ==> (best_found && peer_score(peers[u].1)
                            <= best_score),
                decreases n - j,
            {
                if !used[j] {
                    let sc = score_of(&self.peer_stats[j].1);
                    if !best_found || sc > best_score {
                        best = j;
                        best_found = true;
                        best_score = sc;
                    }
                }
                j = j + 1;
            }
            proof {
                assert(round < reg_eff <= n);
                if !best_found {
                    lemma_unused_slot_exists(used@, picked@, peers, round as int);
                    let u = choose|u: int| 0 <= u < used@.len() && !(#[trigger] used@[u]);
                    assert(best_found);
                }
            }
            if !best_found {
                proof {
                    assert(false);
                }
                return picked;
            }
            let ghost used0 = used@;
            let ghost picked0 = picked@;
            used.set(best, true);
            picked.push(PeerId(self.peer_stats[best].0));
            round = round + 1;
            proof {
                lemma_lookup_found(peers, peers[best as int].0, best as int);
                assert(picked@[round - 1].0 == peers[best as int].0);
                assert forall|s: int| #![trigger picked@[s]] 0 <= s < round implies (exists|j2: int|
                    0 <= j2 < n && #[trigger] used@[j2] && peers[j2].0 == picked@[s].0) by {
                    if s < round - 1 {
                        let j0 = choose|j0: int|
                            0 <= j0 < n && #[trigger] used0[j0] && peers[j0].0 == picked0[s].0;
                        assert(used@[j0]);
                        assert(picked@[s] == picked0[s]);
                    } else {
                        assert(used@[best as int]);
                    }
                }
                assert forall|j2: int| #[trigger] used@[j2] && 0 <= j2 < n implies (exists|s: int|
                    0 <= s < round && #[trigger] picked@[s].0 == peers[j2].0) by {
                    if j2 == best {
                        assert(picked@[round - 1].0 == peers[best as int].0);
                    } else {
                        assert(used0[j2]);
                        let s0 = choose|s0: int|
                            0 <= s0 < round - 1 && #[trigger] picked0[s0].0 == peers[j2].0;
                        assert(picked@[s0].0 == peers[j2].0);
                    }
                }
                assert forall|s: int, j2: int| #![trigger picked@[s], peers[j2]]
                    (0 <= s < round && 0 <= j2 < n && !used@[j2]) implies peer_score(peers[j2].1)
                    <= peer_score(lookup(peers, picked@[s].0)->Some_0) by {
                    if s < round - 1 {
                        assert(picked@[s] == picked0[s]);
                        assert(!used0[j2]);
                    } else {
                        assert(!used0[j2]);
                        assert(peer_score(peers[j2].1) <= best_score);
                        assert(lookup(peers, picked@[s].0) == Some(peers[best as int].1));
                    }
                }
                assert forall|s1: int, s2: int| #![trigger picked@[s1], picked@[s2]]
                    0 <= s1 < s2 < round implies picked@[s1].0 != picked@[s2].0 by {
                    if s2 == round - 1 {
                        assert(picked@[s1] == picked0[s1]);
                        let jj = choose|jj: int|
                            0 <= jj < n && #[trigger] used0[jj] && peers[jj].0 == picked0[s1].0;
                        if peers[jj].0 == peers[best as int].0 {
                            assert(jj != best);
                        }
                    }
                }
            }
        }
        let mut unchoked = picked;
        let optimistic: usize = self.config.optimistic_unchoke_count;
        if optimistic > 0 && n > reg_eff {
            let mut remaining: Vec<usize> = Vec::new();
            let mut j: usize = 0;
            while j < n
                invariant
                    j <= n,
                    n == used@.len(),
                    forall|t2: int| 0 <= t2 < remaining@.len() ==> #[trigger] remaining@[t2] < j
                        && !used@[remaining@[t2] as int],
                    forall|u: int| (0 <= u < j && !used@[u]) ==> (exists|t2: int|
                        0 <= t2 < remaining@.len() && #[trigger] remaining@[t2] == u),
                decreases n - j,
            {
                let ghost rem0 = remaining@;
                if !used[j] {
                    remaining.push(j);
                }
                j = j + 1;
                proof {
                    assert forall|u: int| (0 <= u < j && !used@[u]) implies (exists|t2: int|
                        0 <= t2 < remaining@.len() && #[trigger] remaining@[t2] == u) by {
                        if u < j - 1 {
                            let t0 = choose|t0: int|
                                0 <= t0 < rem0.len() && #[trigger] rem0[t0] == u;
                            assert(remaining@[t0] == u);
                        } else {
                            assert(remaining@[remaining@.len() - 1] == u);
                        }
                    }
                }
            }
            proof {
                if remaining@.len() == 0 {
                    lemma_unused_slot_exists(used@, unchoked@, peers, reg_eff as int);
                    let u = choose|u: int| 0 <= u < used@.len() && !(#[trigger] used@[u]);
                    assert(exists|t2: int|
                        0 <= t2 < remaining@.len() && #[trigger] remaining@[t2] == u);
                    assert(false);
                }
            }
            if remaining.len() > 0 {
                let pick = remaining[random_below(remaining.len())];
                let ghost u0 = unchoked@;
                unchoked.push(PeerId(self.peer_stats[pick].0));
                proof {
                    lemma_lookup_found(peers, peers[pick as int].0, pick as int);
                    assert forall|s1: int, s2: int| #![trigger unchoked@[s1], unchoked@[s2]]
                        0 <= s1 < s2 < unchoked@.len() implies unchoked@[s1].0 != unchoked@[s2].0 by {
                        if s2 == unchoked@.len() - 1 {
                            assert(unchoked@[s1] == u0[s1]);
                            let jj = choose|jj: int|
                                0 <= jj < n && #[trigger] used@[jj] && peers[jj].0 == u0[s1].0;
                            if peers[jj].0 == peers[pick as int].0 {
                                assert(jj != pick);
                            }
                        }
                    }
                    assert forall|s: int, j2: int| #![trigger unchoked@[s], peers[j2]]
                        (0 <= s < reg_eff && 0 <= j2 < n && !contains_id(unchoked@, peers[j2].0))
                        implies peer_score(peers[j2].1) <= peer_score(
                        lookup(peers, unchoked@[s].0)->Some_0,
                    ) by {
                        assert(unchoked@[s] == u0[s]);
                        if used@[j2] {
                            let ss = choose|ss: int|
                                0 <= ss < reg_eff && #[trigger] u0[ss].0 == peers[j2].0;
                            assert(unchoked@[ss].0 == peers[j2].0);
                            assert(contains_id(unchoked@, peers[j2].0));
                        }
                    }
                }
                return unchoked;
            }
        }
        proof {
            assert forall|s: int, j2: int| #![trigger unchoked@[s], peers[j2]]
                (0 <= s < reg_eff && 0 <= j2 < n && !contains_id(unchoked@, peers[j2].0))
                implies peer_score(peers[j2].1) <= peer_score(
                lookup(peers, unchoked@[s].0)->Some_0,
            ) by {
                if used@[j2] {
                    let ss = choose|ss: int|
                        0 <= ss < reg_eff && #[trigger] unchoked@[ss].0 == peers[j2].0;
                    assert(contains_id(unchoked@, peers[j2].0));
                }
            }
        }
        unchoked
    }

    /// The per-peer share of the upload budget: the configured rate in
    /// bytes a second, divided evenly over the unchoke set.
    pub fn get_bandwidth_allocation(&self) -> (r: Vec<(PeerId, u64)>)
        ensures
            r@.len() == self.spec_unchoked().len(),
            forall|i: int| 0 <= i < r@.len() ==> #[trigger] r@[i] == (
                self.spec_unchoked()[i],
                spec_share(
                    self.spec_config().max_upload_mbps,
                    self.spec_unchoked().len() as int,
                ),
            ),
    {
        let count: usize = if self.unchoked_peers.len() >= 1 {
            self.unchoked_peers.len()
        } else {
            1
        };
        let wide: u128 = (self.config.max_upload_mbps as u128) * 1_000_000 / (count as u128);
        let share: u64 = if wide > u64::MAX as u128 {
            u64::MAX
        } else {
            wide as u64
        };
        let mut out: Vec<(PeerId, u64)> = Vec::new();
        let mut i: usize = 0;
        while i < self.unchoked_peers.len()
            invariant
                i <= self.unchoked_peers@.len(),
                out@.len() == i,
                share == spec_share(
                    self.spec_config().max_upload_mbps,
                    self.spec_unchoked().len() as int,
                ),
                forall|j: int| 0 <= j < i ==> #[trigger] out@[j] == (
                    self.unchoked_peers@[j],
                    share,
                ),
            decreases self.unchoked_peers@.len() - i,
        {
            out.push((self.unchoked_peers[i], share));
            i = i + 1;
        }
        out
    }
}

/// The even per-peer share of `mbps` megabits a second, over `count`
/// peers (at least one), saturating at the integer limit.
pub open spec fn spec_share(mbps: u64, count: int) -> u64 {
    let c: int = if count >= 1 {
        count
    } else {
        1
    };
    let wide: int = (mbps * 1_000_000) / c;
    if wide > u64::MAX {
        u64::MAX
    } else {
        wide as u64
    }
}

/// Compute a peer's score exactly.
fn score_of(st: &PeerStats) -> (r: u128)
    ensures
        r == peer_score(*st),
{
    let base: u128 = st.downloaded_bytes as u128 * 7 + st.uploaded_bytes as u128 * 3;
    let rel: u128 = st.reliability_ppm as u128;
    proof {
        assert(base * rel <= u128::MAX) by (nonlinear_arith)
            requires
                base < 0x100_0000_0000_0000_0000,
                rel < 0x1_0000_0000,
        ;
    }
    base * rel
}

/// The entry at a found position is what lookup returns.
proof fn lemma_lookup_found(peers: Seq<(u64, PeerStats)>, id: u64, i: int)
    requires
        distinct_ids(peers),
        0 <= i < peers.len(),
        peers[i].0 == id,
    ensures
        lookup(peers, id) == Some(peers[i].1),
    decreases peers.len(),
{
    if i == 0 {
    } else {
        assert(peers[0].0 != id);
        assert(peers.drop_first()[i - 1] == peers[i]);
        assert(distinct_ids(peers.drop_first())) by {
            assert(forall|a: int, b: int| #![trigger peers.drop_first()[a], peers.drop_first()[b]]
                0 <= a < b < peers.len() - 1 ==> peers.drop_first()[a] == peers[a + 1]
                    && peers.drop_first()[b] == peers[b + 1]);
        }
        lemma_lookup_found(peers.drop_first(), id, i - 1);
    }
}

/// An id on no entry is not found.
proof fn lemma_lookup_missing(peers: Seq<(u64, PeerStats)>, id: u64)
    requires
        forall|j: int| 0 <= j < peers.len() ==> #[trigger] peers[j].0 != id,
    ensures
        lookup(peers, id) is None,
    decreases peers.len(),
{
    if peers.len() == 0 {
    } else {
        assert(forall|j: int| 0 <= j < peers.len() - 1 ==> #[trigger] peers.drop_first()[j]
            == peers[j + 1]);
        lemma_lookup_missing(peers.drop_first(), id);
    }
}

/// Replacing the entry at `id`'s position updates only that lookup.
proof fn lemma_lookup_update(
    peers: Seq<(u64, PeerStats)>,
    updated: Seq<(u64, PeerStats)>,
    i: int,
    id: u64,
    stats: PeerStats,
)
    requires
        distinct_ids(peers),
        0 <= i < peers.len(),
        peers[i].0 == id,
        updated == peers.update(i, (id, stats)),
    ensures
        distinct_ids(updated),
        lookup(updated, id) == Some(stats),
        forall|other: u64| other != id ==> #[trigger] lookup(updated, other) == lookup(peers, other),
    decreases peers.len(),
{
    assert(distinct_ids(updated)) by {
        assert(forall|a: int| 0 <= a < peers.len() && a != i ==> #[trigger] updated[a] == peers[a]);
    }
    lemma_lookup_found(updated, id, i);
    assert forall|other: u64| other != id implies #[trigger] lookup(updated, other) == lookup(
        peers,
        other,
    ) by {
        lemma_lookup_agree(peers, updated, other);
    }
}

/// Lookups agree wherever the entry lists agree on ids and on the entries
/// carrying the looked-up id.
proof fn lemma_lookup_agree(peers: Seq<(u64, PeerStats)>, other_seq: Seq<(u64, PeerStats)>, id: u64)
    requires
        peers.len() == other_seq.len(),
        forall|a: int| 0 <= a < peers.len() ==> #[trigger] peers[a].0 == other_seq[a].0,
        forall|a: int| 0 <= a < peers.len() && peers[a].0 == id ==> #[trigger] peers[a]
            == other_seq[a],
    ensures
        lookup(peers, id) == lookup(other_seq, id),
    decreases peers.len(),
{
    if peers.len() == 0 {
    } else if peers[0].0 == id {
        assert(peers[0] == other_seq[0]);
    } else {
        assert(forall|a: int| 0 <= a < peers.len() - 1 ==> #[trigger] peers.drop_first()[a]
            == peers[a + 1] && other_seq.drop_first()[a] == other_seq[a + 1]);
        lemma_lookup_agree(peers.drop_first(), other_seq.drop_first(), id);
    }
}

/// Appending a fresh entry updates only its own lookup.
proof fn lemma_lookup_push(peers: Seq<(u64, PeerStats)>, id: u64, stats: PeerStats)
    requires
        distinct_ids(peers),
        lookup(peers, id) is None,
    ensures
        distinct_ids(peers.push((id, stats))),
        lookup(peers.push((id, stats)), id) == Some(stats),
        forall|other: u64| other != id ==> #[trigger] lookup(peers.push((id, stats)), other)
            == lookup(peers, other),
    decreases peers.len(),
{
    lemma_lookup_none_no_entry(peers, id);
    let pushed = peers.push((id, stats));
    assert(distinct_ids(pushed)) by {
        assert(forall|a: int| 0 <= a < peers.len() ==> #[trigger] pushed[a] == peers[a]);
        assert(pushed[peers.len() as int].0 == id);
    }
    lemma_lookup_found(pushed, id, peers.len() as int);
    assert forall|other: u64| other != id implies #[trigger] lookup(pushed, other) == lookup(
        peers,
        other,
    ) by {
        lemma_lookup_push_other(peers, id, stats, other);
    }
}

/// A missing lookup means no entry carries the id.
proof fn lemma_lookup_none_no_entry(peers: Seq<(u64, PeerStats)>, id: u64)
    requires
        lookup(peers, id) is None,
    ensures
        forall|a: int| 0 <= a < peers.len() ==> #[trigger] peers[a].0 != id,
    decreases peers.len(),
{
    if peers.len() == 0 {
    } else {
        assert(peers[0].0 != id);
        lemma_lookup_none_no_entry(peers.drop_first(), id);
        assert(forall|a: int| 0 <= a < peers.len() - 1 ==> #[trigger] peers.drop_first()[a]
            == peers[a + 1]);
        assert forall|a: int| 0 <= a < peers.len() implies #[trigger] peers[a].0 != id by {
            if a > 0 {
                assert(peers.drop_first()[a - 1].0 != id);
            }
        }
    }
}

/// Appending does not change other lookups.
proof fn lemma_lookup_push_other(
    peers: Seq<(u64, PeerStats)>,
    id: u64,
    stats: PeerStats,
    other: u64,
)
    requires
        other != id,
    ensures
        lookup(peers.push((id, stats)), other) == lookup(peers, other),
    decreases peers.len(),
{
    let pushed = peers.push((id, stats));
    if peers.len() == 0 {
        assert(pushed[0].0 == id);
        assert(pushed.drop_first() =~= Seq::<(u64, PeerStats)>::empty());
    } else {
        assert(pushed[0] == peers[0]);
        if peers[0].0 == other {
        } else {
            assert(pushed.drop_first() =~= peers.drop_first().push((id, stats)));
            lemma_lookup_push_other(peers.drop_first(), id, stats, other);
        }
    }
}

/// Removing `id`'s entry clears only its own lookup.
proof fn lemma_lookup_remove(peers: Seq<(u64, PeerStats)>, i: int, id: u64)
    requires
        distinct_ids(peers),
        0 <= i < peers.len(),
        peers[i].0 == id,
    ensures
        distinct_ids(peers.remove(i)),
        lookup(peers.remove(i), id) is None,
        forall|other: u64| other != id ==> #[trigger] lookup(peers.remove(i), other) == lookup(
            peers,
            other,
        ),
    decreases peers.len(),
{
    let removed = peers.remove(i);
    assert(distinct_ids(removed)) by {
        assert(forall|a: int| 0 <= a < i ==> #[trigger] removed[a] == peers[a]);
        assert(forall|a: int| i <= a < removed.len() ==> #[trigger] removed[a] == peers[a + 1]);
    }
    assert forall|a: int| 0 <= a < removed.len() implies #[trigger] removed[a].0 != id by {
        if a < i {
        } else {
            assert(removed[a] == peers[a + 1]);
        }
    }
    lemma_lookup_missing(removed, id);
    assert forall|other: u64| other != id implies #[trigger] lookup(removed, other) == lookup(
        peers,
        other,
    ) by {
        lemma_lookup_remove_other(peers, i, other);
    }
}

/// Removing an entry with a different id does not change a lookup.
proof fn lemma_lookup_remove_other(peers: Seq<(u64, PeerStats)>, i: int, other: u64)
    requires
        distinct_ids(peers),
        0 <= i < peers.len(),
        peers[i].0 != other,
    ensures
        lookup(peers.remove(i), other) == lookup(peers, other),
    decreases peers.len(),
{
    let removed = peers.remove(i);
    if i == 0 {
        assert(removed =~= peers.drop_first());
    } else {
        assert(removed[0] == peers[0]);
        if peers[0].0 == other {
        } else {
            assert(distinct_ids(peers.drop_first())) by {
                assert(forall|a: int, b: int|
                    #![trigger peers.drop_first()[a], peers.drop_first()[b]]
                    0 <= a < b < peers.len() - 1 ==> peers.drop_first()[a] == peers[a + 1]
                        && peers.drop_first()[b] == peers[b + 1]);
            }
            assert(removed.drop_first() =~= peers.drop_first().remove(i - 1));
            assert(peers.drop_first()[i - 1] == peers[i]);
            lemma_lookup_remove_other(peers.drop_first(), i - 1, other);
        }
    }
}

/// A found lookup comes from some entry.
proof fn lemma_lookup_index(peers: Seq<(u64, PeerStats)>, id: u64)
    requires
        lookup(peers, id) is Some,
    ensures
        exists|i: int| 0 <= i < peers.len() && #[trigger] peers[i] == (
            id,
            lookup(peers, id)->Some_0,
        ),
    decreases peers.len(),
{
    if peers.len() == 0 {
    } else if peers[0].0 == id {
        assert(peers[0] == (id, lookup(peers, id)->Some_0));
    } else {
        lemma_lookup_index(peers.drop_first(), id);
        let i0 = choose|i0: int|
            0 <= i0 < peers.drop_first().len() && #[trigger] peers.drop_first()[i0] == (
                id,
                lookup(peers.drop_first(), id)->Some_0,
            );
        assert(peers[i0 + 1] == (id, lookup(peers, id)->Some_0));
    }
}

/// Under strict ordering, every top scorer holds a regular unchoke slot:
/// a peer that fewer peers outscore than there are regular slots is in
/// any valid unchoke set, as long as at least that many peers exist.
pub proof fn lemma_top_peers_unchoked(
    u: Seq<PeerId>,
    peers: Seq<(u64, PeerStats)>,
    regular: nat,
    optimistic: nat,
    p: int,
)
    requires
        unchoke_set_ok(u, peers, regular, optimistic),
        distinct_ids(peers),
        1 <= regular <= peers.len(),
        0 <= p < peers.len(),
        forall|a: int, b: int| #![trigger peers[a], peers[b]]
            0 <= a < b < peers.len() ==> peer_score(peers[a].1) != peer_score(peers[b].1),
        Set::new(
            |q: int| 0 <= q < peers.len() && peer_score(peers[q].1) > peer_score(peers[p].1),
        ).len() < regular,
    ensures
        contains_id(u, peers[p].0),
{
    if !contains_id(u, peers[p].0) {
        let better = Set::new(
            |q: int| 0 <= q < peers.len() && peer_score(peers[q].1) > peer_score(peers[p].1),
        );
        let g = |s: int|
            choose|q: int|
                0 <= q < peers.len() && #[trigger] peers[q].0 == u[s].0 && peers[q].1 == lookup(
                    peers,
                    u[s].0,
                )->Some_0;
        let slots = vstd::set_lib::set_int_range(0, regular as int);
        vstd::set_lib::lemma_int_range(0, regular as int);
        assert forall|s: int| slots.contains(s) implies better.contains(#[trigger] g(s)) by {
            assert(s < u.len());
            assert(lookup(peers, u[s].0) is Some);
            lemma_lookup_index(peers, u[s].0);
            let i0 = choose|i0: int|
                0 <= i0 < peers.len() && #[trigger] peers[i0] == (
                    u[s].0,
                    lookup(peers, u[s].0)->Some_0,
                );
            assert(peers[g(s)].0 == u[s].0);
            assert(peers[g(s)].1 == lookup(peers, u[s].0)->Some_0);
            assert(peer_score(peers[p].1) <= peer_score(peers[g(s)].1));
            assert(g(s) != p) by {
                if g(s) == p {
                    assert(u[s].0 == peers[p].0);
                    assert(contains_id(u, peers[p].0));
                }
            }
            assert(peer_score(peers[g(s)].1) != peer_score(peers[p].1)) by {
                if g(s) < p {
                    assert(peer_score(peers[g(s)].1) != peer_score(peers[p].1));
                } else {
                    assert(peer_score(peers[p].1) != peer_score(peers[g(s)].1));
                }
            }
        }
        assert(vstd::relations::injective_on(g, slots)) by {
            assert forall|a: int, b: int|
                #![trigger g(a), g(b)]
                slots.contains(a) && slots.contains(b) && g(a) == g(b) implies a == b by {
                assert(a < u.len() && b < u.len());
                assert(lookup(peers, u[a].0) is Some);
                assert(lookup(peers, u[b].0) is Some);
                lemma_lookup_index(peers, u[a].0);
                lemma_lookup_index(peers, u[b].0);
                assert(peers[g(a)].0 == u[a].0);
                assert(peers[g(b)].0 == u[b].0);
                if a < b {
                    assert(u[a].0 != u[b].0);
                } else if b < a {
                    assert(u[b].0 != u[a].0);
                }
            }
        }
        let everyone = vstd::set_lib::set_int_range(0, peers.len() as int);
        vstd::set_lib::lemma_int_range(0, peers.len() as int);
        assert(better.subset_of(everyone));
        vstd::set_lib::lemma_len_subset(better, everyone);
        let img = slots.map(g);
        vstd::set_lib::lemma_map_size(slots, img, g);
        assert(img.subset_of(better));
        vstd::set_lib::lemma_len_subset(img, better);
        assert(false);
    }
}

/// With fewer picks than peers, and every used slot accounted for by a
/// pick, some slot is still unused.
proof fn lemma_unused_slot_exists(
    used: Seq<bool>,
    picked: Seq<PeerId>,
    peers: Seq<(u64, PeerStats)>,
    round: int,
)
    requires
        used.len() == peers.len(),
        0 <= round < peers.len(),
        picked.len() == round,
        forall|j: int| #[trigger] used[j] && 0 <= j < used.len() ==> (exists|s: int|
            0 <= s < round && #[trigger] picked[s].0 == peers[j].0),
        distinct_ids(peers),
    ensures
        exists|u: int| 0 <= u < used.len() && !(#[trigger] used[u]),
{
    if forall|j: int| 0 <= j < used.len() ==> #[trigger] used[j] {
        let f = |j: int| choose|s: int| 0 <= s < round && #[trigger] picked[s].0 == peers[j].0;
        let target = vstd::set_lib::set_int_range(0, round);
        let source = vstd::set_lib::set_int_range(0, peers.len() as int);
        vstd::set_lib::lemma_int_range(0, round);
        vstd::set_lib::lemma_int_range(0, peers.len() as int);
        assert forall|j: int| source.contains(j) implies target.contains(#[trigger] f(j)) by {
            assert(used[j]);
            assert(exists|s: int| 0 <= s < round && #[trigger] picked[s].0 == peers[j].0);
            assert(picked[f(j)].0 == peers[j].0);
        }
        assert(vstd::relations::injective_on(f, source)) by {
            assert forall|a: int, b: int|
                #![trigger f(a), f(b)]
                source.contains(a) && source.contains(b) && f(a) == f(b) implies a == b by {
                assert(used[a]);
                assert(used[b]);
                assert(picked[f(a)].0 == peers[a].0);
                assert(picked[f(b)].0 == peers[b].0);
                if a < b {
                    assert(peers[a].0 != peers[b].0);
                } else if b < a {
                    assert(peers[b].0 != peers[a].0);
                }
            }
        }
        let img = source.map(f);
        vstd::set_lib::lemma_map_size(source, img, f);
        assert(img.subset_of(target));
        vstd::set_lib::lemma_len_subset(img, target);
        assert(false);
    }
}

} // verus!
