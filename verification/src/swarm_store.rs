use vstd::prelude::*;

use crate::bytes::bytes_equal;
use crate::peer::{peer_views, Peer, PeerView};
use crate::random::{is_permutation, shuffle_peers, thread_rng};
use crate::swarm::{seq_insert, seq_remove, Swarm, SwarmView};

verus! {

/// The peers of `s` whose address is of the given family (IPv4 when `v4`),
/// in their order.
pub open spec fn peers_of_family(s: Seq<PeerView>, v4: bool) -> Seq<PeerView>
    decreases s.len(),
{
    if s.len() == 0 {
        Seq::empty()
    } else {
        let init = peers_of_family(s.drop_last(), v4);
        if s.last().ip.is_ipv4() == v4 {
            init.push(s.last())
        } else {
            init
        }
    }
}

/// `out` is made of elements of `from` taken at distinct positions.
pub open spec fn is_selection(out: Seq<PeerView>, from: Seq<PeerView>) -> bool {
    exists|idx: Seq<int>|
        #![trigger idx.len()]
        idx.len() == out.len() && (forall|i: int|
            0 <= i < out.len() ==> 0 <= #[trigger] idx[i] < from.len() && out[i] == from[idx[i]])
            && (forall|i: int, j: int| 0 <= i < out.len() && 0 <= j < out.len() && i != j ==> idx[i] != idx[j])
}

/// The peers of one family that an announce hands out from a swarm holding
/// `swarm`, for a client that wants `numwant` peers: all of them, seeders
/// first, when the swarm has no more than `numwant` peers; otherwise
/// `numwant` of them (or all, when fewer), picked at random.
pub open spec fn peers_offered(swarm: SwarmView, numwant: nat, v4: bool, out: Seq<PeerView>) -> bool {
    let all = peers_of_family(swarm.seeders, v4) + peers_of_family(swarm.leechers, v4);
    if swarm.seeders.len() + swarm.leechers.len() <= numwant {
        out == all
    } else {
        &&& out.len() == if all.len() < numwant { all.len() } else { numwant }
        &&& is_selection(out, all)
    }
}

/// The counts that announces and scrapes report for a torrent: its number
/// of seeders and of leechers, both zero for a torrent without a swarm.
pub open spec fn swarm_counts(swarms: Map<Seq<u8>, SwarmView>, info_hash: Seq<u8>) -> (nat, nat) {
    if swarms.contains_key(info_hash) {
        (swarms[info_hash].seeders.len(), swarms[info_hash].leechers.len())
    } else {
        (0, 0)
    }
}

/// The swarm of `info_hash` after a peer joined it: as a seeder when its
/// download is complete, as a leecher otherwise.
pub open spec fn swarm_with_peer(
    swarms: Map<Seq<u8>, SwarmView>,
    info_hash: Seq<u8>,
    peer: PeerView,
    is_download_complete: bool,
) -> SwarmView {
    let s = if swarms.contains_key(info_hash) {
        swarms[info_hash]
    } else {
        SwarmView::empty()
    };
    if is_download_complete {
        SwarmView { seeders: seq_insert(s.seeders, peer), leechers: s.leechers }
    } else {
        SwarmView { seeders: s.seeders, leechers: seq_insert(s.leechers, peer) }
    }
}

struct SwarmEntry {
    info_hash: Vec<u8>,
    swarm: Swarm,
}

spec fn entry_key(e: SwarmEntry) -> Seq<u8> {
    e.info_hash@
}

spec fn has_key(es: Seq<SwarmEntry>, k: Seq<u8>) -> bool {
    exists|i: int| 0 <= i < es.len() && entry_key(#[trigger] es[i]) == k
}

spec fn entries_map(es: Seq<SwarmEntry>) -> Map<Seq<u8>, SwarmView> {
    Map::new(
        |k: Seq<u8>| has_key(es, k),
        |k: Seq<u8>| es[choose|i: int| 0 <= i < es.len() && entry_key(#[trigger] es[i]) == k].swarm@,
    )
}

spec fn keys_distinct(es: Seq<SwarmEntry>) -> bool {
    forall|i: int, j: int|
        0 <= i < es.len() && 0 <= j < es.len() && i != j ==> entry_key(#[trigger] es[i])
            != entry_key(#[trigger] es[j])
}

proof fn lemma_entry_in_map(es: Seq<SwarmEntry>, i: int)
    requires
        keys_distinct(es),
        0 <= i < es.len(),
    ensures
        entries_map(es).contains_key(entry_key(es[i])),
        entries_map(es)[entry_key(es[i])] == es[i].swarm@,
{
    let k = entry_key(es[i]);
    assert(has_key(es, k));
    let j = choose|j: int| 0 <= j < es.len() && entry_key(#[trigger] es[j]) == k;
    assert(j == i);
}

proof fn lemma_update_entry(es: Seq<SwarmEntry>, es2: Seq<SwarmEntry>, i: int)
    requires
        keys_distinct(es),
        0 <= i < es.len(),
        es2.len() == es.len(),
        forall|j: int| 0 <= j < es.len() ==> entry_key(#[trigger] es2[j]) == entry_key(es[j]),
        forall|j: int| 0 <= j < es.len() && j != i ==> (#[trigger] es2[j]).swarm@ == es[j].swarm@,
    ensures
        keys_distinct(es2),
        entries_map(es2) == entries_map(es).insert(entry_key(es[i]), es2[i].swarm@),
{
    let m1 = entries_map(es);
    let m2 = entries_map(es2);
    let k = entry_key(es[i]);
    assert(keys_distinct(es2));
    assert forall|key: Seq<u8>| #[trigger] m2.contains_key(key) <==> m1.insert(k, es2[i].swarm@).contains_key(key) by {
        if has_key(es, key) {
            let j = choose|j: int| 0 <= j < es.len() && entry_key(#[trigger] es[j]) == key;
            assert(entry_key(es2[j]) == key);
        }
        if has_key(es2, key) {
            let j = choose|j: int| 0 <= j < es2.len() && entry_key(#[trigger] es2[j]) == key;
            assert(entry_key(es[j]) == key);
        }
    }
    assert forall|key: Seq<u8>| #[trigger] m2.contains_key(key) implies m2[key] == m1.insert(k, es2[i].swarm@)[key] by {
        let j = choose|j: int| 0 <= j < es2.len() && entry_key(#[trigger] es2[j]) == key;
        lemma_entry_in_map(es2, j);
        lemma_entry_in_map(es, j);
    }
    assert(m2 =~= m1.insert(k, es2[i].swarm@));
}

proof fn lemma_push_entry(es: Seq<SwarmEntry>, e: SwarmEntry)
    requires
        keys_distinct(es),
        !has_key(es, entry_key(e)),
    ensures
        keys_distinct(es.push(e)),
        entries_map(es.push(e)) == entries_map(es).insert(entry_key(e), e.swarm@),
{
    let es2 = es.push(e);
    let m1 = entries_map(es);
    let m2 = entries_map(es2);
    assert(keys_distinct(es2)) by {
        assert forall|i: int, j: int|
            0 <= i < es2.len() && 0 <= j < es2.len() && i != j implies entry_key(#[trigger] es2[i])
            != entry_key(#[trigger] es2[j]) by {
            if i < es.len() && j < es.len() {
                assert(es2[i] == es[i] && es2[j] == es[j]);
            } else if i < es.len() {
                assert(es2[i] == es[i]);
            } else if j < es.len() {
                assert(es2[j] == es[j]);
            }
        }
    }
    assert forall|key: Seq<u8>| #[trigger] m2.contains_key(key) <==> m1.insert(entry_key(e), e.swarm@).contains_key(key) by {
        if has_key(es, key) {
            let j = choose|j: int| 0 <= j < es.len() && entry_key(#[trigger] es[j]) == key;
            assert(es2[j] == es[j]);
        }
        if key == entry_key(e) {
            assert(es2[es.len() as int] == e);
        }
        if has_key(es2, key) {
            let j = choose|j: int| 0 <= j < es2.len() && entry_key(#[trigger] es2[j]) == key;
            if j < es.len() {
                assert(es2[j] == es[j]);
            }
        }
    }
    assert forall|key: Seq<u8>| #[trigger] m2.contains_key(key) implies m2[key] == m1.insert(entry_key(e), e.swarm@)[key] by {
        let j = choose|j: int| 0 <= j < es2.len() && entry_key(#[trigger] es2[j]) == key;
        lemma_entry_in_map(es2, j);
        if j < es.len() {
            assert(es2[j] == es[j]);
            lemma_entry_in_map(es, j);
        }
    }
    assert(m2 =~= m1.insert(entry_key(e), e.swarm@));
}


/// Appends the peers of `peers` to `ipv4` or `ipv6` by the family of their address.
fn split_by_family(peers: &Vec<Peer>, ipv4: &mut Vec<Peer>, ipv6: &mut Vec<Peer>)
    ensures
        peer_views(final(ipv4)@) == peer_views(old(ipv4)@) + peers_of_family(peer_views(peers@), true),
        peer_views(final(ipv6)@) == peer_views(old(ipv6)@) + peers_of_family(peer_views(peers@), false),
{
    let ghost all = peer_views(peers@);
    let ghost start4 = peer_views(ipv4@);
    let ghost start6 = peer_views(ipv6@);
    let mut i: usize = 0;
    while i < peers.len()
        invariant
            all == peer_views(peers@),
            0 <= i <= peers@.len(),
            peer_views(ipv4@) == start4 + peers_of_family(all.take(i as int), true),
            peer_views(ipv6@) == start6 + peers_of_family(all.take(i as int), false),
        decreases peers@.len() - i,
    {
        assert(all.take(i + 1).drop_last() =~= all.take(i as int));
        assert(all.take(i + 1).last() == peers@[i as int]@);
        let peer = peers[i].clone();
        if peer.ip.is_ipv4() {
            let ghost before = ipv4@;
            ipv4.push(peer);
            assert(peer_views(ipv4@) =~= peer_views(before).push(peer@));
        } else {
            let ghost before = ipv6@;
            ipv6.push(peer);
            assert(peer_views(ipv6@) =~= peer_views(before).push(peer@));
        }
        i = i + 1;
    }
    assert(all.take(peers@.len() as int) =~= all);
    assert(peer_views(ipv4@) =~= start4 + peers_of_family(all, true));
    assert(peer_views(ipv6@) =~= start6 + peers_of_family(all, false));
}

/// Shuffles `peers` and keeps the first `numwant` of them.
fn pick_at_random(peers: &mut Vec<Peer>, numwant: usize, rng: &mut rand::rngs::ThreadRng)
    ensures
        peer_views(final(peers)@).len() == if old(peers)@.len() < numwant {
            old(peers)@.len()
        } else {
            numwant as nat
        },
        is_selection(peer_views(final(peers)@), peer_views(old(peers)@)),
{
    let ghost before = peer_views(peers@);
    shuffle_peers(peers, rng);
    let ghost shuffled = peers@;
    let ghost p = choose|p: Seq<int>|
        #[trigger] is_permutation(p, before.len()) && forall|i: int|
            0 <= i < before.len() ==> #[trigger] shuffled[i] == old(peers)@[p[i]];
    peers.truncate(numwant);
    proof {
        let out = peer_views(peers@);
        let idx = p.take(out.len() as int);
        assert forall|i: int| 0 <= i < out.len() implies 0 <= #[trigger] idx[i] < before.len()
            && out[i] == before[idx[i]] by {
            assert(shuffled[i] == old(peers)@[p[i]]);
        }
        assert(idx.len() == out.len());
        assert(is_selection(out, before));
    }
}

/// The swarms of all torrents, each found by its info hash.
pub struct SwarmStore {
    entries: Vec<SwarmEntry>,
}

impl View for SwarmStore {
    type V = Map<Seq<u8>, SwarmView>;

    closed spec fn view(&self) -> Map<Seq<u8>, SwarmView> {
        entries_map(self.entries@)
    }
}

impl SwarmStore {
    /// Each torrent has one swarm, and each swarm lists a peer at most once per role.
    pub closed spec fn wf(&self) -> bool {
        &&& keys_distinct(self.entries@)
        &&& forall|i: int| 0 <= i < self.entries@.len() ==> (#[trigger] self.entries@[i]).swarm.wf()
    }

    /// Every swarm of a well-formed store lists a peer at most once per role.
    pub proof fn law_store_swarms_wf(&self)
        requires
            self.wf(),
        ensures
            forall|k: Seq<u8>| #[trigger] self@.contains_key(k) ==> self@[k].wf(),
    {
        assert forall|k: Seq<u8>| #[trigger] self@.contains_key(k) implies self@[k].wf() by {
            let j = choose|j: int| 0 <= j < self.entries@.len() && entry_key(#[trigger] self.entries@[j]) == k;
            lemma_entry_in_map(self.entries@, j);
        }
    }

    pub fn new() -> (s: SwarmStore)
        ensures
            s.wf(),
            s@ == Map::<Seq<u8>, SwarmView>::empty(),
    {
        let s = SwarmStore { entries: Vec::new() };
        assert(s@ =~= Map::<Seq<u8>, SwarmView>::empty());
        s
    }


    /// Records that `peer` takes part in the swarm of `info_hash`, as a
    /// seeder when its download is complete and as a leecher otherwise; the
    /// swarm is created when the torrent has none.
    pub fn add_peer(&mut self, info_hash: Vec<u8>, peer: Peer, is_download_complete: bool)
        requires
            old(self).wf(),
        ensures
            final(self).wf(),
            final(self)@ == old(self)@.insert(
                info_hash@,
                swarm_with_peer(old(self)@, info_hash@, peer@, is_download_complete),
            ),
    {
        match self.find(info_hash.as_slice()) {
            Some(i) => {
                let ghost es = self.entries@;
                proof {
                    lemma_entry_in_map(es, i as int);
                }
                let mut entry = self.entries.remove(i);
                if is_download_complete {
                    entry.swarm.add_seeder(peer);
                } else {
                    entry.swarm.add_leecher(peer);
                }
                self.entries.insert(i, entry);
                proof {
                    lemma_update_entry(es, self.entries@, i as int);
                }
            },
            None => {
                let ghost es = self.entries@;
                let mut swarm = Swarm::new();
                if is_download_complete {
                    swarm.add_seeder(peer);
                } else {
                    swarm.add_leecher(peer);
                }
                let entry = SwarmEntry { info_hash, swarm };
                proof {
                    lemma_push_entry(es, entry);
                }
                self.entries.push(entry);
            },
        }
    }

    /// Removes `peer` from the swarm of `info_hash`, in both roles; nothing
    /// changes for a torrent without a swarm.
    pub fn remove_peer(&mut self, info_hash: Vec<u8>, peer: Peer)
        requires
            old(self).wf(),
        ensures
            final(self).wf(),
            old(self)@.contains_key(info_hash@) ==> final(self)@ == old(self)@.insert(
                info_hash@,
                SwarmView {
                    seeders: seq_remove(old(self)@[info_hash@].seeders, peer@),
                    leechers: seq_remove(old(self)@[info_hash@].leechers, peer@),
                },
            ),
            !old(self)@.contains_key(info_hash@) ==> final(self)@ == old(self)@,
    {
        match self.find(info_hash.as_slice()) {
            Some(i) => {
                let ghost es = self.entries@;
                proof {
                    lemma_entry_in_map(es, i as int);
                }
                let mut entry = self.entries.remove(i);
                entry.swarm.remove_seeder(peer.clone());
                entry.swarm.remove_leecher(peer);
                self.entries.insert(i, entry);
                proof {
                    lemma_update_entry(es, self.entries@, i as int);
                }
            },
            None => {},
        }
    }

    /// Moves `peer` from the leechers to the seeders of the swarm of
    /// `info_hash`; nothing changes for a torrent without a swarm.
    pub fn promote_peer(&mut self, info_hash: Vec<u8>, peer: Peer)
        requires
            old(self).wf(),
        ensures
            final(self).wf(),
            old(self)@.contains_key(info_hash@) ==> final(self)@ == old(self)@.insert(
                info_hash@,
                SwarmView {
                    seeders: seq_insert(old(self)@[info_hash@].seeders, peer@),
                    leechers: seq_remove(old(self)@[info_hash@].leechers, peer@),
                },
            ),
            !old(self)@.contains_key(info_hash@) ==> final(self)@ == old(self)@,
    {
        match self.find(info_hash.as_slice()) {
            Some(i) => {
                let ghost es = self.entries@;
                proof {
                    lemma_entry_in_map(es, i as int);
                }
                let mut entry = self.entries.remove(i);
                entry.swarm.promote_leecher(peer);
                self.entries.insert(i, entry);
                proof {
                    lemma_update_entry(es, self.entries@, i as int);
                }
            },
            None => {},
        }
    }

    /// The peers of the swarm of `info_hash` that an announce hands out, split
    /// by the family of their address (IPv4 first, IPv6 second): all of them
    /// when the swarm has no more than `numwant` peers, else at most `numwant`
    /// of each family, picked at random.
    pub fn get_peers(&self, info_hash: Vec<u8>, numwant: usize) -> (r: (Vec<Peer>, Vec<Peer>))
        requires
            self.wf(),
        ensures
            !self@.contains_key(info_hash@) ==> r.0@.len() == 0 && r.1@.len() == 0,
            self@.contains_key(info_hash@) ==> {
                &&& peers_offered(self@[info_hash@], numwant as nat, true, peer_views(r.0@))
                &&& peers_offered(self@[info_hash@], numwant as nat, false, peer_views(r.1@))
            },
    {
        let mut peers: Vec<Peer> = Vec::new();
        let mut peers6: Vec<Peer> = Vec::new();
        match self.find(info_hash.as_slice()) {
            Some(i) => {
                proof {
                    lemma_entry_in_map(self.entries@, i as int);
                }
                let swarm = &self.entries[i].swarm;
                assert(peer_views(peers@) =~= Seq::<PeerView>::empty());
                assert(peer_views(peers6@) =~= Seq::<PeerView>::empty());
                split_by_family(swarm.seeders(), &mut peers, &mut peers6);
                split_by_family(swarm.leechers(), &mut peers, &mut peers6);
                let seeders = swarm.seeder_count();
                let leechers = swarm.leecher_count();
                if seeders > numwant || leechers > numwant - seeders {
                    let mut rng = thread_rng();
                    pick_at_random(&mut peers, numwant, &mut rng);
                    pick_at_random(&mut peers6, numwant, &mut rng);
                }
            },
            None => {},
        }
        (peers, peers6)
    }

    /// The numbers of seeders and of leechers of the swarm of `info_hash`.
    pub fn get_announce_stats(&self, info_hash: Vec<u8>) -> (r: (usize, usize))
        requires
            self.wf(),
        ensures
            (r.0 as nat, r.1 as nat) == swarm_counts(self@, info_hash@),
    {
        match self.find(info_hash.as_slice()) {
            Some(i) => {
                proof {
                    lemma_entry_in_map(self.entries@, i as int);
                }
                let swarm = &self.entries[i].swarm;
                (swarm.seeder_count(), swarm.leecher_count())
            },
            None => (0, 0),
        }
    }

    /// The numbers of seeders and of leechers of the swarm of each of
    /// `info_hashes`, in their order.
    pub fn get_stats_for_scrapes(&self, info_hashes: Vec<Vec<u8>>) -> (r: (Vec<usize>, Vec<usize>))
        requires
            self.wf(),
        ensures
            r.0@.len() == info_hashes@.len(),
            r.1@.len() == info_hashes@.len(),
            forall|i: int|
                0 <= i < info_hashes@.len() ==> (#[trigger] r.0@[i] as nat, r.1@[i] as nat)
                    == swarm_counts(self@, info_hashes@[i]@),
    {
        let mut complete: Vec<usize> = Vec::new();
        let mut incomplete: Vec<usize> = Vec::new();
        let mut i: usize = 0;
        while i < info_hashes.len()
            invariant
                self.wf(),
                0 <= i <= info_hashes@.len(),
                complete@.len() == i,
                incomplete@.len() == i,
                forall|j: int|
                    0 <= j < i ==> (#[trigger] complete@[j] as nat, incomplete@[j] as nat)
                        == swarm_counts(self@, info_hashes@[j]@),
            decreases info_hashes@.len() - i,
        {
            let (c, l) = self.get_announce_stats(info_hashes[i].clone());
            complete.push(c);
            incomplete.push(l);
            i = i + 1;
        }
        (complete, incomplete)
    }

    /// The numbers of seeders and of leechers of every swarm, by info hash,
    /// one entry per torrent that has a swarm.
    pub fn get_global_scrape_stats(&self) -> (r: Vec<(Vec<u8>, (usize, usize))>)
        requires
            self.wf(),
        ensures
            forall|i: int, j: int|
                0 <= i < r@.len() && 0 <= j < r@.len() && i != j ==> (#[trigger] r@[i]).0@
                    != (#[trigger] r@[j]).0@,
            forall|i: int|
                0 <= i < r@.len() ==> self@.contains_key((#[trigger] r@[i]).0@) && (
                r@[i].1.0 as nat,
                r@[i].1.1 as nat,
            ) == swarm_counts(self@, r@[i].0@),
            forall|k: Seq<u8>|
                #[trigger] self@.contains_key(k) ==> exists|i: int| 0 <= i < r@.len() && (#[trigger] r@[i]).0@ == k,
    {
        let mut stats: Vec<(Vec<u8>, (usize, usize))> = Vec::new();
        let mut i: usize = 0;
        while i < self.entries.len()
            invariant
                self.wf(),
                0 <= i <= self.entries@.len(),
                stats@.len() == i,
                forall|j: int|
                    0 <= j < i ==> (#[trigger] stats@[j]).0@ == entry_key(self.entries@[j]) && (
                    stats@[j].1.0 as nat,
                    stats@[j].1.1 as nat,
                ) == swarm_counts(self@, entry_key(self.entries@[j])),
            decreases self.entries@.len() - i,
        {
            proof {
                lemma_entry_in_map(self.entries@, i as int);
            }
            let entry = &self.entries[i];
            stats.push((entry.info_hash.clone(), (entry.swarm.seeder_count(), entry.swarm.leecher_count())));
            i = i + 1;
        }
        proof {
            assert forall|j: int| 0 <= j < stats@.len() implies self@.contains_key((#[trigger] stats@[j]).0@) by {
                lemma_entry_in_map(self.entries@, j);
            }
            assert forall|k: Seq<u8>| #[trigger] self@.contains_key(k) implies exists|j: int|
                0 <= j < stats@.len() && (#[trigger] stats@[j]).0@ == k by {
                let j = choose|j: int| 0 <= j < self.entries@.len() && entry_key(#[trigger] self.entries@[j]) == k;
                assert(stats@[j].0@ == k);
            }
        }
        stats
    }

    /// The swarm of `info_hash`, if the torrent has one.
    pub fn swarm(&self, info_hash: &[u8]) -> (r: Option<&Swarm>)
        requires
            self.wf(),
        ensures
            match r {
                Some(s) => self@.contains_key(info_hash@) && s@ == self@[info_hash@],
                None => !self@.contains_key(info_hash@),
            },
    {
        match self.find(info_hash) {
            Some(i) => {
                proof {
                    lemma_entry_in_map(self.entries@, i as int);
                }
                Some(&self.entries[i].swarm)
            },
            None => None,
        }
    }

    fn find(&self, info_hash: &[u8]) -> (r: Option<usize>)
        requires
            self.wf(),
        ensures
            match r {
                Some(i) => i < self.entries@.len() && entry_key(self.entries@[i as int]) == info_hash@,
                None => !self@.contains_key(info_hash@),
            },
    {
        let mut i: usize = 0;
        while i < self.entries.len()
            invariant
                0 <= i <= self.entries@.len(),
                forall|j: int| 0 <= j < i ==> entry_key(#[trigger] self.entries@[j]) != info_hash@,
            decreases self.entries@.len() - i,
        {
            if bytes_equal(self.entries[i].info_hash.as_slice(), info_hash) {
                return Some(i);
            }
            i = i + 1;
        }
        None
    }
}

} // verus!
