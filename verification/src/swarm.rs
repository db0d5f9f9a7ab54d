use vstd::prelude::*;

use crate::peer::{peer_views, Peer, PeerView};

verus! {

/// `s` with `x` added at the end, unless it already holds `x`.
pub open spec fn seq_insert(s: Seq<PeerView>, x: PeerView) -> Seq<PeerView> {
    if s.contains(x) {
        s
    } else {
        s.push(x)
    }
}

/// `s` without `x`, the other elements kept in their order.
pub open spec fn seq_remove(s: Seq<PeerView>, x: PeerView) -> Seq<PeerView> {
    if s.contains(x) {
        s.remove(s.index_of(x))
    } else {
        s
    }
}

/// In a sequence without duplicates the index of an element is its only position.
pub proof fn lemma_index_of_unique(s: Seq<PeerView>, i: int)
    requires
        s.no_duplicates(),
        0 <= i < s.len(),
    ensures
        s.contains(s[i]),
        s.index_of(s[i]) == i,
{
    assert(s.contains(s[i]));
}

/// Removing a position keeps a sequence free of duplicates.
pub proof fn lemma_remove_no_duplicates(s: Seq<PeerView>, i: int)
    requires
        s.no_duplicates(),
        0 <= i < s.len(),
    ensures
        s.remove(i).no_duplicates(),
        forall|x: PeerView| #[trigger] s.remove(i).contains(x) <==> (s.contains(x) && x != s[i]),
{
    s.remove_ensures(i);
    let r = s.remove(i);
    assert forall|a: int, b: int| 0 <= a < r.len() && 0 <= b < r.len() && a != b implies r[a]
        != r[b] by {
        let a2 = if a < i { a } else { a + 1 };
        let b2 = if b < i { b } else { b + 1 };
        assert(r[a] == s[a2]);
        assert(r[b] == s[b2]);
    }
    assert forall|x: PeerView| #[trigger] r.contains(x) <==> (s.contains(x) && x != s[i]) by {
        if r.contains(x) {
            let k = choose|k: int| 0 <= k < r.len() && r[k] == x;
            let k2 = if k < i { k } else { k + 1 };
            assert(s[k2] == x);
        }
        if s.contains(x) && x != s[i] {
            let k = choose|k: int| 0 <= k < s.len() && s[k] == x;
            if k < i {
                assert(r[k] == x);
            } else {
                assert(k != i);
                assert(r[k - 1] == x);
            }
        }
    }
}

/// Position of `peer` in `peers`, if it is there.
pub fn position(peers: &Vec<Peer>, peer: &Peer) -> (r: Option<usize>)
    ensures
        match r {
            Some(i) => i < peers@.len() && peer_views(peers@)[i as int] == peer@,
            None => !peer_views(peers@).contains(peer@),
        },
{
    let mut i: usize = 0;
    while i < peers.len()
        invariant
            0 <= i <= peers@.len(),
            forall|j: int| 0 <= j < i ==> peer_views(peers@)[j] != peer@,
        decreases peers@.len() - i,
    {
        if peers[i].same(peer) {
            return Some(i);
        }
        i = i + 1;
    }
    None
}

/// Adds `peer` to `peers` unless it is already there.
fn insert_peer(peers: &mut Vec<Peer>, peer: Peer)
    requires
        peer_views(old(peers)@).no_duplicates(),
    ensures
        peer_views(final(peers)@) == seq_insert(peer_views(old(peers)@), peer@),
        peer_views(final(peers)@).no_duplicates(),
{
    match position(peers, &peer) {
        Some(_) => {},
        None => {
            let ghost before = peers@;
            peers.push(peer);
            assert(peer_views(peers@) =~= peer_views(before).push(peer@));
        },
    }
}

/// Removes `peer` from `peers` if it is there.
fn remove_peer(peers: &mut Vec<Peer>, peer: &Peer)
    requires
        peer_views(old(peers)@).no_duplicates(),
    ensures
        peer_views(final(peers)@) == seq_remove(peer_views(old(peers)@), peer@),
        peer_views(final(peers)@).no_duplicates(),
{
    match position(peers, peer) {
        Some(i) => {
            let ghost before = peers@;
            proof {
                lemma_index_of_unique(peer_views(before), i as int);
                lemma_remove_no_duplicates(peer_views(before), i as int);
            }
            peers.remove(i);
            assert(peer_views(peers@) =~= peer_views(before).remove(i as int));
        },
        None => {},
    }
}

/// The peers of one torrent: those that have it whole (seeders) and those
/// still downloading it (leechers).
pub struct Swarm {
    seeders: Vec<Peer>,
    leechers: Vec<Peer>,
}

/// The model of a [`Swarm`]: its seeders and its leechers, each in the order
/// in which they joined.
pub struct SwarmView {
    pub seeders: Seq<PeerView>,
    pub leechers: Seq<PeerView>,
}

impl SwarmView {
    /// No peer is listed twice in the same role.
    pub open spec fn wf(self) -> bool {
        self.seeders.no_duplicates() && self.leechers.no_duplicates()
    }

    /// The swarm with no peers.
    pub open spec fn empty() -> SwarmView {
        SwarmView { seeders: Seq::empty(), leechers: Seq::empty() }
    }
}

impl View for Swarm {
    type V = SwarmView;

    closed spec fn view(&self) -> SwarmView {
        SwarmView { seeders: peer_views(self.seeders@), leechers: peer_views(self.leechers@) }
    }
}

impl Swarm {
    pub open spec fn wf(&self) -> bool {
        self@.wf()
    }

    pub fn new() -> (s: Swarm)
        ensures
            s.wf(),
            s@ == SwarmView::empty(),
    {
        let s = Swarm { seeders: Vec::new(), leechers: Vec::new() };
        assert(s@.seeders =~= Seq::<PeerView>::empty());
        assert(s@.leechers =~= Seq::<PeerView>::empty());
        s
    }

    pub fn seeder_count(&self) -> (n: usize)
        ensures
            n == self@.seeders.len(),
    {
        self.seeders.len()
    }

    pub fn leecher_count(&self) -> (n: usize)
        ensures
            n == self@.leechers.len(),
    {
        self.leechers.len()
    }

    pub fn seeders(&self) -> (s: &Vec<Peer>)
        ensures
            peer_views(s@) == self@.seeders,
    {
        &self.seeders
    }

    pub fn leechers(&self) -> (s: &Vec<Peer>)
        ensures
            peer_views(s@) == self@.leechers,
    {
        &self.leechers
    }

    pub fn add_seeder(&mut self, peer: Peer)
        requires
            old(self).wf(),
        ensures
            final(self).wf(),
            final(self)@.seeders == seq_insert(old(self)@.seeders, peer@),
            final(self)@.leechers == old(self)@.leechers,
    {
        insert_peer(&mut self.seeders, peer);
    }

    pub fn add_leecher(&mut self, peer: Peer)
        requires
            old(self).wf(),
        ensures
            final(self).wf(),
            final(self)@.leechers == seq_insert(old(self)@.leechers, peer@),
            final(self)@.seeders == old(self)@.seeders,
    {
        insert_peer(&mut self.leechers, peer);
    }

    pub fn remove_seeder(&mut self, peer: Peer)
        requires
            old(self).wf(),
        ensures
            final(self).wf(),
            final(self)@.seeders == seq_remove(old(self)@.seeders, peer@),
            final(self)@.leechers == old(self)@.leechers,
    {
        remove_peer(&mut self.seeders, &peer);
    }

    pub fn remove_leecher(&mut self, peer: Peer)
        requires
            old(self).wf(),
        ensures
            final(self).wf(),
            final(self)@.leechers == seq_remove(old(self)@.leechers, peer@),
            final(self)@.seeders == old(self)@.seeders,
    {
        remove_peer(&mut self.leechers, &peer);
    }

    /// Moves `peer` from the leechers to the seeders; a peer that was no
    /// leecher becomes a seeder all the same.
    pub fn promote_leecher(&mut self, peer: Peer)
        requires
            old(self).wf(),
        ensures
            final(self).wf(),
            final(self)@.leechers == seq_remove(old(self)@.leechers, peer@),
            final(self)@.seeders == seq_insert(old(self)@.seeders, peer@),
    {
        match position(&self.leechers, &peer) {
            Some(i) => {
                let ghost before = self.leechers@;
                proof {
                    lemma_index_of_unique(peer_views(before), i as int);
                    lemma_remove_no_duplicates(peer_views(before), i as int);
                }
                let leecher = self.leechers.remove(i);
                assert(peer_views(self.leechers@) =~= peer_views(before).remove(i as int));
                insert_peer(&mut self.seeders, leecher);
            },
            None => {
                insert_peer(&mut self.seeders, peer);
            },
        }
    }
}

} // verus!
