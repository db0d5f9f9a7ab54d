use vstd::prelude::*;

use crate::bytes::bytes_equal;

verus! {

/// The number of completed downloads that scrapes report for a torrent:
/// zero for a torrent the tracker does not know.
pub open spec fn downloads_of(torrents: Map<Seq<u8>, usize>, info_hash: Seq<u8>) -> nat {
    if torrents.contains_key(info_hash) {
        torrents[info_hash] as nat
    } else {
        0
    }
}

struct Torrent {
    info_hash: Vec<u8>,
    downloaded: usize,
}

spec fn torrent_key(t: Torrent) -> Seq<u8> {
    t.info_hash@
}

spec fn has_key(ts: Seq<Torrent>, k: Seq<u8>) -> bool {
    exists|i: int| 0 <= i < ts.len() && torrent_key(#[trigger] ts[i]) == k
}

spec fn torrents_map(ts: Seq<Torrent>) -> Map<Seq<u8>, usize> {
    Map::new(
        |k: Seq<u8>| has_key(ts, k),
        |k: Seq<u8>| ts[choose|i: int| 0 <= i < ts.len() && torrent_key(#[trigger] ts[i]) == k].downloaded,
    )
}

spec fn keys_distinct(ts: Seq<Torrent>) -> bool {
    forall|i: int, j: int|
        0 <= i < ts.len() && 0 <= j < ts.len() && i != j ==> torrent_key(#[trigger] ts[i])
            != torrent_key(#[trigger] ts[j])
}

proof fn lemma_torrent_in_map(ts: Seq<Torrent>, i: int)
    requires
        keys_distinct(ts),
        0 <= i < ts.len(),
    ensures
        torrents_map(ts).contains_key(torrent_key(ts[i])),
        torrents_map(ts)[torrent_key(ts[i])] == ts[i].downloaded,
{
    let k = torrent_key(ts[i]);
    assert(has_key(ts, k));
    let j = choose|j: int| 0 <= j < ts.len() && torrent_key(#[trigger] ts[j]) == k;
    assert(j == i);
}

proof fn lemma_update_torrent(ts: Seq<Torrent>, i: int, t: Torrent)
    requires
        keys_distinct(ts),
        0 <= i < ts.len(),
        torrent_key(t) == torrent_key(ts[i]),
    ensures
        keys_distinct(ts.update(i, t)),
        torrents_map(ts.update(i, t)) == torrents_map(ts).insert(torrent_key(t), t.downloaded),
{
    let ts2 = ts.update(i, t);
    let m1 = torrents_map(ts);
    let m2 = torrents_map(ts2);
    let k = torrent_key(t);
    assert(forall|j: int| 0 <= j < ts.len() ==> torrent_key(#[trigger] ts2[j]) == torrent_key(ts[j]));
    assert(keys_distinct(ts2));
    assert forall|key: Seq<u8>| #[trigger] m2.contains_key(key) <==> m1.insert(k, t.downloaded).contains_key(key) by {
        if has_key(ts, key) {
            let j = choose|j: int| 0 <= j < ts.len() && torrent_key(#[trigger] ts[j]) == key;
            assert(torrent_key(ts2[j]) == key);
        }
        if has_key(ts2, key) {
            let j = choose|j: int| 0 <= j < ts2.len() && torrent_key(#[trigger] ts2[j]) == key;
            assert(torrent_key(ts[j]) == key);
        }
    }
    assert forall|key: Seq<u8>| #[trigger] m2.contains_key(key) implies m2[key] == m1.insert(k, t.downloaded)[key] by {
        let j = choose|j: int| 0 <= j < ts2.len() && torrent_key(#[trigger] ts2[j]) == key;
        lemma_torrent_in_map(ts2, j);
        lemma_torrent_in_map(ts, j);
    }
    assert(m2 =~= m1.insert(k, t.downloaded));
}

proof fn lemma_push_torrent(ts: Seq<Torrent>, t: Torrent)
    requires
        keys_distinct(ts),
        !has_key(ts, torrent_key(t)),
    ensures
        keys_distinct(ts.push(t)),
        torrents_map(ts.push(t)) == torrents_map(ts).insert(torrent_key(t), t.downloaded),
{
    let ts2 = ts.push(t);
    let m1 = torrents_map(ts);
    let m2 = torrents_map(ts2);
    assert(keys_distinct(ts2)) by {
        assert forall|i: int, j: int|
            0 <= i < ts2.len() && 0 <= j < ts2.len() && i != j implies torrent_key(#[trigger] ts2[i])
            != torrent_key(#[trigger] ts2[j]) by {
            if i < ts.len() && j < ts.len() {
                assert(ts2[i] == ts[i] && ts2[j] == ts[j]);
            } else if i < ts.len() {
                assert(ts2[i] == ts[i]);
            } else if j < ts.len() {
                assert(ts2[j] == ts[j]);
            }
        }
    }
    assert forall|key: Seq<u8>| #[trigger] m2.contains_key(key) <==> m1.insert(torrent_key(t), t.downloaded).contains_key(key) by {
        if has_key(ts, key) {
            let j = choose|j: int| 0 <= j < ts.len() && torrent_key(#[trigger] ts[j]) == key;
            assert(ts2[j] == ts[j]);
        }
        if key == torrent_key(t) {
            assert(ts2[ts.len() as int] == t);
        }
        if has_key(ts2, key) {
            let j = choose|j: int| 0 <= j < ts2.len() && torrent_key(#[trigger] ts2[j]) == key;
            if j < ts.len() {
                assert(ts2[j] == ts[j]);
            }
        }
    }
    assert forall|key: Seq<u8>| #[trigger] m2.contains_key(key) implies m2[key] == m1.insert(torrent_key(t), t.downloaded)[key] by {
        let j = choose|j: int| 0 <= j < ts2.len() && torrent_key(#[trigger] ts2[j]) == key;
        lemma_torrent_in_map(ts2, j);
        if j < ts.len() {
            assert(ts2[j] == ts[j]);
            lemma_torrent_in_map(ts, j);
        }
    }
    assert(m2 =~= m1.insert(torrent_key(t), t.downloaded));
}

/// The torrents the tracker serves, each with its number of completed downloads.
pub struct TorrentStore {
    torrents: Vec<Torrent>,
}

impl View for TorrentStore {
    type V = Map<Seq<u8>, usize>;

    closed spec fn view(&self) -> Map<Seq<u8>, usize> {
        torrents_map(self.torrents@)
    }
}

impl TorrentStore {
    /// Each torrent is listed once.
    pub closed spec fn wf(&self) -> bool {
        keys_distinct(self.torrents@)
    }

    pub fn new() -> (s: TorrentStore)
        ensures
            s.wf(),
            s@ == Map::<Seq<u8>, usize>::empty(),
    {
        let s = TorrentStore { torrents: Vec::new() };
        assert(s@ =~= Map::<Seq<u8>, usize>::empty());
        s
    }

    fn find(&self, info_hash: &[u8]) -> (r: Option<usize>)
        requires
            self.wf(),
        ensures
            match r {
                Some(i) => i < self.torrents@.len() && torrent_key(self.torrents@[i as int]) == info_hash@,
                None => !self@.contains_key(info_hash@),
            },
    {
        let mut i: usize = 0;
        while i < self.torrents.len()
            invariant
                0 <= i <= self.torrents@.len(),
                forall|j: int| 0 <= j < i ==> torrent_key(#[trigger] self.torrents@[j]) != info_hash@,
            decreases self.torrents@.len() - i,
        {
            if bytes_equal(self.torrents[i].info_hash.as_slice(), info_hash) {
                return Some(i);
            }
            i = i + 1;
        }
        None
    }

    /// Serves the torrent `info_hash`, with no completed downloads; a torrent
    /// already served starts its count over.
    pub fn add_torrent(&mut self, info_hash: Vec<u8>)
        requires
            old(self).wf(),
        ensures
            final(self).wf(),
            final(self)@ == old(self)@.insert(info_hash@, 0),
    {
        match self.find(info_hash.as_slice()) {
            Some(i) => {
                let ghost ts = self.torrents@;
                let t = Torrent { info_hash, downloaded: 0 };
                proof {
                    lemma_update_torrent(ts, i as int, t);
                }
                self.torrents.set(i, t);
            },
            None => {
                let ghost ts = self.torrents@;
                let t = Torrent { info_hash, downloaded: 0 };
                proof {
                    lemma_push_torrent(ts, t);
                }
                self.torrents.push(t);
            },
        }
    }

    /// Counts one more completed download of `info_hash`; nothing changes
    /// for a torrent that is not served.
    pub fn increment_downloaded(&mut self, info_hash: Vec<u8>)
        requires
            old(self).wf(),
            old(self)@.contains_key(info_hash@) ==> old(self)@[info_hash@] < usize::MAX,
        ensures
            final(self).wf(),
            old(self)@.contains_key(info_hash@) ==> final(self)@ == old(self)@.insert(
                info_hash@,
                (old(self)@[info_hash@] + 1) as usize,
            ),
            !old(self)@.contains_key(info_hash@) ==> final(self)@ == old(self)@,
    {
        match self.find(info_hash.as_slice()) {
            Some(i) => {
                let ghost ts = self.torrents@;
                proof {
                    lemma_torrent_in_map(ts, i as int);
                }
                let t = Torrent { info_hash, downloaded: self.torrents[i].downloaded + 1 };
                proof {
                    lemma_update_torrent(ts, i as int, t);
                }
                self.torrents.set(i, t);
            },
            None => {},
        }
    }

    /// The number of completed downloads of `info_hash`.
    pub fn downloaded(&self, info_hash: &[u8]) -> (n: usize)
        requires
            self.wf(),
        ensures
            n as nat == downloads_of(self@, info_hash@),
    {
        match self.find(info_hash) {
            Some(i) => {
                proof {
                    lemma_torrent_in_map(self.torrents@, i as int);
                }
                self.torrents[i].downloaded
            },
            None => 0,
        }
    }

    /// The number of completed downloads of each of `info_hashes`, in their order.
    pub fn get_stats_for_scrapes(&self, info_hashes: Vec<Vec<u8>>) -> (r: Vec<usize>)
        requires
            self.wf(),
        ensures
            r@.len() == info_hashes@.len(),
            forall|i: int|
                0 <= i < info_hashes@.len() ==> #[trigger] r@[i] as nat == downloads_of(self@, info_hashes@[i]@),
    {
        let mut stats: Vec<usize> = Vec::new();
        let mut i: usize = 0;
        while i < info_hashes.len()
            invariant
                self.wf(),
                0 <= i <= info_hashes@.len(),
                stats@.len() == i,
                forall|j: int|
                    0 <= j < i ==> #[trigger] stats@[j] as nat == downloads_of(self@, info_hashes@[j]@),
            decreases info_hashes@.len() - i,
        {
            stats.push(self.downloaded(info_hashes[i].as_slice()));
            i = i + 1;
        }
        stats
    }

    /// The number of completed downloads of every torrent, by info hash, one
    /// entry per torrent.
    pub fn get_global_scrape_stats(&self) -> (r: Vec<(Vec<u8>, usize)>)
        requires
            self.wf(),
        ensures
            forall|i: int, j: int|
                0 <= i < r@.len() && 0 <= j < r@.len() && i != j ==> (#[trigger] r@[i]).0@
                    != (#[trigger] r@[j]).0@,
            forall|i: int|
                0 <= i < r@.len() ==> self@.contains_key((#[trigger] r@[i]).0@) && r@[i].1 == self@[r@[i].0@],
            forall|k: Seq<u8>|
                #[trigger] self@.contains_key(k) ==> exists|i: int| 0 <= i < r@.len() && (#[trigger] r@[i]).0@ == k,
    {
        let mut stats: Vec<(Vec<u8>, usize)> = Vec::new();
        let mut i: usize = 0;
        while i < self.torrents.len()
            invariant
                self.wf(),
                0 <= i <= self.torrents@.len(),
                stats@.len() == i,
                forall|j: int|
                    0 <= j < i ==> (#[trigger] stats@[j]).0@ == torrent_key(self.torrents@[j])
                        && stats@[j].1 == self.torrents@[j].downloaded,
            decreases self.torrents@.len() - i,
        {
            let t = &self.torrents[i];
            stats.push((t.info_hash.clone(), t.downloaded));
            i = i + 1;
        }
        proof {
            assert forall|j: int| 0 <= j < stats@.len() implies self@.contains_key((#[trigger] stats@[j]).0@)
                && stats@[j].1 == self@[stats@[j].0@] by {
                lemma_torrent_in_map(self.torrents@, j);
            }
            assert forall|k: Seq<u8>| #[trigger] self@.contains_key(k) implies exists|j: int|
                0 <= j < stats@.len() && (#[trigger] stats@[j]).0@ == k by {
                let j = choose|j: int| 0 <= j < self.torrents@.len() && torrent_key(#[trigger] self.torrents@[j]) == k;
                assert(stats@[j].0@ == k);
            }
        }
        stats
    }
}

} // verus!
