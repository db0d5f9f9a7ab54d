//! A BitTorrent tracker: swarm and torrent bookkeeping, announce and scrape
//! request handling, and bencoded responses.

pub mod bencode;
pub mod bytes;
pub mod event;
pub mod laws;
pub mod number;
pub mod peer;
pub mod protocol;
pub mod random;
pub mod response;
pub mod swarm;
pub mod swarm_store;
pub mod torrent_store;

use vstd::prelude::*;

use crate::swarm_store::SwarmStore;
use crate::torrent_store::TorrentStore;

verus! {

/// All the tracker knows: the swarm of each torrent and the torrents it serves.
pub struct AppState {
    pub swarm_store: SwarmStore,
    pub torrent_store: TorrentStore,
}

impl AppState {
    pub open spec fn wf(&self) -> bool {
        self.swarm_store.wf() && self.torrent_store.wf()
    }

    /// A tracker that knows no swarm and serves no torrent.
    pub fn new() -> (s: AppState)
        ensures
            s.wf(),
            s.swarm_store@ == Map::<Seq<u8>, crate::swarm::SwarmView>::empty(),
            s.torrent_store@ == Map::<Seq<u8>, usize>::empty(),
    {
        AppState { swarm_store: SwarmStore::new(), torrent_store: TorrentStore::new() }
    }
}

} // verus!
