use build_a_bitorrent_tracker::peer::{IpAddress, Peer};
use build_a_bitorrent_tracker::swarm::Swarm;
use build_a_bitorrent_tracker::swarm_store::SwarmStore;
use build_a_bitorrent_tracker::torrent_store::TorrentStore;

fn hash(c: u8) -> Vec<u8> {
    vec![c; 20]
}

fn v4_peer(id: &str, ip: &str, port: u16) -> Peer {
    Peer { id: id.as_bytes().to_vec(), ip: IpAddress::V4(ip.as_bytes().to_vec()), port }
}

fn v6_peer(id: &str, ip: &str, port: u16) -> Peer {
    Peer { id: id.as_bytes().to_vec(), ip: IpAddress::V6(ip.as_bytes().to_vec()), port }
}

fn ids(peers: &[Peer]) -> Vec<Vec<u8>> {
    peers.iter().map(|p| p.id.clone()).collect()
}

#[test]
fn swarm_add_seeder_is_idempotent() {
    let mut s = Swarm::new();
    s.add_seeder(v4_peer("a", "1.1.1.1", 1));
    s.add_seeder(v4_peer("a", "1.1.1.1", 1));
    assert_eq!(s.seeder_count(), 1);
    assert_eq!(s.leecher_count(), 0);
}

#[test]
fn swarm_peers_differing_in_port_are_distinct() {
    let mut s = Swarm::new();
    s.add_leecher(v4_peer("a", "1.1.1.1", 1));
    s.add_leecher(v4_peer("a", "1.1.1.1", 2));
    assert_eq!(s.leecher_count(), 2);
}

#[test]
fn swarm_promote_moves_leecher_to_seeders() {
    let mut s = Swarm::new();
    s.add_leecher(v4_peer("a", "1.1.1.1", 1));
    s.add_leecher(v4_peer("b", "1.1.1.2", 1));
    s.promote_leecher(v4_peer("a", "1.1.1.1", 1));
    assert_eq!(ids(s.seeders()), vec![b"a".to_vec()]);
    assert_eq!(ids(s.leechers()), vec![b"b".to_vec()]);
}

#[test]
fn swarm_promote_unknown_peer_makes_it_seeder() {
    let mut s = Swarm::new();
    s.promote_leecher(v4_peer("z", "1.1.1.1", 1));
    assert_eq!(s.seeder_count(), 1);
    assert_eq!(s.leecher_count(), 0);
}

#[test]
fn swarm_remove_keeps_order_of_others() {
    let mut s = Swarm::new();
    s.add_seeder(v4_peer("a", "1.1.1.1", 1));
    s.add_seeder(v4_peer("b", "1.1.1.1", 1));
    s.add_seeder(v4_peer("c", "1.1.1.1", 1));
    s.remove_seeder(v4_peer("b", "1.1.1.1", 1));
    assert_eq!(ids(s.seeders()), vec![b"a".to_vec(), b"c".to_vec()]);
    s.remove_leecher(v4_peer("a", "1.1.1.1", 1));
    assert_eq!(s.seeder_count(), 2);
}

#[test]
fn store_add_peer_creates_swarm() {
    let mut store = SwarmStore::new();
    assert_eq!(store.get_announce_stats(hash(1)), (0, 0));
    store.add_peer(hash(1), v4_peer("a", "1.1.1.1", 1), true);
    store.add_peer(hash(1), v4_peer("b", "1.1.1.2", 1), false);
    store.add_peer(hash(1), v4_peer("c", "1.1.1.3", 1), false);
    assert_eq!(store.get_announce_stats(hash(1)), (1, 2));
    assert_eq!(store.get_announce_stats(hash(2)), (0, 0));
    assert!(store.swarm(&hash(2)).is_none());
}

#[test]
fn store_peer_can_be_seeder_and_leecher() {
    let mut store = SwarmStore::new();
    store.add_peer(hash(1), v4_peer("a", "1.1.1.1", 1), true);
    store.add_peer(hash(1), v4_peer("a", "1.1.1.1", 1), false);
    assert_eq!(store.get_announce_stats(hash(1)), (1, 1));
    let (peers, peers6) = store.get_peers(hash(1), 30);
    assert_eq!(peers.len(), 2);
    assert!(peers6.is_empty());
}

#[test]
fn store_remove_peer_leaves_both_roles() {
    let mut store = SwarmStore::new();
    store.add_peer(hash(1), v4_peer("a", "1.1.1.1", 1), true);
    store.add_peer(hash(1), v4_peer("a", "1.1.1.1", 1), false);
    store.remove_peer(hash(1), v4_peer("a", "1.1.1.1", 1));
    assert_eq!(store.get_announce_stats(hash(1)), (0, 0));
    // The swarm itself stays.
    assert!(store.swarm(&hash(1)).is_some());
    // Removing from an unknown torrent changes nothing.
    store.remove_peer(hash(9), v4_peer("a", "1.1.1.1", 1));
    assert!(store.swarm(&hash(9)).is_none());
}

#[test]
fn store_promote_peer() {
    let mut store = SwarmStore::new();
    store.add_peer(hash(1), v4_peer("a", "1.1.1.1", 1), false);
    store.promote_peer(hash(1), v4_peer("a", "1.1.1.1", 1));
    assert_eq!(store.get_announce_stats(hash(1)), (1, 0));
    // No swarm, no change.
    store.promote_peer(hash(2), v4_peer("a", "1.1.1.1", 1));
    assert_eq!(store.get_announce_stats(hash(2)), (0, 0));
    assert!(store.swarm(&hash(2)).is_none());
}

#[test]
fn store_get_peers_splits_families_seeders_first() {
    let mut store = SwarmStore::new();
    store.add_peer(hash(1), v4_peer("l4", "1.1.1.1", 1), false);
    store.add_peer(hash(1), v6_peer("l6", "::1", 1), false);
    store.add_peer(hash(1), v4_peer("s4", "1.1.1.2", 1), true);
    store.add_peer(hash(1), v6_peer("s6", "::2", 1), true);
    let (peers, peers6) = store.get_peers(hash(1), 4);
    assert_eq!(ids(&peers), vec![b"s4".to_vec(), b"l4".to_vec()]);
    assert_eq!(ids(&peers6), vec![b"s6".to_vec(), b"l6".to_vec()]);
    let (none4, none6) = store.get_peers(hash(2), 4);
    assert!(none4.is_empty() && none6.is_empty());
}

#[test]
fn store_get_peers_truncates_each_family_at_random() {
    let mut store = SwarmStore::new();
    for i in 0..10u8 {
        store.add_peer(hash(1), v4_peer(&format!("p{}", i), "1.1.1.1", 1), i % 2 == 0);
    }
    store.add_peer(hash(1), v6_peer("only6", "::1", 1), true);
    let (peers, peers6) = store.get_peers(hash(1), 3);
    assert_eq!(peers.len(), 3);
    assert_eq!(ids(&peers6), vec![b"only6".to_vec()]);
    let mut seen = ids(&peers);
    seen.sort();
    seen.dedup();
    assert_eq!(seen.len(), 3);
    for id in seen {
        assert!(id.starts_with(b"p"));
    }
}

#[test]
fn store_scrape_stats() {
    let mut store = SwarmStore::new();
    store.add_peer(hash(1), v4_peer("a", "1.1.1.1", 1), true);
    store.add_peer(hash(2), v4_peer("b", "1.1.1.1", 1), false);
    let (c, i) = store.get_stats_for_scrapes(vec![hash(2), hash(3), hash(1)]);
    assert_eq!(c, vec![0, 0, 1]);
    assert_eq!(i, vec![1, 0, 0]);
    let mut global = store.get_global_scrape_stats();
    global.sort();
    assert_eq!(global, vec![(hash(1), (1, 0)), (hash(2), (0, 1))]);
}

#[test]
fn torrent_store_counts_downloads() {
    let mut t = TorrentStore::new();
    t.add_torrent(hash(1));
    t.increment_downloaded(hash(1));
    t.increment_downloaded(hash(1));
    t.increment_downloaded(hash(7));
    assert_eq!(t.downloaded(&hash(1)), 2);
    assert_eq!(t.downloaded(&hash(7)), 0);
    assert_eq!(t.get_stats_for_scrapes(vec![hash(7), hash(1)]), vec![0, 2]);
    assert_eq!(t.get_global_scrape_stats(), vec![(hash(1), 2)]);
}

#[test]
fn torrent_store_add_resets_count() {
    let mut t = TorrentStore::new();
    t.add_torrent(hash(1));
    t.increment_downloaded(hash(1));
    t.add_torrent(hash(1));
    assert_eq!(t.downloaded(&hash(1)), 0);
    assert_eq!(t.get_global_scrape_stats().len(), 1);
}
