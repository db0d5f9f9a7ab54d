use build_a_bitorrent_tracker::event::Event;
use build_a_bitorrent_tracker::peer::{IpAddress, Peer};
use build_a_bitorrent_tracker::protocol::tcp::{
    answer_announce, answer_scrape, handle_announce, handle_scrape, AnnounceRequest,
};
use build_a_bitorrent_tracker::response::{
    AnnounceResponse, Scrape, ScrapeData, ScrapeResponse,
};
use build_a_bitorrent_tracker::AppState;

fn peer(id: &[u8], ip: &str, port: u16) -> Peer {
    Peer { id: id.to_vec(), ip: IpAddress::V4(ip.as_bytes().to_vec()), port }
}

fn request(info_hash: Vec<u8>, peer_id: &[u8], event: Option<Event>, left: u64) -> AnnounceRequest {
    AnnounceRequest {
        info_hash,
        peer_id: peer_id.to_vec(),
        port: 6881,
        uploaded: 0,
        downloaded: 0,
        left,
        compact: false,
        no_peer_id: false,
        event,
        ip: None,
        numwant: None,
        key: None,
        trackerid: None,
    }
}

#[test]
fn peer_encoding() {
    let p = peer(b"ab", "1.2.3.4", 6881);
    assert_eq!(p.encode(), b"d2:ip7:1.2.3.47:peer_idli97ei98ee4:porti6881ee".to_vec());
    let q = Peer { id: Vec::new(), ip: IpAddress::V6(b"::1".to_vec()), port: 0 };
    assert_eq!(q.encode(), b"d2:ip3:::17:peer_idle4:porti0ee".to_vec());
}

#[test]
fn scrape_data_encoding() {
    let d = ScrapeData { complete: 3, downloaded: 10, incomplete: 0 };
    assert_eq!(d.encode(), b"d8:completei3e10:downloadedi10e10:incompletei0ee".to_vec());
}

#[test]
fn scrape_encoding() {
    let s = Scrape { info_hash: b"hash".to_vec(), data: ScrapeData { complete: 1, downloaded: 2, incomplete: 3 } };
    assert_eq!(
        s.encode(),
        b"d4:hashd8:completei1e10:downloadedi2e10:incompletei3eee".to_vec()
    );
    let r = ScrapeResponse { files: vec![s] };
    assert_eq!(
        r.encode(),
        b"d5:filesld4:hashd8:completei1e10:downloadedi2e10:incompletei3eeeee".to_vec()
    );
    assert_eq!(ScrapeResponse { files: Vec::new() }.encode(), b"d5:fileslee".to_vec());
}

#[test]
fn announce_failure_encoding() {
    let r = AnnounceResponse::Failure { failure_reason: b"no".to_vec() };
    assert_eq!(r.encode(), b"d14:failure_reason2:noe".to_vec());
}

#[test]
fn announce_success_encoding() {
    let r = AnnounceResponse::Success {
        interval: 1800,
        complete: 1,
        incomplete: 2,
        peers: vec![peer(b"a", "1.1.1.1", 1)],
        peers6: Vec::new(),
        tracker_id: b"test".to_vec(),
        warning_message: None,
        min_interval: None,
    };
    assert_eq!(
        r.encode(),
        b"d8:completei1e10:incompletei2e8:intervali1800e5:peersld2:ip7:1.1.1.17:peer_idli97ee4:porti1eee6:peers6le10:tracker_id4:teste".to_vec()
    );
    let r2 = AnnounceResponse::Success {
        interval: 5,
        complete: 0,
        incomplete: 0,
        peers: Vec::new(),
        peers6: Vec::new(),
        tracker_id: Vec::new(),
        warning_message: Some(b"w".to_vec()),
        min_interval: Some(60),
    };
    assert_eq!(
        r2.encode(),
        b"d8:completei0e10:incompletei0e8:intervali5e12:min_intervali60e5:peersle6:peers6le10:tracker_id0:15:warning_message1:we".to_vec()
    );
}

#[test]
fn announce_started_then_completed() {
    let mut state = AppState::new();
    let h = vec![7u8; 20];
    state.torrent_store.add_torrent(h.clone());
    let r = answer_announce(
        &mut state,
        request(h.clone(), b"leech", Some(Event::Started), 100),
        IpAddress::V4(b"10.0.0.1".to_vec()),
    );
    match r {
        AnnounceResponse::Success { interval, complete, incomplete, peers, peers6, tracker_id, warning_message, min_interval } => {
            assert_eq!((interval, complete, incomplete), (1800, 0, 1));
            assert_eq!(peers.len(), 1);
            assert_eq!(peers[0].id, b"leech".to_vec());
            assert_eq!(peers[0].ip.text(), &b"10.0.0.1".to_vec());
            assert_eq!(peers[0].port, 6881);
            assert!(peers6.is_empty());
            assert_eq!(tracker_id, b"test".to_vec());
            assert!(warning_message.is_none() && min_interval.is_none());
        },
        AnnounceResponse::Failure { .. } => panic!("an announce never fails"),
    }
    let r = answer_announce(
        &mut state,
        request(h.clone(), b"leech", Some(Event::Completed), 0),
        IpAddress::V4(b"10.0.0.1".to_vec()),
    );
    assert!(matches!(r, AnnounceResponse::Success { complete: 1, incomplete: 0, .. }));
    assert_eq!(state.torrent_store.downloaded(&h), 1);
}

#[test]
fn announce_uses_given_ip_and_numwant() {
    let mut state = AppState::new();
    let h = vec![1u8; 20];
    let mut req = request(h.clone(), b"p", Some(Event::Started), 0);
    req.ip = Some(IpAddress::V6(b"::5".to_vec()));
    answer_announce(&mut state, req, IpAddress::V4(b"10.0.0.1".to_vec()));
    let mut other = request(h.clone(), b"q", Some(Event::Started), 5);
    other.numwant = Some(0);
    let r = answer_announce(&mut state, other, IpAddress::V4(b"10.0.0.2".to_vec()));
    match r {
        AnnounceResponse::Success { complete, incomplete, peers, peers6, .. } => {
            assert_eq!((complete, incomplete), (1, 1));
            assert!(peers.is_empty());
            assert!(peers6.is_empty());
        },
        AnnounceResponse::Failure { .. } => panic!("an announce never fails"),
    }
}

#[test]
fn announce_stopped_and_no_event() {
    let mut state = AppState::new();
    let h = vec![2u8; 20];
    let ip = || IpAddress::V4(b"10.0.0.1".to_vec());
    answer_announce(&mut state, request(h.clone(), b"p", Some(Event::Started), 0), ip());
    answer_announce(&mut state, request(h.clone(), b"p", None, 0), ip());
    answer_announce(&mut state, request(h.clone(), b"p", Some(Event::Empty), 0), ip());
    assert_eq!(state.swarm_store.get_announce_stats(h.clone()), (1, 0));
    let r = answer_announce(&mut state, request(h.clone(), b"p", Some(Event::Stopped), 0), ip());
    assert!(matches!(r, AnnounceResponse::Success { complete: 0, incomplete: 0, .. }));
}

#[test]
fn announce_body_is_encoded_response() {
    let mut state = AppState::new();
    let h = vec![3u8; 20];
    let body = handle_announce(
        &mut state,
        request(h, b"a", Some(Event::Started), 0),
        IpAddress::V4(b"1.1.1.1".to_vec()),
    );
    assert_eq!(
        body,
        b"d8:completei1e10:incompletei0e8:intervali1800e5:peersld2:ip7:1.1.1.17:peer_idli97ee4:porti6881eee6:peers6le10:tracker_id4:teste".to_vec()
    );
}

#[test]
fn scrape_named_and_global() {
    let mut state = AppState::new();
    let h1 = vec![b'a'; 20];
    let h2 = vec![b'b'; 20];
    state.torrent_store.add_torrent(h1.clone());
    state.torrent_store.add_torrent(h2.clone());
    state.torrent_store.increment_downloaded(h2.clone());
    state.swarm_store.add_peer(h1.clone(), peer(b"x", "1.1.1.1", 1), true);
    state.swarm_store.add_peer(vec![b'c'; 20], peer(b"y", "1.1.1.1", 1), false);

    let named = answer_scrape(&state, Some(vec![h2.clone(), vec![b'c'; 20]]));
    assert_eq!(named.files.len(), 2);
    assert_eq!(named.files[0].info_hash, h2);
    assert_eq!(named.files[0].data, ScrapeData { complete: 0, downloaded: 1, incomplete: 0 });
    assert_eq!(named.files[1].data, ScrapeData { complete: 0, downloaded: 0, incomplete: 1 });

    let global = answer_scrape(&state, None);
    let mut files: Vec<(Vec<u8>, ScrapeData)> = global.files.iter().map(|s| (s.info_hash.clone(), s.data)).collect();
    files.sort_by(|a, b| a.0.cmp(&b.0));
    assert_eq!(
        files,
        vec![
            (h1.clone(), ScrapeData { complete: 1, downloaded: 0, incomplete: 0 }),
            (h2.clone(), ScrapeData { complete: 0, downloaded: 1, incomplete: 0 }),
        ]
    );

    let query = vec![(b"info_hash".to_vec(), h1.clone())];
    let mut expected = b"d5:filesld20:".to_vec();
    expected.extend_from_slice(&h1);
    expected.extend_from_slice(b"d8:completei1e10:downloadedi0e10:incompletei0eeeee");
    assert_eq!(handle_scrape(&state, &query), expected);
}

#[test]
fn law_start_twice_is_start_once() {
    let mut state = AppState::new();
    let h = vec![4u8; 20];
    let ip = || IpAddress::V4(b"10.0.0.9".to_vec());
    answer_announce(&mut state, request(h.clone(), b"p", Some(Event::Started), 3), ip());
    answer_announce(&mut state, request(h.clone(), b"p", Some(Event::Started), 3), ip());
    assert_eq!(state.swarm_store.get_announce_stats(h), (0, 1));
}

#[test]
fn law_start_then_stop_restores_swarm() {
    let mut state = AppState::new();
    let h = vec![5u8; 20];
    let ip = || IpAddress::V4(b"10.0.0.9".to_vec());
    answer_announce(&mut state, request(h.clone(), b"old", Some(Event::Started), 0), ip());
    answer_announce(&mut state, request(h.clone(), b"new", Some(Event::Started), 1), ip());
    answer_announce(&mut state, request(h.clone(), b"new", Some(Event::Stopped), 1), ip());
    let swarm = state.swarm_store.swarm(&h).unwrap();
    assert_eq!(swarm.seeders().len(), 1);
    assert_eq!(swarm.seeders()[0].id, b"old".to_vec());
    assert!(swarm.leechers().is_empty());
}

#[test]
fn law_announce_touches_one_torrent() {
    let mut state = AppState::new();
    let h = vec![6u8; 20];
    let other = vec![8u8; 20];
    state.torrent_store.add_torrent(other.clone());
    state.torrent_store.add_torrent(h.clone());
    let ip = || IpAddress::V4(b"10.0.0.9".to_vec());
    answer_announce(&mut state, request(other.clone(), b"o", Some(Event::Started), 0), ip());
    answer_announce(&mut state, request(h.clone(), b"p", Some(Event::Completed), 0), ip());
    assert_eq!(state.swarm_store.get_announce_stats(other.clone()), (1, 0));
    assert_eq!(state.torrent_store.downloaded(&other), 0);
    assert_eq!(state.torrent_store.downloaded(&h), 1);
}

#[test]
fn law_scrape_agrees_with_announce() {
    let mut state = AppState::new();
    let h = vec![9u8; 20];
    let ip = || IpAddress::V4(b"10.0.0.9".to_vec());
    answer_announce(&mut state, request(h.clone(), b"a", Some(Event::Started), 0), ip());
    answer_announce(&mut state, request(h.clone(), b"b", Some(Event::Started), 7), ip());
    let r = answer_announce(&mut state, request(h.clone(), b"c", None, 7), ip());
    let files = answer_scrape(&state, Some(vec![h.clone()])).files;
    match r {
        AnnounceResponse::Success { complete, incomplete, .. } => {
            assert_eq!(files[0].data.complete, complete);
            assert_eq!(files[0].data.incomplete, incomplete);
            assert_eq!((complete, incomplete), (1, 1));
        },
        AnnounceResponse::Failure { .. } => panic!("an announce never fails"),
    }
}

#[test]
fn law_added_torrent_reports_no_download() {
    let mut state = AppState::new();
    let h = vec![10u8; 20];
    state.torrent_store.add_torrent(h.clone());
    let files = answer_scrape(&state, Some(vec![h])).files;
    assert_eq!(files[0].data.downloaded, 0);
}
