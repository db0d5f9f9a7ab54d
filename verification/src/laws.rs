use vstd::prelude::*;

use crate::event::{event_name, event_named, Event};
use crate::peer::{IpAddressView, PeerView};
use crate::protocol::tcp::{
    announce_answer, announcing_peer, reports, scrape_answer, swarms_after_announce,
    torrents_after_announce, AnnounceRequest,
};
use crate::response::ScrapeView;
use crate::swarm::{lemma_index_of_unique, lemma_remove_no_duplicates, seq_insert, seq_remove, SwarmView};
use crate::bencode::{
    bencode_bytes, bencode_dict, bencode_list, bytes_less, concat, dict_body, keys_sorted,
    lemma_concat_push, lemma_dict_body_empty, lemma_dict_body_push,
};
use crate::torrent_store::downloads_of;
use crate::bytes::ascii;
use crate::response::{
    announce_entries, peer_bencode, peer_entries, peer_list_bencode, scrape_data_bencode,
    scrape_data_entries, scrape_response_bencode, AnnounceResponseView, ScrapeData,
};
use crate::swarm_store::{is_selection, peers_of_family, peers_offered};

verus! {

/// After `seq_insert` the element is there.
proof fn lemma_insert_contains(s: Seq<PeerView>, x: PeerView)
    ensures
        seq_insert(s, x).contains(x),
{
    if !s.contains(x) {
        assert(s.push(x)[s.len() as int] == x);
    }
}

/// After `seq_remove` the element is gone from a sequence without duplicates.
proof fn lemma_remove_gone(s: Seq<PeerView>, x: PeerView)
    requires
        s.no_duplicates(),
    ensures
        !seq_remove(s, x).contains(x),
        seq_remove(s, x).no_duplicates(),
{
    if s.contains(x) {
        let i = s.index_of(x);
        lemma_remove_no_duplicates(s, i);
    }
}

/// Removing an element just added to a sequence that lacked it gives the
/// sequence back.
proof fn lemma_remove_after_insert(s: Seq<PeerView>, x: PeerView)
    requires
        s.no_duplicates(),
        !s.contains(x),
    ensures
        seq_remove(seq_insert(s, x), x) == s,
{
    let t = s.push(x);
    assert(t.no_duplicates());
    lemma_index_of_unique(t, s.len() as int);
    assert(t[s.len() as int] == x);
    assert(t.remove(s.len() as int) =~= s);
}

/// A peer that announces it has started is then in the torrent's swarm:
/// among the seeders when it lacks nothing, among the leechers otherwise.
pub proof fn law_started_peer_joins(
    swarms: Map<Seq<u8>, SwarmView>,
    announce: AnnounceRequest,
    client_ip: IpAddressView,
)
    requires
        announce.event matches Some(Event::Started),
    ensures
        ({
            let after = swarms_after_announce(swarms, announce, client_ip);
            let h = announce.info_hash@;
            let peer = announcing_peer(announce, client_ip);
            &&& after.contains_key(h)
            &&& announce.left == 0 ==> after[h].seeders.contains(peer)
            &&& announce.left != 0 ==> after[h].leechers.contains(peer)
        }),
{
    let h = announce.info_hash@;
    let peer = announcing_peer(announce, client_ip);
    let s = if swarms.contains_key(h) {
        swarms[h]
    } else {
        SwarmView::empty()
    };
    lemma_insert_contains(s.seeders, peer);
    lemma_insert_contains(s.leechers, peer);
}

/// A peer that announces it has stopped is no longer in the torrent's
/// swarm, in either role.
pub proof fn law_stopped_peer_leaves(
    swarms: Map<Seq<u8>, SwarmView>,
    announce: AnnounceRequest,
    client_ip: IpAddressView,
)
    requires
        announce.event matches Some(Event::Stopped),
        forall|k: Seq<u8>| #[trigger] swarms.contains_key(k) ==> swarms[k].wf(),
    ensures
        ({
            let after = swarms_after_announce(swarms, announce, client_ip);
            let h = announce.info_hash@;
            let peer = announcing_peer(announce, client_ip);
            after.contains_key(h) ==> !after[h].seeders.contains(peer) && !after[h].leechers.contains(
                peer,
            )
        }),
{
    let h = announce.info_hash@;
    let peer = announcing_peer(announce, client_ip);
    if swarms.contains_key(h) {
        lemma_remove_gone(swarms[h].seeders, peer);
        lemma_remove_gone(swarms[h].leechers, peer);
    }
}

/// A peer that announces it has completed its download is then a seeder of
/// the torrent's swarm and no longer a leecher, and the torrent, when it is
/// served, counts one more completed download.
pub proof fn law_completed_peer_seeds(
    swarms: Map<Seq<u8>, SwarmView>,
    torrents: Map<Seq<u8>, usize>,
    announce: AnnounceRequest,
    client_ip: IpAddressView,
)
    requires
        announce.event matches Some(Event::Completed),
        forall|k: Seq<u8>| #[trigger] swarms.contains_key(k) ==> swarms[k].wf(),
        torrents.contains_key(announce.info_hash@) ==> torrents[announce.info_hash@] < usize::MAX,
    ensures
        ({
            let after = swarms_after_announce(swarms, announce, client_ip);
            let h = announce.info_hash@;
            let peer = announcing_peer(announce, client_ip);
            swarms.contains_key(h) ==> after[h].seeders.contains(peer) && !after[h].leechers.contains(
                peer,
            )
        }),
        ({
            let h = announce.info_hash@;
            torrents.contains_key(h) ==> torrents_after_announce(torrents, announce)[h] == torrents[h]
                + 1
        }),
{
    let h = announce.info_hash@;
    let peer = announcing_peer(announce, client_ip);
    if swarms.contains_key(h) {
        lemma_insert_contains(swarms[h].seeders, peer);
        lemma_remove_gone(swarms[h].leechers, peer);
    }
}

/// Announcing the same start twice changes the swarms no more than once.
pub proof fn law_start_idempotent(
    swarms: Map<Seq<u8>, SwarmView>,
    announce: AnnounceRequest,
    client_ip: IpAddressView,
)
    requires
        announce.event matches Some(Event::Started),
    ensures
        swarms_after_announce(swarms_after_announce(swarms, announce, client_ip), announce, client_ip)
            == swarms_after_announce(swarms, announce, client_ip),
{
    let h = announce.info_hash@;
    let peer = announcing_peer(announce, client_ip);
    let once = swarms_after_announce(swarms, announce, client_ip);
    let twice = swarms_after_announce(once, announce, client_ip);
    lemma_insert_contains(once[h].seeders, peer);
    lemma_insert_contains(once[h].leechers, peer);
    let s = if swarms.contains_key(h) {
        swarms[h]
    } else {
        SwarmView::empty()
    };
    lemma_insert_contains(s.seeders, peer);
    lemma_insert_contains(s.leechers, peer);
    assert(twice[h] == once[h]);
    assert(twice =~= once);
}

/// A peer new to an existing swarm that starts and then stops leaves the
/// swarms as they were.
pub proof fn law_start_then_stop_restores(
    swarms: Map<Seq<u8>, SwarmView>,
    start: AnnounceRequest,
    stop: AnnounceRequest,
    client_ip: IpAddressView,
)
    requires
        start.event matches Some(Event::Started),
        stop.event matches Some(Event::Stopped),
        stop.info_hash@ == start.info_hash@,
        announcing_peer(stop, client_ip) == announcing_peer(start, client_ip),
        swarms.contains_key(start.info_hash@),
        swarms[start.info_hash@].wf(),
        !swarms[start.info_hash@].seeders.contains(announcing_peer(start, client_ip)),
        !swarms[start.info_hash@].leechers.contains(announcing_peer(start, client_ip)),
    ensures
        swarms_after_announce(swarms_after_announce(swarms, start, client_ip), stop, client_ip)
            == swarms,
{
    let h = start.info_hash@;
    let peer = announcing_peer(start, client_ip);
    let s = swarms[h];
    let joined = swarms_after_announce(swarms, start, client_ip);
    let left = swarms_after_announce(joined, stop, client_ip);
    lemma_remove_after_insert(s.seeders, peer);
    lemma_remove_after_insert(s.leechers, peer);
    assert(left[h] == s);
    assert(left =~= swarms);
}

/// The peers of one family of a sequence are members of it, of that family.
proof fn lemma_family_members(s: Seq<PeerView>, v4: bool)
    ensures
        forall|i: int|
            0 <= i < peers_of_family(s, v4).len() ==> s.contains(#[trigger] peers_of_family(s, v4)[i])
                && peers_of_family(s, v4)[i].ip.is_ipv4() == v4,
        peers_of_family(s, v4).len() <= s.len(),
    decreases s.len(),
{
    if s.len() > 0 {
        let init = s.drop_last();
        lemma_family_members(init, v4);
        assert forall|i: int|
            0 <= i < peers_of_family(s, v4).len() implies s.contains(#[trigger] peers_of_family(s, v4)[i])
            && peers_of_family(s, v4)[i].ip.is_ipv4() == v4 by {
            if i < peers_of_family(init, v4).len() {
                let x = peers_of_family(init, v4)[i];
                let k = choose|k: int| 0 <= k < init.len() && init[k] == x;
                assert(s[k] == x);
            } else {
                assert(s[s.len() - 1] == s.last());
            }
        }
    }
}

/// Every peer an announce hands out is a seeder or a leecher of the swarm,
/// with an address of the family asked for; and a swarm with more peers
/// than the client wants never yields more than it wants of one family.
pub proof fn law_offered_peers_are_members(swarm: SwarmView, numwant: nat, v4: bool, out: Seq<PeerView>)
    requires
        peers_offered(swarm, numwant, v4, out),
    ensures
        forall|i: int|
            0 <= i < out.len() ==> (swarm.seeders.contains(#[trigger] out[i]) || swarm.leechers.contains(
                out[i],
            )) && out[i].ip.is_ipv4() == v4,
        swarm.seeders.len() + swarm.leechers.len() > numwant ==> out.len() <= numwant,
{
    let a = peers_of_family(swarm.seeders, v4);
    let b = peers_of_family(swarm.leechers, v4);
    let all = a + b;
    lemma_family_members(swarm.seeders, v4);
    lemma_family_members(swarm.leechers, v4);
    assert forall|j: int| 0 <= j < all.len() implies (swarm.seeders.contains(#[trigger] all[j])
        || swarm.leechers.contains(all[j])) && all[j].ip.is_ipv4() == v4 by {
        if j < a.len() {
            assert(all[j] == a[j]);
        } else {
            assert(all[j] == b[j - a.len()]);
        }
    }
    if swarm.seeders.len() + swarm.leechers.len() <= numwant {
        assert forall|i: int| 0 <= i < out.len() implies (swarm.seeders.contains(#[trigger] out[i])
            || swarm.leechers.contains(out[i])) && out[i].ip.is_ipv4() == v4 by {
            assert(out[i] == all[i]);
        }
    } else {
        assert(is_selection(out, all));
        let idx = choose|idx: Seq<int>|
            #![trigger idx.len()]
            idx.len() == out.len() && (forall|i: int|
                0 <= i < out.len() ==> 0 <= #[trigger] idx[i] < all.len() && out[i] == all[idx[i]])
                && (forall|i: int, j: int|
                0 <= i < out.len() && 0 <= j < out.len() && i != j ==> idx[i] != idx[j]);
        assert forall|i: int| 0 <= i < out.len() implies (swarm.seeders.contains(#[trigger] out[i])
            || swarm.leechers.contains(out[i])) && out[i].ip.is_ipv4() == v4 by {
            assert(0 <= idx[i] < all.len());
            assert(out[i] == all[idx[i]]);
        }
    }
}

/// Comparing two byte strings that differ first at position `k`.
proof fn lemma_less_at(a: Seq<u8>, b: Seq<u8>, k: int)
    requires
        0 <= k < a.len(),
        k < b.len(),
        forall|i: int| 0 <= i < k ==> a[i] == b[i],
        a[k] < b[k],
    ensures
        bytes_less(a, b),
    decreases k,
{
    if k > 0 {
        lemma_less_at(a.skip(1), b.skip(1), k - 1);
    }
}

/// A byte string sorts before any longer one that starts with it.
proof fn lemma_less_prefix(a: Seq<u8>, b: Seq<u8>)
    requires
        a.len() < b.len(),
        forall|i: int| 0 <= i < a.len() ==> a[i] == b[i],
    ensures
        bytes_less(a, b),
    decreases a.len(),
{
    if a.len() > 0 {
        lemma_less_prefix(a.skip(1), b.skip(1));
    }
}

/// The keys of an encoded peer are in the order bencoding demands.
pub proof fn law_peer_keys_sorted(p: PeerView)
    ensures
        keys_sorted(peer_entries(p)),
{
    reveal_strlit("ip");
    reveal_strlit("peer_id");
    reveal_strlit("port");
    let e = peer_entries(p);
    lemma_less_at(ascii("ip"@), ascii("peer_id"@), 0);
    lemma_less_at(ascii("peer_id"@), ascii("port"@), 1);
    assert forall|i: int| 0 <= i < e.len() - 1 implies bytes_less(#[trigger] e[i].0, e[i + 1].0) by {
        if i == 0 {
        } else {
            assert(i == 1);
        }
    }
}

/// The keys of encoded scrape data are in the order bencoding demands.
pub proof fn law_scrape_data_keys_sorted(d: ScrapeData)
    ensures
        keys_sorted(scrape_data_entries(d)),
{
    reveal_strlit("complete");
    reveal_strlit("downloaded");
    reveal_strlit("incomplete");
    let e = scrape_data_entries(d);
    lemma_less_at(ascii("complete"@), ascii("downloaded"@), 0);
    lemma_less_at(ascii("downloaded"@), ascii("incomplete"@), 0);
    assert forall|i: int| 0 <= i < e.len() - 1 implies bytes_less(#[trigger] e[i].0, e[i + 1].0) by {
        if i == 0 {
        } else {
            assert(i == 1);
        }
    }
}

/// The keys of an encoded announce response are in the order bencoding
/// demands, whichever optional entries it has.
pub proof fn law_announce_keys_sorted(r: AnnounceResponseView)
    ensures
        keys_sorted(announce_entries(r)),
{
    reveal_strlit("complete");
    reveal_strlit("incomplete");
    reveal_strlit("interval");
    reveal_strlit("min_interval");
    reveal_strlit("peers");
    reveal_strlit("peers6");
    reveal_strlit("tracker_id");
    reveal_strlit("warning_message");
    lemma_less_at(ascii("complete"@), ascii("incomplete"@), 0);
    lemma_less_at(ascii("incomplete"@), ascii("interval"@), 2);
    lemma_less_at(ascii("interval"@), ascii("min_interval"@), 0);
    lemma_less_at(ascii("interval"@), ascii("peers"@), 0);
    lemma_less_at(ascii("min_interval"@), ascii("peers"@), 0);
    lemma_less_prefix(ascii("peers"@), ascii("peers6"@));
    lemma_less_at(ascii("peers6"@), ascii("tracker_id"@), 0);
    lemma_less_at(ascii("tracker_id"@), ascii("warning_message"@), 0);
    let e = announce_entries(r);
    match r {
        AnnounceResponseView::Failure { .. } => {},
        AnnounceResponseView::Success { warning_message, min_interval, .. } => {
            let keys = e.map_values(|p: (Seq<u8>, Seq<u8>)| p.0);
            let base = seq![ascii("complete"@), ascii("incomplete"@), ascii("interval"@)];
            let with_min = if min_interval is Some {
                base.push(ascii("min_interval"@))
            } else {
                base
            };
            let with_peers = with_min.push(ascii("peers"@)).push(ascii("peers6"@)).push(
                ascii("tracker_id"@),
            );
            let all = if warning_message is Some {
                with_peers.push(ascii("warning_message"@))
            } else {
                with_peers
            };
            assert(keys =~= all);
            assert forall|i: int| 0 <= i < e.len() - 1 implies bytes_less(#[trigger] e[i].0, e[i + 1].0) by {
                assert(e[i].0 == keys[i] && e[i + 1].0 == keys[i + 1]);
                if min_interval is Some {
                    assert(i == 0 || i == 1 || i == 2 || i == 3 || i == 4 || i == 5 || i == 6);
                } else {
                    assert(i == 0 || i == 1 || i == 2 || i == 3 || i == 4 || i == 5);
                }
            }
        },
    }
}

/// Reading the name of an event gives the event back.
pub proof fn law_event_name_round_trip(e: Event)
    requires
        !(e is Empty),
    ensures
        event_named(ascii(event_name(e))) == Some(e),
{
    reveal_strlit("Started");
    reveal_strlit("started");
    reveal_strlit("STARTED");
    reveal_strlit("Stopped");
    reveal_strlit("stopped");
    reveal_strlit("STOPPED");
    reveal_strlit("Completed");
    reveal_strlit("completed");
    reveal_strlit("COMPLETED");
    match e {
        Event::Started => {
            assert(ascii("started"@) =~= ascii("started"@));
        },
        Event::Stopped => {
            assert(ascii("stopped"@)[0] != ascii("Started"@)[0]);
            assert(ascii("stopped"@)[2] != ascii("started"@)[2]);
            assert(ascii("stopped"@)[0] != ascii("STARTED"@)[0]);
        },
        Event::Completed => {
            assert(ascii("completed"@).len() != ascii("Started"@).len());
            assert(ascii("completed"@).len() != ascii("Stopped"@).len());
        },
        Event::Empty => {},
    }
}

/// An announce changes the swarm and the download count of its own torrent
/// only.
pub proof fn law_announce_touches_one_torrent(
    swarms: Map<Seq<u8>, SwarmView>,
    torrents: Map<Seq<u8>, usize>,
    announce: AnnounceRequest,
    client_ip: IpAddressView,
    other: Seq<u8>,
)
    requires
        other != announce.info_hash@,
    ensures
        swarms_after_announce(swarms, announce, client_ip).contains_key(other) == swarms.contains_key(
            other,
        ),
        swarms.contains_key(other) ==> swarms_after_announce(swarms, announce, client_ip)[other]
            == swarms[other],
        torrents_after_announce(torrents, announce).contains_key(other) == torrents.contains_key(
            other,
        ),
        torrents.contains_key(other) ==> torrents_after_announce(torrents, announce)[other]
            == torrents[other],
{
}

/// An announce without an event reports the same seeder and leecher
/// counts as a scrape of its torrent.
pub proof fn law_scrape_agrees_with_announce(
    swarms: Map<Seq<u8>, SwarmView>,
    torrents: Map<Seq<u8>, usize>,
    announce: AnnounceRequest,
    client_ip: IpAddressView,
    r: AnnounceResponseView,
    files: Seq<ScrapeView>,
)
    requires
        announce.event is None || announce.event matches Some(Event::Empty),
        announce_answer(swarms_after_announce(swarms, announce, client_ip), announce, r),
        scrape_answer(swarms, torrents, Some(seq![announce.info_hash@]), files),
    ensures
        r matches AnnounceResponseView::Success { complete, incomplete, .. } && files[0].data.complete
            == complete && files[0].data.incomplete == incomplete,
{
    assert(swarms_after_announce(swarms, announce, client_ip) == swarms);
    assert(files[0].info_hash == announce.info_hash@);
}

/// A torrent just added to those served reports no completed download.
pub proof fn law_added_torrent_reports_no_download(
    swarms: Map<Seq<u8>, SwarmView>,
    torrents: Map<Seq<u8>, usize>,
    info_hash: Seq<u8>,
    data: ScrapeData,
)
    requires
        reports(swarms, torrents.insert(info_hash, 0), info_hash, data),
    ensures
        data.downloaded == 0,
{
}

/// `part` stands whole somewhere in `whole`.
pub open spec fn occurs_in(part: Seq<u8>, whole: Seq<u8>) -> bool {
    exists|off: int|
        0 <= off && off + part.len() <= whole.len() && #[trigger] whole.subrange(off, off + part.len())
            == part
}

/// The encodings of two lists of items, one after the other, are the
/// encoding of the joined list.
proof fn lemma_concat_append(a: Seq<Seq<u8>>, b: Seq<Seq<u8>>)
    ensures
        concat(a + b) == concat(a) + concat(b),
    decreases b.len(),
{
    if b.len() == 0 {
        assert(a + b =~= a);
        assert(concat(a) + concat(b) =~= concat(a));
    } else {
        lemma_concat_append(a, b.drop_last());
        assert((a + b).drop_last() =~= a + b.drop_last());
        assert((a + b).last() == b.last());
        assert(concat(a) + concat(b) =~= concat(a) + concat(b.drop_last()) + b.last());
    }
}

/// Item `i` stands whole in the encoding of a list of items, after the
/// items before it.
proof fn lemma_concat_item(items: Seq<Seq<u8>>, i: int)
    requires
        0 <= i < items.len(),
    ensures
        concat(items) == concat(items.take(i)) + items[i] + concat(items.skip(i + 1)),
        concat(items).subrange(
            concat(items.take(i)).len() as int,
            (concat(items.take(i)).len() + items[i].len()) as int,
        ) == items[i],
{
    assert(items =~= items.take(i) + (seq![items[i]] + items.skip(i + 1)));
    lemma_concat_append(items.take(i), seq![items[i]] + items.skip(i + 1));
    lemma_concat_append(seq![items[i]], items.skip(i + 1));
    assert(seq![items[i]] =~= Seq::<Seq<u8>>::empty().push(items[i]));
    lemma_concat_push(Seq::<Seq<u8>>::empty(), items[i]);
    assert(concat(seq![items[i]]) =~= items[i]);
    let whole = concat(items);
    assert(whole =~= concat(items.take(i)) + items[i] + concat(items.skip(i + 1)));
    assert(whole.subrange(
        concat(items.take(i)).len() as int,
        (concat(items.take(i)).len() + items[i].len()) as int,
    ) =~= items[i]);
}

/// A bencoded list of peers is `l`, the encoding of each peer in the order
/// of the list, and `e`; so the encoding of every peer of the list stands
/// whole in it.
pub proof fn law_peer_list_items(peers: Seq<PeerView>)
    ensures
        peer_list_bencode(peers) == seq![108u8] + concat(
            Seq::new(peers.len(), |i: int| peer_bencode(peers[i])),
        ) + seq![101u8],
        forall|i: int|
            0 <= i < peers.len() ==> occurs_in(peer_bencode(#[trigger] peers[i]), peer_list_bencode(peers)),
{
    let items = Seq::new(peers.len(), |i: int| peer_bencode(peers[i]));
    assert(peers.map_values(|p: PeerView| peer_bencode(p)) =~= items);
    let body = peer_list_bencode(peers);
    assert forall|i: int| 0 <= i < peers.len() implies occurs_in(peer_bencode(#[trigger] peers[i]), peer_list_bencode(peers)) by {
        lemma_concat_item(items, i);
        let off: int = 1 + concat(items.take(i)).len() as int;
        assert(body =~= seq![108u8] + (concat(items.take(i)) + items[i] + concat(items.skip(i + 1)))
            + seq![101u8]);
        assert(body.subrange(off, off + items[i].len() as int) =~= items[i]);
        assert(items[i] == peer_bencode(peers[i]));
        assert(peer_list_bencode(peers).subrange(off, off + peer_bencode(peers[i]).len())
            == peer_bencode(peers[i]));
    }
}

/// A bencoded scrape response is a dictionary whose one key `files` holds a
/// list with, in order, one dictionary per scrape mapping its info hash to
/// its data; so the entry of every scrape stands whole in it.
pub proof fn law_scrape_response_items(files: Seq<ScrapeView>)
    ensures
        scrape_response_bencode(files) == seq![100u8] + bencode_bytes(ascii("files"@)) + seq![108u8]
            + concat(
            Seq::new(
                files.len(),
                |i: int| bencode_dict(seq![(files[i].info_hash, scrape_data_bencode(files[i].data))]),
            ),
        ) + seq![101u8, 101u8],
        forall|i: int|
            0 <= i < files.len() ==> occurs_in(
                bencode_dict(seq![((#[trigger] files[i]).info_hash, scrape_data_bencode(files[i].data))]),
                scrape_response_bencode(files),
            ),
{
    let items = Seq::new(
        files.len(),
        |i: int| bencode_dict(seq![(files[i].info_hash, scrape_data_bencode(files[i].data))]),
    );
    assert(files.map_values(|s: ScrapeView| crate::response::scrape_bencode(s)) =~= items);
    let list = bencode_list(items);
    lemma_dict_body_empty();
    lemma_dict_body_push(Seq::empty(), ascii("files"@), list);
    assert(seq![(ascii("files"@), list)] =~= Seq::<(Seq<u8>, Seq<u8>)>::empty().push(
        (ascii("files"@), list),
    ));
    let body = scrape_response_bencode(files);
    let head = seq![100u8] + bencode_bytes(ascii("files"@));
    assert(body =~= head + seq![108u8] + concat(items) + seq![101u8, 101u8]);
    assert forall|i: int| 0 <= i < files.len() implies occurs_in(
        bencode_dict(seq![((#[trigger] files[i]).info_hash, scrape_data_bencode(files[i].data))]),
        scrape_response_bencode(files),
    ) by {
        lemma_concat_item(items, i);
        let off: int = head.len() + 1 + concat(items.take(i)).len() as int;
        assert(body =~= head + seq![108u8] + (concat(items.take(i)) + items[i] + concat(
            items.skip(i + 1),
        )) + seq![101u8, 101u8]);
        assert(body.subrange(off, off + items[i].len() as int) =~= items[i]);
        let item = bencode_dict(seq![(files[i].info_hash, scrape_data_bencode(files[i].data))]);
        assert(items[i] == item);
        assert(scrape_response_bencode(files).subrange(off, off + item.len()) == item);
    }
}

/// A peer that gives an address in its announce is recorded at that
/// address, and one that gives none at the address it connected from; after
/// a start the swarm holds it with that address, id and port.
pub proof fn law_announced_address_is_used(
    swarms: Map<Seq<u8>, SwarmView>,
    announce: AnnounceRequest,
    client_ip: IpAddressView,
)
    ensures
        announce.ip matches Some(a) ==> announcing_peer(announce, client_ip).ip == a@,
        announce.ip is None ==> announcing_peer(announce, client_ip).ip == client_ip,
        announce.event matches Some(Event::Started) ==> ({
            let after = swarms_after_announce(swarms, announce, client_ip);
            let h = announce.info_hash@;
            let ip = match announce.ip {
                Some(a) => a@,
                None => client_ip,
            };
            let p = PeerView { id: announce.peer_id@, ip: ip, port: announce.port };
            &&& after.contains_key(h)
            &&& announce.left == 0 ==> after[h].seeders.contains(p)
            &&& announce.left != 0 ==> after[h].leechers.contains(p)
        }),
{
    if announce.event matches Some(Event::Started) {
        law_started_peer_joins(swarms, announce, client_ip);
    }
}

/// When a swarm has more peers than the client wants, each family's answer
/// holds as many peers as it wants, or all the seeders and leechers of that
/// family when they are fewer.
pub proof fn law_offered_count(swarm: SwarmView, numwant: nat, v4: bool, out: Seq<PeerView>)
    requires
        peers_offered(swarm, numwant, v4, out),
        swarm.seeders.len() + swarm.leechers.len() > numwant,
    ensures
        ({
            let available = peers_of_family(swarm.seeders, v4).len() + peers_of_family(
                swarm.leechers,
                v4,
            ).len();
            out.len() == if available < numwant {
                available
            } else {
                numwant
            }
        }),
{
}

/// An announce never changes which torrents are served, and a torrent that
/// is not served still reports no completed download after it.
pub proof fn law_announce_keeps_served_torrents(
    torrents: Map<Seq<u8>, usize>,
    announce: AnnounceRequest,
    info_hash: Seq<u8>,
)
    ensures
        torrents_after_announce(torrents, announce).dom() == torrents.dom(),
        !torrents.contains_key(info_hash) ==> downloads_of(
            torrents_after_announce(torrents, announce),
            info_hash,
        ) == 0,
{
    let after = torrents_after_announce(torrents, announce);
    if announce.event matches Some(Event::Completed) && torrents.contains_key(announce.info_hash@) {
        assert(after.dom() =~= torrents.dom());
    }
}

} // verus!
