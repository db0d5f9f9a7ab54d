use vstd::prelude::*;

use crate::bytes::{ascii, bytes_equal, copy_bytes, literal};
use crate::event::{parse_event, Event, EventParseError};
use crate::number::{decimal_usize, parse_usize, IntErrorKind};
use crate::peer::{IpAddress, IpAddressView, Peer, PeerView};
use crate::response::{
    announce_bencode, scrape_response_bencode, AnnounceResponse, AnnounceResponseView, Scrape,
    ScrapeData, ScrapeResponse, ScrapeView,
};
use crate::swarm::{seq_insert, seq_remove, SwarmView};
use crate::swarm_store::{peers_offered, swarm_counts, swarm_with_peer};
use crate::torrent_store::downloads_of;
use crate::AppState;

verus! {

/// The value of a hexadecimal digit.
pub open spec fn hex_value(b: u8) -> Option<u8> {
    if 48 <= b <= 57 {
        Some((b - 48) as u8)
    } else if 65 <= b <= 70 {
        Some((b - 55) as u8)
    } else if 97 <= b <= 102 {
        Some((b - 87) as u8)
    } else {
        None
    }
}

/// Percent-decoding: each `%` followed by two hexadecimal digits stands for
/// the byte they spell; every other byte, `+` and a `%` not followed by two
/// hexadecimal digits among them, stands for itself.
pub open spec fn percent_decoded(s: Seq<u8>) -> Seq<u8>
    decreases s.len(),
{
    if s.len() == 0 {
        Seq::empty()
    } else if s[0] == 37 && s.len() >= 3 && hex_value(s[1]) is Some && hex_value(s[2]) is Some {
        seq![(hex_value(s[1])->0 * 16 + hex_value(s[2])->0) as u8] + percent_decoded(s.skip(3))
    } else {
        seq![s[0]] + percent_decoded(s.skip(1))
    }
}

/// Calls `urlencoding::decode_binary` and takes the result as an owned vector.
/// The source decodes each `%` followed by two hexadecimal digits (either
/// case) to the byte they spell and copies every other byte unchanged,
/// which is what `percent_decoded` states.
#[verifier::external_body]
fn url_decode(data: &[u8]) -> (decoded: Vec<u8>)
    ensures
        decoded@ == percent_decoded(data@),
{
    urlencoding::decode_binary(data).into_owned()
}

/// An info hash or peer id that does not decode to 20 bytes.
#[derive(Debug, PartialEq, Eq)]
pub struct UrlEncodeError;

impl UrlEncodeError {
    /// The message that reports the error.
    pub fn message(&self) -> (m: &'static str)
        ensures
            m@ == "URL-encoded parameters should be 20 bytes in length"@,
    {
        "URL-encoded parameters should be 20 bytes in length"
    }
}

/// Reads a percent-encoded info hash or peer id, which must decode to 20 bytes.
pub fn deserialize_url_encode(raw: &[u8]) -> (r: Result<Vec<u8>, UrlEncodeError>)
    ensures
        percent_decoded(raw@).len() == 20 ==> r is Ok && r->Ok_0@ == percent_decoded(raw@),
        percent_decoded(raw@).len() != 20 ==> r is Err,
{
    let decoded = url_decode(raw);
    if decoded.len() == 20 {
        Ok(decoded)
    } else {
        Err(UrlEncodeError)
    }
}

/// A flag that is none of `1`, `0`, `true`, `false`, `TRUE`, `FALSE`; it holds the text.
#[derive(Debug, PartialEq, Eq)]
pub struct BoolParseError(pub Vec<u8>);

/// The truth value a flag stands for.
pub open spec fn flag_value(text: Seq<u8>) -> Option<bool> {
    if text == ascii("1"@) || text == ascii("true"@) || text == ascii("TRUE"@) {
        Some(true)
    } else if text == ascii("0"@) || text == ascii("false"@) || text == ascii("FALSE"@) {
        Some(false)
    } else {
        None
    }
}

/// Reads a flag.
pub fn deserialize_bool(text: &[u8]) -> (r: Result<bool, BoolParseError>)
    ensures
        match flag_value(text@) {
            Some(b) => r == Ok::<bool, BoolParseError>(b),
            None => r is Err && r->Err_0.0@ == text@,
        },
{
    proof {
        reveal_strlit("1");
        reveal_strlit("true");
        reveal_strlit("TRUE");
        reveal_strlit("0");
        reveal_strlit("false");
        reveal_strlit("FALSE");
    }
    if bytes_equal(text, literal("1")) || bytes_equal(text, literal("true")) || bytes_equal(
        text,
        literal("TRUE"),
    ) {
        Ok(true)
    } else if bytes_equal(text, literal("0")) || bytes_equal(text, literal("false"))
        || bytes_equal(text, literal("FALSE")) {
        Ok(false)
    } else {
        Err(BoolParseError(copy_bytes(text)))
    }
}

/// The text of an optional field: a field that is absent or empty is no value.
pub open spec fn field_text(raw: Option<Seq<u8>>) -> Option<Seq<u8>> {
    match raw {
        Some(t) => if t.len() == 0 {
            None
        } else {
            Some(t)
        },
        None => None,
    }
}

pub open spec fn optional_slice_view(raw: Option<&[u8]>) -> Option<Seq<u8>> {
    match raw {
        Some(t) => Some(t@),
        None => None,
    }
}

/// The text of an optional field, if it has a value: none when the field is
/// absent or empty.
pub fn deserialize_optional_fields(raw: Option<&[u8]>) -> (r: Option<&[u8]>)
    ensures
        optional_slice_view(r) == field_text(optional_slice_view(raw)),
{
    match raw {
        Some(t) => if t.len() == 0 {
            None
        } else {
            Some(t)
        },
        None => None,
    }
}

/// Reads the optional `event` field.
pub fn deserialize_optional_event(raw: Option<&[u8]>) -> (r: Result<Option<Event>, EventParseError>)
    ensures
        match field_text(optional_slice_view(raw)) {
            None => r == Ok::<Option<Event>, EventParseError>(None),
            Some(t) => match crate::event::event_named(t) {
                Some(e) => r == Ok::<Option<Event>, EventParseError>(Some(e)),
                None => r is Err && r->Err_0.0@ == t,
            },
        },
{
    match deserialize_optional_fields(raw) {
        None => Ok(None),
        Some(t) => match parse_event(t) {
            Ok(e) => Ok(Some(e)),
            Err(e) => Err(e),
        },
    }
}

/// Reads the optional `numwant` field.
pub fn deserialize_optional_numwant(raw: Option<&[u8]>) -> (r: Result<Option<usize>, IntErrorKind>)
    ensures
        match field_text(optional_slice_view(raw)) {
            None => r == Ok::<Option<usize>, IntErrorKind>(None),
            Some(t) => match decimal_usize(t) {
                Ok(n) => r == Ok::<Option<usize>, IntErrorKind>(Some(n)),
                Err(k) => r == Err::<Option<usize>, IntErrorKind>(k),
            },
        },
{
    match deserialize_optional_fields(raw) {
        None => Ok(None),
        Some(t) => match parse_usize(t) {
            Ok(n) => Ok(Some(n)),
            Err(k) => Err(k),
        },
    }
}

/// An announce: a peer tells the tracker how it fares with a torrent and
/// asks for other peers of it.
#[derive(Debug)]
pub struct AnnounceRequest {
    pub info_hash: Vec<u8>,
    pub peer_id: Vec<u8>,
    pub port: u16,
    pub uploaded: u64,
    pub downloaded: u64,
    /// Bytes the peer still lacks; zero once its download is complete.
    pub left: u64,
    pub compact: bool,
    pub no_peer_id: bool,
    pub event: Option<Event>,
    /// The address the peer asks to be reached at, if not the one it connected from.
    pub ip: Option<IpAddress>,
    /// The number of peers it wants.
    pub numwant: Option<usize>,
    pub key: Option<String>,
    pub trackerid: Option<String>,
}

/// The number of peers an announce asks for: 30 unless it says.
pub open spec fn wanted_peers(announce: AnnounceRequest) -> nat {
    match announce.numwant {
        Some(n) => n as nat,
        None => 30,
    }
}

/// The peer an announce speaks for: its id, the address it gives or else
/// the one it connected from, and its port.
pub open spec fn announcing_peer(announce: AnnounceRequest, client_ip: IpAddressView) -> PeerView {
    PeerView {
        id: announce.peer_id@,
        ip: match announce.ip {
            Some(ip) => ip@,
            None => client_ip,
        },
        port: announce.port,
    }
}

/// The swarms after an announce. A peer that starts joins the swarm, as a
/// seeder when it lacks nothing and as a leecher otherwise; a peer that
/// stops leaves it; a peer that completes becomes a seeder; an announce
/// without an event, or with the empty one, changes nothing.
pub open spec fn swarms_after_announce(
    swarms: Map<Seq<u8>, SwarmView>,
    announce: AnnounceRequest,
    client_ip: IpAddressView,
) -> Map<Seq<u8>, SwarmView> {
    let h = announce.info_hash@;
    let peer = announcing_peer(announce, client_ip);
    match announce.event {
        Some(Event::Started) => swarms.insert(h, swarm_with_peer(swarms, h, peer, announce.left == 0)),
        Some(Event::Stopped) => if swarms.contains_key(h) {
            swarms.insert(
                h,
                SwarmView {
                    seeders: seq_remove(swarms[h].seeders, peer),
                    leechers: seq_remove(swarms[h].leechers, peer),
                },
            )
        } else {
            swarms
        },
        Some(Event::Completed) => if swarms.contains_key(h) {
            swarms.insert(
                h,
                SwarmView {
                    seeders: seq_insert(swarms[h].seeders, peer),
                    leechers: seq_remove(swarms[h].leechers, peer),
                },
            )
        } else {
            swarms
        },
        _ => swarms,
    }
}

/// The download counts after an announce: a completed download of a served
/// torrent is counted.
pub open spec fn torrents_after_announce(torrents: Map<Seq<u8>, usize>, announce: AnnounceRequest) -> Map<
    Seq<u8>,
    usize,
> {
    let h = announce.info_hash@;
    if announce.event matches Some(Event::Completed) && torrents.contains_key(h) {
        torrents.insert(h, (torrents[h] + 1) as usize)
    } else {
        torrents
    }
}

/// `r` answers an announce for a torrent whose swarms are now `swarms`: a
/// success with the half-hour interval, the torrent's counts, the peers
/// offered of each family, and the tracker id `test`.
pub open spec fn announce_answer(
    swarms: Map<Seq<u8>, SwarmView>,
    announce: AnnounceRequest,
    r: AnnounceResponseView,
) -> bool {
    let h = announce.info_hash@;
    match r {
        AnnounceResponseView::Success {
            interval,
            complete,
            incomplete,
            peers,
            peers6,
            tracker_id,
            warning_message,
            min_interval,
        } => {
            &&& interval == 1800
            &&& (complete as nat, incomplete as nat) == swarm_counts(swarms, h)
            &&& tracker_id == ascii("test"@)
            &&& warning_message is None
            &&& min_interval is None
            &&& if swarms.contains_key(h) {
                &&& peers_offered(swarms[h], wanted_peers(announce), true, peers)
                &&& peers_offered(swarms[h], wanted_peers(announce), false, peers6)
            } else {
                peers.len() == 0 && peers6.len() == 0
            }
        },
        AnnounceResponseView::Failure { .. } => false,
    }
}

/// An announce whose completed download would overflow the download count
/// of its torrent cannot be served.
pub open spec fn announce_allowed(state: AppState, announce: AnnounceRequest) -> bool {
    let h = announce.info_hash@;
    announce.event matches Some(Event::Completed) && state.torrent_store@.contains_key(h)
        ==> state.torrent_store@[h] < usize::MAX
}

/// Handles an announce from a peer that connected from `client_ip`:
/// updates the swarm and the download count, then answers.
pub fn answer_announce(state: &mut AppState, announce: AnnounceRequest, client_ip: IpAddress) -> (r:
    AnnounceResponse)
    requires
        old(state).wf(),
        announce_allowed(*old(state), announce),
    ensures
        final(state).wf(),
        final(state).swarm_store@ == swarms_after_announce(
            old(state).swarm_store@,
            announce,
            client_ip@,
        ),
        final(state).torrent_store@ == torrents_after_announce(old(state).torrent_store@, announce),
        announce_answer(final(state).swarm_store@, announce, r@),
{
    let ghost request = announce;
    let AnnounceRequest { info_hash, peer_id, port, left, event, ip, numwant, .. } = announce;
    if let Some(event) = event {
        let ip = match ip {
            Some(ip) => ip,
            None => client_ip,
        };
        let peer = Peer { id: peer_id, ip, port };
        assert(peer@ == announcing_peer(request, client_ip@));
        let is_download_complete = left == 0;
        match event {
            Event::Started => {
                state.swarm_store.add_peer(info_hash.clone(), peer, is_download_complete);
            },
            Event::Stopped => {
                state.swarm_store.remove_peer(info_hash.clone(), peer);
            },
            Event::Completed => {
                state.swarm_store.promote_peer(info_hash.clone(), peer);
                state.torrent_store.increment_downloaded(info_hash.clone());
            },
            Event::Empty => {},
        }
    }
    let numwant = match numwant {
        Some(n) => n,
        None => 30,
    };
    let (peers, peers6) = state.swarm_store.get_peers(info_hash.clone(), numwant);
    let (complete, incomplete) = state.swarm_store.get_announce_stats(info_hash);
    proof {
        reveal_strlit("test");
    }
    AnnounceResponse::Success {
        interval: 1800,
        complete,
        incomplete,
        peers,
        peers6,
        tracker_id: copy_bytes(literal("test")),
        warning_message: None,
        min_interval: None,
    }
}

/// Handles an announce and gives the bencoded answer.
pub fn handle_announce(state: &mut AppState, announce: AnnounceRequest, client_ip: IpAddress) -> (body:
    Vec<u8>)
    requires
        old(state).wf(),
        announce_allowed(*old(state), announce),
    ensures
        final(state).wf(),
        final(state).swarm_store@ == swarms_after_announce(
            old(state).swarm_store@,
            announce,
            client_ip@,
        ),
        final(state).torrent_store@ == torrents_after_announce(old(state).torrent_store@, announce),
        exists|r: AnnounceResponseView|
            announce_answer(final(state).swarm_store@, announce, r) && body@ == #[trigger] announce_bencode(r),
{
    let response = answer_announce(state, announce, client_ip);
    response.encode()
}

/// A byte in lower case, when it is an ASCII letter.
pub open spec fn ascii_lower(b: u8) -> u8 {
    if 65 <= b <= 90 {
        (b + 32) as u8
    } else {
        b
    }
}

/// `key` names the `info_hash` field, in any case.
pub open spec fn is_info_hash_key(key: Seq<u8>) -> bool {
    key.map_values(|b: u8| ascii_lower(b)) == ascii("info_hash"@)
}

/// The models of the fields of a query.
pub open spec fn query_view(query: Seq<(Vec<u8>, Vec<u8>)>) -> Seq<(Seq<u8>, Seq<u8>)> {
    query.map_values(|p: (Vec<u8>, Vec<u8>)| (p.0@, p.1@))
}

/// The info hashes a scrape query names: the value of each `info_hash`
/// field, percent-decoded, when it decodes to 20 bytes, in query order.
pub open spec fn named_info_hashes(query: Seq<(Seq<u8>, Seq<u8>)>) -> Seq<Seq<u8>>
    decreases query.len(),
{
    if query.len() == 0 {
        Seq::empty()
    } else {
        let init = named_info_hashes(query.drop_last());
        let (key, value) = query.last();
        if is_info_hash_key(key) && percent_decoded(value).len() == 20 {
            init.push(percent_decoded(value))
        } else {
            init
        }
    }
}

/// What a scrape query asks about: the info hashes it names, when it has at
/// least one `info_hash` field; otherwise every torrent.
pub open spec fn scrape_request(query: Seq<(Seq<u8>, Seq<u8>)>) -> Option<Seq<Seq<u8>>> {
    if exists|i: int| 0 <= i < query.len() && is_info_hash_key(#[trigger] query[i].0) {
        Some(named_info_hashes(query))
    } else {
        None
    }
}

/// Whether a field name is `info_hash` in any case. Only ASCII letters are
/// folded: no other character lowers to an ASCII letter of `info_hash`
/// alone, so a name lowers to `info_hash` exactly when this holds.
pub fn is_info_hash_field(key: &[u8]) -> (r: bool)
    ensures
        r == is_info_hash_key(key@),
{
    proof {
        reveal_strlit("info_hash");
    }
    let name = literal("info_hash");
    let ghost lowered = key@.map_values(|b: u8| ascii_lower(b));
    if key.len() != name.len() {
        assert(lowered.len() != name@.len());
        return false;
    }
    let mut i: usize = 0;
    while i < key.len()
        invariant
            key@.len() == name@.len(),
            name@ == ascii("info_hash"@),
            lowered == key@.map_values(|b: u8| ascii_lower(b)),
            0 <= i <= key@.len(),
            forall|j: int| 0 <= j < i ==> lowered[j] == name@[j],
        decreases key@.len() - i,
    {
        let b = key[i];
        let l = if 65 <= b && b <= 90 { b + 32 } else { b };
        if l != name[i] {
            assert(lowered[i as int] != name@[i as int]);
            return false;
        }
        i = i + 1;
    }
    assert(lowered =~= name@);
    true
}

/// The info hashes a scrape asks about, read from the fields of its query;
/// none when it asks about every torrent.
pub fn scrape_info_hashes(query: &Vec<(Vec<u8>, Vec<u8>)>) -> (r: Option<Vec<Vec<u8>>>)
    ensures
        match scrape_request(query_view(query@)) {
            None => r is None,
            Some(hs) => r is Some && r->0@.map_values(|h: Vec<u8>| h@) == hs,
        },
{
    let ghost q = query_view(query@);
    let mut hashes: Vec<Vec<u8>> = Vec::new();
    let mut named = false;
    let mut i: usize = 0;
    assert(q.take(0) =~= Seq::<(Seq<u8>, Seq<u8>)>::empty());
    while i < query.len()
        invariant
            q == query_view(query@),
            0 <= i <= query@.len(),
            hashes@.map_values(|h: Vec<u8>| h@) == named_info_hashes(q.take(i as int)),
            named == exists|j: int| 0 <= j < i && is_info_hash_key(#[trigger] q[j].0),
        decreases query@.len() - i,
    {
        let ghost before = hashes@;
        assert(q.take(i + 1).drop_last() =~= q.take(i as int));
        assert(q.take(i + 1).last() == q[i as int]);
        let (key, value) = &query[i];
        assert(q[i as int] == (key@, value@));
        if is_info_hash_field(key.as_slice()) {
            named = true;
            let decoded = url_decode(value.as_slice());
            if decoded.len() == 20 {
                hashes.push(decoded);
                assert(hashes@.map_values(|h: Vec<u8>| h@) =~= before.map_values(|h: Vec<u8>| h@).push(
                    percent_decoded(q[i as int].1),
                ));
            }
        }
        proof {
            assert(q[i as int].0 == key@);
            if is_info_hash_key(q[i as int].0) {
                assert(exists|j: int| 0 <= j < i + 1 && is_info_hash_key(#[trigger] q[j].0));
            } else {
                assert forall|j: int| 0 <= j < i + 1 && is_info_hash_key(#[trigger] q[j].0) implies 0 <= j
                    < i by {}
            }
        }
        i = i + 1;
    }
    assert(q.take(query@.len() as int) =~= q);
    if named {
        Some(hashes)
    } else {
        None
    }
}

/// `data` is what a scrape reports of the torrent `info_hash`: its numbers
/// of seeders and of leechers, and of completed downloads.
pub open spec fn reports(
    swarms: Map<Seq<u8>, SwarmView>,
    torrents: Map<Seq<u8>, usize>,
    info_hash: Seq<u8>,
    data: ScrapeData,
) -> bool {
    &&& (data.complete as nat, data.incomplete as nat) == swarm_counts(swarms, info_hash)
    &&& data.downloaded as nat == downloads_of(torrents, info_hash)
}

/// `files` answers a scrape for `request`: one entry per info hash asked
/// about, in order; or, when it asks about every torrent, one entry per
/// torrent served, in some order.
pub open spec fn scrape_answer(
    swarms: Map<Seq<u8>, SwarmView>,
    torrents: Map<Seq<u8>, usize>,
    request: Option<Seq<Seq<u8>>>,
    files: Seq<ScrapeView>,
) -> bool {
    match request {
        Some(hashes) => {
            &&& files.len() == hashes.len()
            &&& forall|i: int|
                0 <= i < files.len() ==> (#[trigger] files[i]).info_hash == hashes[i] && reports(
                    swarms,
                    torrents,
                    files[i].info_hash,
                    files[i].data,
                )
        },
        None => {
            &&& forall|i: int, j: int|
                0 <= i < files.len() && 0 <= j < files.len() && i != j ==> (#[trigger] files[i]).info_hash
                    != (#[trigger] files[j]).info_hash
            &&& forall|i: int|
                0 <= i < files.len() ==> torrents.contains_key((#[trigger] files[i]).info_hash)
                    && reports(swarms, torrents, files[i].info_hash, files[i].data)
            &&& forall|k: Seq<u8>|
                #[trigger] torrents.contains_key(k) ==> exists|i: int|
                    0 <= i < files.len() && (#[trigger] files[i]).info_hash == k
        },
    }
}

pub open spec fn optional_hashes_view(o: Option<Vec<Vec<u8>>>) -> Option<Seq<Seq<u8>>> {
    match o {
        Some(hs) => Some(hs@.map_values(|h: Vec<u8>| h@)),
        None => None,
    }
}

/// The seeder and leecher counts of `info_hash` in a table of all swarms' counts.
fn lookup_counts(stats: &Vec<(Vec<u8>, (usize, usize))>, info_hash: &[u8], Ghost(swarms): Ghost<
    Map<Seq<u8>, SwarmView>,
>) -> (r: (usize, usize))
    requires
        forall|i: int|
            0 <= i < stats@.len() ==> swarms.contains_key((#[trigger] stats@[i]).0@) && (
            stats@[i].1.0 as nat,
            stats@[i].1.1 as nat,
        ) == swarm_counts(swarms, stats@[i].0@),
        forall|k: Seq<u8>|
            #[trigger] swarms.contains_key(k) ==> exists|i: int| 0 <= i < stats@.len() && (#[trigger] stats@[i]).0@ == k,
    ensures
        (r.0 as nat, r.1 as nat) == swarm_counts(swarms, info_hash@),
{
    let mut i: usize = 0;
    while i < stats.len()
        invariant
            forall|i: int|
                0 <= i < stats@.len() ==> swarms.contains_key((#[trigger] stats@[i]).0@) && (
                stats@[i].1.0 as nat,
                stats@[i].1.1 as nat,
            ) == swarm_counts(swarms, stats@[i].0@),
            forall|k: Seq<u8>|
                #[trigger] swarms.contains_key(k) ==> exists|i: int| 0 <= i < stats@.len() && (#[trigger] stats@[i]).0@ == k,
            0 <= i <= stats@.len(),
            forall|j: int| 0 <= j < i ==> (#[trigger] stats@[j]).0@ != info_hash@,
        decreases stats@.len() - i,
    {
        if bytes_equal(stats[i].0.as_slice(), info_hash) {
            return stats[i].1;
        }
        i = i + 1;
    }
    (0, 0)
}

/// Answers a scrape about the torrents `info_hashes`, or about every torrent
/// served when there are none.
pub fn answer_scrape(state: &AppState, info_hashes: Option<Vec<Vec<u8>>>) -> (r: ScrapeResponse)
    requires
        state.wf(),
    ensures
        scrape_answer(
            state.swarm_store@,
            state.torrent_store@,
            optional_hashes_view(info_hashes),
            r@,
        ),
{
    let ghost swarms = state.swarm_store@;
    let ghost torrents = state.torrent_store@;
    let ghost request = optional_hashes_view(info_hashes);
    let mut files: Vec<Scrape> = Vec::new();
    match info_hashes {
        Some(info_hashes) => {
            let ghost hs = info_hashes@.map_values(|h: Vec<u8>| h@);
            let (seeder_stats, leecher_stats) = state.swarm_store.get_stats_for_scrapes(
                info_hashes.clone(),
            );
            let downloaded_stats = state.torrent_store.get_stats_for_scrapes(info_hashes.clone());
            let mut idx: usize = 0;
            while idx < downloaded_stats.len()
                invariant
                    hs == info_hashes@.map_values(|h: Vec<u8>| h@),
                    downloaded_stats@.len() == info_hashes@.len(),
                    seeder_stats@.len() == info_hashes@.len(),
                    leecher_stats@.len() == info_hashes@.len(),
                    forall|i: int|
                        0 <= i < info_hashes@.len() ==> (#[trigger] seeder_stats@[i] as nat, leecher_stats@[i] as nat)
                            == swarm_counts(swarms, info_hashes@[i]@),
                    forall|i: int|
                        0 <= i < info_hashes@.len() ==> #[trigger] downloaded_stats@[i] as nat == downloads_of(
                            torrents,
                            info_hashes@[i]@,
                        ),
                    0 <= idx <= downloaded_stats@.len(),
                    files@.len() == idx,
                    forall|i: int|
                        0 <= i < idx ==> (#[trigger] files@[i])@.info_hash == hs[i] && reports(
                            swarms,
                            torrents,
                            files@[i]@.info_hash,
                            files@[i]@.data,
                        ),
                decreases downloaded_stats@.len() - idx,
            {
                let data = ScrapeData {
                    complete: seeder_stats[idx],
                    incomplete: leecher_stats[idx],
                    downloaded: downloaded_stats[idx],
                };
                files.push(Scrape { info_hash: info_hashes[idx].clone(), data });
                idx = idx + 1;
            }
            assert(request == Some(hs));
            assert(forall|i: int| 0 <= i < files@.len() ==> #[trigger] crate::response::scrape_views(files@)[i] == files@[i]@);
            assert(scrape_answer(swarms, torrents, request, crate::response::scrape_views(files@)));
        },
        None => {
            let seeder_leecher_map = state.swarm_store.get_global_scrape_stats();
            let downloaded_map = state.torrent_store.get_global_scrape_stats();
            let mut idx: usize = 0;
            while idx < downloaded_map.len()
                invariant
                    forall|i: int|
                        0 <= i < seeder_leecher_map@.len() ==> swarms.contains_key(
                            (#[trigger] seeder_leecher_map@[i]).0@,
                        ) && (seeder_leecher_map@[i].1.0 as nat, seeder_leecher_map@[i].1.1 as nat)
                            == swarm_counts(swarms, seeder_leecher_map@[i].0@),
                    forall|k: Seq<u8>|
                        #[trigger] swarms.contains_key(k) ==> exists|i: int|
                            0 <= i < seeder_leecher_map@.len() && (#[trigger] seeder_leecher_map@[i]).0@ == k,
                    forall|i: int|
                        0 <= i < downloaded_map@.len() ==> torrents.contains_key(
                            (#[trigger] downloaded_map@[i]).0@,
                        ) && downloaded_map@[i].1 == torrents[downloaded_map@[i].0@],
                    forall|i: int, j: int|
                        0 <= i < downloaded_map@.len() && 0 <= j < downloaded_map@.len() && i != j
                            ==> (#[trigger] downloaded_map@[i]).0@ != (#[trigger] downloaded_map@[j]).0@,
                    0 <= idx <= downloaded_map@.len(),
                    files@.len() == idx,
                    forall|i: int|
                        0 <= i < idx ==> (#[trigger] files@[i])@.info_hash == downloaded_map@[i].0@ && reports(
                            swarms,
                            torrents,
                            files@[i]@.info_hash,
                            files@[i]@.data,
                        ),
                decreases downloaded_map@.len() - idx,
            {
                let (info_hash, downloaded) = &downloaded_map[idx];
                let (complete, incomplete) = lookup_counts(
                    &seeder_leecher_map,
                    info_hash.as_slice(),
                    Ghost(swarms),
                );
                let data = ScrapeData { complete, incomplete, downloaded: *downloaded };
                files.push(Scrape { info_hash: info_hash.clone(), data });
                idx = idx + 1;
            }
            proof {
                let fv = crate::response::scrape_views(files@);
                assert(request is None);
                assert forall|i: int| 0 <= i < fv.len() implies #[trigger] fv[i] == files@[i]@ by {}
                assert forall|k: Seq<u8>| #[trigger] torrents.contains_key(k) implies exists|i: int|
                    0 <= i < fv.len() && (#[trigger] fv[i]).info_hash == k by {
                    let i = choose|i: int| 0 <= i < downloaded_map@.len() && (#[trigger] downloaded_map@[i]).0@ == k;
                    assert(fv[i] == files@[i]@);
                    assert(fv[i].info_hash == k);
                }
                assert forall|i: int, j: int|
                    0 <= i < fv.len() && 0 <= j < fv.len() && i != j implies (#[trigger] fv[i]).info_hash
                        != (#[trigger] fv[j]).info_hash by {
                    assert(fv[i] == files@[i]@);
                    assert(fv[j] == files@[j]@);
                    assert(downloaded_map@[i].0@ != downloaded_map@[j].0@);
                }
                assert forall|i: int| 0 <= i < fv.len() implies torrents.contains_key((#[trigger] fv[i]).info_hash)
                    && reports(swarms, torrents, fv[i].info_hash, fv[i].data) by {
                    assert(fv[i] == files@[i]@);
                    assert(torrents.contains_key(downloaded_map@[i].0@));
                }
                assert(scrape_answer(swarms, torrents, request, fv));
            }
        },
    }
    let response = ScrapeResponse { files };
    assert(forall|i: int| 0 <= i < response@.len() ==> #[trigger] response@[i] == response.files@[i]@);
    response
}

/// Handles a scrape whose query has the fields `query`, and gives the
/// bencoded answer.
pub fn handle_scrape(state: &AppState, query: &Vec<(Vec<u8>, Vec<u8>)>) -> (body: Vec<u8>)
    requires
        state.wf(),
    ensures
        exists|files: Seq<ScrapeView>|
            scrape_answer(
                state.swarm_store@,
                state.torrent_store@,
                scrape_request(query_view(query@)),
                files,
            ) && body@ == #[trigger] scrape_response_bencode(files),
{
    let info_hashes = scrape_info_hashes(query);
    let response = answer_scrape(state, info_hashes);
    response.encode()
}

} // verus!
