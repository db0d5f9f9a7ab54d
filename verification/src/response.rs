use vstd::prelude::*;

use crate::bencode::{
    append, bencode_byte_list, bencode_bytes, bencode_dict, bencode_int, bencode_list, concat,
    encode_byte_list, encode_bytes, encode_int, lemma_concat_push, lemma_dict_body_empty,
    lemma_dict_body_push, push_byte, push_entry, add_entry, begin_dict, end_dict,
};
use crate::bytes::{ascii, literal};
use crate::peer::{peer_views, Peer, PeerView};

verus! {

/// The bencoding of a peer: a dictionary of its address as text, its id as
/// a list of byte values, and its port.
pub open spec fn peer_bencode(p: PeerView) -> Seq<u8> {
    bencode_dict(peer_entries(p))
}

pub open spec fn peer_entries(p: PeerView) -> Seq<(Seq<u8>, Seq<u8>)> {
    seq![
        (ascii("ip"@), bencode_bytes(p.ip.text())),
        (ascii("peer_id"@), bencode_byte_list(p.id)),
        (ascii("port"@), bencode_int(p.port as nat)),
    ]
}

/// The bencoding of a list of peers.
pub open spec fn peer_list_bencode(peers: Seq<PeerView>) -> Seq<u8> {
    bencode_list(peers.map_values(|p: PeerView| peer_bencode(p)))
}

impl Peer {
    /// The bencoding of the peer.
    pub fn encode(&self) -> (e: Vec<u8>)
        ensures
            e@ == peer_bencode(self@),
    {
        proof {
            reveal_strlit("ip");
            reveal_strlit("peer_id");
            reveal_strlit("port");
        }
        let mut out: Vec<u8> = Vec::new();
        push_byte(&mut out, 100);
        push_entry(&mut out, literal("ip"), encode_bytes(self.ip.text().as_slice()));
        push_entry(&mut out, literal("peer_id"), encode_byte_list(&self.id));
        push_entry(&mut out, literal("port"), encode_int(self.port as u64));
        push_byte(&mut out, 101);
        proof {
            let e = peer_entries(self@);
            lemma_dict_body_empty();
            lemma_dict_body_push(Seq::empty(), e[0].0, e[0].1);
            lemma_dict_body_push(seq![e[0]], e[1].0, e[1].1);
            lemma_dict_body_push(seq![e[0], e[1]], e[2].0, e[2].1);
            assert(seq![e[0]] =~= Seq::empty().push(e[0]));
            assert(seq![e[0], e[1]] =~= seq![e[0]].push(e[1]));
            assert(e =~= seq![e[0], e[1]].push(e[2]));
            assert(out@ =~= peer_bencode(self@));
        }
        out
    }
}

/// Appends the bencoding of a list of peers.
fn encode_peer_list(peers: &Vec<Peer>) -> (e: Vec<u8>)
    ensures
        e@ == peer_list_bencode(peer_views(peers@)),
{
    let ghost items = peer_views(peers@).map_values(|p: PeerView| peer_bencode(p));
    let mut out: Vec<u8> = Vec::new();
    push_byte(&mut out, 108);
    assert(items.take(0) =~= Seq::<Seq<u8>>::empty());
    let mut i: usize = 0;
    while i < peers.len()
        invariant
            0 <= i <= peers@.len(),
            items == peer_views(peers@).map_values(|p: PeerView| peer_bencode(p)),
            out@ == seq![108u8] + concat(items.take(i as int)),
        decreases peers@.len() - i,
    {
        let ghost before = out@;
        append(&mut out, peers[i].encode());
        proof {
            assert(items.take(i + 1) =~= items.take(i as int).push(items[i as int]));
            lemma_concat_push(items.take(i as int), items[i as int]);
            assert(out@ =~= seq![108u8] + concat(items.take(i + 1)));
        }
        i = i + 1;
    }
    push_byte(&mut out, 101);
    assert(items.take(peers@.len() as int) =~= items);
    assert(out@ =~= peer_list_bencode(peer_views(peers@)));
    out
}

/// What a scrape reports of one torrent.
#[derive(Clone, Copy, Debug, PartialEq, Eq, Structural)]
pub struct ScrapeData {
    /// The number of seeders.
    pub complete: usize,
    /// The number of completed downloads.
    pub downloaded: usize,
    /// The number of leechers.
    pub incomplete: usize,
}

pub open spec fn scrape_data_entries(d: ScrapeData) -> Seq<(Seq<u8>, Seq<u8>)> {
    seq![
        (ascii("complete"@), bencode_int(d.complete as nat)),
        (ascii("downloaded"@), bencode_int(d.downloaded as nat)),
        (ascii("incomplete"@), bencode_int(d.incomplete as nat)),
    ]
}

/// The bencoding of scrape data: a dictionary of its three counts.
pub open spec fn scrape_data_bencode(d: ScrapeData) -> Seq<u8> {
    bencode_dict(scrape_data_entries(d))
}

impl ScrapeData {
    /// The bencoding of the data.
    pub fn encode(&self) -> (e: Vec<u8>)
        ensures
            e@ == scrape_data_bencode(*self),
    {
        proof {
            reveal_strlit("complete");
            reveal_strlit("downloaded");
            reveal_strlit("incomplete");
        }
        let mut out: Vec<u8> = Vec::new();
        push_byte(&mut out, 100);
        push_entry(&mut out, literal("complete"), encode_int(self.complete as u64));
        push_entry(&mut out, literal("downloaded"), encode_int(self.downloaded as u64));
        push_entry(&mut out, literal("incomplete"), encode_int(self.incomplete as u64));
        push_byte(&mut out, 101);
        proof {
            let e = scrape_data_entries(*self);
            lemma_dict_body_empty();
            lemma_dict_body_push(Seq::empty(), e[0].0, e[0].1);
            lemma_dict_body_push(seq![e[0]], e[1].0, e[1].1);
            lemma_dict_body_push(seq![e[0], e[1]], e[2].0, e[2].1);
            assert(seq![e[0]] =~= Seq::empty().push(e[0]));
            assert(seq![e[0], e[1]] =~= seq![e[0]].push(e[1]));
            assert(e =~= seq![e[0], e[1]].push(e[2]));
            assert(out@ =~= scrape_data_bencode(*self));
        }
        out
    }
}

/// What a scrape reports of one torrent, with the torrent's info hash.
#[derive(Debug)]
pub struct Scrape {
    pub info_hash: Vec<u8>,
    pub data: ScrapeData,
}

/// The model of a [`Scrape`].
pub struct ScrapeView {
    pub info_hash: Seq<u8>,
    pub data: ScrapeData,
}

impl View for Scrape {
    type V = ScrapeView;

    open spec fn view(&self) -> ScrapeView {
        ScrapeView { info_hash: self.info_hash@, data: self.data }
    }
}

/// The bencoding of a scrape: a dictionary with the info hash as its only
/// key and the scrape data as its value.
pub open spec fn scrape_bencode(s: ScrapeView) -> Seq<u8> {
    bencode_dict(seq![(s.info_hash, scrape_data_bencode(s.data))])
}

impl Scrape {
    /// The bencoding of the scrape.
    pub fn encode(&self) -> (e: Vec<u8>)
        ensures
            e@ == scrape_bencode(self@),
    {
        let mut out: Vec<u8> = Vec::new();
        push_byte(&mut out, 100);
        push_entry(&mut out, self.info_hash.as_slice(), self.data.encode());
        push_byte(&mut out, 101);
        proof {
            let e = (self.info_hash@, scrape_data_bencode(self.data));
            lemma_dict_body_empty();
            lemma_dict_body_push(Seq::empty(), e.0, e.1);
            assert(seq![e] =~= Seq::empty().push(e));
            assert(out@ =~= scrape_bencode(self@));
        }
        out
    }
}

/// The models of a sequence of scrapes.
pub open spec fn scrape_views(files: Seq<Scrape>) -> Seq<ScrapeView> {
    files.map_values(|s: Scrape| s@)
}

/// The answer to a scrape: what it reports of each torrent asked about.
#[derive(Debug)]
pub struct ScrapeResponse {
    pub files: Vec<Scrape>,
}

impl View for ScrapeResponse {
    type V = Seq<ScrapeView>;

    open spec fn view(&self) -> Seq<ScrapeView> {
        scrape_views(self.files@)
    }
}

/// The bencoding of a scrape response: a dictionary whose only key is
/// `files`, holding the list of the scrapes.
pub open spec fn scrape_response_bencode(files: Seq<ScrapeView>) -> Seq<u8> {
    bencode_dict(
        seq![(ascii("files"@), bencode_list(files.map_values(|s: ScrapeView| scrape_bencode(s))))],
    )
}

impl ScrapeResponse {
    /// The bencoding of the response.
    pub fn encode(&self) -> (e: Vec<u8>)
        ensures
            e@ == scrape_response_bencode(self@),
    {
        proof {
            reveal_strlit("files");
        }
        let ghost items = self@.map_values(|s: ScrapeView| scrape_bencode(s));
        let mut list: Vec<u8> = Vec::new();
        push_byte(&mut list, 108);
        assert(items.take(0) =~= Seq::<Seq<u8>>::empty());
        let mut i: usize = 0;
        while i < self.files.len()
            invariant
                0 <= i <= self.files@.len(),
                items == self@.map_values(|s: ScrapeView| scrape_bencode(s)),
                list@ == seq![108u8] + concat(items.take(i as int)),
            decreases self.files@.len() - i,
        {
            append(&mut list, self.files[i].encode());
            proof {
                assert(items.take(i + 1) =~= items.take(i as int).push(items[i as int]));
                lemma_concat_push(items.take(i as int), items[i as int]);
                assert(list@ =~= seq![108u8] + concat(items.take(i + 1)));
            }
            i = i + 1;
        }
        push_byte(&mut list, 101);
        assert(items.take(self.files@.len() as int) =~= items);
        assert(list@ =~= bencode_list(items));
        let mut out: Vec<u8> = Vec::new();
        push_byte(&mut out, 100);
        push_entry(&mut out, literal("files"), list);
        push_byte(&mut out, 101);
        proof {
            let e = (ascii("files"@), bencode_list(items));
            lemma_dict_body_empty();
            lemma_dict_body_push(Seq::empty(), e.0, e.1);
            assert(seq![e] =~= Seq::empty().push(e));
            assert(out@ =~= scrape_response_bencode(self@));
        }
        out
    }
}

/// The answer to an announce.
#[derive(Debug)]
pub enum AnnounceResponse {
    Failure {
        failure_reason: Vec<u8>,
    },
    Success {
        /// Seconds the client should wait before its next announce.
        interval: u64,
        /// The number of seeders.
        complete: usize,
        /// The number of leechers.
        incomplete: usize,
        /// Peers with an IPv4 address.
        peers: Vec<Peer>,
        /// Peers with an IPv6 address.
        peers6: Vec<Peer>,
        tracker_id: Vec<u8>,
        warning_message: Option<Vec<u8>>,
        min_interval: Option<u64>,
    },
}

/// The model of an [`AnnounceResponse`].
pub enum AnnounceResponseView {
    Failure {
        failure_reason: Seq<u8>,
    },
    Success {
        interval: u64,
        complete: usize,
        incomplete: usize,
        peers: Seq<PeerView>,
        peers6: Seq<PeerView>,
        tracker_id: Seq<u8>,
        warning_message: Option<Seq<u8>>,
        min_interval: Option<u64>,
    },
}

pub open spec fn optional_bytes_view(o: Option<Vec<u8>>) -> Option<Seq<u8>> {
    match o {
        Some(v) => Some(v@),
        None => None,
    }
}

impl View for AnnounceResponse {
    type V = AnnounceResponseView;

    open spec fn view(&self) -> AnnounceResponseView {
        match self {
            AnnounceResponse::Failure { failure_reason } => AnnounceResponseView::Failure {
                failure_reason: failure_reason@,
            },
            AnnounceResponse::Success {
                interval,
                complete,
                incomplete,
                peers,
                peers6,
                tracker_id,
                warning_message,
                min_interval,
            } => AnnounceResponseView::Success {
                interval: *interval,
                complete: *complete,
                incomplete: *incomplete,
                peers: peer_views(peers@),
                peers6: peer_views(peers6@),
                tracker_id: tracker_id@,
                warning_message: optional_bytes_view(*warning_message),
                min_interval: *min_interval,
            },
        }
    }
}

/// The dictionary entries of an announce response. A failure has only its
/// reason; a success has its counts, its interval, its minimum interval when
/// there is one, both peer lists, the tracker id and its warning when there
/// is one, keys in that (sorted) order.
pub open spec fn announce_entries(r: AnnounceResponseView) -> Seq<(Seq<u8>, Seq<u8>)> {
    match r {
        AnnounceResponseView::Failure { failure_reason } => seq![
            (ascii("failure_reason"@), bencode_bytes(failure_reason)),
        ],
        AnnounceResponseView::Success {
            interval,
            complete,
            incomplete,
            peers,
            peers6,
            tracker_id,
            warning_message,
            min_interval,
        } => {
            let counts = seq![
                (ascii("complete"@), bencode_int(complete as nat)),
                (ascii("incomplete"@), bencode_int(incomplete as nat)),
                (ascii("interval"@), bencode_int(interval as nat)),
            ];
            let with_min = match min_interval {
                Some(m) => counts.push((ascii("min_interval"@), bencode_int(m as nat))),
                None => counts,
            };
            let with_peers = with_min.push((ascii("peers"@), peer_list_bencode(peers))).push(
                (ascii("peers6"@), peer_list_bencode(peers6)),
            ).push((ascii("tracker_id"@), bencode_bytes(tracker_id)));
            match warning_message {
                Some(w) => with_peers.push((ascii("warning_message"@), bencode_bytes(w))),
                None => with_peers,
            }
        },
    }
}

/// The bencoding of an announce response.
pub open spec fn announce_bencode(r: AnnounceResponseView) -> Seq<u8> {
    bencode_dict(announce_entries(r))
}

impl AnnounceResponse {
    /// The bencoding of the response.
    pub fn encode(&self) -> (e: Vec<u8>)
        ensures
            e@ == announce_bencode(self@),
    {
        match self {
            AnnounceResponse::Failure { failure_reason } => encode_failure(failure_reason),
            AnnounceResponse::Success {
                interval,
                complete,
                incomplete,
                peers,
                peers6,
                tracker_id,
                warning_message,
                min_interval,
            } => encode_success(
                *interval,
                *complete,
                *incomplete,
                peers,
                peers6,
                tracker_id,
                warning_message,
                *min_interval,
            ),
        }
    }
}

fn encode_failure(failure_reason: &Vec<u8>) -> (e: Vec<u8>)
    ensures
        e@ == announce_bencode(AnnounceResponseView::Failure { failure_reason: failure_reason@ }),
{
    proof {
        reveal_strlit("failure_reason");
    }
    let mut out = begin_dict();
    let key = literal("failure_reason");
    let value = encode_bytes(failure_reason.as_slice());
    add_entry(&mut out, key, value, Ghost(Seq::empty()));
    let ghost pairs = Seq::<(Seq<u8>, Seq<u8>)>::empty().push((key@, value@));
    end_dict(&mut out, Ghost(pairs));
    assert(pairs =~= announce_entries(AnnounceResponseView::Failure { failure_reason: failure_reason@ }));
    out
}

fn encode_success(
    interval: u64,
    complete: usize,
    incomplete: usize,
    peers: &Vec<Peer>,
    peers6: &Vec<Peer>,
    tracker_id: &Vec<u8>,
    warning_message: &Option<Vec<u8>>,
    min_interval: Option<u64>,
) -> (e: Vec<u8>)
    ensures
        e@ == announce_bencode(
            AnnounceResponseView::Success {
                interval,
                complete,
                incomplete,
                peers: peer_views(peers@),
                peers6: peer_views(peers6@),
                tracker_id: tracker_id@,
                warning_message: optional_bytes_view(*warning_message),
                min_interval,
            },
        ),
{
    let ghost r = AnnounceResponseView::Success {
        interval,
        complete,
        incomplete,
        peers: peer_views(peers@),
        peers6: peer_views(peers6@),
        tracker_id: tracker_id@,
        warning_message: optional_bytes_view(*warning_message),
        min_interval,
    };
    let mut out = begin_dict();
    let ghost mut pairs: Seq<(Seq<u8>, Seq<u8>)> = Seq::empty();
    proof {
        reveal_strlit("complete");
    }
    let key = literal("complete");
    let value = encode_int(complete as u64);
    add_entry(&mut out, key, value, Ghost(pairs));
    proof {
        pairs = pairs.push((key@, value@));
        reveal_strlit("incomplete");
    }
    let key = literal("incomplete");
    let value = encode_int(incomplete as u64);
    add_entry(&mut out, key, value, Ghost(pairs));
    proof {
        pairs = pairs.push((key@, value@));
        reveal_strlit("interval");
    }
    let key = literal("interval");
    let value = encode_int(interval);
    add_entry(&mut out, key, value, Ghost(pairs));
    proof {
        pairs = pairs.push((key@, value@));
    }
    if let Some(m) = min_interval {
        proof {
            reveal_strlit("min_interval");
        }
        let key = literal("min_interval");
        let value = encode_int(m);
        add_entry(&mut out, key, value, Ghost(pairs));
        proof {
            pairs = pairs.push((key@, value@));
        }
    }
    proof {
        reveal_strlit("peers");
    }
    let key = literal("peers");
    let value = encode_peer_list(peers);
    add_entry(&mut out, key, value, Ghost(pairs));
    proof {
        pairs = pairs.push((key@, value@));
        reveal_strlit("peers6");
    }
    let key = literal("peers6");
    let value = encode_peer_list(peers6);
    add_entry(&mut out, key, value, Ghost(pairs));
    proof {
        pairs = pairs.push((key@, value@));
        reveal_strlit("tracker_id");
    }
    let key = literal("tracker_id");
    let value = encode_bytes(tracker_id.as_slice());
    add_entry(&mut out, key, value, Ghost(pairs));
    proof {
        pairs = pairs.push((key@, value@));
    }
    if let Some(w) = warning_message {
        proof {
            reveal_strlit("warning_message");
        }
        let key = literal("warning_message");
        let value = encode_bytes(w.as_slice());
        add_entry(&mut out, key, value, Ghost(pairs));
        proof {
            pairs = pairs.push((key@, value@));
        }
    }
    end_dict(&mut out, Ghost(pairs));
    assert(pairs =~= announce_entries(r));
    out
}

} // verus!
