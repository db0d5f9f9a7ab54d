# build-a-bitorrent-tracker

A BitTorrent tracker whose bookkeeping and protocol logic are verified with Verus.

- `src/` — the verified library:
  - `swarm.rs`, `swarm_store.rs`: the seeders and leechers of each torrent, and the
    peers an announce hands out (picked at random with `rand` when there are too many);
  - `torrent_store.rs`: the torrents served and their completed downloads;
  - `event.rs`, `number.rs`, `protocol/tcp.rs`: reading announce and scrape queries
    (percent-decoding through `urlencoding`), and answering them;
  - `bencode.rs`, `response.rs`: bencoded answers, built on `bendy`'s encodings;
  - `laws.rs`: properties of announces and answers, proved.
- `app/main.rs` — the HTTP server (axum, tokio, serde) around the library.
- `tests/` — tests of the library on concrete values.
