# chiral_network

The core of chunk recovery for peer-to-peer downloads, written in Verus: executable Rust whose
behaviour is stated in contracts and proved.

A file is cut into chunks of 256 KiB. A download keeps a state beside its partial file: which chunks
are pending, downloaded, verified or failed, how many bytes are verified, and who has the file. After
an interruption the state is read back, what is on disk is checked against the hashes, and what is
missing or bad is fetched again.

- `src/chunk.rs` - how a file is cut into chunks.
- `src/download.rs` - a download as a mathematical value, and the steps it takes.
- `src/p2p_download_recovery.rs` - recovery where the hashes of chunks may be unknown.
- `src/p2p_chunk_network.rs` - recovery against a Merkle root, with providers from the network.
- `src/p2p_download_recovery/laws.rs`, `src/p2p_chunk_network/laws.rs` - what holds of each module as
  a whole: layouts cover the file, the count of verified bytes stays right, checks settle what they
  check, recoveries run once at a time.
- `src/digest.rs`, `src/paths.rs`, `src/clock.rs` - the calls into `sha2`, `hex`, `rs_merkle`,
  `std::path` and the system clock. Each has a contract that is believed, not proved; its doc comment
  says what the contract claims.
- `src/text.rs`, `src/models.rs`, `src/net/proxy_server.rs` - text helpers, published records, the
  proxy server's address.
- `app/` - files, sockets, JSON and logging around the library. It asks the library what to read,
  hands back what it read, and does what the library says.

Functions that note a time come in pairs: `mark_failed_at` takes the time and has an exact contract,
`mark_failed` reads the clock and calls it.
