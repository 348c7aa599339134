# superseedr_core

The core of a BitTorrent client, written in Verus: every function in `src/`
carries a contract that the verifier proves.

## Layout

- `src/torrent_manager/` — block and piece bookkeeping, BEP 52 merkle roots,
  and the torrent state machine (`state.rs`): one action in, the new state and
  the effects out. `state/dispatch.rs` holds `TorrentState::update` and the
  laws the actions keep (byte counters add up, the connected count follows
  the peer list, queued pieces are pieces still needed, every pending piece is
  requested from some peer, a finished torrent needs nothing, the unchoke
  timer never runs ahead of the clock). They hold for every action but these:
  a sent block that would carry the upload total past `u64::MAX`, a failed
  disk write on a finished torrent (its piece becomes needed again) or of a
  piece it does not have, metadata that arrives while pieces are pending or
  that describes fewer pieces than are tracked, and a connection report for
  a peer not in the list. `state/events.rs` turns timers and commands into
  actions. `piece_check.rs` holds the hash checks: a v1 piece against its
  entry in `pieces`, the info hash, DHT metadata against the info hash, and
  the steps of the start-up validation; `locations.rs` the web-seed URL and
  the content-folder rule.
- `src/torrent_file/metainfo.rs` — the info dictionary of a metainfo file,
  the bytes the info hash is taken over.
- `src/networking/` — wire message framing and parsing (with a round-trip
  law), uTP packet codec and driver decisions, peer-exchange lists and
  metadata assembly, and what a session makes of the peer's handshake and of
  each message it sends.
- `src/dht/` — announce tokens, the DHT service's reducers (lifecycle,
  runtime commands, subscribers) and the demand planner's invariant checker.
- `src/torrent_file/` — metainfo model: v1 file lists, v2 file trees, the
  v2 piece mapping and the padding that aligns v2 files to pieces.
- `src/storage.rs` — the layout of a torrent's files in its byte stream.
- `src/config.rs`, `src/config_reconcile.rs`, `src/integrations/`,
  `src/persistence/`, `src/torrent_identity.rs`, `src/theme.rs` — settings,
  their reconciliation, the command line and watch folder rules, network
  history rollups, and what a magnet link names: its info hash and the HTTP
  trackers a torrent starts with.
- `app/` — the unverified shell: file I/O (metainfo, storage, settings,
  network history), serde copies of the library's types, the command line
  parser, the folder watcher, and the floating-point rate arithmetic. It runs
  no network sessions.
- `tests/` — scenario tests and concrete runs of the laws.

Outside crates (hashing, hex and base32, magnet links, bencode, randomness)
are reached through small trusted wrappers whose contracts say what the
crates' documentation promises.
