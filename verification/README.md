# emrent

A BitTorrent client library whose logic is verified with Verus, and the
desktop back end around it.

- `src/` is the verified library: torrent metadata and the info hash,
  tracker announce URLs and compact peer lists, the peer wire protocol
  (handshake and message framing), the state of a download session with a
  peer, piece selection and bookkeeping, the block plan of a piece, where a
  piece's bytes go on disk, and what is served to other peers. Calls into
  `serde_bencode`, `sha1`, `hex` and `rand` stand behind small trusted
  wrappers whose contracts are stated next to them. Bencoded input is
  scanned first: the decoder recurses once per level of nesting, so input
  that nests deeper than `MAX_NESTING` levels is refused before it is
  decoded.
- `app/` performs the I/O that the library decides on: files, TCP
  connections to peers and HTTP announces to trackers, with `tokio` and
  `reqwest`, and the serde copies of the library's types.
- `tests/` runs the library on concrete values.
