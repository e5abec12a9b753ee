# naviarr

The rules of the Naviarr music player — a desktop client for Subsonic,
Jellyfin, Plex and local music folders — as a library verified with Verus.

- `src/` — the verified library: server profiles and backends, request and
  URL building, the reading of the servers' JSON and XML replies, Last.fm
  signing and taste summaries, lyrics lookups and their text normalisation,
  mDNS packets, cast sessions, the playback transport state, the disk cache
  policy and the local library scan. Every public function carries a
  contract; the `law_*` proof functions state properties that relate several
  functions (what a read gives back of a write, what eviction keeps, that
  signing does not depend on parameter order, …).
  JSON replies are read with serde_json (one pointer per value read) and XML
  documents with roxmltree (the document's nodes in order); the contracts
  speak of what those crates make of a text through named results.
- `app/` — ordinary Rust around it: file and network work, the serde forms
  of the records, and floating-point arithmetic (audio, and the durations
  and counts the library reads as number text).
- `tests/` — tests of the library on concrete values.

The services are spoken to through the library's own request builders and
reply readers: no client crate for them (musixmatch_inofficial,
genius_lyrics, lastfm_client, rustfm_scrobble, opensubsonic) is used, so
that what is sent and what a reply means are stated and proved here; tags
of local files come from a tag reader the caller passes to the scan (lofty
or another), since reading audio containers is outside the library.
