# lipl_storage

The logic of a small lyrics and playlists service, verified with Verus.

- `src/part.rs`: the lyric text format. `to_parts` splits a text into parts
  (runs of trimmed, non-empty lines), `to_text` writes parts back, and
  `extract_delimited_frontmatter` splits a document at its `+++` lines. The
  laws `law_parts_roundtrip` and `law_parts_normal_form` state that writing
  and reading parts give them back.
- `src/store.rs`: lyrics, playlists and their documents: file names, the
  lyric document and its read-back law (`law_document_roundtrip`), reading
  documents, entity tags, and what deleting a lyric does to the playlists.
- `src/playlist_toml.rs`: reading and writing playlist TOML documents.
- `src/fs.rs`: directory entries, file ids and the root directory.
- `src/routes.rs`: the routes of the HTTP API.
- `src/logging.rs`: log lines and their time stamps.
- `src/run.rs`: the command, as a step function from state and event to the
  next state and the actions to perform.
- `src/text.rs`: characters, trimming, splitting, joining and numbers.
- `src/error.rs`: the error type.

`app/` holds what Verus does not see: the serde, TOML and JSON conversions of
the library's records, reading the clock and writing log lines.
