# crate_sync

The cloud-sync engine of a DJ library app, with its rules proved in Verus.

A library (tracks, playlists, cues, tags, discovery releases, settings) is split into
buckets; each device serializes its buckets to JSONL blobs, records their hashes in a
per-account manifest, and merges peers' buckets row by row with a hybrid logical clock
as the oracle. Devices converge whatever order they see each other's writes in.

## Layout

- `src/` — the verified library. Every function carries a `requires`/`ensures`
  contract over mathematical models (`Seq`, `Map`, `int`), and the laws the engine
  relies on are proof functions:
  - `hlc` — the clock: formatting, parsing, `tick`/`receive` monotonicity.
  - `buckets`, `rows`, `wire` — bucket names and shards, canonical ids, row
    parsing, tombstone emission.
  - `merge`, `merge_sql`, `collapse` — per-row merge decisions, the statements
    that carry them out, duplicate-collapse of discovery rows (which local copy a
    remote row meets, what the pair becomes, the re-key statements); idempotence,
    commutativity, order independence and two-device convergence, per row and for
    whole buckets.
  - `manifest`, `pipeline`, `dirty`, `stamping`, `settings` — local manifests and
    diffs, pull/push/GC decisions, dirty marking and first-sync stamping.
  - `status`, `rest`, `firebase`, `appcheck`, `oauth`, `apple`, `config`, `types` —
    status transitions, error sanitizing, Firebase resource names and conflict
    detection, App Check and OAuth rules.
  - `backup`, `resolution`, `audio`, `synclog`, `analysis`, `background` — backup
    ordering, format-version check and artwork (which files, base64 both ways),
    library-root resolution, device-list and fade bookkeeping, log
    rotation, scheduler choices.
- `app/` — the unverified shell: SQLite access, backup files, the wall clock, JSON
  (de)serialization of the library's types, the loopback sign-in listener, the App
  Check token cache, and the async loops that drive a cloud backend. What happens to
  synced state (merge actions, collapses, stamping, tombstones) is decided by the
  library and carried out with statements it builds; app/ itself holds only plain
  reads and writes of rows, settings and backup sections. The merge laws are proved
  of the library's model of a bucket (a map from row id to stamp and payload, moved by
  the decision functions); the database that app/ writes is not part of that proof.
- `tests/` — executable tests of the library on concrete values.

Outside crates are reached only through small trusted wrappers whose contracts say
what the crate's documentation promises (serde_json, blake3, sha2, base64, rand, uuid,
chrono, flate2).
