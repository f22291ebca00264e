# taproot

Signed, content-addressed snapshots of a development environment — the
repository baseline, pinned runtimes, containers and environment variables —
with drift checks between snapshots, a local registry, keys, an audit/policy
fabric, and a read-only FUSE view in which only the `env` file is writable.

## Layout

- `src/` — the library, verified with Verus:
  - `state.rs` — the state and its signed envelope;
  - `engine.rs` — canonical JSON, hashing, signing and verification;
  - `diff.rs` — field-by-field drift and the outcome of a check;
  - `mount.rs` — the mounted tree, the env-file journal and drift extraction;
  - `registry.rs` — registry paths, name escaping, push and pull checks, ref listings;
  - `keys.rs`, `fabric.rs`, `server.rs`, `cli.rs` — key selection, tokens and
    policies, the decisions of the API and of the command line;
  - `strmap.rs`, `text.rs`, `util.rs` — sorted string maps, text helpers, name rules;
  - `trusted.rs` — the calls into `sha2`, `hex`, `base64`, `ed25519-dalek`,
    `chrono` and `std::str::from_utf8`, each with the contract it is trusted to meet.
- `app/` — the `taproot` command: argument parsing, JSON documents, file and
  network I/O, the FUSE adapter and the HTTP server, around the library.
- `tests/` — tests of the library.
