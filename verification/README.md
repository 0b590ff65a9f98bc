# orange_yeoman

The core of a Markdown research notebook, written in Verus: the library in
`src/` is verified, and `app/` is the thin layer that does the file,
network, database and watcher I/O around it.

`src/` holds:

- `pipeline` — splitting Markdown into blocks with exact byte offsets and
  heading chains, the stable content hash, inline slash commands, local
  routing signals, and the prompt builders.
- `incremental` — the block diff between a file's stored rows and its
  freshly parsed blocks (an LCS alignment, relocation pairing, and a
  set-membership fallback for very large files).
- `store` — which blocks are queued for later stages and the ordered row
  operations that apply a diff.
- `config` — the layered configuration (global file, then repository
  file), its frontend-safe status, and model validation against the model
  lists of the providers.
- `llm` — the provider boundary: requests, the deterministic mock
  provider, error scrubbing, and the catalog of model-listing endpoints.
- `tasks` — task ids, the in-memory task store with in-flight
  de-duplication, staleness checks, and the submit/dispatch/finish steps.
- `watcher` — classification of file-system events, the work each change
  asks for, and the debug block snapshots and their diff.
- `filesystem`, `telemetry`, `text` — directory listing order, the debug
  channel's gating policy, and string helpers.

`tests/` exercises the library.
