# Agent Pin

Agent Pin turns what an agent produces (Markdown summaries, images, task
status) into small always-on-top desktop windows, "Pins". A desktop app
keeps the Pins and serves a local HTTP API on `127.0.0.1:4317`; the
`agent-pin` command-line client talks to that API.

This crate is the verified core of both, written with Verus:

- `src/pin.rs` — the Pin document model and `validate`, the rules every
  document must satisfy before it is shown.
- `src/storage.rs`, `src/registry.rs` — Pin states and metadata, pin id
  checks, the data directory layout, and the in-memory registry (insert,
  state changes, removal, the ordered lists, the rebuild from disk), and
  the steps that settle each change once the state file was written,
  undoing it when the write failed.
- `src/pin_actions.rs`, `src/commands.rs`, `src/window.rs` — showing and
  hiding Pins (a "hide all" run goes on past a Pin that fails), window
  permissions, and what a destroyed window means.
- `src/http.rs` — the HTTP service's guard (loopback `Host`, JSON bodies),
  admission of new Pins and the uniform error answers.
- `src/tray.rs`, `src/updater.rs` — the tray menu and the update check
  (SemVer precedence, the one-day cache).
- `src/cli.rs`, `src/client.rs` — the client's argument checks, the
  documents it builds, its endpoint rule and how error answers are read.
- `src/push.rs` — `agent-pin push`: the images to copy, the body sent with
  each image's stored path, and the steps of a run, which remove every
  copy it made when any step fails.
- `src/text.rs`, `src/path.rs`, `src/clock.rs` — text, path and clock
  helpers (paths follow the Unix rules: `/` separates, and a path is
  absolute when it starts with `/`); the calls into `chrono`, `rand`, `url` and `serde_json` stand
  behind small trusted wrappers whose contracts say what the library relies
  on.

`app/` holds what Verus does not see: the command-line program (`clap`,
`ureq`), the JSON forms of the library's types (`serde`), file storage, the
`axum` HTTP service and the Tauri shell of the desktop app.

`tests/` runs the library against concrete cases.
