# claude_sessions

What a project panel knows about the coding-assistant sessions that run on a machine: which
ones there are, what is being said in the one that is followed, what it is doing right now
and what it has spent. The library is written in [Verus](https://github.com/verus-lang/verus):
every function in `src/` carries a contract and is proved to keep it.

## Layout

- `src/terminal_anchors.rs` finds the messages of a transcript on a terminal's screen.
- `src/live_state.rs`, `src/live_notes.rs` follow what a session is doing, from its hook
  events, its status and its channel.
- `src/transcript.rs`, `src/usage.rs` read a conversation, its queue and its cost.
- `src/session_registry.rs`, `src/session_rows.rs`, `src/session_source.rs` hold the sessions
  that are listed, here or at the far end of a connection.
- `src/session_store.rs` is the state behind the panel, `src/polling.rs` the order in which
  it is kept up to date, `src/store_laws.rs` what holds of its operations, and
  `src/store_runs.rs` what holds at every moment of its life.
- `src/settings.rs`, `src/kvp.rs`, `src/assets.rs` are the panel's settings, the values kept
  under keys, and the files that a program brings along.
- `src/json.rs`, `src/double.rs`, `src/text.rs`, `src/text_map.rs`, `src/paths.rs` and
  `src/order.rs` are what the others are built from.
- `tests/` runs the library; `app/` is what does the reading, waiting and writing.

What is believed without proof is marked `external_body` or `assume_specification`: the calls
into `serde_json`, `chrono` and the standard library, in `json.rs`, `live_state.rs` and
`text.rs`, each with a comment that says what is claimed of it.
