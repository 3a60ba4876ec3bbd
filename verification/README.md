# herdr-auto-title

Shows the status of agents in the labels of [Herdr](https://herdr.dev) tabs, and keeps the
labels in step with the title that OpenCode gives its terminal, until a tab is renamed by hand.

The decisions are a library whose behaviour is stated in contracts and proved with Verus:

- `src/policy.rs` decides about one tab: the label that it should carry and the state to keep
  of it. `src/policy_laws.rs` states what holds of all such decisions.
- `src/store.rs` keeps the states of the tabs of all sessions, in a map that
  `src/text_map.rs` provides. `src/store_laws.rs` states what its changes keep.
- `src/runtime.rs` works on an event, one request after the other. `src/runtime_laws.rs` and
  `src/event_laws.rs` state what holds at every step, and what each event leads to;
  `src/startup_laws.rs` states what a start comes to as a whole.
- `src/command.rs`, `src/launch.rs` and `src/failure.rs` say how a Herdr command is waited
  for, what the environment asks for, and what can go wrong.
- `src/text.rs` compares, orders and trims texts, character by character.

`app/` is the plugin around the library. It takes the lock, reads and writes the states as
JSON, and runs the Herdr executable.

Beside what vstd says of the standard library, one thing is taken on trust: how
`String::from_utf8_lossy` decodes bytes, in `src/command.rs`.
