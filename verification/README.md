# studio_design

The host-independent authoring domain of a visual design studio, written in
Verus: every function in `src/` carries a `requires`/`ensures` contract that
Verus proves.

## Layout

- `src/model.rs`, `src/ids.rs`, `src/ordered_map.rs`, `src/text.rs`: the design
  document, bounded identities, a key-ordered map and text helpers.
- `src/command.rs`, `src/engine.rs`, `src/compositions.rs`, `src/dispatch.rs`:
  typed commands, their handlers with undo inverses, and the dispatcher that
  applies one command or an ordered list of them.
- `src/submission.rs`, `src/history.rs`, `src/query.rs`: what a session
  decides on a submitted batch, on undo and redo, and on a typed query.
- `src/design_rules.rs`, `src/layout_rules.rs`, `src/content.rs`,
  `src/content_commands.rs`: whole-design validation, layout rules, content
  collections, forms and bindings, and the commands that edit them.
- `src/session.rs`, `src/access.rs`, `src/mcp.rs`, `src/agent.rs`,
  `src/rebase.rs`: the session seam, capability scopes, MCP clients, live agent
  runs and the stale-base analysis of streamed batches.
- `src/navigation.rs`, `src/responsive.rs`, `src/prototype.rs`,
  `src/manipulation.rs`, `src/workspace.rs`, `src/recovery.rs`, `src/ux.rs`:
  navigation graphs, responsive profiles, prototype playback, canvas gesture
  batches, editor workspace state, conflict and recovery ledgers, and UX records.
- `app/`: ordinary Rust around the library: the default Designer session with
  asynchronous persistence, asynchronous agent and MCP submission,
  numeric reading of length text, and persisted conflict and recovery centers.
- `tests/`: executable tests of the library.
