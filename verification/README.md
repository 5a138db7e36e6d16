# mefrpd

The ME-Frp daemon serves JSON-RPC methods over WebSocket; its terminal is an
interactive client for it.

- `src/` is the verified library (Verus): the method registry and how a
  request is dispatched (`registry`, `exchange`), the messages and their error
  texts (`message`, `error`, `json`), the table of connected peers and the
  broadcast to them (`peers`), the type-keyed store shared by handlers
  (`store`), and the decisions of the terminal (`terminal`). `table` is the
  unique-key association table under all of them.
- `app/` is the program around it: the tokio/WebSocket server loop, the
  process-wide store behind its lock, serde forms of the messages, the
  terminal's REPL, and `main` (`mefrpd` runs the daemon, `mefrpd terminal`
  the terminal).
- `tests/` exercises the library on concrete values.
