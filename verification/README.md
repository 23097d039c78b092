# tt-signalr-server

A SignalR hub server for Axum, split in two:

- `src/` is the protocol core, verified with Verus: JSON and MessagePack hub
  messages (`json`, `messagepack`, `value`, `message`), the binary length
  framing (`framing`), the handshake (`handshake`), the per-connection
  decisions of the reading and writing loops (`session`), and the server-wide
  negotiation answer, connection metadata and live-connection count
  (`server`, `connection`). Every public function states what it returns; the
  roundtrip laws are proved: MessagePack messages and values read back
  exactly, floats included, within rmpv's length and depth limits; JSON
  messages read back from their text for float-free payloads within
  serde_json's nesting limit (serde_json parses float text with best-effort
  precision by default); framing, the concatenation of frame buffers and the
  batching of text records invert as expected.
- `app/` is the runtime around it: the `Hub` trait, `HubContext`,
  `SignalRServer` and its Axum routes, and the WebSocket tasks, which perform
  the actions the core decides.

Calls into serde_json, rmpv, uuid and the standard library that the core makes
go through small trusted wrappers whose contracts name what they return.
