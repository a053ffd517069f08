# shell

A lightweight game-server framework with proved contracts.

`src/` is the verified library:

- `message` — the message type and its wire format: a big-endian frame of
  magic number `0x7368`, message id, body length, session id and data;
  encoding, decoding from a byte buffer, and the laws that decoding gives
  back what encoding wrote and waits for a frame to arrive whole.
- `codec` — framing of the TCP stream on top of `message`.
- `timer` — the timer service's state: a queue ordered by fire time, the
  cancelled ids, and the tick that fires every due timer; with laws on what
  a tick fires, drops and re-arms, and over whole runs of commands and
  ticks: timers never fire early, and a cancelled timer stays silent.
- `connection` — what a gateway connection does: the session id stamped
  on every message it reads, what each frame calls for, and the life of
  the connection from open notice to close notice.
- `router` — which actor a message id goes to, and the actors by name.
- `session` — sessions, their user data, and the session table with its
  connection limit.
- `actor` — actor handles and queues, what an actor does with each message
  of its queue, and that it handles its queue until `Stop`.
- `config`, `error`, `text` — configuration, the error type, and the rendering of numbers and bytes as text.
- `buffers`, `tables`, `runtime` — the trusted boundary to the `bytes`,
  `dashmap`, `tokio` and `chrono` crates: each operation the library uses,
  with the contract it is trusted to meet.

`app/` is the runtime around it: async actors, the timer task, the TCP and
WebSocket gateways, TOML configuration files and serde support.

`tests/` exercises the library on concrete values.
