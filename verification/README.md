# gpiojsonsvc

GPIO over a Unix domain socket, with newline-delimited JSON. A client opens a session, names
its targets with `init`, reads them with `get`, drives them with `set`, and is told of edges
of its trigger targets.

`src/` is the verified core. What the service decides and computes stands there with contracts
that Verus proves; `app/` is the program around it: sockets, files, threads and JSON.

| Module | What it holds |
| --- | --- |
| `config`, `consumer`, `document` | the TOML configuration and the consumer template |
| `app`, `error`, `system_event`, `transport` | the command line, start-up checks, events, connection errors |
| `protocol` | requests and responses, and the rules that make a line a request |
| `session` | compiled targets, batches of reads and writes, set sequences, the session state machine |
| `gpio::mock` | mock chips: their XML documents, line requests, edge events, the write log |
| `gpio::sys` | conversions and checks for the C library `libgpiod` |
| `cluster` | clusters of pins over one document that describes several chips |
| `names`, `keys`, `number`, `text` | maps by name, ordered keys, decimal numbers, text |

Properties that span functions are proof functions: `gpio::mock::laws`,
`gpio::mock::state_laws`, `session::laws`, `session::chip_laws`, `session::value_laws`,
`cluster::laws`, and single ones beside the functions that they are about.

Calls into `quick-xml`, `toml`, `serde` and `smallvec` go through small trusted functions in
`gpio::mock::xml`, `document`, `protocol::pin_names`, `session::pins` and `cluster::indices`.
