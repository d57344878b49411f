# netlabs

A collection of small network programs — an HTTP file server and client, a
caching HTTP proxy, SMTP and FTP clients, a stop-and-wait reliable transport
over UDP, ping and heartbeat services, traceroute, distance-vector and RIP
routing simulations, a product catalogue REST service and a few tools —
whose logic is written in Verus and proved against its contracts.

## Layout

- `src/` — the verified library. Each module holds the data, decisions and
  text formats of one program: `checksum`, `packet` and `rdt` (the reliable
  transport), `dvrp` and `rip` (routing), `traceroute`, `proxy` and
  `blacklist`, `smtp`, `email`, `ftp` and `ftp_gui`, `http_file`,
  `heartbeat`, `ping`, `peers`, `transfer`, `remote_exec`, `products`,
  `icons`, `conn_limit`, `echo`; with the shared helpers `text`, `bytes`,
  `paths`, `strmap`, `assoc`, `lexorder` and `listing`. Calls into outside
  crates (hashing, hex and base64 encoding, HTTP head parsing, content
  sniffing, e-mail address parsing) go through small trusted functions
  whose contracts say what the library relies on.
- `tests/` — tests run against the compiled library with the real outside
  crates.
- `app/` — one binary whose subcommands are the programs: sockets, files,
  prompts, timers and threads around the library.
