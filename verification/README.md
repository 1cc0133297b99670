# quote_stream

A verified core for a quote streaming system: a server generates stock quotes and
streams them over UDP to clients that asked for them with a TCP `STREAM` command,
and stops a stream when the client stops sending keep-alive pings.

- `src/` is the library, verified with Verus: text handling (`text`), socket
  addresses and URLs (`address`), the `STREAM` command (`command`, `tcp_input`,
  `server`), quotes and their filtering and ordering (`quotes`), the datagram
  format (`wire`), the client registry (`registry`), the per-client stream and
  keep-alive decisions (`handler`, `keep_alive`), the client's side (`client`,
  `response`, `ticker_list`), volume generation (`generators`), and properties
  that span modules (`laws`).
- `app/` holds the two programs (`server`, and the client), which do the I/O,
  the threads, the clock and the floating-point price walk.
- `tests/` runs the library on concrete values.
