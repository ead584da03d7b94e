# cli_pocket

The verified core of a remote terminal workspace: a daemon that owns PTY
terminals and their scrollback, a relay that pairs daemons with clients,
and the rules both sides follow. The library's logic in `src/` is verified
by Verus against its contracts; the calls it makes into other crates and
into parts of std that Verus does not specify (random numbers, clocks,
atomics, the `vte` parser, hashing, encodings) go through small
trusted wrappers, each marked `#[verifier::external_body]`, whose
contracts are believed rather than proved.

## Layout

- `src/` — the library:
  - `proto`, `text`, `daemon_error`, `relay_error` — shared data, textual
    forms (decimal, hex, UUID, trimming) and errors.
  - `tracker`, `ring`, `terminal` — terminal state tracking over `vte`, the
    scrollback ring with anchors, and PTY decisions.
  - `caps`, `registry`, `pairs`, `relay_route`, `relay_config` — relay
    capacity, registered daemons, live pairs and the stuck-pair sweep, frame
    routing, and configuration.
  - `client_db`, `access`, `connection`, `session`, `pairing`, `resume`,
    `dialer`, `daemon_config` — paired clients, admission, the per-connection
    state machine, live terminals, pairing codes, resume tokens, the relay
    dialer's back-off and bridges, and daemon configuration.
- `tests/` — tests that run the compiled library.
- `app/` — the command-line programs: argument handling, configuration and
  client-database files.
