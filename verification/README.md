# Janus

The verified core of Janus, a TCP and HTTP/1.1 reverse proxy and load
balancer, written in Verus.

- `src/` is the library, every function of it verified:
  - `text`: the character-level grammar helpers (trimming, splitting,
    unsigned number parsing, decimal printing, case-insensitive comparison);
  - `http`: HTTP/1.1 request and status lines, header lines, the
    `Content-Length` rule, the unsupported-request check, hop-by-hop header
    stripping, forwarding headers and head serialisation;
  - `exchange`: the decisions of one proxied request/response exchange, as a
    state machine driven by the outcomes of the socket operations;
  - `backend`: backends, their health and the live connection and failure
    counters;
  - `balancer`: round robin, least connections, weighted round robin and IP
    hashing over the routable backends;
  - `health`: the health tracker with its thresholds, the supervisor that
    applies transitions, and the HTTP probe's request and status check;
  - `proxy`, `config`, `cli`: metrics and settings, the configuration model
    and startup choice, and the command line.
- `app/` is the binary: sockets, tasks, the TOML file and logging, around
  the library.
- `tests/` runs the library on concrete inputs.
