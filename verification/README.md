# ws_forwarder

A reverse tunnel over WebSocket: a client connects to a server, registers
forwarding rules `local_port:remote_port`, and the server accepts TCP
connections on each registered public port and relays them through the
WebSocket to the client, which connects to the local service.

Layout:

- `src/` — the library, verified with Verus:
  - `protocol.rs` — the messages exchanged by server and client;
  - `server.rs` — the server's registry of clients, public ports and tunnels,
    with its consistency invariant, and what the server does with each message
    from a client;
  - `rules.rs` — reading the forwarding rules given on the command line;
  - `client.rs` — the client's rules and tunnels, and what it does with each
    message from the server;
  - `session.rs` — how frames are read, and the client's connect / register /
    serve / retry loop.
- `tests/` — tests of the library.
- `app/` — the two programs (server and client): command line, TLS,
  WebSocket and TCP I/O, the JSON encoding of messages, and the tasks that
  perform what the library decides.
