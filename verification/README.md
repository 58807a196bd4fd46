# wake_proxy

A TCP proxy for a Minecraft server that sleeps when idle. For each client it
checks the client's address against a GeoIP country database, checks that
the first packet is a Minecraft handshake, wakes the backend server up with
a configured shell command if it does not answer, and then forwards traffic
both ways.

Layout:

- `src/` — the verified library (Verus):
  - `protocol/cursor.rs`, `protocol/varint.rs`: a byte cursor and the VarInt
    reader, with the decoding spec and its laws;
  - `filter/handshake.rs`: the handshake validator and its laws;
  - `filter/geoip.rs`: the country verdict of the GeoIP filter;
  - `backend/manager.rs`: the wake command line and the wake-up state
    machine; `backend/state.rs`: the shared backend status;
  - `connection.rs`: the per-client state machine and the law that only
    screened clients reach the backend;
  - `config.rs`: the settings.
- `app/` — the program around it: configuration loading, the listener,
  the GeoIP database lookups (the `maxminddb` reader trusts the database
  file), and the async loops that carry out the state machines' actions.
- `tests/` — tests of the library.
