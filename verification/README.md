# convergio-http-bridge

A bridge that lets external extensions, written in any language, register
with the daemon over REST and take part in its lifecycle:
register → health check → active → degraded → removed.

- `src/` is the verified core (Verus). It decides everything the bridge
  does: request validation (including the private-address screen over
  IPv4 and IPv6 text), the health-check lifecycle, which extensions receive
  webhook events and what each delivery attempt logs, how proxied requests
  are routed by the extensions' declared route prefixes, which headers and
  bodies are forwarded, and the API's answers.
  `laws.rs`, `health.rs`, `proxy.rs` and `types.rs` hold the proved
  properties that span several functions.
- `app/` is the I/O shell: axum handlers, the tokio health poller, reqwest
  calls, and SQLite access through r2d2/rusqlite. It hands plain values to
  the core and acts on what the core decides.
- `tests/` exercises the core on concrete values.
