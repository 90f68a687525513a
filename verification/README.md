# clawgate

A reverse-proxy / API gateway with load balancing, circuit breaking, per-IP rate
limiting, JWT authentication, IP allow/deny lists, traffic splitting, peer gossip of
backend health, an admin API and a terminal dashboard.

## Layout

- `src/` — the verified library (Verus): the gateway's decisions, each with its
  contract:
  - `router` — path patterns, route selection, header conditions;
  - `balancer` — eligibility of backends, round robin, least connections, IP hash,
    pinning;
  - `health` — the circuit breaker state machine driven by health probes;
  - `rate_limiter` — sliding-window buckets per client address;
  - `middleware/` — JWT checks, IP rules and `X-Request-ID`;
  - `proxy` — admission of a request (IP rules, rate limit, backend choice, splits)
    and the dashboard bookkeeping of a response;
  - `gateway` — building the gateway state from a configuration and applying a
    reloaded backend list;
  - `gossip`, `admin`, `persistence`, `tui` — the data side of peer sync, the admin
    API, the saved state and the dashboard's key handling and views;
  - `tls` — when the certificate is reloaded;
  - `text` — verified string helpers.
- `app/` — the process around the library: configuration files, the HTTP server,
  the background loops, the database, etcd and the terminal drawing. The latency
  sparkline is drawn there, as it rounds a floating-point ratio.
- `tests/` — tests of the library on concrete values.
