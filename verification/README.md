# spire

The request-handling rules of the Spire API gateway, written in Verus and
proved against their contracts.

## Layout

- `src/` — the verified library.
  - `headers.rs`: a plain model of an HTTP header map (lower-case names,
    byte values, case-insensitive lookup) with laws on what a read gives back
    after `insert`, `remove` and `append`.
  - `matcher.rs`: path, host, header and method matchers; regular expressions
    are compiled on first use and kept, and a law shows that the cache changes
    neither the verdict nor rule equality.
  - `middleware/`: authentication (Basic, API key, JWT), token-bucket and
    fixed-window rate limiting, the circuit breaker, response compression and
    request-header rewriting, each with the verdict it gives a request.
  - `routing.rs`: what the proxy does with a routed request, the gRPC
    endpoints of the routes, and the error response.
  - `tls.rs`: the certificate offered for a TLS handshake, by server name.
  - `listener.rs`: the listener each service type gets (and the error of a
    TLS service without configuration), and which file changes in a
    certificate directory ask for the TLS configuration to be reloaded.
  - `commands.rs`, `openapi.rs`, `duration.rs`, `config.rs`: the decisions
    behind the command-line tools and the configuration records; `openapi.rs`
    turns path templates into matchers and groups the converted routes into
    one service per port.
  - `text.rs`, `net.rs`, `clock.rs`, `error.rs`: shared helpers.
- `tests/` — tests of the library on concrete values.
- `app/` — the command-line program: argument parsing, file I/O, serde copies
  of the configuration records, and conversions from the `http` crate's types.

Time is a number of nanoseconds: since the Unix epoch for the rate limiters,
and on the monotonic clock since the breaker was made for the circuit
breaker. The circuit breaker's failure-rate threshold is a fraction, so that the library holds no
floating-point values.
