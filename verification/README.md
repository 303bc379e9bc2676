# omp-relayd

An authenticated, streaming forward relay: an HTTP proxy with `CONNECT` tunnels, one-time pairing
codes, per-client revocation, and host-in-path routes for HTTP and WebSockets.

The relay is split in two.

- `src/` is a Verus library. It holds every decision that the relay makes, with contracts that say
  what is decided, and proofs of what holds across decisions: codes are single-use and
  expire, revoked clients stay out, requests go to public addresses and to nowhere but where they
  were sent, credentials stay behind.
- `app/` is the daemon around it: the command line, the listener, the registry file, name lookups
  and upstream connections. It hands the library what it read and does what the library decided.

`tests/` runs the library, with the crates that it calls, on concrete values.

What is believed without proof is marked `external_body` or `assume_specification` in `src/`, each
with a comment that says what is claimed of which outside function: hashing (`sha2`), identifiers
(`uuid`), random numbers (`rand`), Base64 (`base64`), header maps and URIs (`http`), the WebSocket
handshake (`tungstenite`), and a few functions of the standard library.

## Use

```text
omp-relayd serve --bind 10.90.0.2:43118
omp-relayd pair
omp-relayd list
omp-relayd revoke UUID
omp-relayd service install --bind 10.90.0.2:43118
omp-relayd self-test
```
