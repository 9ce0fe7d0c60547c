# araponto

Extensions of a rendezvous server, as a library whose decisions are verified with
[Verus](https://github.com/verus-lang/verus). All of them are off by default.

| Switch | Effect |
|---|---|
| `PUNCH_UDP=Y` | NAT tests over UDP are answered, within limits per IP and in all, and UDP ports are forwarded. A hole-sent packet over UDP is accepted only when it matches a pending punch: controller address, peer id, peer IP, within 20 s. |
| `PUNCH_IPV6=Y` | A declared IPv6 address is forwarded when it is global unicast (`2000::/3`) with a port. |
| `WS_REGISTER=Y` | Peers may register over WebSocket and are reachable on that connection. |
| `API_BIND=127.0.0.1:21114` | Serves the heartbeat API. A client that sends heartbeats but never registers over UDP is told to use WebSocket. |

- `src/` is the verified library. State is passed in explicitly; each operation that depends on the
  time exists at a given time (`.._at`) and by the clock. Times and durations count nanoseconds.
- `app/` holds the shared state behind its locks, the background tasks and the HTTP server.
- `tests/` runs the library on concrete values.
