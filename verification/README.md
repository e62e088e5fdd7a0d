# Todero Protocol

Todero Protocol V3: a session protocol over datagrams, for a server with many
clients behind changing paths. Messages are pulled, arrive once and in order, and
sessions are kept in a store from which a server takes their timers up again.

The library is written in Verus. Each function states in its contract what it
returns or changes, and Verus proves it. What is taken on trust of other crates
stands in the contracts of the small functions that call them.

| module | what it holds |
| --- | --- |
| `wire` | frames and their binary form |
| `session` | the session machine: handshake, MSR pulling, fragments, renegotiation |
| `client_runtime`, `server_runtime` | machines with their timers, candidates, metrics and store |
| `store` | session records: in memory, as a log with snapshots, as Redis commands |
| `crypto` | replay window, amplification gate, certificate policy, frame authentication, DTLS adapters |
| `traversal` | STUN, candidate checks, consent and TURN |
| `ffi` | engines behind numbers, for a C interface |
| `orchestrator_api`, `transport_udp` | shared contracts and names |
| `timers`, `text`, `json`, `base64_text`, `big_endian`, `byte_buffer`, `hashing` | what the others are built from |

Where several functions belong together, what holds between them is a public
proof function whose name begins with `law_`.

`app/` is ordinary Rust around the library: files, a Redis server, identity files
for OpenSSL, JSON forms, and the C and JNI interfaces.
