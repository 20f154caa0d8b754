# atm0s_sdn_network

The network core of a decentralized software-defined network node, written in Verus:
the features and services that run on each node are sans-I/O state machines whose every
public operation carries a contract over a mathematical view of the state, proved by Verus.

Layout:

- `src/` — the verified library.
  - `types`, `base`, `table`, `sorted_map`, `node_conns`: identifiers, connection and message
    meta, and the verified tables the state machines are built on.
  - `msg`: the transport message header codec.
  - `dht_kv`: the DHT key-value storage (client maps, server maps, the feature).
  - `pubsub`: channel relays, consumers, feedback aggregation, source hints, the worker and
    the controller that drives the relays and source hints of all channels.
  - `alias`, `data`, `neighbours`, `socket`, `lazy_kv`, `vpn`, `router_sync`, `features`: the
    other features and the feature registry.
  - `visualization`, `manual_discovery`, `manual2_discovery`: the services.
  - `secure`: static-key signatures (SHA-1 / SHA-256 through the `sha1` and `sha2` crates).
  - `encryption`: the X25519 handshake and the AES-256-GCM framing of a connection's
    messages (through the `x25519-dalek`, `aes-gcm` and `rand` crates).
  - `router`: the routing table interface and a table that keeps everything local.
  - `san_io_utils`: the round-robin task switcher.
- `tests/` — tests of the library through its public API.
- `app/` — what runs around the library: socket addresses, the wire encoding of the
  features' messages with `serde`/`bincode`, object signing, the transport errors' messages.

Each `law_*` proof function states a property that relates several operations; the
`ensures` of each operation states what it does to the view.

The library holds the logic of a node, not its event loop: every feature and service is a
state machine that takes inputs and hands out outputs. Running them (spawning connection
tasks, sending on channels, calling the transport) is left to the code around the library.
