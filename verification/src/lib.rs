//! Verified core logic of a decentralized SDN node: the features (neighbours, data, DHT
//! key-value storage, pubsub relays, aliases, sockets) and services (visualization,
//! discovery) as sans-I/O state machines, the transport message header codec, static-key
//! signatures and the encryption of a connection's messages.

pub mod types;
pub mod base;
pub mod dht_kv;
pub mod msg;
pub mod pubsub;
pub mod secure;
pub mod encryption;
pub mod socket;
pub mod lazy_kv;
pub mod transport;
pub mod vpn;
pub mod san_io_utils;
pub mod table;
pub mod sorted_map;
pub mod alias;
pub mod data;
pub mod node_conns;
pub mod neighbours;
pub mod visualization;
pub mod manual2_discovery;
pub mod manual_discovery;
pub mod router_sync;
pub mod features;
pub mod router;
