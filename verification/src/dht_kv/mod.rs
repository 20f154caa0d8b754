//! DHT-based key-value storage: each map is stored on the node closest to the
//! map's key; every sub-key carries the session of the node that wrote it.

pub mod msg;
pub mod seq;
pub mod server_map;
pub mod client_map;
pub mod storage;
pub mod feature;
