use atm0s_sdn_network::base::{ConnId, ConnectionCtx, ConnectionEvent, NodeAddr};
use atm0s_sdn_network::dht_kv::msg::{DhtMap, Key, MapControl, MapEvent};
use atm0s_sdn_network::dht_kv::storage::Control as KvControl;
use atm0s_sdn_network::manual_discovery::{ManualDiscoveryService, Output, RETRY_CONNECT_MS, WAIT_DISCONNECT_MS};
use atm0s_sdn_network::types::PeerAddr;

// The maps of the tags "local" and "connect" (their names hashed).
const LOCAL_MAP: u64 = 0x6c6f63616c;
const CONNECT_MAP: u64 = 0x636f6e6e656374;

fn node_addr(node: u32) -> NodeAddr {
    NodeAddr { node, addrs: vec![PeerAddr::V4(0x7f000001, node as u16)] }
}

// The address as it is written under a tag.
fn encoded(addr: &NodeAddr) -> Vec<u8> {
    let mut v = addr.node.to_be_bytes().to_vec();
    for a in &addr.addrs {
        if let PeerAddr::V4(ip, port) = a {
            v.extend_from_slice(&ip.to_be_bytes());
            v.extend_from_slice(&port.to_be_bytes());
        }
    }
    v
}

fn map_cmd(map: DhtMap, control: MapControl) -> Output {
    Output::Kv(KvControl::MapCmd(map, control))
}

fn new_service(addr: &NodeAddr) -> ManualDiscoveryService {
    ManualDiscoveryService::new(addr.node_id(), encoded(addr), vec![LOCAL_MAP], vec![CONNECT_MAP])
}

fn conn_ctx(node: u32) -> ConnectionCtx {
    ConnectionCtx { conn: ConnId::from_out(0, 0), node, local: PeerAddr::V4(0x7f000001, 1), remote: PeerAddr::V4(0x7f000001, node as u16) }
}

#[test]
fn should_send_connect() {
    let addr1 = node_addr(100);
    let addr2 = node_addr(101);

    let mut service = new_service(&addr1);
    let local_map = DhtMap(LOCAL_MAP);
    let connect_map = DhtMap(CONNECT_MAP);

    assert_eq!(service.pop_output(), Some(map_cmd(local_map, MapControl::SetValue(Key(0), encoded(&addr1)))));
    assert_eq!(service.pop_output(), Some(map_cmd(connect_map, MapControl::Sub)));

    service.on_map_event(100, MapEvent::OnSet(Key(1), 2, encoded(&addr2)), Some(addr2.clone()));
    assert_eq!(service.pop_output(), Some(Output::ConnectTo(addr2)));
}

#[test]
fn should_wait_disconnect_after_remove() {
    let addr1 = node_addr(100);
    let addr2 = node_addr(101);

    let mut service = new_service(&addr1);
    let local_map = DhtMap(LOCAL_MAP);
    let connect_map = DhtMap(CONNECT_MAP);

    assert_eq!(service.pop_output(), Some(map_cmd(local_map, MapControl::SetValue(Key(0), encoded(&addr1)))));
    assert_eq!(service.pop_output(), Some(map_cmd(connect_map, MapControl::Sub)));

    // add node
    service.on_map_event(100, MapEvent::OnSet(Key(1), addr2.node_id(), encoded(&addr2)), Some(addr2.clone()));
    assert_eq!(service.pop_output(), Some(Output::ConnectTo(addr2.clone())));

    // fake connected
    service.on_connection(ConnectionEvent::Connected(conn_ctx(addr2.node_id())));

    // remove node
    service.on_tick(200);
    assert_eq!(service.pop_output(), None);

    // fake removed key
    service.on_map_event(300, MapEvent::OnDel(Key(1), addr2.node_id()), None);
    assert_eq!(service.pop_output(), None);

    // wait disconnect
    service.on_tick(300 + WAIT_DISCONNECT_MS);
    assert_eq!(service.pop_output(), Some(Output::DisconnectFrom(addr2.node_id())));
    assert_eq!(service.pop_output(), None);
}

#[test]
fn should_reconnect_after_disconnected() {
    let addr1 = node_addr(100);
    let addr2 = node_addr(101);

    let mut service = new_service(&addr1);
    let local_map = DhtMap(LOCAL_MAP);
    let connect_map = DhtMap(CONNECT_MAP);

    assert_eq!(service.pop_output(), Some(map_cmd(local_map, MapControl::SetValue(Key(0), encoded(&addr1)))));
    assert_eq!(service.pop_output(), Some(map_cmd(connect_map, MapControl::Sub)));

    service.on_map_event(100, MapEvent::OnSet(Key(1), 2, encoded(&addr2)), Some(addr2.clone()));
    assert_eq!(service.pop_output(), Some(Output::ConnectTo(addr2.clone())));

    service.on_tick(200);
    assert_eq!(service.pop_output(), None);

    service.on_connection(ConnectionEvent::Disconnected(conn_ctx(addr2.node_id())));

    service.on_tick(200);
    assert_eq!(service.pop_output(), None);

    service.on_tick(RETRY_CONNECT_MS);
    assert_eq!(service.pop_output(), Some(Output::ConnectTo(addr2.clone())));
    assert_eq!(service.pop_output(), None);
}

#[test]
fn manual_discovery_ignores_own_address_and_undecodable_values() {
    let addr1 = node_addr(100);
    let mut service = new_service(&addr1);
    service.pop_output();
    service.pop_output();
    service.on_map_event(5, MapEvent::OnSet(Key(1), 100, encoded(&addr1)), Some(addr1.clone()));
    service.on_map_event(5, MapEvent::OnSet(Key(1), 7, vec![1]), None);
    service.on_map_event(5, MapEvent::OnRelaySelected(9), None);
    assert_eq!(service.pop_output(), None);
}

#[test]
fn manual_discovery_rewritten_address_cancels_disconnect() {
    let addr1 = node_addr(100);
    let addr2 = node_addr(101);
    let mut service = new_service(&addr1);
    service.pop_output();
    service.pop_output();
    service.on_map_event(10, MapEvent::OnSet(Key(1), 101, encoded(&addr2)), Some(addr2.clone()));
    service.on_connection(ConnectionEvent::Connected(conn_ctx(101)));
    service.pop_output();
    service.on_map_event(20, MapEvent::OnDel(Key(1), 101), None);
    service.on_map_event(30, MapEvent::OnSet(Key(1), 101, encoded(&addr2)), Some(addr2.clone()));
    assert_eq!(service.pop_output(), Some(Output::ConnectTo(addr2.clone())));
    service.on_tick(20 + WAIT_DISCONNECT_MS);
    // connected: no retry; address written again: no disconnect
    assert_eq!(service.pop_output(), None);
}
