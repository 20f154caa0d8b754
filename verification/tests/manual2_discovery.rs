use atm0s_sdn_network::base::{ConnId, ConnectionCtx, ConnectionEvent, NetIncomingMeta, NetOutgoingMeta, RouteRule};
use atm0s_sdn_network::manual2_discovery::{AdvertiseTarget, Manual2DiscoveryService, Output, DATA_PORT};
use atm0s_sdn_network::types::{PeerAddr, ServiceBroadcastLevel};

fn meta(source: Option<u32>, secure: bool) -> NetIncomingMeta {
    NetIncomingMeta { source, ttl: 10, meta: 0, secure }
}

fn ctx(node: u32) -> ConnectionCtx {
    ConnectionCtx { conn: ConnId::from_out(0, 1), node, local: PeerAddr::V4(1, 1), remote: PeerAddr::V4(2, 2) }
}

#[test]
fn manual2_advertises_to_every_target_each_interval() {
    let targets = vec![AdvertiseTarget::new(1, ServiceBroadcastLevel::Global), AdvertiseTarget::new(2, ServiceBroadcastLevel::Geo1)];
    let mut s = Manual2DiscoveryService::new(7, vec![1, 2, 3], targets, 1000);
    assert_eq!(s.pop_output(), Some(Output::DataListen(DATA_PORT)));
    s.on_tick(999);
    assert_eq!(s.pop_output(), None);
    s.on_tick(1000);
    let m = NetOutgoingMeta::new(true, 64, 0, true);
    assert_eq!(s.pop_output(), Some(Output::DataSendRule(DATA_PORT, RouteRule::ToServices(1, ServiceBroadcastLevel::Global, 1), m, vec![1, 2, 3])));
    assert_eq!(s.pop_output(), Some(Output::DataSendRule(DATA_PORT, RouteRule::ToServices(2, ServiceBroadcastLevel::Geo1, 1), m, vec![1, 2, 3])));
    assert_eq!(s.pop_output(), None);
    s.on_tick(1500);
    assert_eq!(s.pop_output(), None);
    s.on_tick(2000);
    assert!(matches!(s.pop_output(), Some(Output::DataSendRule(_, RouteRule::ToServices(1, _, 2), _, _))));
}

#[test]
fn manual2_connects_to_advertised_nodes_only_when_fitting() {
    let mut s = Manual2DiscoveryService::new(7, vec![], vec![], 1000);
    s.pop_output();
    // wrong port, unsecured, anonymous, or from this node: ignored
    s.on_recv(DATA_PORT + 1, meta(Some(3), true), vec![9]);
    s.on_recv(DATA_PORT, meta(Some(3), false), vec![9]);
    s.on_recv(DATA_PORT, meta(None, true), vec![9]);
    s.on_recv(DATA_PORT, meta(Some(7), true), vec![9]);
    assert_eq!(s.pop_output(), None);
    s.on_recv(DATA_PORT, meta(Some(3), true), vec![9]);
    assert_eq!(s.pop_output(), Some(Output::ConnectTo(vec![9])));
    // once connecting to node 3, its advertisements are ignored
    s.on_connection(ConnectionEvent::Connecting(ctx(3)));
    s.on_recv(DATA_PORT, meta(Some(3), true), vec![9]);
    assert_eq!(s.pop_output(), None);
    // after the connection fails, they are taken again
    s.on_connection(ConnectionEvent::ConnectError(ctx(3)));
    s.on_recv(DATA_PORT, meta(Some(3), true), vec![9]);
    assert_eq!(s.pop_output(), Some(Output::ConnectTo(vec![9])));
    s.on_shutdown();
    assert!(s.is_service_empty());
}
