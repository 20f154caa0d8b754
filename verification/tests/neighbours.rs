use atm0s_sdn_network::base::{ConnId, ConnectionCtx, ConnectionEvent, NodeAddr};
use atm0s_sdn_network::neighbours::{Control, Event, NeighboursFeature, Output};
use atm0s_sdn_network::types::{FeatureControlActor, PeerAddr};

fn ctx(node: u32, session: u64) -> ConnectionCtx {
    ConnectionCtx { conn: ConnId::from_out(0, session), node, local: PeerAddr::V4(0x7f000001, 1000), remote: PeerAddr::V4(0x7f000001, node as u16) }
}

fn addr(node: u32) -> NodeAddr {
    NodeAddr { node, addrs: vec![PeerAddr::V4(0x7f000001, node as u16)] }
}

#[test]
fn neighbours_connect_to_and_disconnect_from() {
    let mut f = NeighboursFeature::new();
    f.on_input(FeatureControlActor::Controller, Control::ConnectTo(addr(2), false));
    f.on_input(FeatureControlActor::Controller, Control::DisconnectFrom(3));
    assert_eq!(f.pop_output(), Some(Output::NeighboursConnectTo(addr(2))));
    assert_eq!(f.pop_output(), Some(Output::NeighboursDisconnectFrom(3)));
    assert_eq!(f.pop_output(), None);
}

#[test]
fn neighbours_subscribers_get_connection_events() {
    let mut f = NeighboursFeature::default();
    let a = FeatureControlActor::Service(1);
    let b = FeatureControlActor::Worker(0);
    f.on_input(a, Control::Sub);
    f.on_input(a, Control::Sub);
    f.on_input(b, Control::Sub);
    f.on_connection(ConnectionEvent::Connected(ctx(5, 1)));
    assert_eq!(f.pop_output(), Some(Output::Event(a, Event::Connected(5, ConnId::from_out(0, 1)))));
    assert_eq!(f.pop_output(), Some(Output::Event(b, Event::Connected(5, ConnId::from_out(0, 1)))));
    assert_eq!(f.pop_output(), None);
    f.on_input(a, Control::UnSub);
    f.on_connection(ConnectionEvent::Disconnected(ctx(5, 1)));
    assert_eq!(f.pop_output(), Some(Output::Event(b, Event::Disconnected(5, ConnId::from_out(0, 1)))));
    assert_eq!(f.pop_output(), None);
}

#[test]
fn neighbours_lost_seeds_ask_for_more() {
    let mut f = NeighboursFeature::new();
    let a = FeatureControlActor::Controller;
    f.on_input(a, Control::Sub);
    f.on_input(a, Control::ConnectTo(addr(7), true));
    assert_eq!(f.pop_output(), Some(Output::NeighboursConnectTo(addr(7))));
    f.on_connection(ConnectionEvent::Connecting(ctx(7, 1)));
    f.on_connection(ConnectionEvent::Connecting(ctx(7, 2)));
    // one of the two connections fails: the seed is still reachable
    f.on_connection(ConnectionEvent::ConnectError(ctx(7, 1)));
    assert_eq!(f.pop_output(), None);
    // the other fails too: every seed is lost
    f.on_connection(ConnectionEvent::ConnectError(ctx(7, 2)));
    assert_eq!(f.pop_output(), Some(Output::Event(a, Event::SeedAddressNeeded)));
    assert_eq!(f.pop_output(), None);
    // the seeds were forgotten, so a later failure asks nothing
    f.on_connection(ConnectionEvent::Connecting(ctx(7, 3)));
    f.on_connection(ConnectionEvent::ConnectError(ctx(7, 3)));
    assert_eq!(f.pop_output(), None);
}

#[test]
fn neighbours_shutdown_and_empty() {
    let mut f = NeighboursFeature::new();
    f.on_input(FeatureControlActor::Controller, Control::DisconnectFrom(1));
    f.on_shutdown();
    assert!(!f.is_empty());
    assert!(f.pop_output().is_some());
    assert!(f.is_empty());
    assert_eq!(f.empty_event(), Output::OnResourceEmpty);
}
