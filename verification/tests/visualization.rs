use atm0s_sdn_network::base::{
    ConnId, ConnectionCtx, ConnectionEvent, NetIncomingMeta, NetOutgoingMeta, RouteRule, ServiceControlActor, ServiceWorkerInput, ServiceWorkerOutput,
};
use atm0s_sdn_network::transport::ConnectionStats;
use atm0s_sdn_network::types::{NodeId, PeerAddr, ServiceBroadcastLevel};
use atm0s_sdn_network::visualization::{
    ConnectionInfo, Control, Event, Message, Output, VisualizationService, VisualizationServiceWorker, DATA_PORT, NODE_PING_MS,
    NODE_PING_TTL, NODE_TIMEOUT_MS, SERVICE_ID,
};

fn ctx(node: NodeId) -> ConnectionCtx {
    ConnectionCtx { conn: ConnId::from_in(0, node as u64), node, local: PeerAddr::V4(0x01010101, 1000), remote: PeerAddr::V4(0x02020202, 2000) }
}

fn connected_event(node: NodeId) -> ConnectionEvent {
    ConnectionEvent::Connected(ctx(node))
}

fn disconnected_event(node: NodeId) -> ConnectionEvent {
    ConnectionEvent::Disconnected(ctx(node))
}

fn secure_meta() -> NetIncomingMeta {
    NetIncomingMeta { source: None, ttl: NODE_PING_TTL, meta: 0, secure: true }
}

#[test]
fn agent_should_prediotic_sending_snapshot() {
    let node_info = vec![1u8];
    let node_id = 1;
    let mut service = VisualizationService::new(node_info.clone());

    assert_eq!(service.pop_output(), Some(Output::DataListen(DATA_PORT)));
    assert_eq!(service.pop_output(), None);

    service.on_tick(node_id, NODE_PING_MS);
    assert_eq!(
        service.pop_output(),
        Some(Output::DataSendRule(
            DATA_PORT,
            RouteRule::ToServices(SERVICE_ID, ServiceBroadcastLevel::Global, 0),
            NetOutgoingMeta::new(false, NODE_PING_TTL, 0, true),
            Message::Snapshot(node_id, node_info.clone(), vec![])
        ))
    );

    service.on_tick(node_id, NODE_PING_MS * 2);
    assert_eq!(
        service.pop_output(),
        Some(Output::DataSendRule(
            DATA_PORT,
            RouteRule::ToServices(SERVICE_ID, ServiceBroadcastLevel::Global, 1),
            NetOutgoingMeta::new(false, NODE_PING_TTL, 0, true),
            Message::Snapshot(node_id, node_info.clone(), vec![])
        ))
    );
}

#[test]
fn agent_handle_connection_event() {
    let node_info = vec![1u8];
    let mut service = VisualizationService::new(node_info);

    let node2 = 2;
    let node3 = 3;

    service.on_connection(connected_event(node2));
    service.on_connection(connected_event(node3));

    assert_eq!(service.conn_count(), 2);

    service.on_connection(disconnected_event(node3));
    assert_eq!(service.conn_count(), 1);
}

#[test]
fn collector_handle_snapshot_correct() {
    let node_info = vec![1u8];
    let mut service = VisualizationService::new(node_info.clone());

    let node2_info = vec![2u8];
    let node2 = 2;

    let snapshot = Message::Snapshot(node2, node2_info, vec![]);
    service.on_message(100, secure_meta(), snapshot);

    assert_eq!(service.node_count(), 1);

    //auto delete after timeout
    service.on_tick(1, 100 + NODE_TIMEOUT_MS);
    assert_eq!(service.node_count(), 0);
}

#[test]
fn visualization_snapshot_lists_connections_in_order() {
    let mut service = VisualizationService::new(vec![9]);
    service.pop_output();
    service.on_connection(connected_event(7));
    service.on_connection(connected_event(3));
    service.on_connection(ConnectionEvent::Stats(
        ctx(7),
        ConnectionStats { rtt_ms: 42, sending_kbps: 0, send_est_kbps: 0, loss_percent: 0, over_use: false },
    ));
    service.on_tick(1, NODE_PING_MS);
    let info = |node: NodeId, rtt_ms: u32| ConnectionInfo { conn: ConnId::from_in(0, node as u64), dest: node, local: PeerAddr::V4(0x01010101, 1000), remote: PeerAddr::V4(0x02020202, 2000), rtt_ms };
    match service.pop_output() {
        Some(Output::DataSendRule(_, _, _, Message::Snapshot(1, i, conns))) => {
            assert_eq!(i, vec![9]);
            assert_eq!(conns, vec![info(3, 1000), info(7, 42)]);
        },
        other => panic!("expected a snapshot, got {:?}", other),
    }
    // not yet due again
    service.on_tick(1, NODE_PING_MS + 1);
    assert_eq!(service.pop_output(), None);
}

#[test]
fn visualization_subscriber_sees_changes() {
    let mut service = VisualizationService::new(vec![]);
    service.pop_output();
    let a = ServiceControlActor::Worker(4);
    service.on_message(10, secure_meta(), Message::Snapshot(5, vec![5], vec![]));
    service.on_control(a, Control::Subscribe);
    assert_eq!(service.pop_output(), Some(Output::Event(a, Event::GotAll(vec![(5, vec![5], vec![])]))));
    service.on_control(a, Control::Subscribe);
    assert_eq!(service.pop_output(), None);
    // unsecured snapshots are ignored
    service.on_message(11, NetIncomingMeta { secure: false, ..secure_meta() }, Message::Snapshot(6, vec![6], vec![]));
    assert_eq!(service.pop_output(), None);
    service.on_message(12, secure_meta(), Message::Snapshot(4, vec![4], vec![]));
    assert_eq!(service.pop_output(), Some(Output::Event(a, Event::NodeChanged(4, vec![4], vec![]))));
    service.on_control(ServiceControlActor::Controller, Control::GetAll);
    assert_eq!(
        service.pop_output(),
        Some(Output::Event(ServiceControlActor::Controller, Event::GotAll(vec![(4, vec![4], vec![]), (5, vec![5], vec![])])))
    );
    service.on_tick(1, 10 + NODE_TIMEOUT_MS);
    assert_eq!(service.pop_output(), Some(Output::Event(a, Event::NodeRemoved(5))));
    service.on_control(a, Control::UpdateInfo(vec![7]));
    assert_eq!(service.node_count(), 1);
}

#[test]
fn visualization_worker_forwards() {
    let mut w = VisualizationServiceWorker::new();
    w.on_input(ServiceWorkerInput::Control(ServiceControlActor::Controller, Control::GetAll));
    w.on_input(ServiceWorkerInput::FromController);
    match w.pop_output() {
        Some(ServiceWorkerOutput::ForwardControlToController(ServiceControlActor::Controller, Control::GetAll)) => {},
        _ => panic!("expected the control to be forwarded"),
    }
    assert!(w.pop_output().is_none());
    assert!(!w.is_service_empty());
    w.on_shutdown();
    assert!(w.is_service_empty());
}
