use atm0s_sdn_network::base::{NetIncomingMeta, NetOutgoingMeta, RouteRule, WorkerInput, WorkerOutput};
use atm0s_sdn_network::data::{Control, DataFeature, DataFeatureWorker, DataMsg, Event, FeatureInput, Output, ToWorker, PING_TIMEOUT_MS};
use atm0s_sdn_network::types::FeatureControlActor;

fn meta() -> NetIncomingMeta {
    NetIncomingMeta { source: Some(2), ttl: 10, meta: 0, secure: true }
}

#[test]
fn data_ping_then_pong_reports_rtt() {
    let mut f = DataFeature::default();
    let a = FeatureControlActor::Service(3);
    f.on_input(1, 100, FeatureInput::Control(a, Control::Ping(2)));
    assert_eq!(
        f.pop_output(),
        Some(Output::SendRoute(RouteRule::ToNode(2), NetOutgoingMeta::default(), DataMsg::Ping { id: 0, ts: 100, from: 1 }))
    );
    f.on_input(1, 130, FeatureInput::Net(meta(), DataMsg::Pong { id: 0, ts: 100 }));
    assert_eq!(f.pop_output(), Some(Output::Event(a, Event::Pong(2, Some(30)))));
    // the same pong again is ignored
    f.on_input(1, 140, FeatureInput::Net(meta(), DataMsg::Pong { id: 0, ts: 100 }));
    assert_eq!(f.pop_output(), None);
}

#[test]
fn data_ping_answered_by_remote() {
    let mut f = DataFeature::new();
    f.on_input(5, 7, FeatureInput::Local(meta(), DataMsg::Ping { id: 9, ts: 3, from: 2 }));
    assert_eq!(f.pop_output(), Some(Output::SendRoute(RouteRule::ToNode(2), NetOutgoingMeta::default(), DataMsg::Pong { id: 9, ts: 3 })));
    assert_eq!(f.pop_output(), None);
}

#[test]
fn data_ping_times_out() {
    let mut f = DataFeature::new();
    let a = FeatureControlActor::Controller;
    f.on_input(1, 100, FeatureInput::Control(a, Control::Ping(4)));
    f.on_input(1, 200, FeatureInput::Control(a, Control::Ping(5)));
    assert!(f.pop_output().is_some());
    assert!(f.pop_output().is_some());
    f.on_tick(100 + PING_TIMEOUT_MS - 1);
    assert_eq!(f.pop_output(), None);
    f.on_tick(100 + PING_TIMEOUT_MS);
    assert_eq!(f.pop_output(), Some(Output::Event(a, Event::Pong(4, None))));
    assert_eq!(f.pop_output(), None);
    f.on_tick(200 + PING_TIMEOUT_MS);
    assert_eq!(f.pop_output(), Some(Output::Event(a, Event::Pong(5, None))));
    // a late pong finds nothing waiting
    f.on_input(1, 5000, FeatureInput::Net(meta(), DataMsg::Pong { id: 1, ts: 200 }));
    assert_eq!(f.pop_output(), None);
}

#[test]
fn data_listen_recv_unlisten() {
    let mut f = DataFeature::new();
    let a = FeatureControlActor::Worker(2);
    f.on_input(1, 0, FeatureInput::Net(meta(), DataMsg::Data(80, vec![1, 2])));
    assert_eq!(f.pop_output(), None);
    f.on_input(1, 0, FeatureInput::Control(a, Control::DataListen(80)));
    f.on_input(1, 0, FeatureInput::Net(meta(), DataMsg::Data(80, vec![1, 2])));
    assert_eq!(f.pop_output(), Some(Output::Event(a, Event::Recv(80, meta(), vec![1, 2]))));
    f.on_input(1, 0, FeatureInput::Net(meta(), DataMsg::Data(81, vec![3])));
    assert_eq!(f.pop_output(), None);
    f.on_input(1, 0, FeatureInput::Control(a, Control::DataUnlisten(80)));
    f.on_input(1, 0, FeatureInput::Net(meta(), DataMsg::Data(80, vec![1, 2])));
    assert_eq!(f.pop_output(), None);
}

#[test]
fn data_send_rule_routes_datagram() {
    let mut f = DataFeature::new();
    let m = NetOutgoingMeta::new(true, 5, 7, true);
    f.on_input(1, 0, FeatureInput::Control(FeatureControlActor::Controller, Control::DataSendRule(9, RouteRule::ToService(3), m, vec![4, 5])));
    assert_eq!(f.pop_output(), Some(Output::SendRoute(RouteRule::ToService(3), m, DataMsg::Data(9, vec![4, 5]))));
}

#[test]
fn data_rtt_wraps_around_clock() {
    let mut f = DataFeature::new();
    let a = FeatureControlActor::Controller;
    f.on_input(1, 70_000, FeatureInput::Control(a, Control::Ping(4)));
    f.pop_output();
    f.on_input(1, 70_000 + 65_536 + 12, FeatureInput::Net(meta(), DataMsg::Pong { id: 0, ts: 70_000 }));
    assert_eq!(f.pop_output(), Some(Output::Event(a, Event::Pong(4, Some(12)))));
}

#[test]
fn data_worker_forwards_and_shuts_down() {
    let mut w = DataFeatureWorker::default();
    w.on_input(WorkerInput::Control(FeatureControlActor::Controller, Control::Ping(3)));
    w.on_input(WorkerInput::FromController(ToWorker));
    assert!(!w.is_empty());
    match w.pop_output() {
        Some(WorkerOutput::ForwardControlToController(FeatureControlActor::Controller, Control::Ping(3))) => {},
        _ => panic!("expected the ping to be forwarded"),
    }
    assert!(w.pop_output().is_none());
    w.on_shutdown();
    assert!(w.is_empty());
}
