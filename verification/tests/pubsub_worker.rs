use atm0s_sdn_network::pubsub::channel::Channel;
use atm0s_sdn_network::pubsub::msg::{ChannelId, PubsubMessage, RelayControl, RelayId, RelayWorkerControl, SourceHint};
use atm0s_sdn_network::pubsub::worker::{PubSubFeatureWorker, WorkerInput, WorkerOutput};
use atm0s_sdn_network::pubsub::{ChannelControl, ChannelEvent, Control, Event, ToController, ToWorker};
use atm0s_sdn_network::types::{FeatureControlActor, PeerAddr};

fn addr(last: u8, port: u16) -> PeerAddr {
    PeerAddr::V4(u32::from_be_bytes([10, 0, 0, last]), port)
}

fn ctrl(id: RelayId, c: RelayWorkerControl) -> WorkerInput {
    WorkerInput::FromController(true, ToWorker::RelayControl(id, c))
}

#[test]
fn worker_sub_uses_hint_then_router() {
    let mut w = PubSubFeatureWorker::new();
    let id = RelayId(ChannelId(1), 2);
    w.on_input(9, Some(addr(3, 1)), ctrl(id, RelayWorkerControl::SendSub(5, Some(addr(4, 1)))));
    assert_eq!(w.pop_output(), Some(WorkerOutput::RawDirect2(addr(4, 1), PubsubMessage::Control(id, RelayControl::Sub(5)))));
    w.on_input(9, Some(addr(3, 1)), ctrl(id, RelayWorkerControl::SendSub(5, None)));
    assert_eq!(w.pop_output(), Some(WorkerOutput::RawDirect2(addr(3, 1), PubsubMessage::Control(id, RelayControl::Sub(5)))));
    w.on_input(9, None, ctrl(id, RelayWorkerControl::SendSub(5, None)));
    assert_eq!(w.pop_output(), None);
}

#[test]
fn worker_relays_data_only_from_source() {
    let mut w = PubSubFeatureWorker::new();
    let id = RelayId(ChannelId(7), 2);
    let source = addr(1, 100);
    let consumer = addr(2, 100);
    w.on_input(9, None, ctrl(id, RelayWorkerControl::RouteSetSource(source)));
    w.on_input(9, None, ctrl(id, RelayWorkerControl::RouteSetLocal(FeatureControlActor::Controller)));
    w.on_input(9, None, ctrl(id, RelayWorkerControl::RouteSetRemote(consumer, 44)));
    assert_eq!(w.pop_output(), None);

    w.on_network_msg(addr(3, 100), PubsubMessage::Data(id, vec![1, 2]));
    assert_eq!(w.pop_output(), None);

    w.on_network_msg(source, PubsubMessage::Data(id, vec![1, 2]));
    assert_eq!(
        w.pop_output(),
        Some(WorkerOutput::Event(FeatureControlActor::Controller, Event(ChannelId(7), ChannelEvent::SourceData(2, vec![1, 2]))))
    );
    assert_eq!(w.pop_output(), Some(WorkerOutput::RawBroadcast2(vec![consumer], PubsubMessage::Data(id, vec![1, 2]))));
    assert_eq!(w.pop_output(), None);

    w.on_input(9, None, ctrl(id, RelayWorkerControl::SendRouteChanged));
    assert_eq!(w.pop_output(), Some(WorkerOutput::RawDirect2(consumer, PubsubMessage::Control(id, RelayControl::RouteChanged(44)))));
    assert_eq!(w.pop_output(), None);
}

#[test]
fn worker_drops_relay_without_consumers() {
    let mut w = PubSubFeatureWorker::new();
    let id = RelayId(ChannelId(3), 9);
    w.on_input(9, None, ctrl(id, RelayWorkerControl::RouteSetLocal(FeatureControlActor::Worker(1))));
    assert!(w.relay(id).is_some());
    assert!(!w.relay(id).unwrap().is_empty());
    w.on_input(9, None, ctrl(id, RelayWorkerControl::RouteDelLocal(FeatureControlActor::Worker(1))));
    assert!(w.relay(id).is_none());

    w.on_input(9, None, WorkerInput::Control(FeatureControlActor::Worker(1), Control(ChannelId(3), ChannelControl::PubData(vec![5]))));
    assert_eq!(w.pop_output(), None);
}

#[test]
fn worker_publishes_local_data() {
    let mut w = PubSubFeatureWorker::new();
    let id = RelayId(ChannelId(3), 9);
    w.on_input(9, None, ctrl(id, RelayWorkerControl::RouteSetLocal(FeatureControlActor::Service(2))));
    w.on_input(9, None, WorkerInput::Control(FeatureControlActor::Worker(1), Control(ChannelId(3), ChannelControl::PubData(vec![5]))));
    assert_eq!(
        w.pop_output(),
        Some(WorkerOutput::Event(FeatureControlActor::Service(2), Event(ChannelId(3), ChannelEvent::SourceData(9, vec![5]))))
    );
    assert_eq!(w.pop_output(), None);

    w.on_input(9, None, WorkerInput::Control(FeatureControlActor::Worker(1), Control(ChannelId(3), ChannelControl::SubAuto)));
    assert_eq!(
        w.pop_output(),
        Some(WorkerOutput::ForwardControlToController(FeatureControlActor::Worker(1), Control(ChannelId(3), ChannelControl::SubAuto)))
    );
}

#[test]
fn worker_forwards_network_controls() {
    let mut w = PubSubFeatureWorker::new();
    let id = RelayId(ChannelId(3), 9);
    w.on_network_msg(addr(5, 5), PubsubMessage::Control(id, RelayControl::Sub(1)));
    assert_eq!(w.pop_output(), Some(WorkerOutput::ToController(ToController::RelayControl(addr(5, 5), id, RelayControl::Sub(1)))));
    w.on_network_msg(addr(5, 5), PubsubMessage::SourceHint(ChannelId(3), SourceHint::Subscribe(4)));
    assert_eq!(w.pop_output(), Some(WorkerOutput::ToController(ToController::SourceHint(addr(5, 5), ChannelId(3), SourceHint::Subscribe(4)))));

    w.on_input(9, Some(addr(8, 8)), WorkerInput::FromController(true, ToWorker::SourceHint(ChannelId(3), None, SourceHint::Subscribe(4))));
    assert_eq!(w.pop_output(), Some(WorkerOutput::RawDirect2(addr(8, 8), PubsubMessage::SourceHint(ChannelId(3), SourceHint::Subscribe(4)))));
    assert!(!w.is_empty());
    w.on_shutdown();
    assert!(w.is_empty());
    assert_eq!(w.empty_event(), WorkerOutput::OnResourceEmpty);
}

#[test]
fn channel_has_no_output() {
    let mut c = Channel {};
    c.on_tick(5);
    assert!(c.pop_output().is_none());
}
