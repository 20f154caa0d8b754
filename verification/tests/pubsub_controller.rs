use atm0s_sdn_network::base::{ConnId, ConnectionCtx, ConnectionEvent};
use atm0s_sdn_network::pubsub::controller::{FeatureInput, Output};
use atm0s_sdn_network::pubsub::msg::{ChannelId, Feedback, RelayControl, RelayId, RelayWorkerControl, SourceHint};
use atm0s_sdn_network::pubsub::{ChannelControl, ChannelEvent, Control, Event, PubSubFeature, ToController, ToWorker};
use atm0s_sdn_network::types::{FeatureControlActor, PeerAddr};

const NODE: u32 = 1;
const SESSION: u64 = 100;

fn addr(port: u16) -> PeerAddr {
    PeerAddr::V4(u32::from_be_bytes([127, 0, 0, 1]), port)
}

fn control(c: &mut PubSubFeature, now: u64, actor: FeatureControlActor, channel: ChannelId, ctrl: ChannelControl) {
    c.on_input(NODE, SESSION, now, FeatureInput::Control(actor, Control(channel, ctrl)));
}

fn relay_cmd(id: RelayId, cmd: RelayWorkerControl) -> Option<Output> {
    Some(Output::ToWorker(true, ToWorker::RelayControl(id, cmd)))
}

#[test]
fn controller_local_source_delivers_published_data() {
    let mut c = PubSubFeature::new();
    let ch = ChannelId(10);
    let id = RelayId(ch, NODE);
    control(&mut c, 0, FeatureControlActor::Worker(1), ch, ChannelControl::SubSource(NODE));
    assert_eq!(c.pop_output(), relay_cmd(id, RelayWorkerControl::RouteSetLocal(FeatureControlActor::Worker(1))));
    assert_eq!(c.pop_output(), None);

    control(&mut c, 0, FeatureControlActor::Controller, ch, ChannelControl::PubData(vec![1, 2, 3]));
    assert_eq!(
        c.pop_output(),
        Some(Output::Event(FeatureControlActor::Worker(1), Event(ch, ChannelEvent::SourceData(NODE, vec![1, 2, 3]))))
    );
    assert_eq!(c.pop_output(), None);
}

#[test]
fn controller_publish_without_relay_is_dropped() {
    let mut c = PubSubFeature::new();
    control(&mut c, 0, FeatureControlActor::Controller, ChannelId(10), ChannelControl::PubData(vec![1]));
    assert_eq!(c.pop_output(), None);
}

#[test]
fn controller_remote_consumer_gets_data_through_workers() {
    let mut c = PubSubFeature::new();
    let ch = ChannelId(10);
    let id = RelayId(ch, NODE);
    c.on_input(NODE, SESSION, 0, FeatureInput::FromWorker(ToController::RelayControl(addr(1000), id, RelayControl::Sub(55))));
    assert_eq!(c.pop_output(), relay_cmd(id, RelayWorkerControl::SendSubOk(55, addr(1000))));
    assert_eq!(c.pop_output(), relay_cmd(id, RelayWorkerControl::RouteSetRemote(addr(1000), 55)));
    assert_eq!(c.pop_output(), None);

    control(&mut c, 0, FeatureControlActor::Controller, ch, ChannelControl::PubData(vec![7]));
    assert_eq!(c.pop_output(), Some(Output::ToWorker(true, ToWorker::RelayData(id, vec![7]))));
    assert_eq!(c.pop_output(), None);

    // the remote consumer's connection closes
    let ctx = ConnectionCtx { conn: ConnId::from_out(0, 1), node: 2, local: addr(2000), remote: addr(1000) };
    c.on_connection(0, ConnectionEvent::Disconnected(ctx));
    assert_eq!(c.pop_output(), relay_cmd(id, RelayWorkerControl::RouteDelRemote(addr(1000))));
    assert_eq!(c.pop_output(), None);
}

#[test]
fn controller_remote_source_sub_unsub_clears_relay() {
    let mut c = PubSubFeature::new();
    let ch = ChannelId(10);
    let id = RelayId(ch, 2);
    control(&mut c, 0, FeatureControlActor::Worker(1), ch, ChannelControl::SubSource(2));
    assert_eq!(c.pop_output(), relay_cmd(id, RelayWorkerControl::RouteSetLocal(FeatureControlActor::Worker(1))));
    assert_eq!(c.pop_output(), relay_cmd(id, RelayWorkerControl::SendSub(SESSION, None)));
    assert_eq!(c.pop_output(), None);

    control(&mut c, 0, FeatureControlActor::Worker(1), ch, ChannelControl::UnsubSource(2));
    assert_eq!(c.pop_output(), relay_cmd(id, RelayWorkerControl::RouteDelLocal(FeatureControlActor::Worker(1))));
    assert_eq!(c.pop_output(), None);

    // the relay was dropped: a new subscription starts a new one
    control(&mut c, 0, FeatureControlActor::Worker(2), ch, ChannelControl::SubSource(2));
    assert_eq!(c.pop_output(), relay_cmd(id, RelayWorkerControl::RouteSetLocal(FeatureControlActor::Worker(2))));
    assert_eq!(c.pop_output(), relay_cmd(id, RelayWorkerControl::SendSub(SESSION, None)));
    assert_eq!(c.pop_output(), None);
}

#[test]
fn controller_unsub_unknown_source_does_nothing() {
    let mut c = PubSubFeature::new();
    control(&mut c, 0, FeatureControlActor::Worker(1), ChannelId(10), ChannelControl::UnsubSource(2));
    assert_eq!(c.pop_output(), None);
}

#[test]
fn controller_sub_auto_asks_next_hop() {
    let mut c = PubSubFeature::new();
    let ch = ChannelId(10);
    control(&mut c, 0, FeatureControlActor::Worker(1), ch, ChannelControl::SubAuto);
    assert_eq!(c.pop_output(), Some(Output::ToWorker(true, ToWorker::SourceHint(ch, None, SourceHint::Subscribe(SESSION)))));
    assert_eq!(c.pop_output(), None);
}

#[test]
fn controller_pub_start_subscribes_local_subscribers() {
    let mut c = PubSubFeature::new();
    let ch = ChannelId(10);
    control(&mut c, 0, FeatureControlActor::Worker(1), ch, ChannelControl::SubAuto);
    assert_eq!(c.pop_output(), Some(Output::ToWorker(true, ToWorker::SourceHint(ch, None, SourceHint::Subscribe(SESSION)))));

    control(&mut c, 0, FeatureControlActor::Controller, ch, ChannelControl::PubStart);
    assert_eq!(
        c.pop_output(),
        Some(Output::ToWorker(true, ToWorker::SourceHint(ch, None, SourceHint::Register { source: NODE, to_root: true })))
    );
    assert_eq!(c.pop_output(), relay_cmd(RelayId(ch, NODE), RelayWorkerControl::RouteSetLocal(FeatureControlActor::Worker(1))));
    assert_eq!(c.pop_output(), None);

    control(&mut c, 0, FeatureControlActor::Controller, ch, ChannelControl::PubData(vec![9]));
    assert_eq!(
        c.pop_output(),
        Some(Output::Event(FeatureControlActor::Worker(1), Event(ch, ChannelEvent::SourceData(NODE, vec![9]))))
    );
    assert_eq!(c.pop_output(), None);
}

#[test]
fn controller_feedback_without_hints_does_nothing() {
    let mut c = PubSubFeature::new();
    let fb = Feedback::simple(1, 10, 1000, 2000);
    control(&mut c, 0, FeatureControlActor::Worker(1), ChannelId(10), ChannelControl::FeedbackAuto(fb));
    assert_eq!(c.pop_output(), None);
}

#[test]
fn controller_tick_keeps_binding_relay_asking() {
    let mut c = PubSubFeature::new();
    let ch = ChannelId(10);
    let id = RelayId(ch, 2);
    control(&mut c, 0, FeatureControlActor::Worker(1), ch, ChannelControl::SubSource(2));
    while c.pop_output().is_some() {}
    c.on_tick(NODE, SESSION, 1000);
    assert_eq!(c.pop_output(), relay_cmd(id, RelayWorkerControl::SendSub(SESSION, None)));
    assert_eq!(c.pop_output(), None);
}

#[test]
fn controller_remote_subscribe_answered_with_sources() {
    let mut c = PubSubFeature::new();
    let ch = ChannelId(10);
    control(&mut c, 0, FeatureControlActor::Controller, ch, ChannelControl::PubStart);
    assert_eq!(
        c.pop_output(),
        Some(Output::ToWorker(true, ToWorker::SourceHint(ch, None, SourceHint::Register { source: NODE, to_root: true })))
    );
    assert_eq!(c.pop_output(), None);

    c.on_input(NODE, SESSION, 0, FeatureInput::FromWorker(ToController::SourceHint(addr(1234), ch, SourceHint::Subscribe(4321))));
    assert_eq!(c.pop_output(), Some(Output::ToWorker(true, ToWorker::SourceHint(ch, Some(addr(1234)), SourceHint::SubscribeOk(4321)))));
    assert_eq!(c.pop_output(), Some(Output::ToWorker(true, ToWorker::SourceHint(ch, None, SourceHint::Subscribe(SESSION)))));
    assert_eq!(c.pop_output(), Some(Output::ToWorker(true, ToWorker::SourceHint(ch, Some(addr(1234)), SourceHint::Sources(vec![NODE])))));
    assert_eq!(c.pop_output(), None);
}

#[test]
fn controller_unknown_channel_hint_is_ignored() {
    let mut c = PubSubFeature::new();
    let ch = ChannelId(10);
    // an unsubscription from an unknown channel creates nothing and sends nothing
    c.on_input(NODE, SESSION, 0, FeatureInput::FromWorker(ToController::SourceHint(addr(1234), ch, SourceHint::Unsubscribe(4321))));
    assert_eq!(c.pop_output(), None);
    control(&mut c, 0, FeatureControlActor::Worker(1), ch, ChannelControl::UnsubAuto);
    assert_eq!(c.pop_output(), None);
}
