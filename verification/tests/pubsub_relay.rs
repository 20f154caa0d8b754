use atm0s_sdn_network::pubsub::consumers::RelayConsummers;
use atm0s_sdn_network::pubsub::feedbacks::FeedbacksAggerator;
use atm0s_sdn_network::pubsub::local_relay::LocalRelay;
use atm0s_sdn_network::pubsub::msg::{Feedback, RelayControl, RelayWorkerControl};
use atm0s_sdn_network::pubsub::relay::GenericRelayOutput;
use atm0s_sdn_network::pubsub::remote_relay::RemoteRelay;
use atm0s_sdn_network::pubsub::{RELAY_STICKY_MS, RELAY_TIMEOUT};
use atm0s_sdn_network::types::{FeatureControlActor, PeerAddr};

fn addr(a: u8, b: u8, c: u8, d: u8, port: u16) -> PeerAddr {
    PeerAddr::V4(u32::from_be_bytes([a, b, c, d]), port)
}

#[test]
fn relay_local_should_work_single_sub() {
    let mut consumers = RelayConsummers::default();
    consumers.on_local_sub(0, FeatureControlActor::Controller);

    assert_eq!(consumers.pop_output(), Some(RelayWorkerControl::RouteSetLocal(FeatureControlActor::Controller)));
    assert_eq!(consumers.pop_output(), None);

    assert_eq!(consumers.relay_dests(), (&[FeatureControlActor::Controller] as &[_], false));
    assert_eq!(consumers.should_clear(), false);

    consumers.on_local_unsub(100, FeatureControlActor::Controller);

    assert_eq!(consumers.pop_output(), Some(RelayWorkerControl::RouteDelLocal(FeatureControlActor::Controller)));
    assert_eq!(consumers.pop_output(), None);

    assert_eq!(consumers.relay_dests(), (&[] as &[_], false));
    assert_eq!(consumers.should_clear(), true);
}

#[test]
fn relay_local_should_work_multi_subs() {
    let mut consumers = RelayConsummers::default();
    consumers.on_local_sub(0, FeatureControlActor::Controller);

    assert_eq!(consumers.pop_output(), Some(RelayWorkerControl::RouteSetLocal(FeatureControlActor::Controller)));
    assert_eq!(consumers.pop_output(), None);

    consumers.on_local_sub(0, FeatureControlActor::Service(1.into()));

    assert_eq!(consumers.pop_output(), Some(RelayWorkerControl::RouteSetLocal(FeatureControlActor::Service(1.into()))));
    assert_eq!(consumers.pop_output(), None);

    assert_eq!(consumers.relay_dests(), (&[FeatureControlActor::Controller, FeatureControlActor::Service(1.into())] as &[_], false));
    assert_eq!(consumers.should_clear(), false);

    consumers.on_local_unsub(100, FeatureControlActor::Controller);

    assert_eq!(consumers.pop_output(), Some(RelayWorkerControl::RouteDelLocal(FeatureControlActor::Controller)));
    assert_eq!(consumers.pop_output(), None);

    assert_eq!(consumers.relay_dests(), (&[FeatureControlActor::Service(1.into())] as &[_], false));
    assert_eq!(consumers.should_clear(), false);

    consumers.on_local_unsub(100, FeatureControlActor::Service(1.into()));

    assert_eq!(consumers.pop_output(), Some(RelayWorkerControl::RouteDelLocal(FeatureControlActor::Service(1.into()))));
    assert_eq!(consumers.pop_output(), None);

    assert_eq!(consumers.relay_dests(), (&[] as &[_], false));
    assert_eq!(consumers.should_clear(), true);
}

#[test]
fn relay_remote_should_work_single_sub() {
    let mut consumers = RelayConsummers::default();

    let remote = addr(127, 0, 0, 1, 8080);

    consumers.on_remote(0, remote, RelayControl::Sub(1000));

    assert_eq!(consumers.pop_output(), Some(RelayWorkerControl::SendSubOk(1000, remote)));
    assert_eq!(consumers.pop_output(), Some(RelayWorkerControl::RouteSetRemote(remote, 1000)));
    assert_eq!(consumers.pop_output(), None);

    assert_eq!(consumers.relay_dests(), (&[] as &[_], true));
    assert_eq!(consumers.should_clear(), false);

    consumers.on_remote(100, remote, RelayControl::Unsub(1000));

    assert_eq!(consumers.pop_output(), Some(RelayWorkerControl::SendUnsubOk(1000, remote)));
    assert_eq!(consumers.pop_output(), Some(RelayWorkerControl::RouteDelRemote(remote)));
    assert_eq!(consumers.pop_output(), None);

    assert_eq!(consumers.relay_dests(), (&[] as &[_], false));
    assert_eq!(consumers.should_clear(), true);
}

#[test]
fn relay_remote_should_work_multi_subs() {
    let mut consumers = RelayConsummers::default();

    let remote1 = addr(127, 0, 0, 1, 8080);
    let remote2 = addr(127, 0, 0, 2, 8080);

    consumers.on_remote(0, remote1, RelayControl::Sub(1000));

    assert_eq!(consumers.pop_output(), Some(RelayWorkerControl::SendSubOk(1000, remote1)));
    assert_eq!(consumers.pop_output(), Some(RelayWorkerControl::RouteSetRemote(remote1, 1000)));
    assert_eq!(consumers.pop_output(), None);

    consumers.on_remote(0, remote2, RelayControl::Sub(1001));

    assert_eq!(consumers.pop_output(), Some(RelayWorkerControl::SendSubOk(1001, remote2)));
    assert_eq!(consumers.pop_output(), Some(RelayWorkerControl::RouteSetRemote(remote2, 1001)));
    assert_eq!(consumers.pop_output(), None);

    assert_eq!(consumers.relay_dests(), (&[] as &[_], true));
    assert_eq!(consumers.should_clear(), false);

    consumers.on_remote(100, remote1, RelayControl::Unsub(1000));

    assert_eq!(consumers.pop_output(), Some(RelayWorkerControl::SendUnsubOk(1000, remote1)));
    assert_eq!(consumers.pop_output(), Some(RelayWorkerControl::RouteDelRemote(remote1)));
    assert_eq!(consumers.pop_output(), None);

    assert_eq!(consumers.relay_dests(), (&[] as &[_], true));
    assert_eq!(consumers.should_clear(), false);

    consumers.on_remote(200, remote2, RelayControl::Unsub(1001));

    assert_eq!(consumers.pop_output(), Some(RelayWorkerControl::SendUnsubOk(1001, remote2)));
    assert_eq!(consumers.pop_output(), Some(RelayWorkerControl::RouteDelRemote(remote2)));
    assert_eq!(consumers.pop_output(), None);

    assert_eq!(consumers.relay_dests(), (&[] as &[_], false));
    assert_eq!(consumers.should_clear(), true);
}

#[test]
fn relay_should_work_both_local_and_remote() {
    let mut consumers = RelayConsummers::default();

    let remote1 = addr(127, 0, 0, 1, 8080);

    consumers.on_remote(0, remote1, RelayControl::Sub(1000));

    assert_eq!(consumers.pop_output(), Some(RelayWorkerControl::SendSubOk(1000, remote1)));
    assert_eq!(consumers.pop_output(), Some(RelayWorkerControl::RouteSetRemote(remote1, 1000)));
    assert_eq!(consumers.pop_output(), None);

    consumers.on_local_sub(0, FeatureControlActor::Controller);

    assert_eq!(consumers.pop_output(), Some(RelayWorkerControl::RouteSetLocal(FeatureControlActor::Controller)));
    assert_eq!(consumers.pop_output(), None);

    assert_eq!(consumers.relay_dests(), (&[FeatureControlActor::Controller] as &[_], true));
    assert_eq!(consumers.should_clear(), false);

    consumers.on_remote(100, remote1, RelayControl::Unsub(1000));

    assert_eq!(consumers.pop_output(), Some(RelayWorkerControl::SendUnsubOk(1000, remote1)));
    assert_eq!(consumers.pop_output(), Some(RelayWorkerControl::RouteDelRemote(remote1)));
    assert_eq!(consumers.pop_output(), None);

    assert_eq!(consumers.relay_dests(), (&[FeatureControlActor::Controller] as &[_], false));
    assert_eq!(consumers.should_clear(), false);

    consumers.on_local_unsub(200, FeatureControlActor::Controller);

    assert_eq!(consumers.pop_output(), Some(RelayWorkerControl::RouteDelLocal(FeatureControlActor::Controller)));
    assert_eq!(consumers.pop_output(), None);

    assert_eq!(consumers.relay_dests(), (&[] as &[_], false));
    assert_eq!(consumers.should_clear(), true);
}

#[test]
fn consumers_remote_timeout_removes_route() {
    let mut consumers = RelayConsummers::default();
    let remote = addr(10, 0, 0, 1, 9000);
    consumers.on_remote(0, remote, RelayControl::Sub(7));
    assert_eq!(consumers.pop_output(), Some(RelayWorkerControl::SendSubOk(7, remote)));
    assert_eq!(consumers.pop_output(), Some(RelayWorkerControl::RouteSetRemote(remote, 7)));

    consumers.on_tick(RELAY_TIMEOUT - 1);
    assert_eq!(consumers.pop_output(), None);
    assert_eq!(consumers.should_clear(), false);

    consumers.on_tick(RELAY_TIMEOUT);
    assert_eq!(consumers.pop_output(), Some(RelayWorkerControl::RouteDelRemote(remote)));
    assert_eq!(consumers.pop_output(), None);
    assert_eq!(consumers.should_clear(), true);
}

#[test]
fn aggerator_single() {
    let mut aggerator = FeedbacksAggerator::default();
    let fb = Feedback::simple(0, 10, 1000, 2000);
    aggerator.on_local_feedback(1, FeatureControlActor::Controller, fb);
    aggerator.on_tick(2);
    assert_eq!(aggerator.pop_output(), Some(fb));
    assert_eq!(aggerator.pop_output(), None);
}

#[test]
fn aggerator_single_rewrite() {
    let mut aggerator = FeedbacksAggerator::default();
    let fb = Feedback::simple(0, 10, 1000, 2000);
    aggerator.on_local_feedback(0, FeatureControlActor::Controller, fb);
    assert_eq!(aggerator.pop_output(), Some(fb));
    assert_eq!(aggerator.pop_output(), None);

    let fb = Feedback::simple(0, 11, 1000, 2000);
    aggerator.on_local_feedback(2, FeatureControlActor::Controller, fb);
    aggerator.on_tick(2000);
    assert_eq!(aggerator.pop_output(), Some(fb));
    assert_eq!(aggerator.pop_output(), None);
}

#[test]
fn aggerator_multi_sources() {
    let mut aggerator = FeedbacksAggerator::default();
    let fb = Feedback::simple(0, 10, 1000, 2000);
    aggerator.on_local_feedback(1, FeatureControlActor::Controller, fb);
    assert_eq!(aggerator.pop_output(), Some(fb));
    assert_eq!(aggerator.pop_output(), None);

    let fb = Feedback::simple(0, 20, 1500, 3000);
    aggerator.on_local_feedback(2, FeatureControlActor::Worker(0), fb);

    aggerator.on_tick(1000);
    assert_eq!(
        aggerator.pop_output(),
        Some(Feedback {
            kind: 0,
            count: 2,
            max: 20,
            min: 10,
            sum: 30,
            interval_ms: 1000,
            timeout_ms: 3000,
        })
    );
    assert_eq!(aggerator.pop_output(), None);
}

#[test]
fn aggerator_multi_types() {
    let mut aggerator = FeedbacksAggerator::default();
    let fb1 = Feedback::simple(0, 10, 1000, 2000);
    aggerator.on_local_feedback(1, FeatureControlActor::Controller, fb1);

    let fb2 = Feedback::simple(1, 20, 1500, 3000);
    aggerator.on_local_feedback(2, FeatureControlActor::Controller, fb2);

    aggerator.on_tick(3);
    assert_eq!(aggerator.pop_output(), Some(fb1));
    assert_eq!(aggerator.pop_output(), Some(fb2));
    assert_eq!(aggerator.pop_output(), None);
}

#[test]
fn aggerator_auto_clear_kind_nodata() {
    let mut aggerator = FeedbacksAggerator::default();
    let fb1 = Feedback::simple(0, 10, 1000, 2000);
    aggerator.on_local_feedback(0, FeatureControlActor::Controller, fb1);

    assert_eq!(aggerator.kinds_len(), 1);

    aggerator.on_tick(2000);
    assert_eq!(aggerator.kinds_len(), 0);
}

#[test]
fn feedback_add_merges() {
    let a = Feedback::simple(3, 10, 1000, 2000);
    let b = Feedback { kind: 3, count: 2, max: 40, min: 5, sum: 45, interval_ms: 500, timeout_ms: 1500 };
    assert_eq!(a + b, Feedback { kind: 3, count: 3, max: 40, min: 5, sum: 55, interval_ms: 500, timeout_ms: 2000 });
}

fn create_local_bound_relay(uuid: u64, actor: FeatureControlActor, remote: PeerAddr) -> RemoteRelay {
    let mut relay = RemoteRelay::new(uuid);

    relay.on_local_sub(0, actor);

    assert_eq!(relay.pop_output(), Some(GenericRelayOutput::ToWorker(RelayWorkerControl::RouteSetLocal(actor))));
    assert_eq!(relay.pop_output(), Some(GenericRelayOutput::ToWorker(RelayWorkerControl::SendSub(uuid, None))));
    assert_eq!(relay.pop_output(), None);

    relay.on_remote(0, remote, RelayControl::SubOK(uuid));
    assert_eq!(relay.pop_output(), Some(GenericRelayOutput::ToWorker(RelayWorkerControl::RouteSetSource(remote))));

    relay
}

#[test]
fn on_local_sub_unsub() {
    let mut relay = RemoteRelay::new(1000);

    relay.on_local_sub(100, FeatureControlActor::Controller);

    assert_eq!(relay.pop_output(), Some(GenericRelayOutput::ToWorker(RelayWorkerControl::RouteSetLocal(FeatureControlActor::Controller))));
    assert_eq!(relay.pop_output(), Some(GenericRelayOutput::ToWorker(RelayWorkerControl::SendSub(1000, None))));
    assert_eq!(relay.pop_output(), None);
    assert!(!relay.should_clear());

    let remote = addr(127, 0, 0, 1, 1234);
    relay.on_remote(200, remote, RelayControl::SubOK(1000));
    assert_eq!(relay.pop_output(), Some(GenericRelayOutput::ToWorker(RelayWorkerControl::RouteSetSource(remote))));

    relay.on_local_unsub(300, FeatureControlActor::Controller);

    assert_eq!(relay.pop_output(), Some(GenericRelayOutput::ToWorker(RelayWorkerControl::RouteDelLocal(FeatureControlActor::Controller))));
    assert_eq!(relay.pop_output(), Some(GenericRelayOutput::ToWorker(RelayWorkerControl::SendUnsub(1000, remote))));
    assert_eq!(relay.pop_output(), Some(GenericRelayOutput::ToWorker(RelayWorkerControl::RouteDelSource(remote))));
    assert_eq!(relay.pop_output(), None);

    assert!(!relay.should_clear());

    relay.on_remote(400, remote, RelayControl::UnsubOK(1000));

    assert!(relay.should_clear());
}

#[test]
fn on_remote_sub_unsub() {
    let mut relay = RemoteRelay::new(1000);

    let consumer = addr(127, 0, 0, 1, 1000);

    relay.on_remote(100, consumer, RelayControl::Sub(2000));

    assert_eq!(relay.pop_output(), Some(GenericRelayOutput::ToWorker(RelayWorkerControl::SendSubOk(2000, consumer))));
    assert_eq!(relay.pop_output(), Some(GenericRelayOutput::ToWorker(RelayWorkerControl::RouteSetRemote(consumer, 2000))));
    assert_eq!(relay.pop_output(), Some(GenericRelayOutput::ToWorker(RelayWorkerControl::SendSub(1000, None))));
    assert_eq!(relay.pop_output(), None);
    assert!(!relay.should_clear());

    let remote = addr(127, 0, 0, 1, 1234);
    relay.on_remote(200, remote, RelayControl::SubOK(1000));
    assert_eq!(relay.pop_output(), Some(GenericRelayOutput::ToWorker(RelayWorkerControl::RouteSetSource(remote))));

    relay.on_remote(300, consumer, RelayControl::Unsub(2000));

    assert_eq!(relay.pop_output(), Some(GenericRelayOutput::ToWorker(RelayWorkerControl::SendUnsubOk(2000, consumer))));
    assert_eq!(relay.pop_output(), Some(GenericRelayOutput::ToWorker(RelayWorkerControl::RouteDelRemote(consumer))));
    assert_eq!(relay.pop_output(), Some(GenericRelayOutput::ToWorker(RelayWorkerControl::SendUnsub(1000, remote))));
    assert_eq!(relay.pop_output(), Some(GenericRelayOutput::ToWorker(RelayWorkerControl::RouteDelSource(remote))));
    assert_eq!(relay.pop_output(), None);

    assert!(!relay.should_clear());

    relay.on_remote(400, remote, RelayControl::UnsubOK(1000));

    assert!(relay.should_clear());
}

#[test]
fn retry_sending_sub() {
    let mut relay = RemoteRelay::new(1000);

    relay.on_local_sub(100, FeatureControlActor::Controller);

    assert_eq!(relay.pop_output(), Some(GenericRelayOutput::ToWorker(RelayWorkerControl::RouteSetLocal(FeatureControlActor::Controller))));
    assert_eq!(relay.pop_output(), Some(GenericRelayOutput::ToWorker(RelayWorkerControl::SendSub(1000, None))));
    assert_eq!(relay.pop_output(), None);

    relay.on_tick(200);
    assert_eq!(relay.pop_output(), Some(GenericRelayOutput::ToWorker(RelayWorkerControl::SendSub(1000, None))));
    assert_eq!(relay.pop_output(), None);

    relay.on_tick(300);
    assert_eq!(relay.pop_output(), Some(GenericRelayOutput::ToWorker(RelayWorkerControl::SendSub(1000, None))));
    assert_eq!(relay.pop_output(), None);
}

#[test]
fn retry_sending_unsub() {
    let remote = addr(127, 0, 0, 1, 1234);
    let mut relay = create_local_bound_relay(1000, FeatureControlActor::Controller, remote);

    relay.on_local_unsub(300, FeatureControlActor::Controller);

    assert_eq!(relay.pop_output(), Some(GenericRelayOutput::ToWorker(RelayWorkerControl::RouteDelLocal(FeatureControlActor::Controller))));
    assert_eq!(relay.pop_output(), Some(GenericRelayOutput::ToWorker(RelayWorkerControl::SendUnsub(1000, remote))));
    assert_eq!(relay.pop_output(), Some(GenericRelayOutput::ToWorker(RelayWorkerControl::RouteDelSource(remote))));
    assert_eq!(relay.pop_output(), None);
    assert!(!relay.should_clear());

    relay.on_tick(200);
    assert_eq!(relay.pop_output(), Some(GenericRelayOutput::ToWorker(RelayWorkerControl::SendUnsub(1000, remote))));
    assert_eq!(relay.pop_output(), None);
    assert!(!relay.should_clear());

    relay.on_tick(300);
    assert_eq!(relay.pop_output(), Some(GenericRelayOutput::ToWorker(RelayWorkerControl::SendUnsub(1000, remote))));
    assert_eq!(relay.pop_output(), None);
    assert!(!relay.should_clear());

    relay.on_tick(300 + RELAY_TIMEOUT);
    assert_eq!(relay.pop_output(), None);
    assert!(relay.should_clear());
}

#[test]
fn retry_sending_sub_after_disconnected_to_next() {
    let remote = addr(127, 0, 0, 1, 1234);
    let mut relay = create_local_bound_relay(1000, FeatureControlActor::Controller, remote);

    relay.conn_disconnected(300, remote);

    assert_eq!(relay.pop_output(), Some(GenericRelayOutput::ToWorker(RelayWorkerControl::SendSub(1000, None))));
    assert_eq!(relay.pop_output(), None);
}

#[test]
fn consumer_disconnected_should_unsub_if_empty() {
    let mut relay = RemoteRelay::new(1000);

    let consumer = addr(127, 0, 0, 1, 1000);

    relay.on_remote(100, consumer, RelayControl::Sub(2000));

    assert_eq!(relay.pop_output(), Some(GenericRelayOutput::ToWorker(RelayWorkerControl::SendSubOk(2000, consumer))));
    assert_eq!(relay.pop_output(), Some(GenericRelayOutput::ToWorker(RelayWorkerControl::RouteSetRemote(consumer, 2000))));
    assert_eq!(relay.pop_output(), Some(GenericRelayOutput::ToWorker(RelayWorkerControl::SendSub(1000, None))));
    assert_eq!(relay.pop_output(), None);
    assert!(!relay.should_clear());

    let remote = addr(127, 0, 0, 1, 1234);
    relay.on_remote(200, remote, RelayControl::SubOK(1000));
    assert_eq!(relay.pop_output(), Some(GenericRelayOutput::ToWorker(RelayWorkerControl::RouteSetSource(remote))));

    relay.conn_disconnected(300, consumer);

    assert_eq!(relay.pop_output(), Some(GenericRelayOutput::ToWorker(RelayWorkerControl::RouteDelRemote(consumer))));
    assert_eq!(relay.pop_output(), Some(GenericRelayOutput::ToWorker(RelayWorkerControl::SendUnsub(1000, remote))));
    assert_eq!(relay.pop_output(), Some(GenericRelayOutput::ToWorker(RelayWorkerControl::RouteDelSource(remote))));
    assert_eq!(relay.pop_output(), None);
}

#[test]
fn sticky_session_timeout_should_fire_bind_without_remote_hint() {
    let remote = addr(127, 0, 0, 1, 1234);
    let mut relay = create_local_bound_relay(1000, FeatureControlActor::Controller, remote);

    relay.on_tick(300);
    assert_eq!(relay.pop_output(), Some(GenericRelayOutput::ToWorker(RelayWorkerControl::SendSub(1000, Some(remote)))));
    assert_eq!(relay.pop_output(), None);

    relay.on_tick(RELAY_STICKY_MS);
    assert_eq!(relay.pop_output(), Some(GenericRelayOutput::ToWorker(RelayWorkerControl::SendSub(1000, None))));
    assert_eq!(relay.pop_output(), None);
}

#[test]
fn sticky_session_timeout_bind_to_new_remote() {
    let remote = addr(127, 0, 0, 1, 1234);
    let mut relay = create_local_bound_relay(1000, FeatureControlActor::Controller, remote);

    let remote2 = addr(127, 0, 0, 2, 1234);

    relay.on_tick(RELAY_STICKY_MS);
    assert_eq!(relay.pop_output(), Some(GenericRelayOutput::ToWorker(RelayWorkerControl::SendSub(1000, None))));
    assert_eq!(relay.pop_output(), None);

    relay.on_remote(1 + RELAY_STICKY_MS, remote2, RelayControl::SubOK(1000));

    assert_eq!(relay.pop_output(), Some(GenericRelayOutput::ToWorker(RelayWorkerControl::SendUnsub(1000, remote))));
    assert_eq!(relay.pop_output(), Some(GenericRelayOutput::ToWorker(RelayWorkerControl::RouteSetSource(remote2))));
    assert_eq!(relay.pop_output(), Some(GenericRelayOutput::RouteChanged(FeatureControlActor::Controller)));
    assert_eq!(relay.pop_output(), None);
}

#[test]
fn next_node_notify_route_changed() {
    let remote = addr(127, 0, 0, 1, 1234);
    let mut relay = create_local_bound_relay(1000, FeatureControlActor::Controller, remote);

    relay.on_remote(100, remote, RelayControl::RouteChanged(1000));
    assert_eq!(relay.pop_output(), Some(GenericRelayOutput::RouteChanged(FeatureControlActor::Controller)));
    assert_eq!(relay.pop_output(), None);
}

#[test]
fn remote_relay_feedback_goes_to_next_hop() {
    let remote = addr(127, 0, 0, 1, 1234);
    let mut relay = create_local_bound_relay(5, FeatureControlActor::Controller, remote);
    let fb = Feedback::simple(1, 50, 100, 1000);
    relay.on_local_feedback(10, FeatureControlActor::Controller, fb);
    assert_eq!(relay.pop_output(), Some(GenericRelayOutput::ToWorker(RelayWorkerControl::SendFeedback(fb, remote))));
    assert_eq!(relay.pop_output(), None);
}

#[test]
fn remote_relay_answers_ignored_for_other_session() {
    let remote = addr(127, 0, 0, 1, 1234);
    let mut relay = RemoteRelay::new(9);
    relay.on_local_sub(0, FeatureControlActor::Controller);
    while relay.pop_output().is_some() {}
    relay.on_remote(1, remote, RelayControl::SubOK(10));
    assert_eq!(relay.pop_output(), None);
    assert_eq!(relay.relay_dests(), Some((&[FeatureControlActor::Controller] as &[_], false)));
}

#[test]
fn remote_relay_sub_then_unsub_on_fresh_relay_clears() {
    let mut relay = RemoteRelay::new(3);
    relay.on_local_sub(0, FeatureControlActor::Worker(2));
    relay.on_local_unsub(1, FeatureControlActor::Worker(2));
    assert!(relay.should_clear());
    assert_eq!(relay.relay_dests(), None);
}

#[test]
fn local_relay_feedback_goes_to_publishers() {
    let mut relay = LocalRelay::default();
    relay.on_pub_start(FeatureControlActor::Worker(1));
    relay.on_pub_start(FeatureControlActor::Worker(1));
    relay.on_pub_start(FeatureControlActor::Service(4));
    relay.on_local_sub(0, FeatureControlActor::Controller);
    let fb = Feedback::simple(0, 7, 100, 1000);
    relay.on_local_feedback(1, FeatureControlActor::Controller, fb);
    assert_eq!(
        relay.pop_output(),
        Some(GenericRelayOutput::Feedback(vec![FeatureControlActor::Worker(1), FeatureControlActor::Service(4)], fb))
    );
    assert_eq!(relay.pop_output(), Some(GenericRelayOutput::ToWorker(RelayWorkerControl::RouteSetLocal(FeatureControlActor::Controller))));
    assert_eq!(relay.pop_output(), None);
    assert!(!relay.should_clear());

    relay.on_local_unsub(2, FeatureControlActor::Controller);
    relay.on_pub_stop(FeatureControlActor::Worker(1));
    assert!(!relay.should_clear());
    relay.on_pub_stop(FeatureControlActor::Service(4));
    assert!(relay.should_clear());
}
