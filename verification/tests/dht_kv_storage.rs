use atm0s_sdn_network::dht_kv::feature::{DhtKvFeature, FeatureInput, InternalOutput};
use atm0s_sdn_network::dht_kv::msg::{ClientMapCommand, DhtMap, Key, MapControl, NodeSession, ServerMapEvent, Version};
use atm0s_sdn_network::dht_kv::storage::{ClientCommand, Control, Event, LocalStorage, LocalStorageOutput, RemoteCommand, RemoteStorage, ServerEvent};
use atm0s_sdn_network::types::{FeatureControlActor, RouteRule};

#[test]
fn remote_storage_set_then_get() {
    let me = NodeSession(2, 20);
    let client = NodeSession(1, 10);
    let map = DhtMap(7);
    let mut rs = RemoteStorage::new(me);

    rs.on_remote(100, client, ClientCommand::MapGet(map, 5));
    assert_eq!(rs.pop_action(), Some((client, ServerEvent::MapGetRes(map, 5, vec![]))));

    rs.on_remote(100, client, ClientCommand::MapCmd(map, ClientMapCommand::SetValue(Key(1), Version(100), vec![9])));
    assert_eq!(rs.pop_action(), Some((client, ServerEvent::MapEvent(map, ServerMapEvent::SetOk(Key(1), Version(100))))));
    assert_eq!(rs.pop_action(), None);

    rs.on_remote(101, client, ClientCommand::MapGet(map, 6));
    assert_eq!(rs.pop_action(), Some((client, ServerEvent::MapGetRes(map, 6, vec![(Key(1), client, Version(100), vec![9])]))));

    rs.on_remote(101, client, ClientCommand::MapCmd(DhtMap(8), ClientMapCommand::Unsub(3)));
    assert_eq!(rs.pop_action(), None);
}

#[test]
fn local_storage_get_is_answered_once() {
    let me = NodeSession(1, 10);
    let map = DhtMap(0x1_0000_0003);
    let mut ls = LocalStorage::new(me);
    ls.on_local(10, FeatureControlActor::Worker(2), Control::MapGet(map));
    assert_eq!(ls.pop_action(), Some(LocalStorageOutput::Remote(RouteRule::ToKey(3), ClientCommand::MapGet(map, 0))));

    let values = vec![(Key(1), NodeSession(5, 5), Version(3), vec![1u8])];
    ls.on_server(11, NodeSession(2, 20), ServerEvent::MapGetRes(map, 0, values.clone()));
    assert_eq!(ls.pop_action(), Some(LocalStorageOutput::Local(FeatureControlActor::Worker(2), Event::MapGetRes(map, Ok(values.clone())))));
    ls.on_server(12, NodeSession(2, 20), ServerEvent::MapGetRes(map, 0, values));
    assert_eq!(ls.pop_action(), None);
}

#[test]
fn local_storage_forgets_unanswered_get() {
    let map = DhtMap(4);
    let mut ls = LocalStorage::new(NodeSession(1, 10));
    ls.on_local(0, FeatureControlActor::Controller, Control::MapGet(map));
    ls.pop_action();
    ls.on_tick(5000);
    ls.on_server(5001, NodeSession(2, 20), ServerEvent::MapGetRes(map, 0, vec![]));
    assert_eq!(ls.pop_action(), None);
}

#[test]
fn local_storage_set_sends_command() {
    let map = DhtMap(4);
    let mut ls = LocalStorage::new(NodeSession(1, 10));
    ls.on_local(100, FeatureControlActor::Controller, Control::MapCmd(map, MapControl::SetValue(Key(2), vec![5])));
    assert_eq!(
        ls.pop_action(),
        Some(LocalStorageOutput::Remote(RouteRule::ToKey(4), ClientCommand::MapCmd(map, ClientMapCommand::SetValue(Key(2), Version(100), vec![5]))))
    );
    assert_eq!(ls.pop_action(), None);
    ls.on_local(100, FeatureControlActor::Controller, Control::MapCmd(DhtMap(5), MapControl::Del(Key(2))));
    assert_eq!(ls.pop_action(), None);
}

#[test]
fn feature_round_trip_between_two_nodes() {
    let map = DhtMap(4);
    let mut a = DhtKvFeature::new(1, 10);
    let mut b = DhtKvFeature::new(2, 20);
    a.on_input(100, FeatureInput::Control(FeatureControlActor::Controller, Control::MapCmd(map, MapControl::SetValue(Key(2), vec![5]))));
    let out = a.pop_output();
    let cmd = match out {
        Some(InternalOutput::Remote(RouteRule::ToKey(4), cmd)) => cmd,
        other => panic!("unexpected {:?}", other),
    };
    assert_eq!(cmd, RemoteCommand::Client(NodeSession(1, 10), ClientCommand::MapCmd(map, ClientMapCommand::SetValue(Key(2), Version(100), vec![5]))));

    b.on_input(100, FeatureInput::Net(false, cmd));
    assert_eq!(b.pop_output(), None);

    b.on_input(
        100,
        FeatureInput::Net(true, RemoteCommand::Client(NodeSession(1, 10), ClientCommand::MapCmd(map, ClientMapCommand::SetValue(Key(2), Version(100), vec![5])))),
    );
    assert_eq!(
        b.pop_output(),
        Some(InternalOutput::Remote(RouteRule::ToNode(1), RemoteCommand::Server(NodeSession(2, 20), ServerEvent::MapEvent(map, ServerMapEvent::SetOk(Key(2), Version(100))))))
    );
    assert_eq!(b.pop_output(), None);
    a.on_tick(101);
}
