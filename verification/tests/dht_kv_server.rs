use atm0s_sdn_network::dht_kv::msg::{ClientMapCommand, Key, NodeSession, ServerMapEvent, Version};
use atm0s_sdn_network::dht_kv::server_map::{MapSlot, RemoteMap, RESEND_MS, TIMEOUT_MS};

fn on_set(key: u64, version: u64, source: NodeSession, data: Vec<u8>) -> ServerMapEvent {
    ServerMapEvent::OnSet { key: Key(key), version: Version(version), source, data }
}

#[test]
fn map_slot_set_del_corect() {
    let mut slot = MapSlot::new();

    assert_eq!(slot.set(0, Version(0), vec![1, 2, 3]), true);
    assert_eq!(slot.dump(), Some((Version(0), vec![1, 2, 3])));
    assert_eq!(slot.set(0, Version(1), vec![1, 2, 4]), true);
    assert_eq!(slot.dump(), Some((Version(1), vec![1, 2, 4])));
    assert_eq!(slot.del(0, Version(1)), Some(Version(1)));
    assert_eq!(slot.dump(), None);
}

#[test]
fn map_slot_set_del_newer_version_corect() {
    let mut slot = MapSlot::new();

    assert_eq!(slot.set(0, Version(0), vec![1, 2, 3]), true);
    assert_eq!(slot.dump(), Some((Version(0), vec![1, 2, 3])));
    assert_eq!(slot.del(0, Version(100)), Some(Version(0)));
    assert_eq!(slot.dump(), None);
}

#[test]
fn map_slot_set_del_invalid() {
    let mut slot = MapSlot::new();

    assert_eq!(slot.set(0, Version(100), vec![1, 2, 3]), true);
    assert_eq!(slot.dump(), Some((Version(100), vec![1, 2, 3])));
    assert_eq!(slot.set(0, Version(1), vec![1, 2, 4]), false);
    assert_eq!(slot.dump(), Some((Version(100), vec![1, 2, 3])));
    assert_eq!(slot.del(0, Version(1)), None);
    assert_eq!(slot.dump(), Some((Version(100), vec![1, 2, 3])));
}

#[test]
fn map_correct_set_update_del_event() {
    let relay = NodeSession(1, 2);
    let mut map = RemoteMap::new(relay);

    let source = NodeSession(3, 4);
    let consumer = NodeSession(5, 6);

    assert_eq!(map.on_client(0, consumer, ClientMapCommand::Sub(1, None)), Some(ServerMapEvent::SubOk(1)));
    assert_eq!(map.on_client(0, source, ClientMapCommand::SetValue(Key(1000), Version(1), vec![1, 2, 3, 4])), Some(ServerMapEvent::SetOk(Key(1000), Version(1))));
    assert_eq!(map.pop_action(), Some((consumer, on_set(1000, 1, source, vec![1, 2, 3, 4]))));

    assert_eq!(map.on_client(0, source, ClientMapCommand::SetValue(Key(1000), Version(2), vec![1, 2, 3, 5])), Some(ServerMapEvent::SetOk(Key(1000), Version(2))));
    assert_eq!(map.pop_action(), Some((consumer, on_set(1000, 2, source, vec![1, 2, 3, 5]))));

    assert_eq!(map.on_client(0, source, ClientMapCommand::Del(Key(1000), Version(2))), Some(ServerMapEvent::DelOk(Key(1000), Version(2))));
    assert_eq!(
        map.pop_action(),
        Some((
            consumer,
            ServerMapEvent::OnDel {
                key: Key(1000),
                version: Version(2),
                source
            }
        ))
    );
}

#[test]
fn map_correct_sub_after_set_event() {
    let relay = NodeSession(1, 2);
    let mut map = RemoteMap::new(relay);

    let source = NodeSession(3, 4);
    let consumer = NodeSession(5, 6);

    assert_eq!(map.on_client(0, source, ClientMapCommand::SetValue(Key(1000), Version(1), vec![1, 2, 3, 4])), Some(ServerMapEvent::SetOk(Key(1000), Version(1))));
    assert_eq!(map.pop_action(), None);

    assert_eq!(map.on_client(1, consumer, ClientMapCommand::Sub(1, None)), Some(ServerMapEvent::SubOk(1)));
    assert_eq!(map.pop_action(), Some((consumer, on_set(1000, 1, source, vec![1, 2, 3, 4]))));

    //if resub with same session, it should not fire event
    assert_eq!(map.on_client(2, consumer, ClientMapCommand::Sub(2, Some(relay))), Some(ServerMapEvent::SubOk(2)));
    assert_eq!(map.pop_action(), None);
}

#[test]
fn map_correct_sub_new_relay() {
    let relay = NodeSession(1, 2);
    let mut map = RemoteMap::new(relay);

    let source = NodeSession(3, 4);
    let consumer = NodeSession(5, 6);

    assert_eq!(map.on_client(0, source, ClientMapCommand::SetValue(Key(1000), Version(1), vec![1, 2, 3, 4])), Some(ServerMapEvent::SetOk(Key(1000), Version(1))));
    assert_eq!(map.pop_action(), None);

    assert_eq!(map.on_client(1, consumer, ClientMapCommand::Sub(1, None)), Some(ServerMapEvent::SubOk(1)));
    assert_eq!(map.pop_action(), Some((consumer, on_set(1000, 1, source, vec![1, 2, 3, 4]))));

    //if resub with new session, it should fire event
    let old_relay = NodeSession(0, 1);

    assert_eq!(map.on_client(2, consumer, ClientMapCommand::Sub(2, Some(old_relay))), Some(ServerMapEvent::SubOk(2)));
    assert_eq!(map.pop_action(), Some((consumer, on_set(1000, 1, source, vec![1, 2, 3, 4]))));
    assert_eq!(map.pop_action(), None);
}

#[test]
fn map_correct_unsub() {
    let relay = NodeSession(1, 2);
    let mut map = RemoteMap::new(relay);

    let source = NodeSession(3, 4);
    let consumer = NodeSession(5, 6);

    assert_eq!(map.on_client(0, consumer, ClientMapCommand::Sub(1, None)), Some(ServerMapEvent::SubOk(1)));
    assert_eq!(map.pop_action(), None);
    assert_eq!(map.on_client(0, consumer, ClientMapCommand::Unsub(1)), Some(ServerMapEvent::UnsubOk(1)));
    assert_eq!(map.pop_action(), None);

    assert_eq!(map.on_client(0, source, ClientMapCommand::SetValue(Key(1000), Version(1), vec![1, 2, 3, 4])), Some(ServerMapEvent::SetOk(Key(1000), Version(1))));
    assert_eq!(map.pop_action(), None);
}

#[test]
fn map_invalid_unsub() {
    let relay = NodeSession(1, 2);
    let mut map = RemoteMap::new(relay);

    let source = NodeSession(3, 4);
    let consumer = NodeSession(5, 6);

    assert_eq!(map.on_client(0, consumer, ClientMapCommand::Sub(1, None)), Some(ServerMapEvent::SubOk(1)));
    assert_eq!(map.pop_action(), None);
    //unsub with other sub-id with not affected
    assert_eq!(map.on_client(0, consumer, ClientMapCommand::Unsub(100)), None);
    assert_eq!(map.pop_action(), None);

    assert_eq!(map.on_client(0, source, ClientMapCommand::SetValue(Key(1000), Version(1), vec![1, 2, 3, 4])), Some(ServerMapEvent::SetOk(Key(1000), Version(1))));
    assert_eq!(map.pop_action(), Some((consumer, on_set(1000, 1, source, vec![1, 2, 3, 4]))));
    assert_eq!(map.pop_action(), None);
}

#[test]
fn map_invalid_set() {
    let relay = NodeSession(1, 2);
    let mut map = RemoteMap::new(relay);

    let source = NodeSession(3, 4);
    let consumer = NodeSession(5, 6);

    assert_eq!(map.on_client(0, consumer, ClientMapCommand::Sub(1, None)), Some(ServerMapEvent::SubOk(1)));
    assert_eq!(map.pop_action(), None);

    assert_eq!(map.on_client(0, source, ClientMapCommand::SetValue(Key(1000), Version(1), vec![1, 2, 3, 4])), Some(ServerMapEvent::SetOk(Key(1000), Version(1))));
    assert_eq!(map.pop_action(), Some((consumer, on_set(1000, 1, source, vec![1, 2, 3, 4]))));
    assert_eq!(map.pop_action(), None);

    //set with same version should not affected
    assert_eq!(map.on_client(0, source, ClientMapCommand::SetValue(Key(1000), Version(1), vec![1, 2, 3, 4])), None);
    assert_eq!(map.pop_action(), None);
}

#[test]
fn map_invalid_del() {
    let relay = NodeSession(1, 2);
    let mut map = RemoteMap::new(relay);

    let source = NodeSession(3, 4);
    let consumer = NodeSession(5, 6);

    assert_eq!(map.on_client(0, consumer, ClientMapCommand::Sub(1, None)), Some(ServerMapEvent::SubOk(1)));
    assert_eq!(map.pop_action(), None);

    assert_eq!(map.on_client(0, source, ClientMapCommand::SetValue(Key(1000), Version(1), vec![1, 2, 3, 4])), Some(ServerMapEvent::SetOk(Key(1000), Version(1))));
    assert_eq!(map.pop_action(), Some((consumer, on_set(1000, 1, source, vec![1, 2, 3, 4]))));
    assert_eq!(map.pop_action(), None);

    //del with older version should not affected
    assert_eq!(map.on_client(0, source, ClientMapCommand::Del(Key(1000), Version(0))), None);
    assert_eq!(map.pop_action(), None);
    assert_eq!(map.dump().len(), 1);
}

#[test]
fn map_del_with_newer_version_should_work() {
    let relay = NodeSession(1, 2);
    let mut map = RemoteMap::new(relay);

    let source = NodeSession(3, 4);
    let consumer = NodeSession(5, 6);

    assert_eq!(map.on_client(0, consumer, ClientMapCommand::Sub(1, None)), Some(ServerMapEvent::SubOk(1)));
    assert_eq!(map.pop_action(), None);

    assert_eq!(map.on_client(0, source, ClientMapCommand::SetValue(Key(1000), Version(1), vec![1, 2, 3, 4])), Some(ServerMapEvent::SetOk(Key(1000), Version(1))));
    assert_eq!(map.pop_action(), Some((consumer, on_set(1000, 1, source, vec![1, 2, 3, 4]))));
    assert_eq!(map.pop_action(), None);

    //del with newer version should affected
    assert_eq!(map.on_client(0, source, ClientMapCommand::Del(Key(1000), Version(2))), Some(ServerMapEvent::DelOk(Key(1000), Version(1))));
    assert_eq!(
        map.pop_action(),
        Some((
            consumer,
            ServerMapEvent::OnDel {
                key: Key(1000),
                version: Version(1),
                source
            }
        ))
    );
    assert_eq!(map.pop_action(), None);
    assert_eq!(map.dump().len(), 0);
}

#[test]
fn map_event_should_resend_before_ack() {
    let relay = NodeSession(1, 2);
    let mut map = RemoteMap::new(relay);

    let source = NodeSession(3, 4);
    let consumer = NodeSession(5, 6);

    assert_eq!(map.on_client(0, consumer, ClientMapCommand::Sub(1, None)), Some(ServerMapEvent::SubOk(1)));
    assert_eq!(map.pop_action(), None);

    assert_eq!(map.on_client(0, source, ClientMapCommand::SetValue(Key(1000), Version(1), vec![1, 2, 3, 4])), Some(ServerMapEvent::SetOk(Key(1000), Version(1))));
    assert_eq!(map.pop_action(), Some((consumer, on_set(1000, 1, source, vec![1, 2, 3, 4]))));
    assert_eq!(map.pop_action(), None);

    map.on_tick(RESEND_MS);

    assert_eq!(map.pop_action(), Some((consumer, on_set(1000, 1, source, vec![1, 2, 3, 4]))));
    assert_eq!(map.pop_action(), None);
}

#[test]
fn map_event_should_resend_before_ack_with_after_sub() {
    let relay = NodeSession(1, 2);
    let mut map = RemoteMap::new(relay);

    let source = NodeSession(3, 4);
    let consumer = NodeSession(5, 6);

    assert_eq!(map.on_client(0, source, ClientMapCommand::SetValue(Key(1000), Version(1), vec![1, 2, 3, 4])), Some(ServerMapEvent::SetOk(Key(1000), Version(1))));
    assert_eq!(map.pop_action(), None);

    assert_eq!(map.on_client(0, consumer, ClientMapCommand::Sub(1, None)), Some(ServerMapEvent::SubOk(1)));
    assert_eq!(map.pop_action(), Some((consumer, on_set(1000, 1, source, vec![1, 2, 3, 4]))));
    assert_eq!(map.pop_action(), None);

    map.on_tick(RESEND_MS);

    assert_eq!(map.pop_action(), Some((consumer, on_set(1000, 1, source, vec![1, 2, 3, 4]))));
    assert_eq!(map.pop_action(), None);
}

#[test]
fn map_event_should_not_resend_after_ack() {
    let relay = NodeSession(1, 2);
    let mut map = RemoteMap::new(relay);

    let source = NodeSession(3, 4);
    let consumer = NodeSession(5, 6);

    assert_eq!(map.on_client(0, consumer, ClientMapCommand::Sub(1, None)), Some(ServerMapEvent::SubOk(1)));
    assert_eq!(map.pop_action(), None);

    assert_eq!(map.on_client(0, source, ClientMapCommand::SetValue(Key(1000), Version(1), vec![1, 2, 3, 4])), Some(ServerMapEvent::SetOk(Key(1000), Version(1))));
    assert_eq!(map.pop_action(), Some((consumer, on_set(1000, 1, source, vec![1, 2, 3, 4]))));
    assert_eq!(map.pop_action(), None);

    assert_eq!(map.on_client(2, consumer, ClientMapCommand::OnSetAck(Key(1000), source, Version(1))), None);

    map.on_tick(RESEND_MS);

    assert_eq!(map.pop_action(), None);
}

#[test]
fn map_event_should_not_send_to_source() {
    let relay = NodeSession(1, 2);
    let mut map = RemoteMap::new(relay);

    let source = NodeSession(3, 4);

    assert_eq!(map.on_client(0, source, ClientMapCommand::Sub(1, None)), Some(ServerMapEvent::SubOk(1)));
    assert_eq!(map.pop_action(), None);

    assert_eq!(map.on_client(0, source, ClientMapCommand::SetValue(Key(1000), Version(1), vec![1, 2, 3, 4])), Some(ServerMapEvent::SetOk(Key(1000), Version(1))));
    assert_eq!(map.pop_action(), None);
}

#[test]
fn map_event_should_not_send_to_source_after_set() {
    let relay = NodeSession(1, 2);
    let mut map = RemoteMap::new(relay);

    let source = NodeSession(3, 4);

    assert_eq!(map.on_client(0, source, ClientMapCommand::SetValue(Key(1000), Version(1), vec![1, 2, 3, 4])), Some(ServerMapEvent::SetOk(Key(1000), Version(1))));
    assert_eq!(map.pop_action(), None);

    assert_eq!(map.on_client(0, source, ClientMapCommand::Sub(1, None)), Some(ServerMapEvent::SubOk(1)));
    assert_eq!(map.pop_action(), None);
}

#[test]
fn server_map_subscriber_timeout_and_clean() {
    let relay = NodeSession(1, 2);
    let mut map = RemoteMap::new(relay);
    let consumer = NodeSession(5, 6);
    assert_eq!(map.on_client(0, consumer, ClientMapCommand::Sub(1, None)), Some(ServerMapEvent::SubOk(1)));
    assert!(!map.should_clean());
    map.on_tick(TIMEOUT_MS - 1);
    assert!(!map.should_clean());
    map.on_tick(TIMEOUT_MS);
    assert!(map.should_clean());
}

#[test]
fn server_map_dump_lists_values() {
    let relay = NodeSession(1, 2);
    let mut map = RemoteMap::new(relay);
    let a = NodeSession(3, 4);
    let b = NodeSession(5, 6);
    map.on_client(0, a, ClientMapCommand::SetValue(Key(1), Version(1), vec![1]));
    map.on_client(0, b, ClientMapCommand::SetValue(Key(1), Version(7), vec![2]));
    assert_eq!(map.dump(), vec![(Key(1), a, Version(1), vec![1]), (Key(1), b, Version(7), vec![2])]);
    // the ack of a change waiting for nobody and an unknown unsub are ignored
    assert_eq!(map.on_client(1, b, ClientMapCommand::OnDelAck(Key(1), a, Version(1))), None);
    assert_eq!(map.on_client(1, b, ClientMapCommand::Unsub(3)), None);
}

#[test]
fn map_sub_replays_only_others_values() {
    let relay = NodeSession(1, 2);
    let mut map = RemoteMap::new(relay);
    let node_a = NodeSession(3, 4);
    let node_b = NodeSession(5, 6);
    assert_eq!(map.on_client(0, node_a, ClientMapCommand::SetValue(Key(1), Version(1), vec![1])), Some(ServerMapEvent::SetOk(Key(1), Version(1))));
    assert_eq!(map.on_client(0, node_b, ClientMapCommand::SetValue(Key(2), Version(1), vec![2])), Some(ServerMapEvent::SetOk(Key(2), Version(1))));
    assert_eq!(map.pop_action(), None);
    // node_a subscribes: it gets node_b's value only, not its own
    assert_eq!(map.on_client(1, node_a, ClientMapCommand::Sub(7, None)), Some(ServerMapEvent::SubOk(7)));
    assert_eq!(map.pop_action(), Some((node_a, on_set(2, 1, node_b, vec![2]))));
    assert_eq!(map.pop_action(), None);
}
