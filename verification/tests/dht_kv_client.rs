use atm0s_sdn_network::dht_kv::client_map::{LocalMap, LocalMapOutput, MapSlot, RESEND_MS, SYNC_MS, UNSUB_TIMEOUT_MS};
use atm0s_sdn_network::dht_kv::msg::{ClientMapCommand, Key, MapControl, MapEvent, NodeSession, ServerMapEvent, Version};
use atm0s_sdn_network::types::FeatureControlActor;

#[test]
fn map_slot_set_local() {
    let key = Key(1);
    let mut slot = MapSlot::new(key);

    //we must output set command with new slot, with Version is now_ms
    assert_eq!(slot.set(100, vec![1, 2, 3, 4]), Some(ClientMapCommand::SetValue(key, Version(100), vec![1, 2, 3, 4])));

    //we can delete the slot
    assert_eq!(slot.del(200), Some(ClientMapCommand::Del(key, Version(100))));
}

#[test]
fn map_slot_sync_local() {
    let key = Key(1);
    let mut slot = MapSlot::new(key);

    assert_eq!(slot.set(100, vec![1, 2, 3, 4]), Some(ClientMapCommand::SetValue(key, Version(100), vec![1, 2, 3, 4])));

    assert_eq!(slot.sync(101, false), None);
    assert_eq!(slot.sync(100 + RESEND_MS, false), Some(ClientMapCommand::SetValue(key, Version(100), vec![1, 2, 3, 4])));

    slot.set_ok(Version(100));
    assert_eq!(slot.sync(100 + RESEND_MS * 2, false), None);

    //after set_ok we only resend with SYNC_MS
    assert_eq!(slot.sync(100 + RESEND_MS + SYNC_MS, false), Some(ClientMapCommand::SetValue(key, Version(100), vec![1, 2, 3, 4])));
}

#[test]
fn map_slot_sync_local_force() {
    let key = Key(1);
    let mut slot = MapSlot::new(key);

    assert_eq!(slot.set(100, vec![1, 2, 3, 4]), Some(ClientMapCommand::SetValue(key, Version(100), vec![1, 2, 3, 4])));

    assert_eq!(slot.sync(101, false), None);
    assert_eq!(slot.sync(101, true), Some(ClientMapCommand::SetValue(key, Version(100), vec![1, 2, 3, 4])));
}

#[test]
fn map_slot_full_ack() {
    let key = Key(1);
    let mut slot = MapSlot::new(key);

    assert_eq!(slot.set(100, vec![1, 2, 3, 4]), Some(ClientMapCommand::SetValue(key, Version(100), vec![1, 2, 3, 4])));
    slot.set_ok(Version(100));
    assert_eq!(slot.sync(100 + RESEND_MS, false), None);

    assert_eq!(slot.del(200), Some(ClientMapCommand::Del(key, Version(100))));
    slot.del_ok(Version(100));
    assert_eq!(slot.sync(200 + RESEND_MS, false), None);
}

#[test]
fn map_slot_disconnect_ack() {
    let key = Key(1);
    let mut slot = MapSlot::new(key);

    assert_eq!(slot.set(100, vec![1, 2, 3, 4]), Some(ClientMapCommand::SetValue(key, Version(100), vec![1, 2, 3, 4])));

    //we missing set_ok, but we delete now
    assert_eq!(slot.del(200), Some(ClientMapCommand::Del(key, Version(100))));
    slot.del_ok(Version(100));
    assert_eq!(slot.sync(200 + RESEND_MS, false), None);
}

#[test]
fn map_slot_wrong_ack() {
    let key = Key(1);
    let mut slot = MapSlot::new(key);

    assert_eq!(slot.set(100, vec![1, 2, 3, 4]), Some(ClientMapCommand::SetValue(key, Version(100), vec![1, 2, 3, 4])));
    slot.set_ok(Version(101));
    assert_ne!(slot.sync(100 + RESEND_MS, false), None);

    assert_eq!(slot.del(200 + RESEND_MS), Some(ClientMapCommand::Del(key, Version(100))));
    slot.del_ok(Version(101));
    assert_ne!(slot.sync(200 + RESEND_MS + RESEND_MS, false), None);
}

#[test]
fn map_slot_handle_server_event() {
    let source = NodeSession(1, 2);
    let key = Key(1);
    let mut slot = MapSlot::new(key);

    let version = Version(100);
    assert_eq!(slot.on_set(100, key, source, version, vec![1, 2, 3, 4]), Some((ClientMapCommand::OnSetAck(key, source, version), true)));
    assert!(!slot.should_cleanup());

    assert_eq!(slot.on_del(200, key, source, version), Some(ClientMapCommand::OnDelAck(key, source, version)));
    assert!(slot.should_cleanup());
}

#[test]
fn map_slot_should_reject_server_event_with_local() {
    let key = Key(1);
    let mut slot = MapSlot::new(key);

    let version = Version(100);
    assert_eq!(slot.set(100, vec![1, 2, 3, 4]), Some(ClientMapCommand::SetValue(key, version, vec![1, 2, 3, 4])));

    let source = NodeSession(1, 2);
    assert_eq!(slot.on_set(100, key, source, version, vec![1, 2, 3, 4]), None);
    assert_eq!(slot.on_del(200, key, source, version), None);
    assert!(!slot.should_cleanup());
}

#[test]
fn map_slot_should_reject_server_event_without_newer_version() {
    let key = Key(1);
    let mut slot = MapSlot::new(key);

    let source = NodeSession(1, 2);
    assert_eq!(slot.on_set(100, key, source, Version(100), vec![1, 2, 3, 4]), Some((ClientMapCommand::OnSetAck(key, source, Version(100)), true)));
    //same version will only send ack, not update the slot
    assert_eq!(slot.on_set(100, key, source, Version(100), vec![1, 2, 3, 4]), Some((ClientMapCommand::OnSetAck(key, source, Version(100)), false)));
    assert_eq!(slot.on_set(100, key, source, Version(90), vec![1, 2, 3]), None);
    assert_eq!(slot.on_del(200, key, source, Version(90)), None);
    assert!(!slot.should_cleanup());
}

#[test]
fn map_handle_control_set_del_correct() {
    let session = NodeSession(1, 2);
    let actor = FeatureControlActor::Controller;
    let mut map = LocalMap::new(session);

    let key = Key(1);

    assert_eq!(map.on_control(100, actor, MapControl::SetValue(key, vec![1, 2, 3, 4])), Some(ClientMapCommand::SetValue(key, Version(100), vec![1, 2, 3, 4])));
    assert_eq!(map.on_control(102, actor, MapControl::Sub), Some(ClientMapCommand::Sub(102, None))); //Sub will be sent include time ms
    assert_eq!(map.pop_action(), Some(LocalMapOutput::Local(actor, MapEvent::OnSet(key, session.0, vec![1, 2, 3, 4]))));
    assert_eq!(map.pop_action(), None);

    assert_eq!(map.on_control(101, actor, MapControl::Del(key)), Some(ClientMapCommand::Del(key, Version(100))));
    assert_eq!(map.pop_action(), Some(LocalMapOutput::Local(actor, MapEvent::OnDel(key, session.0))));
    assert_eq!(map.pop_action(), None);
}

#[test]
fn map_handle_sub_with_local_data_correct() {
    let session = NodeSession(1, 2);
    let actor = FeatureControlActor::Controller;
    let mut map = LocalMap::new(session);

    let key = Key(1);

    assert_eq!(map.on_control(102, actor, MapControl::Sub), Some(ClientMapCommand::Sub(102, None)));
    assert_eq!(map.on_control(103, actor, MapControl::SetValue(key, vec![1, 2, 3, 4])), Some(ClientMapCommand::SetValue(key, Version(103), vec![1, 2, 3, 4])));
    assert_eq!(map.pop_action(), Some(LocalMapOutput::Local(actor, MapEvent::OnSet(key, session.0, vec![1, 2, 3, 4]))));
    assert_eq!(map.pop_action(), None);

    assert_eq!(map.on_control(103, actor, MapControl::Unsub), Some(ClientMapCommand::Unsub(102)));
    assert_eq!(map.on_control(104, actor, MapControl::Del(key)), Some(ClientMapCommand::Del(key, Version(103))));
    assert_eq!(map.pop_action(), None); //should not output local event after unsub
}

#[test]
fn map_unsub_ok() {
    let session = NodeSession(1, 2);
    let actor = FeatureControlActor::Controller;
    let mut map = LocalMap::new(session);

    let relay = NodeSession(5, 6);

    assert_eq!(map.on_control(102, actor, MapControl::Sub), Some(ClientMapCommand::Sub(102, None)));
    assert_eq!(map.on_server(103, relay, ServerMapEvent::SubOk(102)), None);
    assert_eq!(map.pop_action(), Some(LocalMapOutput::Local(actor, MapEvent::OnRelaySelected(relay.0))));

    map.on_tick(102 + RESEND_MS);
    assert_eq!(map.pop_action(), None);

    assert_eq!(map.on_control(103, actor, MapControl::Unsub), Some(ClientMapCommand::Unsub(102)));
    assert_eq!(map.on_server(104, relay, ServerMapEvent::UnsubOk(102)), None);
    map.on_tick(103 + RESEND_MS);
    assert_eq!(map.pop_action(), None);

    assert!(map.should_cleanup());
}

#[test]
fn map_handle_auto_resend_sub_unsub() {
    let session = NodeSession(1, 2);
    let actor = FeatureControlActor::Controller;
    let mut map = LocalMap::new(session);

    assert_eq!(map.on_control(102, actor, MapControl::Sub), Some(ClientMapCommand::Sub(102, None)));
    map.on_tick(102 + RESEND_MS);
    assert_eq!(map.pop_action(), Some(LocalMapOutput::Remote(ClientMapCommand::Sub(102, None))));
    assert_eq!(map.pop_action(), None);
}

#[test]
fn map_handle_set_del_ack() {
    let session = NodeSession(1, 2);
    let actor = FeatureControlActor::Controller;
    let mut map = LocalMap::new(session);

    let relay = NodeSession(3, 4);

    assert_eq!(map.on_control(102, actor, MapControl::Sub), Some(ClientMapCommand::Sub(102, None)));
    assert_eq!(map.on_server(103, relay, ServerMapEvent::SubOk(102)), None);
    assert_eq!(map.pop_action(), Some(LocalMapOutput::Local(actor, MapEvent::OnRelaySelected(relay.0))));
    map.on_tick(102 + RESEND_MS);
    assert_eq!(map.pop_action(), None);
}

#[test]
fn map_reject_event_unknown_relay() {
    let session = NodeSession(1, 2);
    let mut map = LocalMap::new(session);

    let key = Key(1);
    let source = NodeSession(3, 4);
    let relay = NodeSession(3, 4);
    assert_eq!(
        map.on_server(
            103,
            relay,
            ServerMapEvent::OnSet {
                key,
                source,
                version: Version(2000),
                data: vec![1, 2, 3, 4]
            }
        ),
        None
    );
}

#[test]
fn map_handle_sub_with_remote_data_correct() {
    let session = NodeSession(1, 2);
    let actor = FeatureControlActor::Controller;
    let mut map = LocalMap::new(session);

    let key = Key(1);

    let source = NodeSession(3, 4);
    let relay = NodeSession(5, 6);
    assert_eq!(map.on_control(102, actor, MapControl::Sub), Some(ClientMapCommand::Sub(102, None)));

    //We need SubOk for accepting OnSet event
    assert_eq!(map.on_server(103, relay, ServerMapEvent::SubOk(102)), None);
    assert_eq!(map.pop_action(), Some(LocalMapOutput::Local(actor, MapEvent::OnRelaySelected(relay.0))));

    assert_eq!(
        map.on_server(
            103,
            relay,
            ServerMapEvent::OnSet {
                key,
                source,
                version: Version(2000),
                data: vec![1, 2, 3, 4]
            }
        ),
        Some(ClientMapCommand::OnSetAck(key, source, Version(2000)))
    );
    assert_eq!(map.pop_action(), Some(LocalMapOutput::Local(actor, MapEvent::OnSet(key, source.0, vec![1, 2, 3, 4]))));
    assert_eq!(map.pop_action(), None);

    assert_eq!(map.on_server(103, relay, ServerMapEvent::OnDel { key, source, version: Version(2000) }), Some(ClientMapCommand::OnDelAck(key, source, Version(2000))));
    assert_eq!(map.pop_action(), Some(LocalMapOutput::Local(actor, MapEvent::OnDel(key, source.0))));
    assert_eq!(map.pop_action(), None);
}

#[test]
fn map_handle_switch_new_relay() {
    let session = NodeSession(1, 2);
    let actor = FeatureControlActor::Controller;
    let mut map = LocalMap::new(session);

    let key = Key(1);
    let source = NodeSession(3, 4);
    let relay1 = NodeSession(5, 6);
    let relay2 = NodeSession(7, 8);

    assert_eq!(map.on_control(102, actor, MapControl::Sub), Some(ClientMapCommand::Sub(102, None)));
    assert_eq!(map.on_server(103, relay1, ServerMapEvent::SubOk(102)), None);
    assert_eq!(map.pop_action(), Some(LocalMapOutput::Local(actor, MapEvent::OnRelaySelected(relay1.0))));

    assert_eq!(
        map.on_server(
            103,
            relay1,
            ServerMapEvent::OnSet {
                key,
                source,
                version: Version(2000),
                data: vec![1, 2, 3, 4]
            }
        ),
        Some(ClientMapCommand::OnSetAck(key, source, Version(2000)))
    );

    //simulate sub to new relay
    assert_eq!(map.on_server(105, relay2, ServerMapEvent::SubOk(102)), None);

    assert_eq!(map.pop_action(), Some(LocalMapOutput::Local(actor, MapEvent::OnSet(key, source.0, vec![1, 2, 3, 4]))));
    assert_eq!(map.pop_action(), Some(LocalMapOutput::Local(actor, MapEvent::OnRelaySelected(relay2.0))));
    assert_eq!(map.pop_action(), None);

    //Reject from relay1
    assert_eq!(map.on_server(106, relay1, ServerMapEvent::OnDel { key, source, version: Version(2000) }), None,);

    //from relay2
    assert_eq!(
        map.on_server(
            107,
            relay2,
            ServerMapEvent::OnSet {
                key,
                source,
                version: Version(2000),
                data: vec![1, 2, 3, 4]
            }
        ),
        Some(ClientMapCommand::OnSetAck(key, source, Version(2000)))
    );
}

#[test]
fn map_with_multi_sources() {
    let local_session = NodeSession(1, 2);
    let relay = NodeSession(3, 4);
    let other_source = NodeSession(5, 6);
    let mut map = LocalMap::new(local_session);

    let key = Key(1);

    assert_eq!(map.on_control(100, FeatureControlActor::Controller, MapControl::Sub), Some(ClientMapCommand::Sub(100, None)));
    assert_eq!(map.on_server(100, relay, ServerMapEvent::SubOk(100)), None);

    assert_eq!(map.on_control(100, FeatureControlActor::Controller, MapControl::SetValue(key, vec![1, 2, 3, 4])), Some(ClientMapCommand::SetValue(key, Version(100), vec![1, 2, 3, 4])));

    assert_eq!(
        map.on_server(
            120,
            relay,
            ServerMapEvent::OnSet {
                key,
                source: other_source,
                version: Version(1000),
                data: vec![2, 3, 4]
            }
        ),
        Some(ClientMapCommand::OnSetAck(key, other_source, Version(1000)))
    );

    assert_eq!(map.slot_count(), 2);
}

#[test]
fn map_unsub_timeout_gives_up() {
    let session = NodeSession(1, 2);
    let actor = FeatureControlActor::Worker(3);
    let mut map = LocalMap::new(session);
    assert_eq!(map.on_control(10, actor, MapControl::Sub), Some(ClientMapCommand::Sub(10, None)));
    // a second subscription of the same actor is refused
    assert_eq!(map.on_control(11, actor, MapControl::Sub), None);
    assert_eq!(map.on_control(12, actor, MapControl::Unsub), Some(ClientMapCommand::Unsub(10)));
    map.on_tick(12 + RESEND_MS);
    assert_eq!(map.pop_action(), Some(LocalMapOutput::Remote(ClientMapCommand::Unsub(10))));
    assert!(!map.should_cleanup());
    map.on_tick(12 + UNSUB_TIMEOUT_MS);
    assert!(map.should_cleanup());
}
