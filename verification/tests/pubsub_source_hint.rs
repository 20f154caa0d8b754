use atm0s_sdn_network::pubsub::msg::SourceHint;
use atm0s_sdn_network::pubsub::source_hint::{LocalCmd, Output, SourceHintLogic, TIMEOUT_MS};
use atm0s_sdn_network::types::{FeatureControlActor, PeerAddr};

fn addr(a: u8, b: u8, c: u8, d: u8, port: u16) -> PeerAddr {
    PeerAddr::V4(u32::from_be_bytes([a, b, c, d]), port)
}

#[test]
fn local_subscribe_should_send_event() {
    let node_id = 1;
    let session_id = 1234;
    let mut sh = SourceHintLogic::new(node_id, session_id);

    // subscribe should send a subscribe message
    sh.on_local(0, FeatureControlActor::Controller, LocalCmd::Subscribe);

    assert_eq!(sh.pop_output(), Some(Output::SendRemote(None, SourceHint::Subscribe(session_id))));
    assert_eq!(sh.pop_output(), None);

    sh.on_local(0, FeatureControlActor::Controller, LocalCmd::Subscribe);
    assert_eq!(sh.pop_output(), None);

    sh.on_local(0, FeatureControlActor::Worker(1), LocalCmd::Subscribe);
    assert_eq!(sh.pop_output(), None);

    // fake a local source should send local source event
    sh.on_local(0, FeatureControlActor::Controller, LocalCmd::Register);

    assert_eq!(sh.pop_output(), Some(Output::SendRemote(None, SourceHint::Register { source: node_id, to_root: true })));
    assert_eq!(
        sh.pop_output(),
        Some(Output::SubscribeSource(vec![FeatureControlActor::Controller, FeatureControlActor::Worker(1)], node_id))
    );
    assert_eq!(sh.pop_output(), None);
}

#[test]
fn local_subscribe_should_handle_sources() {
    let node_id = 1;
    let session_id = 1234;
    let mut sh = SourceHintLogic::new(node_id, session_id);

    // subscribe should send a subscribe message
    sh.on_local(0, FeatureControlActor::Controller, LocalCmd::Subscribe);
    assert_eq!(sh.pop_output(), Some(Output::SendRemote(None, SourceHint::Subscribe(session_id))));
    assert_eq!(sh.pop_output(), None);

    let remote = addr(127, 0, 0, 1, 1234);

    sh.on_remote(100, remote, SourceHint::Sources(vec![2, 3]));
    assert_eq!(sh.pop_output(), Some(Output::SubscribeSource(vec![FeatureControlActor::Controller], 2)));
    assert_eq!(sh.pop_output(), Some(Output::SubscribeSource(vec![FeatureControlActor::Controller], 3)));
    assert_eq!(sh.pop_output(), None);
}

#[test]
fn local_register_should_send_event() {
    let node_id = 1;
    let session_id = 1234;
    let mut sh = SourceHintLogic::new(node_id, session_id);
    sh.on_local(0, FeatureControlActor::Controller, LocalCmd::Register);

    assert_eq!(sh.pop_output(), Some(Output::SendRemote(None, SourceHint::Register { source: node_id, to_root: true })));
    assert_eq!(sh.pop_output(), None);

    sh.on_local(0, FeatureControlActor::Controller, LocalCmd::Register);
    assert_eq!(sh.pop_output(), None);

    sh.on_local(0, FeatureControlActor::Worker(1), LocalCmd::Register);
    assert_eq!(sh.pop_output(), None);

    // subscribe should send a subscribe message and local source event
    sh.on_local(0, FeatureControlActor::Controller, LocalCmd::Subscribe);

    assert_eq!(sh.pop_output(), Some(Output::SendRemote(None, SourceHint::Subscribe(session_id))));
    assert_eq!(sh.pop_output(), Some(Output::SubscribeSource(vec![FeatureControlActor::Controller], node_id)));
    assert_eq!(sh.pop_output(), None);
}

#[test]
fn remote_subscribe_should_send_event() {
    let node_id = 1;
    let session_id = 1234;
    let mut sh = SourceHintLogic::new(node_id, session_id);

    let remote = addr(127, 0, 0, 1, 1234);
    let remote_session_id = 4321;

    // fake a local source
    sh.on_local(0, FeatureControlActor::Controller, LocalCmd::Register);
    assert_eq!(sh.pop_output(), Some(Output::SendRemote(None, SourceHint::Register { source: node_id, to_root: true })));

    // remote subscribe should receive a subscribe ok and snapshot of sources
    sh.on_remote(0, remote, SourceHint::Subscribe(remote_session_id));

    assert_eq!(sh.pop_output(), Some(Output::SendRemote(Some(remote), SourceHint::SubscribeOk(remote_session_id))));
    assert_eq!(sh.pop_output(), Some(Output::SendRemote(None, SourceHint::Subscribe(session_id))));
    assert_eq!(sh.pop_output(), Some(Output::SendRemote(Some(remote), SourceHint::Sources(vec![node_id]))));
    assert_eq!(sh.pop_output(), None);
}

#[test]
fn remote_register_should_send_event() {
    let node_id = 1;
    let session_id = 1234;
    let mut sh = SourceHintLogic::new(node_id, session_id);

    let remote = addr(127, 0, 0, 1, 1234);
    let remote_node_id = 2;

    // remote register should send event
    sh.on_remote(
        0,
        remote,
        SourceHint::Register {
            source: remote_node_id,
            to_root: true,
        },
    );

    assert_eq!(
        sh.pop_output(),
        Some(Output::SendRemote(
            None,
            SourceHint::Register {
                source: remote_node_id,
                to_root: true
            }
        ))
    );
    assert_eq!(sh.pop_output(), None);

    // subscribe should send a subscribe message and local source event
    sh.on_local(0, FeatureControlActor::Controller, LocalCmd::Subscribe);

    assert_eq!(sh.pop_output(), Some(Output::SendRemote(None, SourceHint::Subscribe(session_id))));
    assert_eq!(sh.pop_output(), Some(Output::SubscribeSource(vec![FeatureControlActor::Controller], remote_node_id)));
    assert_eq!(sh.pop_output(), None);

    // unsubscribe should send a unsubscribe message and local source event
    sh.on_local(0, FeatureControlActor::Controller, LocalCmd::Unsubscribe);

    assert_eq!(sh.pop_output(), Some(Output::SendRemote(None, SourceHint::Unsubscribe(session_id))));
    assert_eq!(sh.pop_output(), Some(Output::UnsubscribeSource(vec![FeatureControlActor::Controller], remote_node_id)));
    assert_eq!(sh.pop_output(), None);
}

#[test]
fn remote_notify_register_should_not_climb_to_root() {
    let node_id = 1;
    let session_id = 1234;
    let mut sh = SourceHintLogic::new(node_id, session_id);

    let remote = addr(127, 0, 0, 1, 1234);
    let remote_node_id = 2;

    // remote register should send event
    sh.on_remote(
        0,
        remote,
        SourceHint::Register {
            source: remote_node_id,
            to_root: false,
        },
    );
    assert_eq!(sh.pop_output(), None);

    sh.on_remote(
        0,
        remote,
        SourceHint::Unregister {
            source: remote_node_id,
            to_root: false,
        },
    );
    assert_eq!(sh.pop_output(), None);
}

#[test]
fn remote_register_should_not_resend_same_sender() {
    let node_id = 1;
    let session_id = 1234;
    let mut sh = SourceHintLogic::new(node_id, session_id);

    let remote1 = addr(127, 0, 0, 1, 1234);
    let remote1_node_id = 2;
    let remote1_session_id = 4321;

    let remote2 = addr(127, 0, 0, 2, 1234);
    let remote2_session_id = 4322;

    // remote subscribe should receive a subscribe ok and snapshot of sources
    sh.on_remote(0, remote1, SourceHint::Subscribe(remote1_session_id));
    sh.on_remote(0, remote2, SourceHint::Subscribe(remote2_session_id));

    assert_eq!(sh.pop_output(), Some(Output::SendRemote(Some(remote1), SourceHint::SubscribeOk(remote1_session_id))));
    assert_eq!(sh.pop_output(), Some(Output::SendRemote(None, SourceHint::Subscribe(session_id))));
    assert_eq!(sh.pop_output(), Some(Output::SendRemote(Some(remote2), SourceHint::SubscribeOk(remote2_session_id))));
    assert_eq!(sh.pop_output(), None);

    // remote register should send event except sender
    sh.on_remote(
        0,
        remote1,
        SourceHint::Register {
            source: remote1_node_id,
            to_root: true,
        },
    );

    assert_eq!(
        sh.pop_output(),
        Some(Output::SendRemote(
            None,
            SourceHint::Register {
                source: remote1_node_id,
                to_root: true
            }
        ))
    );
    assert_eq!(
        sh.pop_output(),
        Some(Output::SendRemote(
            Some(remote2),
            SourceHint::Register {
                source: remote1_node_id,
                to_root: false
            }
        ))
    );
    assert_eq!(sh.pop_output(), None);

    // remote register should send event except sender
    sh.on_remote(
        0,
        remote1,
        SourceHint::Unregister {
            source: remote1_node_id,
            to_root: true,
        },
    );

    assert_eq!(
        sh.pop_output(),
        Some(Output::SendRemote(
            None,
            SourceHint::Unregister {
                source: remote1_node_id,
                to_root: true
            }
        ))
    );
    assert_eq!(
        sh.pop_output(),
        Some(Output::SendRemote(
            Some(remote2),
            SourceHint::Unregister {
                source: remote1_node_id,
                to_root: false
            }
        ))
    );
    assert_eq!(sh.pop_output(), None);
}

#[test]
fn register_resend_after_tick() {
    let node_id = 1;
    let session_id = 1234;
    let mut sh = SourceHintLogic::new(node_id, session_id);

    let remote = addr(127, 0, 0, 1, 1234);
    let remote_node_id = 2;
    let remote_session_id = 4321;

    // fake a local source with a remote subscribe
    sh.on_local(0, FeatureControlActor::Controller, LocalCmd::Register);
    sh.on_remote(0, remote, SourceHint::Subscribe(remote_session_id));

    assert_eq!(sh.pop_output(), Some(Output::SendRemote(None, SourceHint::Register { source: node_id, to_root: true })));
    assert_eq!(sh.pop_output(), Some(Output::SendRemote(Some(remote), SourceHint::SubscribeOk(remote_session_id))));
    assert_eq!(sh.pop_output(), Some(Output::SendRemote(None, SourceHint::Subscribe(session_id))));
    assert_eq!(sh.pop_output(), Some(Output::SendRemote(Some(remote), SourceHint::Sources(vec![node_id]))));
    assert_eq!(sh.pop_output(), None);

    sh.on_tick(1000);
    assert_eq!(sh.pop_output(), Some(Output::SendRemote(None, SourceHint::Register { source: node_id, to_root: true })));
    assert_eq!(sh.pop_output(), Some(Output::SendRemote(Some(remote), SourceHint::Register { source: node_id, to_root: false })));
    assert_eq!(sh.pop_output(), Some(Output::SendRemote(None, SourceHint::Subscribe(session_id))));
    assert_eq!(sh.pop_output(), None);
}

#[test]
fn subscribe_resend_after_tick() {
    let node_id = 1;
    let session_id = 1234;
    let mut sh = SourceHintLogic::new(node_id, session_id);

    // subscribe should send a subscribe message
    sh.on_local(0, FeatureControlActor::Controller, LocalCmd::Subscribe);

    assert_eq!(sh.pop_output(), Some(Output::SendRemote(None, SourceHint::Subscribe(session_id))));
    assert_eq!(sh.pop_output(), None);

    sh.on_tick(1000);
    assert_eq!(sh.pop_output(), Some(Output::SendRemote(None, SourceHint::Subscribe(session_id))));
    assert_eq!(sh.pop_output(), None);
}

#[test]
fn remote_source_timeout() {
    let node_id = 1;
    let session_id = 1234;
    let mut sh = SourceHintLogic::new(node_id, session_id);

    // subscribe should send a subscribe message and local source event
    sh.on_local(0, FeatureControlActor::Controller, LocalCmd::Subscribe);

    assert_eq!(sh.pop_output(), Some(Output::SendRemote(None, SourceHint::Subscribe(session_id))));
    assert_eq!(sh.pop_output(), None);

    let remote = addr(127, 0, 0, 1, 1234);
    let remote_node_id = 2;

    sh.on_remote(
        0,
        remote,
        SourceHint::Register {
            source: remote_node_id,
            to_root: true,
        },
    );

    assert_eq!(
        sh.pop_output(),
        Some(Output::SendRemote(
            None,
            SourceHint::Register {
                source: remote_node_id,
                to_root: true
            }
        ))
    );
    assert_eq!(sh.pop_output(), Some(Output::SubscribeSource(vec![FeatureControlActor::Controller], remote_node_id)));
    assert_eq!(sh.pop_output(), None);

    assert_eq!(sh.remote_sources_len(), 1);
    sh.on_tick(1000);
    assert_eq!(sh.remote_sources_len(), 1);
    assert_eq!(sh.pop_output(), Some(Output::SendRemote(None, SourceHint::Subscribe(session_id))));
    assert_eq!(sh.pop_output(), None);

    sh.on_tick(TIMEOUT_MS);
    assert_eq!(sh.remote_sources_len(), 0);
    assert_eq!(sh.pop_output(), Some(Output::UnsubscribeSource(vec![FeatureControlActor::Controller], remote_node_id)));
    assert_eq!(sh.pop_output(), Some(Output::SendRemote(None, SourceHint::Subscribe(session_id))));
    assert_eq!(sh.pop_output(), None);
}

#[test]
fn remote_source_notify_timeout() {
    let node_id = 1;
    let session_id = 1234;
    let mut sh = SourceHintLogic::new(node_id, session_id);

    // subscribe should send a subscribe message and local source event
    sh.on_local(0, FeatureControlActor::Controller, LocalCmd::Subscribe);

    assert_eq!(sh.pop_output(), Some(Output::SendRemote(None, SourceHint::Subscribe(session_id))));
    assert_eq!(sh.pop_output(), None);

    let remote = addr(127, 0, 0, 1, 1234);
    let remote_node_id = 2;

    sh.on_remote(0, remote, SourceHint::SubscribeOk(session_id));
    sh.on_remote(
        0,
        remote,
        SourceHint::Register {
            source: remote_node_id,
            to_root: false,
        },
    );

    assert_eq!(sh.pop_output(), Some(Output::SubscribeSource(vec![FeatureControlActor::Controller], remote_node_id)));
    assert_eq!(sh.pop_output(), None);

    assert_eq!(sh.remote_sources_len(), 1);
    sh.on_tick(1000);
    assert_eq!(sh.remote_sources_len(), 1);
    assert_eq!(sh.pop_output(), Some(Output::SendRemote(None, SourceHint::Subscribe(session_id))));
    assert_eq!(sh.pop_output(), None);

    sh.on_tick(TIMEOUT_MS);
    assert_eq!(sh.remote_sources_len(), 0);
    assert_eq!(sh.pop_output(), Some(Output::UnsubscribeSource(vec![FeatureControlActor::Controller], remote_node_id)));
    assert_eq!(sh.pop_output(), Some(Output::SendRemote(None, SourceHint::Subscribe(session_id))));
    assert_eq!(sh.pop_output(), None);
}

#[test]
fn remote_subscriber_timeout() {
    let node_id = 1;
    let session_id = 1234;
    let mut sh = SourceHintLogic::new(node_id, session_id);

    let remote = addr(127, 0, 0, 1, 1234);
    let remote_session_id = 4321;

    sh.on_remote(0, remote, SourceHint::Subscribe(remote_session_id));
    assert_eq!(sh.pop_output(), Some(Output::SendRemote(Some(remote), SourceHint::SubscribeOk(remote_session_id))));
    assert_eq!(sh.pop_output(), Some(Output::SendRemote(None, SourceHint::Subscribe(session_id))));
    assert_eq!(sh.pop_output(), None);

    assert_eq!(sh.remote_subscribers_len(), 1);
    sh.on_tick(1000);
    assert_eq!(sh.remote_subscribers_len(), 1);
    assert_eq!(sh.pop_output(), Some(Output::SendRemote(None, SourceHint::Subscribe(session_id))));
    assert_eq!(sh.pop_output(), None);

    sh.on_tick(TIMEOUT_MS);
    assert_eq!(sh.remote_subscribers_len(), 0);
    assert_eq!(sh.pop_output(), Some(Output::SendRemote(None, SourceHint::Unsubscribe(session_id))));
    assert_eq!(sh.pop_output(), None);
}

#[test]
fn next_hop_changed() {
    let node_id = 1;
    let session_id = 1234;
    let mut sh = SourceHintLogic::new(node_id, session_id);

    // subscribe should send a subscribe message and local source event
    sh.on_local(0, FeatureControlActor::Controller, LocalCmd::Subscribe);

    assert_eq!(sh.pop_output(), Some(Output::SendRemote(None, SourceHint::Subscribe(session_id))));
    assert_eq!(sh.pop_output(), None);

    let remote1 = addr(127, 0, 0, 1, 1234);
    let remote2 = addr(127, 0, 0, 2, 1234);

    sh.on_remote(0, remote1, SourceHint::SubscribeOk(session_id));

    let source_id = 100;
    sh.on_remote(0, remote1, SourceHint::Register { source: source_id, to_root: false });

    assert_eq!(sh.pop_output(), Some(Output::SubscribeSource(vec![FeatureControlActor::Controller], source_id)));
    assert_eq!(sh.pop_output(), None);

    // now next hop changed to remote2
    sh.on_remote(1000, remote2, SourceHint::SubscribeOk(session_id));

    // then we will reject any message from remote1
    sh.on_remote(0, remote1, SourceHint::Unregister { source: source_id, to_root: false });
    assert_eq!(sh.pop_output(), None);

    // we only accept from remote2
    sh.on_remote(0, remote2, SourceHint::Unregister { source: source_id, to_root: false });
    assert_eq!(sh.pop_output(), Some(Output::UnsubscribeSource(vec![FeatureControlActor::Controller], source_id)));
    assert_eq!(sh.pop_output(), None);
}

#[test]
fn sources_lists_remote_then_local() {
    let mut sh = SourceHintLogic::new(9, 1);
    let remote = addr(10, 0, 0, 1, 1);
    sh.on_remote(5, remote, SourceHint::Sources(vec![30, 4, 30]));
    assert_eq!(sh.sources(), vec![4, 30]);
    sh.on_local(5, FeatureControlActor::Controller, LocalCmd::Register);
    assert_eq!(sh.sources(), vec![4, 30, 9]);
    assert!(!sh.should_clear());
}

#[test]
fn remote_unsubscribe_is_acked_and_leaves_next_hop() {
    let mut sh = SourceHintLogic::new(1, 77);
    let remote = addr(127, 0, 0, 1, 1234);
    sh.on_remote(0, remote, SourceHint::Subscribe(5));
    assert_eq!(sh.pop_output(), Some(Output::SendRemote(Some(remote), SourceHint::SubscribeOk(5))));
    assert_eq!(sh.pop_output(), Some(Output::SendRemote(None, SourceHint::Subscribe(77))));
    assert_eq!(sh.pop_output(), None);

    sh.on_remote(1, remote, SourceHint::Subscribe(5));
    assert_eq!(sh.pop_output(), Some(Output::SendRemote(Some(remote), SourceHint::SubscribeOk(5))));
    assert_eq!(sh.pop_output(), None);

    sh.on_remote(2, remote, SourceHint::Unsubscribe(5));
    assert_eq!(sh.pop_output(), Some(Output::SendRemote(Some(remote), SourceHint::UnsubscribeOk(5))));
    assert_eq!(sh.pop_output(), Some(Output::SendRemote(None, SourceHint::Unsubscribe(77))));
    assert_eq!(sh.pop_output(), None);
    assert!(sh.should_clear());

    sh.on_remote(3, remote, SourceHint::Unsubscribe(5));
    assert_eq!(sh.pop_output(), Some(Output::SendRemote(Some(remote), SourceHint::UnsubscribeOk(5))));
    assert_eq!(sh.pop_output(), None);
}

#[test]
fn local_unregister_notifies_root_subscribers_and_locals() {
    let mut sh = SourceHintLogic::new(2, 8);
    let remote = addr(127, 0, 0, 3, 99);
    sh.on_local(0, FeatureControlActor::Worker(3), LocalCmd::Register);
    sh.on_local(0, FeatureControlActor::Controller, LocalCmd::Subscribe);
    sh.on_remote(0, remote, SourceHint::Subscribe(1));
    while sh.pop_output().is_some() {}

    sh.on_local(0, FeatureControlActor::Worker(3), LocalCmd::Unregister);
    assert_eq!(sh.pop_output(), Some(Output::SendRemote(None, SourceHint::Unregister { source: 2, to_root: true })));
    assert_eq!(sh.pop_output(), Some(Output::SendRemote(Some(remote), SourceHint::Unregister { source: 2, to_root: false })));
    assert_eq!(sh.pop_output(), Some(Output::UnsubscribeSource(vec![FeatureControlActor::Controller], 2)));
    assert_eq!(sh.pop_output(), None);
}

#[test]
fn sources_remote_ascending_then_local() {
    let mut sh = SourceHintLogic::new(1, 1234);
    let remote = addr(127, 0, 0, 1, 1000);
    sh.on_local(0, FeatureControlActor::Controller, LocalCmd::Register);
    sh.on_remote(0, remote, SourceHint::Register { source: 7, to_root: true });
    sh.on_remote(0, remote, SourceHint::Register { source: 2, to_root: true });
    assert_eq!(sh.sources(), vec![2, 7, 1]);
}
