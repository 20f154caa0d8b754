use atm0s_sdn_network::features::{ExtIn, ExtOut, Features, FeaturesControl, FeaturesEvent, FeaturesToController, FeaturesToWorker};
use atm0s_sdn_network::{alias, data, neighbours, router_sync, socket, vpn};

#[test]
fn features_ids_round_trip() {
    let all = [
        Features::Neighbours,
        Features::Data,
        Features::RouterSync,
        Features::Vpn,
        Features::DhtKv,
        Features::PubSub,
        Features::Alias,
        Features::Socket,
    ];
    for (i, f) in all.iter().enumerate() {
        assert_eq!(f.to_u8(), i as u8);
        assert_eq!(Features::from_u8(i as u8), Some(*f));
    }
    assert_eq!(Features::from_u8(8), None);
    assert_eq!(Features::from_u8(255), None);
}

#[test]
fn features_messages_know_their_feature() {
    assert_eq!(FeaturesControl::RouterSync(router_sync::Control::DumpRouter).to_feature(), Features::RouterSync);
    assert_eq!(FeaturesControl::Alias(alias::Control::Unregister { alias: 1 }).to_feature(), Features::Alias);
    assert_eq!(FeaturesToController::Vpn(vpn::ToController).to_feature(), Features::Vpn);
    assert_eq!(FeaturesToController::Socket(socket::ToController).to_feature(), Features::Socket);
    assert_eq!(FeaturesToController::RouterSync(()).to_feature(), Features::RouterSync);
    let ext: ExtIn<u8, ()> = ExtIn::FeaturesControl(3, FeaturesControl::Alias(alias::Control::Unregister { alias: 1 }));
    match ext {
        ExtIn::FeaturesControl(3, c) => assert_eq!(c.to_feature(), Features::Alias),
        _ => panic!("expected a feature control"),
    }
}

#[test]
fn features_worker_commands_know_their_feature() {
    let rs: FeaturesToWorker<u32> = FeaturesToWorker::RouterSync(7);
    assert_eq!(rs.to_feature(), Features::RouterSync);
    let n: FeaturesToWorker<u32> = FeaturesToWorker::Neighbours(neighbours::ToWorker);
    assert_eq!(n.to_feature(), Features::Neighbours);
    let d: FeaturesToWorker<u32> = FeaturesToWorker::Data(data::ToWorker);
    assert_eq!(d.to_feature(), Features::Data);
    let v: FeaturesToWorker<u32> = FeaturesToWorker::Vpn(vpn::ToWorker);
    assert_eq!(v.to_feature(), Features::Vpn);
    let a: FeaturesToWorker<u32> = FeaturesToWorker::Alias(alias::ToWorker);
    assert_eq!(a.to_feature(), Features::Alias);
    let s: FeaturesToWorker<u32> = FeaturesToWorker::Socket(socket::ToWorker::UnbindSocket(3));
    assert_eq!(s.to_feature(), Features::Socket);
}

#[test]
fn features_event_reaches_the_application() {
    let out: ExtOut<u8, (), u32> = ExtOut::FeaturesEvent(5, FeaturesEvent::RouterSync(router_sync::Event::DumpRouter(Box::new(42))));
    match out {
        ExtOut::FeaturesEvent(5, FeaturesEvent::RouterSync(router_sync::Event::DumpRouter(d))) => assert_eq!(*d, 42),
        _ => panic!("expected a router dump"),
    }
    let ev: FeaturesEvent<u32> = FeaturesEvent::Neighbours(neighbours::Event::SeedAddressNeeded);
    assert_eq!(ev, FeaturesEvent::Neighbours(neighbours::Event::SeedAddressNeeded));
}
