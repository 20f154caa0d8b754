use atm0s_sdn_network::vpn::{rewrite_tun_pkt, VpnFeature, VpnFeatureWorker};

#[test]
fn tun_packet_header_becomes_ipv4() {
    let mut pkt: Vec<u8> = vec![0, 0, 0, 2, 0x45, 0x00, 0x00, 0x14];
    rewrite_tun_pkt(&mut pkt);
    assert_eq!(pkt, vec![0, 0, 8, 0, 0x45, 0x00, 0x00, 0x14]);
}

#[test]
fn vpn_worker_drops_udp_and_shuts_down() {
    let mut worker = VpnFeatureWorker::new();
    assert!(!worker.is_empty());
    worker.process_udp(vec![1, 2, 3]);
    assert_eq!(worker.pop_output(), None);
    assert!(!worker.is_empty());
    worker.on_shutdown();
    assert!(worker.is_empty());
}

#[test]
fn vpn_feature_shuts_down() {
    let mut feature = VpnFeature::new();
    assert!(!feature.is_empty());
    assert_eq!(feature.pop_output(), None);
    feature.on_shutdown();
    assert!(feature.is_empty());
}
