use bevy_r_place::args::BevyPlaceConfig;

#[test]
fn config_defaults() {
    let c = BevyPlaceConfig::default();
    assert_eq!(c.address, "0.0.0.0");
    assert_eq!((c.quic_port, c.tcp_port, c.ws_port, c.wss_port, c.webrtc_port, c.health_check_port), (4201, 4202, 4203, 4204, 4205, 4206));
    assert_eq!((c.ws_path.as_str(), c.wss_path.as_str()), ("/", "/"));
    assert_eq!(c.bootstrap_nodes.len(), 5);
    assert_eq!(c.bootstrap_nodes[0], "/ip4/127.0.0.1/udp/4201/quic-v1");
    assert!(!c.bootstrap && !c.headless && !c.mainnet && !c.restore_latest_snapshot);
    assert!(c.network.is_empty());
    assert!(c.artifact_folder.is_none() && c.artifact_s3_bucket.is_none() && c.snapshot_interval_seconds.is_none());
}

#[test]
fn bootstrap_selection() {
    let mut c = BevyPlaceConfig::default();
    assert_eq!(c.bootstrap_peer_addresses(), c.bootstrap_nodes);
    c.network = "/ip4/10.0.0.1/tcp/4202".to_string();
    let peers = c.bootstrap_peer_addresses();
    assert_eq!(peers.len(), 6);
    assert_eq!(peers[5], "/ip4/10.0.0.1/tcp/4202");
    c.mainnet = true;
    let peers = c.bootstrap_peer_addresses();
    assert_eq!(peers.len(), 5);
    assert_eq!(peers[0], "/dns4/bevy-r-place.mosure.dev/tcp/4203/ws");
    c.bootstrap = true;
    assert!(c.bootstrap_peer_addresses().is_empty());
}
