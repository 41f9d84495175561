use allcast::config::{config_dir, config_path, Codec, Config, Peer, Quality, Role, APP_DIR, CONFIG_FILE};

#[test]
fn quality_presets() {
    assert_eq!(Quality::Text.framerate(), 30);
    assert_eq!(Quality::Video.framerate(), 60);
    assert_eq!(Quality::Text.bitrate_kbps(), 12_000);
    assert_eq!(Quality::Video.bitrate_kbps(), 20_000);
    assert_eq!(Quality::Text.target_usage(), 2);
    assert_eq!(Quality::Video.target_usage(), 2);
    assert_eq!(Quality::Text.rate_control(), "cbr");
    assert_eq!(Quality::Video.rate_control(), "cbr");
}

#[test]
fn default_config_values() {
    let c = Config::default();
    assert_eq!(c.role, Role::Receiver);
    assert_eq!(c.quality, Quality::Text);
    assert_eq!(c.codec, Codec::H265);
    assert_eq!(c.payload_type, 96);
    assert!(c.peers.is_empty());
    assert_eq!(c.active_peer, 0);
    assert_eq!(c.listen_port, 5004);
    assert_eq!(c.width, 1920);
    assert_eq!(c.height, 1080);
    assert_eq!(c.monitor, "auto");
    assert_eq!(c.jitter_ms, 10);
    assert_eq!(c.idle_timeout_s, 3);
    assert_eq!(c.rcvbuf, 8 * 1024 * 1024);
}

fn peer(label: &str, address: &str) -> Peer {
    Peer { label: label.to_string(), address: address.to_string() }
}

#[test]
fn active_peer_address_selects_peer() {
    let mut c = Config::default();
    assert_eq!(c.active_peer_address(), None);
    c.peers.push(peer("desk", "10.0.0.2:5004"));
    c.peers.push(peer("tv", "10.0.0.3:6000"));
    assert_eq!(c.active_peer_address(), Some("10.0.0.2:5004"));
    c.active_peer = 1;
    assert_eq!(c.active_peer_address(), Some("10.0.0.3:6000"));
    c.active_peer = 2;
    assert_eq!(c.active_peer_address(), None);
}

#[test]
fn config_paths_join_under_platform_dir() {
    assert_eq!(APP_DIR, "share-screen");
    assert_eq!(CONFIG_FILE, "config.toml");
    assert_eq!(config_dir(Some("/home/u/.config"), '/'), Some("/home/u/.config/share-screen".to_string()));
    assert_eq!(config_dir(Some("/home/u/.config/"), '/'), Some("/home/u/.config/share-screen".to_string()));
    assert_eq!(config_path(Some("/home/u/.config"), '/'), Some("/home/u/.config/share-screen/config.toml".to_string()));
    assert_eq!(
        config_path(Some("C:\\Users\\u\\AppData\\Roaming"), '\\'),
        Some("C:\\Users\\u\\AppData\\Roaming\\share-screen\\config.toml".to_string())
    );
    assert_eq!(config_dir(Some("C:/x/"), '\\'), Some("C:/x/share-screen".to_string()));
    assert_eq!(config_dir(Some(""), '/'), Some("share-screen".to_string()));
    assert_eq!(config_dir(None, '/'), None);
    assert_eq!(config_path(None, '/'), None);
}
