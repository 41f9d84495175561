use allcast::config::{Config, Peer, Role};
use allcast::pipeline::split_dest;
use allcast::monitor::{Enumeration, Source};
use allcast::platform::Os;
use allcast::settings::{
    add_peer, monitors_for, peer_display_label, remove_peer, settle_monitor, validate, MonitorView, ValidateError,
};

fn sender() -> Config {
    let mut c = Config::default();
    c.role = Role::Sender;
    c
}

fn peer(address: &str) -> Peer {
    Peer { label: String::new(), address: address.to_string() }
}

#[test]
fn receiver_config_always_valid() {
    let c = Config::default();
    assert!(validate(&c).is_ok());
}

#[test]
fn sender_needs_peers() {
    let c = sender();
    let e = validate(&c).unwrap_err();
    assert!(matches!(e, ValidateError::NoPeers));
    assert_eq!(e.message(), "Sender needs at least one peer (add one above).");
}

#[test]
fn sender_active_peer_in_range() {
    let mut c = sender();
    c.peers.push(peer("10.0.0.2:5004"));
    c.active_peer = 1;
    let e = validate(&c).unwrap_err();
    assert!(matches!(e, ValidateError::ActivePeerOutOfRange));
    assert_eq!(e.message(), "Active peer index out of range.");
    c.active_peer = 0;
    assert!(validate(&c).is_ok());
}

#[test]
fn sender_peers_checked_in_order() {
    let mut c = sender();
    c.peers.push(peer(" 10.0.0.2:5004 "));
    c.peers.push(peer("nohost"));
    c.peers.push(peer("h:99999"));
    let e = validate(&c).unwrap_err();
    match &e {
        ValidateError::PeerNotHostPort(a) => assert_eq!(a, "nohost"),
        _ => panic!("expected PeerNotHostPort"),
    }
    assert_eq!(e.message(), "Peer `nohost` must be host:port");
    c.peers.remove(1);
    let e = validate(&c).unwrap_err();
    match &e {
        ValidateError::PeerInvalidPort(a) => assert_eq!(a, "h:99999"),
        _ => panic!("expected PeerInvalidPort"),
    }
    assert_eq!(e.message(), "Peer `h:99999` has invalid port");
}

#[test]
fn add_peer_trims_and_selects_first() {
    let mut c = sender();
    c.active_peer = 7;
    let e = add_peer(&mut c, "x", "   ").unwrap_err();
    assert!(matches!(e, ValidateError::AddressNotHostPort));
    assert_eq!(e.message(), "Peer must be host:port");
    assert!(add_peer(&mut c, "x", "nocolon").is_err());
    assert!(c.peers.is_empty());
    assert_eq!(c.active_peer, 7);
    add_peer(&mut c, "  desk ", " 10.0.0.2:5004\t").unwrap();
    assert_eq!(c.peers.len(), 1);
    assert_eq!(c.peers[0].label, "desk");
    assert_eq!(c.peers[0].address, "10.0.0.2:5004");
    assert_eq!(c.active_peer, 0);
    c.active_peer = 0;
    add_peer(&mut c, "tv", "tv.local:6000").unwrap();
    assert_eq!(c.peers.len(), 2);
    assert_eq!(c.active_peer, 0);
    assert!(validate(&c).is_ok());
    // `:` alone is accepted here; validation later rejects its port.
    add_peer(&mut c, "", "a:").unwrap();
    assert!(matches!(validate(&c), Err(ValidateError::PeerInvalidPort(_))));
}

#[test]
fn remove_peer_keeps_selection_in_range() {
    let mut c = sender();
    c.peers.push(peer("a:1"));
    c.peers.push(peer("b:2"));
    c.peers.push(peer("c:3"));
    c.active_peer = 2;
    remove_peer(&mut c, 0);
    assert_eq!(c.peers.len(), 2);
    assert_eq!(c.peers[0].address, "b:2");
    assert_eq!(c.active_peer, 1);
    remove_peer(&mut c, 1);
    assert_eq!(c.active_peer, 0);
    remove_peer(&mut c, 0);
    assert!(c.peers.is_empty());
    assert_eq!(c.active_peer, 0);
}

#[test]
fn valid_sender_has_a_destination() {
    let mut c = sender();
    add_peer(&mut c, "desk", "10.0.0.2:5004").unwrap();
    assert!(validate(&c).is_ok());
    let a = c.active_peer_address().unwrap();
    assert_eq!(split_dest(a), Ok(("10.0.0.2".to_string(), 5004)));
}

#[test]
fn remove_undoes_add() {
    let mut c = sender();
    c.peers.push(peer("a:1"));
    c.peers.push(peer("b:2"));
    c.active_peer = 1;
    add_peer(&mut c, "new", "c:3").unwrap();
    let n = c.peers.len();
    remove_peer(&mut c, n - 1);
    assert_eq!(c.peers.len(), 2);
    assert_eq!(c.peers[0].address, "a:1");
    assert_eq!(c.peers[1].address, "b:2");
    assert_eq!(c.active_peer, 1);
}

#[test]
fn peer_labels() {
    let p = Peer { label: String::new(), address: "10.0.0.2:5004".to_string() };
    assert_eq!(peer_display_label(&p), "10.0.0.2:5004");
    let q = Peer { label: "desk".to_string(), address: "10.0.0.2:5004".to_string() };
    assert_eq!(peer_display_label(&q), "desk");
}

fn enumeration(source: Source, names: &[&str], user_selectable: bool) -> Enumeration {
    Enumeration { source, names: names.iter().map(|s| s.to_string()).collect(), user_selectable }
}

#[test]
fn monitor_section_settles_field() {
    let mut c = sender();
    c.monitor = "HDMI-A-1".to_string();
    let v = settle_monitor(&mut c, &enumeration(Source::NotFound, &[], false), Os::Linux);
    assert_eq!(v, MonitorView::PortalPicks);
    assert_eq!(c.monitor, "auto");

    let mut r = Config::default();
    r.monitor = "x".to_string();
    assert_eq!(settle_monitor(&mut r, &enumeration(Source::NotFound, &[], true), Os::Linux), MonitorView::NoTools);
    assert_eq!(r.monitor, "auto");
    assert_eq!(
        settle_monitor(&mut r, &enumeration(Source::NotFound, &[], true), Os::Windows),
        MonitorView::NotImplemented
    );
    r.monitor = "x".to_string();
    assert_eq!(settle_monitor(&mut r, &enumeration(Source::Cocoa, &[], true), Os::Macos), MonitorView::NoneDetected);
    assert_eq!(r.monitor, "auto");
    r.monitor = "DP-1".to_string();
    assert_eq!(settle_monitor(&mut r, &enumeration(Source::Win32, &["DP-1"], true), Os::Windows), MonitorView::Choose);
    assert_eq!(r.monitor, "DP-1");
    assert_eq!(
        settle_monitor(&mut r, &enumeration(Source::WlrRandr, &["DP-1"], false), Os::Linux),
        MonitorView::Informational
    );
    assert_eq!(r.monitor, "auto");
}

#[test]
fn monitors_follow_role() {
    let e = monitors_for(Role::Sender, Os::Linux, (Source::KdeKScreen, vec!["eDP-1".to_string()]));
    assert_eq!(e.source, Source::KdeKScreen);
    assert!(!e.user_selectable);
    let e = monitors_for(Role::Receiver, Os::Macos, (Source::NotFound, vec![]));
    assert_eq!(e.source, Source::Cocoa);
    assert!(e.user_selectable);
}
