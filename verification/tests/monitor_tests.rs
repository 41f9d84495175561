use allcast::monitor::{
    cocoa_screens, enumerate_for_receiver, enumerate_for_sender, enumerate_linux, is_connector_name,
    needs_wlr_probe, parse_kscreen_doctor, parse_wlr_randr, strip_ansi, win_screens, Source,
};
use allcast::platform::Os;

fn strings(v: &[&str]) -> Vec<String> {
    v.iter().map(|s| s.to_string()).collect()
}

#[test]
fn strip_ansi_removes_sgr_sequences() {
    assert_eq!(strip_ansi("\x1b[01;32mOutput: \x1b[0;0m1 eDP-1"), "Output: 1 eDP-1");
    assert_eq!(strip_ansi("plain text"), "plain text");
    // An escape not followed by `[` is kept.
    assert_eq!(strip_ansi("a\x1bb"), "a\x1bb");
    // An unterminated sequence swallows the rest.
    assert_eq!(strip_ansi("ab\x1b[12"), "ab");
}

#[test]
fn connector_names() {
    assert!(is_connector_name("eDP-1"));
    assert!(is_connector_name("HDMI-A-1"));
    assert!(is_connector_name("DP-2"));
    assert!(!is_connector_name("1234"));
    assert!(!is_connector_name("12-34"));
    assert!(!is_connector_name("b549d1ea-1234-4c5e-9b2c-1234567890ab"));
    // The dash-count clause never rejects a name (it tests `!count > 4`).
    assert!(is_connector_name("a-b-c-d-e-f"));
}

#[test]
fn kscreen_doctor_lists_connectors() {
    let text = "\x1b[01;32mOutput: \x1b[0;0m1 eDP-1 b549d1ea-1234-4c5e-9b2c-1234567890ab\n\
                \tenabled\n\
                \tconnected\n\
                \x1b[01;32mOutput: \x1b[0;0m2 HDMI-A-1 0a1b2c3d\r\n\
                Output: 3 1234\n\
                Output: 4\n";
    assert_eq!(parse_kscreen_doctor(text), strings(&["eDP-1", "HDMI-A-1"]));
    assert!(parse_kscreen_doctor("").is_empty());
}

#[test]
fn wlr_randr_lists_unindented_names() {
    let text = "eDP-1 \"Sharp Corporation 0x14A8\"\n  Make: Sharp\n  Enabled: yes\n\nHDMI-A-1 \"Dell\"\n  Modes:\n    1920x1080 px\n";
    assert_eq!(parse_wlr_randr(text), strings(&["eDP-1", "HDMI-A-1"]));
    assert!(parse_wlr_randr("  indented only\n").is_empty());
}

#[test]
fn linux_enumeration_prefers_kscreen() {
    assert!(needs_wlr_probe(&None));
    assert!(needs_wlr_probe(&Some(vec![])));
    assert!(!needs_wlr_probe(&Some(strings(&["eDP-1"]))));

    let (s, n) = enumerate_linux(Some(strings(&["eDP-1"])), Some(strings(&["DP-1"])));
    assert_eq!(s, Source::KdeKScreen);
    assert_eq!(n, strings(&["eDP-1"]));
    let (s, n) = enumerate_linux(Some(vec![]), Some(strings(&["DP-1"])));
    assert_eq!(s, Source::WlrRandr);
    assert_eq!(n, strings(&["DP-1"]));
    let (s, n) = enumerate_linux(None, None);
    assert_eq!(s, Source::NotFound);
    assert!(n.is_empty());
}

#[test]
fn enumeration_per_role_and_os() {
    let e = enumerate_for_sender(Os::Linux, (Source::WlrRandr, strings(&["DP-1"])));
    assert_eq!(e.source, Source::WlrRandr);
    assert_eq!(e.names, strings(&["DP-1"]));
    assert!(!e.user_selectable);
    let e = enumerate_for_receiver(Os::Linux, (Source::KdeKScreen, strings(&["eDP-1"])));
    assert_eq!(e.source, Source::KdeKScreen);
    assert!(!e.user_selectable);
    let e = enumerate_for_sender(Os::Macos, (Source::NotFound, vec![]));
    assert_eq!(e.source, Source::Cocoa);
    assert!(e.names.is_empty());
    assert!(e.user_selectable);
    let e = enumerate_for_receiver(Os::Windows, (Source::NotFound, vec![]));
    assert_eq!(e.source, Source::Win32);
    assert!(e.user_selectable);
    assert!(cocoa_screens().is_empty());
    assert!(win_screens().is_empty());
}

#[test]
fn kscreen_names_pass_connector_check() {
    let text = "Output: 1 eDP-1 x\nOutput: 2 b549d1ea-1234-4c5e-9b2c-1234567890ab y\nOutput: 3 DP-2\n";
    let names = parse_kscreen_doctor(text);
    assert_eq!(names, strings(&["eDP-1", "DP-2"]));
    for n in &names {
        assert!(is_connector_name(n));
    }
}
