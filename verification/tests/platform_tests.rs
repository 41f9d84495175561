use allcast::config::Codec;
use allcast::platform::{
    current_os, decoder_candidates, default_sink, default_source, encoder_candidates, pick_element, Os,
};

#[test]
fn current_os_from_target_name() {
    assert_eq!(current_os("linux"), Os::Linux);
    assert_eq!(current_os("macos"), Os::Macos);
    assert_eq!(current_os("windows"), Os::Windows);
    assert_eq!(current_os("freebsd"), Os::Linux);
}

#[test]
fn linux_h265_encoders_prefer_hardware() {
    let c = encoder_candidates(Os::Linux, Codec::H265);
    assert_eq!(c.len(), 7);
    assert_eq!(c[0], ("nvh265enc", true));
    assert_eq!(c[6], ("x265enc", false));
    let c = encoder_candidates(Os::Linux, Codec::H264);
    assert_eq!(c.len(), 8);
    assert_eq!(c[6], ("vulkanh264enc", true));
    assert_eq!(c[7], ("x264enc", false));
}

#[test]
fn decoder_lists_order() {
    // Linux keeps the software decoder first; elsewhere it is the fallback.
    let c = decoder_candidates(Os::Linux, Codec::H265);
    assert_eq!(c.len(), 8);
    assert_eq!(c[0], ("avdec_h265", false));
    assert_eq!(c[7], ("v4l2slh265dec", true));
    for os in [Os::Macos, Os::Windows] {
        for codec in [Codec::H264, Codec::H265] {
            let c = decoder_candidates(os, codec);
            assert!(!c.is_empty());
            assert!(!c[c.len() - 1].1, "last decoder is the software fallback");
        }
    }
    let c = decoder_candidates(Os::Windows, Codec::H264);
    assert_eq!(c[0], ("d3d12h264dec", true));
    assert_eq!(c[c.len() - 1], ("avdec_h264", false));
}

#[test]
fn pick_element_takes_first_available() {
    let c = encoder_candidates(Os::Linux, Codec::H265);
    let mut avail = vec![false; c.len()];
    assert_eq!(pick_element(c, &avail), None);
    avail[2] = true;
    avail[6] = true;
    assert_eq!(pick_element(c, &avail), Some(("vah265enc", true)));
    let mut only_sw = vec![false; c.len()];
    only_sw[6] = true;
    assert_eq!(pick_element(c, &only_sw), Some(("x265enc", false)));
}

#[test]
fn default_sinks_and_sources() {
    assert_eq!(default_sink(Os::Linux), "waylandsink fullscreen=true sync=false");
    assert_eq!(default_sink(Os::Macos), "osxvideosink sync=false");
    assert_eq!(default_sink(Os::Windows), "d3d11videosink sync=false");
    assert_eq!(default_source(Os::Linux), "pipewiresrc fd=@PW_FD@ path=@NODE_ID@");
    assert_eq!(default_source(Os::Macos), "avfvideosrc capture-screen=true");
    assert_eq!(default_source(Os::Windows), "d3d11screencapturesrc");
}

#[test]
fn hardware_encoder_preferred_when_available() {
    for os in [Os::Linux, Os::Macos, Os::Windows] {
        for codec in [Codec::H264, Codec::H265] {
            let c = encoder_candidates(os, codec);
            // Software fallback and one hardware encoder available.
            let mut avail = vec![false; c.len()];
            avail[c.len() - 1] = true;
            avail[c.len() - 2] = true;
            let picked = pick_element(c, &avail).unwrap();
            assert!(picked.1, "hardware encoder must win over software");
            assert_eq!(picked, c[c.len() - 2]);
        }
    }
}
