use allcast::config::{Codec, Config, Quality};
use allcast::pipeline::{
    capture_pipeline_desc, decoder_args, encoder_args, keyframe_interval, low_latency_args, receiver_pipeline_desc,
    sender_pipeline_desc, split_dest, DestError, SenderSettings,
};

#[test]
fn split_dest_at_last_colon() {
    assert_eq!(split_dest("10.0.0.2:5004"), Ok(("10.0.0.2".to_string(), 5004)));
    assert_eq!(split_dest("[::1]:6000"), Ok(("[::1]".to_string(), 6000)));
    assert_eq!(split_dest("host:+7"), Ok(("host".to_string(), 7)));
    assert_eq!(split_dest(":1"), Ok(("".to_string(), 1)));
    assert_eq!(split_dest("hostonly"), Err(DestError::NotHostPort));
    assert_eq!(split_dest("host:70000"), Err(DestError::InvalidPort));
    assert_eq!(split_dest("host:"), Err(DestError::InvalidPort));
    assert_eq!(split_dest("host:12a"), Err(DestError::InvalidPort));
    assert_eq!(split_dest("host:-1"), Err(DestError::InvalidPort));
    assert_eq!(split_dest("host:65535"), Ok(("host".to_string(), 65535)));
}

#[test]
fn encoder_args_per_family() {
    assert_eq!(
        encoder_args("vah265enc", 30, 12000, 2, "cbr"),
        "key-int-max=30 b-frames=0 ref-frames=1 target-usage=2 rate-control=cbr bitrate=12000"
    );
    assert_eq!(
        encoder_args("vaapih264enc", 60, 20000, 2, "cqp"),
        "key-int-max=60 b-frames=0 ref-frames=1 target-usage=2 rate-control=cqp qpi=22 qpp=22"
    );
    assert_eq!(
        encoder_args("nvh265enc", 30, 12000, 2, "cbr"),
        "preset=low-latency-hq zerolatency=true rc-mode=cbr-ld-hq gop-size=30 bframes=0 bitrate=12000"
    );
    assert_eq!(encoder_args("vtenc_h264_hw", 30, 12000, 2, "cbr"), "realtime=true allow-frame-reordering=false bitrate=12000");
    assert_eq!(encoder_args("mfh265enc", 30, 12000, 2, "cbr"), "low-latency=true bitrate=12000");
    assert_eq!(
        encoder_args("qsvh264enc", 30, 12000, 2, "cbr"),
        "low-latency=true gop-size=30 ref-frames=1 b-frames=0 bitrate=12000"
    );
    assert_eq!(encoder_args("amfh265enc", 30, 12000, 2, "cbr"), "usage=ultra-low-latency gop-size=30 bitrate=12000");
    assert_eq!(
        encoder_args("x264enc", 30, 12000, 2, "cbr"),
        "tune=zerolatency speed-preset=veryfast key-int-max=30 bframes=0 bitrate=12000"
    );
    assert_eq!(encoder_args("vulkanh264enc", 30, 12000, 2, "cbr"), "key-int-max=30");
}

#[test]
fn sender_pipeline_for_text_preset() {
    let cfg = Config::default();
    let d = sender_pipeline_desc(&cfg, "vah265enc", "pipewiresrc fd=3 path=44", "10.0.0.2", 5004);
    assert_eq!(
        d,
        "pipewiresrc fd=3 path=44 ! videorate ! videoconvert ! videoscale \
         ! video/x-raw,format=NV12,width=1920,height=1080,framerate=30/1 \
         ! vah265enc key-int-max=30 b-frames=0 ref-frames=1 target-usage=2 rate-control=cbr bitrate=12000 \
         ! h265parse config-interval=-1 ! video/x-h265,stream-format=byte-stream,alignment=au \
         ! rtph265pay aggregate-mode=zero-latency pt=96 mtu=1200 config-interval=-1 \
         ! udpsink host=10.0.0.2 port=5004 sync=false async=false"
    );
}

#[test]
fn sender_pipeline_for_video_preset_h264() {
    let mut cfg = Config::default();
    cfg.quality = Quality::Video;
    cfg.codec = Codec::H264;
    cfg.payload_type = 97;
    cfg.width = 2560;
    cfg.height = 1440;
    let d = sender_pipeline_desc(&cfg, "x264enc", "d3d11screencapturesrc", "tv.local", 6000);
    assert_eq!(
        d,
        "d3d11screencapturesrc ! videorate ! videoconvert ! videoscale \
         ! video/x-raw,format=NV12,width=2560,height=1440,framerate=60/1 \
         ! x264enc tune=zerolatency speed-preset=veryfast key-int-max=60 bframes=0 bitrate=20000 \
         ! h264parse config-interval=-1 ! video/x-h264,stream-format=byte-stream,alignment=au \
         ! rtph264pay aggregate-mode=zero-latency pt=97 mtu=1200 config-interval=-1 \
         ! udpsink host=tv.local port=6000 sync=false async=false"
    );
}

#[test]
fn receiver_pipeline_descriptions() {
    assert_eq!(decoder_args("avdec_h265"), "max-threads=1 thread-type=1");
    assert_eq!(decoder_args("avdec_h264"), "max-threads=1 thread-type=1");
    assert_eq!(decoder_args("vah265dec"), "");
    let d = receiver_pipeline_desc(5004, 8 * 1024 * 1024, Codec::H265, 96, 10, "avdec_h265", "waylandsink fullscreen=true sync=false");
    assert_eq!(
        d,
        "udpsrc name=netin port=5004 buffer-size=8388608 \
         caps=application/x-rtp,media=video,clock-rate=90000,encoding-name=H265,payload=96 \
         ! rtpjitterbuffer latency=10 mode=1 \
         ! rtph265depay ! h265parse ! avdec_h265 max-threads=1 thread-type=1 ! videoconvert ! waylandsink fullscreen=true sync=false"
    );
    let d = receiver_pipeline_desc(6000, 0, Codec::H264, 98, 0, "vah264dec", "autovideosink");
    assert_eq!(
        d,
        "udpsrc name=netin port=6000 buffer-size=0 \
         caps=application/x-rtp,media=video,clock-rate=90000,encoding-name=H264,payload=98 \
         ! rtpjitterbuffer latency=0 mode=1 \
         ! rtph264depay ! h264parse ! vah264dec  ! videoconvert ! autovideosink"
    );
}

#[test]
fn keyframe_interval_from_ms_budget() {
    assert_eq!(keyframe_interval(30, 200), 6);
    assert_eq!(keyframe_interval(60, 1000), 60);
    assert_eq!(keyframe_interval(30, 10), 1);
    assert_eq!(keyframe_interval(0, 200), 1);
    assert_eq!(keyframe_interval(25, 333), 8);
}

#[test]
fn low_latency_args_with_qp() {
    assert_eq!(
        low_latency_args("vah265enc", 6, 10000, 4, "cqp", 18),
        "key-int-max=6 b-frames=0 ref-frames=1 target-usage=4 rate-control=cqp qpi=18 qpp=18"
    );
    assert_eq!(
        low_latency_args("vah264enc", 6, 10000, 4, "cbr", 18),
        "key-int-max=6 b-frames=0 ref-frames=1 target-usage=4 rate-control=cbr bitrate=10000"
    );
    assert_eq!(
        low_latency_args("nvcudah264enc", 6, 10000, 4, "cbr", 22),
        "preset=low-latency-hq zerolatency=true rc-mode=cbr-ld-hq gop-size=6 bframes=0 bitrate=10000"
    );
    assert_eq!(
        low_latency_args("x265enc", 6, 10000, 4, "cbr", 22),
        "tune=zerolatency speed-preset=veryfast key-int-max=6 bframes=0 bitrate=10000"
    );
    assert_eq!(
        low_latency_args("qsvh265enc", 6, 10000, 4, "cbr", 22),
        "low-latency=true gop-size=6 ref-frames=1 b-frames=0 bitrate=10000"
    );
    assert_eq!(low_latency_args("amfh264enc", 6, 10000, 4, "cbr", 22), "usage=ultra-low-latency gop-size=6 bitrate=10000");
    // The standalone sender has no VideoToolbox / Media Foundation entries.
    assert_eq!(low_latency_args("mfh265enc", 6, 10000, 4, "cbr", 22), "key-int-max=6");
}

#[test]
fn capture_pipeline_names_the_encoder() {
    let s = SenderSettings {
        source: "ximagesrc use-damage=false".to_string(),
        codec: Codec::H265,
        payload_type: 96,
        framerate: 30,
        width: 1920,
        height: 1080,
        mtu: 1200,
        bitrate_kbps: 10000,
        target_usage: 4,
        rate_control: "cbr".to_string(),
        qp: 22,
        keyframe_ms: 200,
    };
    let d = capture_pipeline_desc(&s, "vah265enc", "192.168.1.5", 5004);
    assert_eq!(
        d,
        "ximagesrc use-damage=false ! videorate ! videoconvert ! videoscale \
         ! video/x-raw,format=NV12,width=1920,height=1080,framerate=30/1 \
         ! vah265enc name=enc key-int-max=6 b-frames=0 ref-frames=1 target-usage=4 rate-control=cbr bitrate=10000 \
         ! h265parse config-interval=-1 ! video/x-h265,stream-format=byte-stream,alignment=au \
         ! rtph265pay aggregate-mode=zero-latency pt=96 mtu=1200 config-interval=-1 \
         ! udpsink host=192.168.1.5 port=5004 sync=false async=false"
    );
}

#[test]
fn joined_destination_splits_back() {
    for (host, port) in [("10.0.0.2", 5004u16), ("fe80::1", 0), ("", 65535), ("a:b:c", 7)] {
        let joined = format!("{host}:{port}");
        assert_eq!(split_dest(&joined), Ok((host.to_string(), port)));
    }
}
