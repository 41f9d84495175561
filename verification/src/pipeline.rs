//! GStreamer pipeline descriptions and encoder/decoder properties for the
//! sender and receiver roles, and the `host:port` destinations they use.
use vstd::prelude::*;
use vstd::string::StringExecFns;
use crate::config::{Codec, Config};
use crate::text::{
    chars_of, decimal, digits_value, lemma_decimal_reads_back, parse_uint, parse_unsigned, push_decimal, str_eq,
    string_from_chars,
};

verus! {

/// Decimal text of a number.
pub open spec fn dec(n: int) -> Seq<char> {
    decimal(n as nat)
}

// ---------------------------------------------------------------------------
// Destinations
// ---------------------------------------------------------------------------

/// Index of the last `c` in `s`.
pub open spec fn last_index_of(s: Seq<char>, c: char) -> Option<int>
    decreases s.len(),
{
    if s.len() == 0 {
        None
    } else if s.last() == c {
        Some(s.len() - 1)
    } else {
        last_index_of(s.drop_last(), c)
    }
}

pub proof fn lemma_last_index_of(s: Seq<char>, c: char)
    ensures
        last_index_of(s, c) matches Some(i) ==> 0 <= i < s.len() && s[i] == c,
    decreases s.len(),
{
    if s.len() > 0 && s.last() != c {
        lemma_last_index_of(s.drop_last(), c);
    }
}

/// Why a destination is not usable.
#[derive(Debug, Clone, Copy, PartialEq, Eq, Structural)]
pub enum DestError {
    /// No `:` separates host and port.
    NotHostPort,
    /// The text after the last `:` is not a port number.
    InvalidPort,
}

/// `host:port` split at the last `:`, the port parsed as a `u16`.
pub open spec fn split_dest_spec(s: Seq<char>) -> Result<(Seq<char>, u16), DestError> {
    match last_index_of(s, ':') {
        None => Err(DestError::NotHostPort),
        Some(i) => match parse_unsigned(s.skip(i + 1), 10, 65535) {
            None => Err(DestError::InvalidPort),
            Some(p) => Ok((s.take(i), p as u16)),
        },
    }
}

/// Split a `host:port` destination at its last `:` and parse the port.
pub fn split_dest(s: &str) -> (r: Result<(String, u16), DestError>)
    ensures
        match split_dest_spec(s@) {
            Ok((h, p)) => r matches Ok((host, port)) && host@ == h && port == p,
            Err(e) => r == Err::<(String, u16), DestError>(e),
        },
{
    let cs = chars_of(s);
    let mut i = cs.len();
    assert(cs@.take(i as int) =~= cs@);
    while i > 0 && cs[i - 1] != ':'
        invariant
            cs@ == s@,
            i <= cs@.len(),
            last_index_of(s@, ':') == last_index_of(cs@.take(i as int), ':'),
        decreases i,
    {
        assert(cs@.take(i as int).drop_last() =~= cs@.take(i - 1));
        i -= 1;
    }
    if i == 0 {
        assert(cs@.take(0) =~= Seq::<char>::empty());
        return Err(DestError::NotHostPort);
    }
    let colon = i - 1;
    proof {
        assert(cs@.take(i as int).last() == ':');
        assert(cs@.subrange(colon + 1, cs@.len() as int) =~= s@.skip(colon + 1));
        assert(cs@.subrange(0, colon as int) =~= s@.take(colon as int));
    }
    match parse_uint(&cs, colon + 1, cs.len(), 10, 65535) {
        None => Err(DestError::InvalidPort),
        Some(p) => {
            let host = string_from_chars(&cs, 0, colon);
            Ok((host, p as u16))
        },
    }
}

/// Text without `c` after the last `c` leaves that `c` the last one.
proof fn lemma_last_index_of_suffix(s: Seq<char>, t: Seq<char>, c: char)
    requires
        forall|i: int| 0 <= i < t.len() ==> #[trigger] t[i] != c,
    ensures
        last_index_of(s + t, c) == last_index_of(s, c),
    decreases t.len(),
{
    if t.len() == 0 {
        assert(s + t =~= s);
    } else {
        assert((s + t).drop_last() =~= s + t.drop_last());
        assert((s + t).last() == t.last());
        lemma_last_index_of_suffix(s, t.drop_last(), c);
    }
}

/// Law: a destination written as a host, `:` and a port in decimal splits
/// back into that host and port, whatever the host holds (an IPv6 address
/// with its own colons included): the split is at the last `:`.
pub proof fn lemma_split_dest_round_trip(host: Seq<char>, port: u16)
    ensures
        split_dest_spec(host + seq![':'] + dec(port as int)) == Ok::<(Seq<char>, u16), DestError>((host, port)),
{
    let d = dec(port as int);
    lemma_decimal_reads_back(port as nat);
    let s = host + seq![':'] + d;
    let head = host + seq![':'];
    assert forall|i: int| 0 <= i < d.len() implies #[trigger] d[i] != ':' by {
        assert('0' <= d[i] <= '9');
    }
    lemma_last_index_of_suffix(head, d, ':');
    assert(head.last() == ':');
    assert(last_index_of(head, ':') == Some(host.len() as int));
    assert(s.skip(host.len() + 1int) =~= d);
    assert(s.take(host.len() as int) =~= host);
    assert(d[0] != '+');
    assert(digits_value(d, 10) == Some(port as nat));
}

// ---------------------------------------------------------------------------
// Sender
// ---------------------------------------------------------------------------

/// Properties that disable lookahead and B-frames per encoder family.
pub open spec fn encoder_args_spec(element: Seq<char>, k: u32, br: u32, tu: u32, rc: Seq<char>) -> Seq<char> {
    let va_rc = if rc == "cqp"@ {
        "rate-control=cqp qpi=22 qpp=22"@
    } else {
        "rate-control=cbr bitrate="@ + dec(br as int)
    };
    if element == "vah265enc"@ || element == "vah264enc"@ || element == "vaapih265enc"@ || element
        == "vaapih264enc"@ {
        "key-int-max="@ + dec(k as int) + " b-frames=0 ref-frames=1 target-usage="@ + dec(tu as int) + " "@
            + va_rc
    } else if element == "nvh265enc"@ || element == "nvh264enc"@ || element == "nvcudah265enc"@ || element
        == "nvcudah264enc"@ {
        "preset=low-latency-hq zerolatency=true rc-mode=cbr-ld-hq gop-size="@ + dec(k as int)
            + " bframes=0 bitrate="@ + dec(br as int)
    } else if element == "vtenc_h265"@ || element == "vtenc_h265_hw"@ || element == "vtenc_h264"@ || element
        == "vtenc_h264_hw"@ {
        "realtime=true allow-frame-reordering=false bitrate="@ + dec(br as int)
    } else if element == "mfh265enc"@ || element == "mfh264enc"@ {
        "low-latency=true bitrate="@ + dec(br as int)
    } else if element == "qsvh265enc"@ || element == "qsvh264enc"@ {
        "low-latency=true gop-size="@ + dec(k as int) + " ref-frames=1 b-frames=0 bitrate="@ + dec(br as int)
    } else if element == "amfh265enc"@ || element == "amfh264enc"@ {
        "usage=ultra-low-latency gop-size="@ + dec(k as int) + " bitrate="@ + dec(br as int)
    } else if element == "x265enc"@ || element == "x264enc"@ {
        "tune=zerolatency speed-preset=veryfast key-int-max="@ + dec(k as int) + " bframes=0 bitrate="@ + dec(
            br as int,
        )
    } else {
        "key-int-max="@ + dec(k as int)
    }
}

/// Encoder properties for low latency with usable desktop quality.
pub fn encoder_args(element: &str, key_int_max: u32, bitrate_kbps: u32, target_usage: u32, rate_control: &str) -> (r: String)
    ensures
        r@ == encoder_args_spec(element@, key_int_max, bitrate_kbps, target_usage, rate_control@),
{
    let mut va_rc = String::new();
    if str_eq(rate_control, "cqp") {
        va_rc.append("rate-control=cqp qpi=22 qpp=22");
    } else {
        va_rc.append("rate-control=cbr bitrate=");
        push_decimal(&mut va_rc, bitrate_kbps as u64);
    }
    let mut out = String::new();
    if str_eq(element, "vah265enc") || str_eq(element, "vah264enc") || str_eq(element, "vaapih265enc")
        || str_eq(element, "vaapih264enc") {
        out.append("key-int-max=");
        push_decimal(&mut out, key_int_max as u64);
        out.append(" b-frames=0 ref-frames=1 target-usage=");
        push_decimal(&mut out, target_usage as u64);
        out.append(" ");
        out.append(va_rc.as_str());
    } else if str_eq(element, "nvh265enc") || str_eq(element, "nvh264enc") || str_eq(element, "nvcudah265enc")
        || str_eq(element, "nvcudah264enc") {
        out.append("preset=low-latency-hq zerolatency=true rc-mode=cbr-ld-hq gop-size=");
        push_decimal(&mut out, key_int_max as u64);
        out.append(" bframes=0 bitrate=");
        push_decimal(&mut out, bitrate_kbps as u64);
    } else if str_eq(element, "vtenc_h265") || str_eq(element, "vtenc_h265_hw") || str_eq(element, "vtenc_h264")
        || str_eq(element, "vtenc_h264_hw") {
        out.append("realtime=true allow-frame-reordering=false bitrate=");
        push_decimal(&mut out, bitrate_kbps as u64);
    } else if str_eq(element, "mfh265enc") || str_eq(element, "mfh264enc") {
        out.append("low-latency=true bitrate=");
        push_decimal(&mut out, bitrate_kbps as u64);
    } else if str_eq(element, "qsvh265enc") || str_eq(element, "qsvh264enc") {
        out.append("low-latency=true gop-size=");
        push_decimal(&mut out, key_int_max as u64);
        out.append(" ref-frames=1 b-frames=0 bitrate=");
        push_decimal(&mut out, bitrate_kbps as u64);
    } else if str_eq(element, "amfh265enc") || str_eq(element, "amfh264enc") {
        out.append("usage=ultra-low-latency gop-size=");
        push_decimal(&mut out, key_int_max as u64);
        out.append(" bitrate=");
        push_decimal(&mut out, bitrate_kbps as u64);
    } else if str_eq(element, "x265enc") || str_eq(element, "x264enc") {
        out.append("tune=zerolatency speed-preset=veryfast key-int-max=");
        push_decimal(&mut out, key_int_max as u64);
        out.append(" bframes=0 bitrate=");
        push_decimal(&mut out, bitrate_kbps as u64);
    } else {
        out.append("key-int-max=");
        push_decimal(&mut out, key_int_max as u64);
    }
    proof {
        assert(out@ =~= encoder_args_spec(element@, key_int_max, bitrate_kbps, target_usage, rate_control@));
    }
    out
}


/// RTP payloader, parser caps and parser for the sender side of a codec.
pub open spec fn sender_codec_parts(codec: Codec) -> (Seq<char>, Seq<char>, Seq<char>) {
    match codec {
        Codec::H264 => (
            "rtph264pay aggregate-mode=zero-latency"@,
            "video/x-h264,stream-format=byte-stream,alignment=au"@,
            "h264parse config-interval=-1"@,
        ),
        Codec::H265 => (
            "rtph265pay aggregate-mode=zero-latency"@,
            "video/x-h265,stream-format=byte-stream,alignment=au"@,
            "h265parse config-interval=-1"@,
        ),
    }
}

fn sender_codec_strs(codec: Codec) -> (r: (&'static str, &'static str, &'static str))
    ensures
        (r.0@, r.1@, r.2@) == sender_codec_parts(codec),
{
    match codec {
        Codec::H264 => (
            "rtph264pay aggregate-mode=zero-latency",
            "video/x-h264,stream-format=byte-stream,alignment=au",
            "h264parse config-interval=-1",
        ),
        Codec::H265 => (
            "rtph265pay aggregate-mode=zero-latency",
            "video/x-h265,stream-format=byte-stream,alignment=au",
            "h265parse config-interval=-1",
        ),
    }
}

/// The capture → encode → RTP/UDP pipeline of the sender role for a saved
/// configuration: the quality preset gives framerate, bitrate, target usage
/// and rate control; the keyframe interval is one second of frames.
pub open spec fn sender_pipeline_spec(cfg: Config, encoder_name: Seq<char>, source: Seq<char>, host: Seq<char>, port: u16) -> Seq<char> {
    let (pay, caps, parse) = sender_codec_parts(cfg.codec);
    let fr = match cfg.quality {
        crate::config::Quality::Text => 30u32,
        crate::config::Quality::Video => 60u32,
    };
    let br = match cfg.quality {
        crate::config::Quality::Text => 12_000u32,
        crate::config::Quality::Video => 20_000u32,
    };
    let args = encoder_args_spec(encoder_name, fr, br, 2, "cbr"@);
    source + " ! videorate ! videoconvert ! videoscale ! video/x-raw,format=NV12,width="@ + dec(cfg.width as int)
        + ",height="@ + dec(cfg.height as int) + ",framerate="@ + dec(fr as int) + "/1 ! "@ + encoder_name
        + " "@ + args + " ! "@ + parse + " ! "@ + caps + " ! "@ + pay + " pt="@ + dec(cfg.payload_type as int)
        + " mtu=1200 config-interval=-1 ! udpsink host="@ + host + " port="@ + dec(port as int)
        + " sync=false async=false"@
}

pub fn sender_pipeline_desc(cfg: &Config, encoder_name: &str, source: &str, host: &str, port: u16) -> (r: String)
    ensures
        r@ == sender_pipeline_spec(*cfg, encoder_name@, source@, host@, port),
{
    let (rtp_pay, parse_caps, parse) = sender_codec_strs(cfg.codec);
    let framerate = cfg.quality.framerate();
    let bitrate = cfg.quality.bitrate_kbps();
    let target_usage = cfg.quality.target_usage();
    let rate_control = cfg.quality.rate_control();
    let key_int_max = framerate;
    let enc_args = encoder_args(encoder_name, key_int_max, bitrate, target_usage, rate_control);
    let mut d = String::new();
    d.append(source);
    d.append(" ! videorate ! videoconvert ! videoscale ! video/x-raw,format=NV12,width=");
    push_decimal(&mut d, cfg.width as u64);
    d.append(",height=");
    push_decimal(&mut d, cfg.height as u64);
    d.append(",framerate=");
    push_decimal(&mut d, framerate as u64);
    d.append("/1 ! ");
    d.append(encoder_name);
    d.append(" ");
    d.append(enc_args.as_str());
    d.append(" ! ");
    d.append(parse);
    d.append(" ! ");
    d.append(parse_caps);
    d.append(" ! ");
    d.append(rtp_pay);
    d.append(" pt=");
    push_decimal(&mut d, cfg.payload_type as u64);
    d.append(" mtu=1200 config-interval=-1 ! udpsink host=");
    d.append(host);
    d.append(" port=");
    push_decimal(&mut d, port as u64);
    d.append(" sync=false async=false");
    proof {
        assert(d@ =~= sender_pipeline_spec(*cfg, encoder_name@, source@, host@, port));
    }
    d
}

// ---------------------------------------------------------------------------
// Receiver
// ---------------------------------------------------------------------------

/// Encoding name, depayloader and parser for the receiver side of a codec.
pub open spec fn receiver_codec_parts(codec: Codec) -> (Seq<char>, Seq<char>, Seq<char>) {
    match codec {
        Codec::H264 => ("H264"@, "rtph264depay"@, "h264parse"@),
        Codec::H265 => ("H265"@, "rtph265depay"@, "h265parse"@),
    }
}

fn receiver_codec_strs(codec: Codec) -> (r: (&'static str, &'static str, &'static str))
    ensures
        (r.0@, r.1@, r.2@) == receiver_codec_parts(codec),
{
    match codec {
        Codec::H264 => ("H264", "rtph264depay", "h264parse"),
        Codec::H265 => ("H265", "rtph265depay", "h265parse"),
    }
}

/// Decoder properties: ffmpeg's software decoders get frame-parallel decode
/// disabled (it silently buffers 2-3 frames before emitting).
pub open spec fn decoder_args_spec(decoder: Seq<char>) -> Seq<char> {
    if decoder == "avdec_h265"@ || decoder == "avdec_h264"@ {
        "max-threads=1 thread-type=1"@
    } else {
        ""@
    }
}

pub fn decoder_args(decoder: &str) -> (r: &'static str)
    ensures
        r@ == decoder_args_spec(decoder@),
{
    if str_eq(decoder, "avdec_h265") || str_eq(decoder, "avdec_h264") {
        "max-threads=1 thread-type=1"
    } else {
        ""
    }
}

/// The RTP/UDP → jitter buffer → decode → display pipeline of the receiver.
/// The UDP source is named `netin` so its pad can be probed for traffic.
pub open spec fn receiver_pipeline_spec(
    listen_port: u16,
    rcvbuf: u32,
    codec: Codec,
    payload_type: u8,
    jitter_ms: u32,
    decoder: Seq<char>,
    sink: Seq<char>,
) -> Seq<char> {
    let (enc, depay, parse) = receiver_codec_parts(codec);
    "udpsrc name=netin port="@ + dec(listen_port as int) + " buffer-size="@ + dec(rcvbuf as int)
        + " caps=application/x-rtp,media=video,clock-rate=90000,encoding-name="@ + enc + ",payload="@ + dec(
        payload_type as int,
    ) + " ! rtpjitterbuffer latency="@ + dec(jitter_ms as int) + " mode=1 ! "@ + depay + " ! "@ + parse
        + " ! "@ + decoder + " "@ + decoder_args_spec(decoder) + " ! videoconvert ! "@ + sink
}

pub fn receiver_pipeline_desc(
    listen_port: u16,
    rcvbuf: u32,
    codec: Codec,
    payload_type: u8,
    jitter_ms: u32,
    decoder: &str,
    sink: &str,
) -> (r: String)
    ensures
        r@ == receiver_pipeline_spec(listen_port, rcvbuf, codec, payload_type, jitter_ms, decoder@, sink@),
{
    let (encoding_name, depay, parse) = receiver_codec_strs(codec);
    let dec_args = decoder_args(decoder);
    let mut d = String::new();
    d.append("udpsrc name=netin port=");
    push_decimal(&mut d, listen_port as u64);
    d.append(" buffer-size=");
    push_decimal(&mut d, rcvbuf as u64);
    d.append(" caps=application/x-rtp,media=video,clock-rate=90000,encoding-name=");
    d.append(encoding_name);
    d.append(",payload=");
    push_decimal(&mut d, payload_type as u64);
    d.append(" ! rtpjitterbuffer latency=");
    push_decimal(&mut d, jitter_ms as u64);
    d.append(" mode=1 ! ");
    d.append(depay);
    d.append(" ! ");
    d.append(parse);
    d.append(" ! ");
    d.append(decoder);
    d.append(" ");
    d.append(dec_args);
    d.append(" ! videoconvert ! ");
    d.append(sink);
    proof {
        assert(d@ =~= receiver_pipeline_spec(listen_port, rcvbuf, codec, payload_type, jitter_ms, decoder@, sink@));
    }
    d
}

// ---------------------------------------------------------------------------
// Standalone sender (every knob separate)
// ---------------------------------------------------------------------------

/// Knobs of the standalone sender, as plain values.
pub struct SenderSettings {
    pub source: String,
    pub codec: Codec,
    pub payload_type: u8,
    pub framerate: u32,
    pub width: u32,
    pub height: u32,
    pub mtu: u32,
    pub bitrate_kbps: u32,
    pub target_usage: u32,
    pub rate_control: String,
    pub qp: u32,
    pub keyframe_ms: u32,
}

/// Periodic keyframe cadence from the millisecond budget: at least one frame.
pub open spec fn keyframe_interval_spec(framerate: u32, keyframe_ms: u32) -> u32 {
    let k = (framerate as int * keyframe_ms as int) / 1000;
    (if k < 1 { 1 } else { k }) as u32
}

pub fn keyframe_interval(framerate: u32, keyframe_ms: u32) -> (r: u32)
    ensures
        r == keyframe_interval_spec(framerate, keyframe_ms),
{
    proof {
        assert(framerate as int * keyframe_ms as int <= u32::MAX as int * u32::MAX as int) by (nonlinear_arith);
        assert(0 <= framerate as int * keyframe_ms as int) by (nonlinear_arith);
    }
    let k = (framerate as u64 * keyframe_ms as u64) / 1000;
    let k = if k < 1 { 1 } else { k };
    k as u32
}

/// Per-encoder properties that disable lookahead and B-frames while keeping
/// desktop quality usable, with every knob taken from the caller.
pub open spec fn low_latency_args_spec(element: Seq<char>, k: u32, br: u32, tu: u32, rc: Seq<char>, qp: u32) -> Seq<char> {
    let va_rc = if rc == "cqp"@ {
        "rate-control=cqp qpi="@ + dec(qp as int) + " qpp="@ + dec(qp as int)
    } else {
        "rate-control=cbr bitrate="@ + dec(br as int)
    };
    if element == "vah265enc"@ || element == "vah264enc"@ || element == "vaapih265enc"@ || element
        == "vaapih264enc"@ {
        "key-int-max="@ + dec(k as int) + " b-frames=0 ref-frames=1 target-usage="@ + dec(tu as int) + " "@
            + va_rc
    } else if element == "nvh265enc"@ || element == "nvh264enc"@ || element == "nvcudah265enc"@ || element
        == "nvcudah264enc"@ {
        "preset=low-latency-hq zerolatency=true rc-mode=cbr-ld-hq gop-size="@ + dec(k as int)
            + " bframes=0 bitrate="@ + dec(br as int)
    } else if element == "x265enc"@ || element == "x264enc"@ {
        "tune=zerolatency speed-preset=veryfast key-int-max="@ + dec(k as int) + " bframes=0 bitrate="@ + dec(
            br as int,
        )
    } else if element == "qsvh265enc"@ || element == "qsvh264enc"@ {
        "low-latency=true gop-size="@ + dec(k as int) + " ref-frames=1 b-frames=0 bitrate="@ + dec(br as int)
    } else if element == "amfh265enc"@ || element == "amfh264enc"@ {
        "usage=ultra-low-latency gop-size="@ + dec(k as int) + " bitrate="@ + dec(br as int)
    } else {
        "key-int-max="@ + dec(k as int)
    }
}

pub fn low_latency_args(element: &str, key_int_max: u32, bitrate_kbps: u32, target_usage: u32, rate_control: &str, qp: u32) -> (r: String)
    ensures
        r@ == low_latency_args_spec(element@, key_int_max, bitrate_kbps, target_usage, rate_control@, qp),
{
    let mut va_rc = String::new();
    if str_eq(rate_control, "cqp") {
        va_rc.append("rate-control=cqp qpi=");
        push_decimal(&mut va_rc, qp as u64);
        va_rc.append(" qpp=");
        push_decimal(&mut va_rc, qp as u64);
    } else {
        va_rc.append("rate-control=cbr bitrate=");
        push_decimal(&mut va_rc, bitrate_kbps as u64);
    }
    let mut out = String::new();
    if str_eq(element, "vah265enc") || str_eq(element, "vah264enc") || str_eq(element, "vaapih265enc")
        || str_eq(element, "vaapih264enc") {
        out.append("key-int-max=");
        push_decimal(&mut out, key_int_max as u64);
        out.append(" b-frames=0 ref-frames=1 target-usage=");
        push_decimal(&mut out, target_usage as u64);
        out.append(" ");
        out.append(va_rc.as_str());
    } else if str_eq(element, "nvh265enc") || str_eq(element, "nvh264enc") || str_eq(element, "nvcudah265enc")
        || str_eq(element, "nvcudah264enc") {
        out.append("preset=low-latency-hq zerolatency=true rc-mode=cbr-ld-hq gop-size=");
        push_decimal(&mut out, key_int_max as u64);
        out.append(" bframes=0 bitrate=");
        push_decimal(&mut out, bitrate_kbps as u64);
    } else if str_eq(element, "x265enc") || str_eq(element, "x264enc") {
        out.append("tune=zerolatency speed-preset=veryfast key-int-max=");
        push_decimal(&mut out, key_int_max as u64);
        out.append(" bframes=0 bitrate=");
        push_decimal(&mut out, bitrate_kbps as u64);
    } else if str_eq(element, "qsvh265enc") || str_eq(element, "qsvh264enc") {
        out.append("low-latency=true gop-size=");
        push_decimal(&mut out, key_int_max as u64);
        out.append(" ref-frames=1 b-frames=0 bitrate=");
        push_decimal(&mut out, bitrate_kbps as u64);
    } else if str_eq(element, "amfh265enc") || str_eq(element, "amfh264enc") {
        out.append("usage=ultra-low-latency gop-size=");
        push_decimal(&mut out, key_int_max as u64);
        out.append(" bitrate=");
        push_decimal(&mut out, bitrate_kbps as u64);
    } else {
        out.append("key-int-max=");
        push_decimal(&mut out, key_int_max as u64);
    }
    proof {
        assert(out@ =~= low_latency_args_spec(element@, key_int_max, bitrate_kbps, target_usage, rate_control@, qp));
    }
    out
}

/// The capture pipeline of the standalone sender; the encoder element is
/// named `enc` so the bitrate controller and the keyframe probe can find it.
pub open spec fn capture_pipeline_spec(s: SenderSettings, encoder_name: Seq<char>, host: Seq<char>, port: u16) -> Seq<char> {
    let (pay, caps, parse) = sender_codec_parts(s.codec);
    let k = keyframe_interval_spec(s.framerate, s.keyframe_ms);
    let args = low_latency_args_spec(encoder_name, k, s.bitrate_kbps, s.target_usage, s.rate_control@, s.qp);
    s.source@ + " ! videorate ! videoconvert ! videoscale ! video/x-raw,format=NV12,width="@ + dec(
        s.width as int,
    ) + ",height="@ + dec(s.height as int) + ",framerate="@ + dec(s.framerate as int) + "/1 ! "@
        + encoder_name + " name=enc "@ + args + " ! "@ + parse + " ! "@ + caps + " ! "@ + pay + " pt="@ + dec(
        s.payload_type as int,
    ) + " mtu="@ + dec(s.mtu as int) + " config-interval=-1 ! udpsink host="@ + host + " port="@ + dec(
        port as int,
    ) + " sync=false async=false"@
}

pub fn capture_pipeline_desc(s: &SenderSettings, encoder_name: &str, host: &str, port: u16) -> (r: String)
    ensures
        r@ == capture_pipeline_spec(*s, encoder_name@, host@, port),
{
    let (rtp_pay, parse_caps, encoding) = sender_codec_strs(s.codec);
    let k = keyframe_interval(s.framerate, s.keyframe_ms);
    let args = low_latency_args(encoder_name, k, s.bitrate_kbps, s.target_usage, s.rate_control.as_str(), s.qp);
    let mut d = String::new();
    d.append(s.source.as_str());
    d.append(" ! videorate ! videoconvert ! videoscale ! video/x-raw,format=NV12,width=");
    push_decimal(&mut d, s.width as u64);
    d.append(",height=");
    push_decimal(&mut d, s.height as u64);
    d.append(",framerate=");
    push_decimal(&mut d, s.framerate as u64);
    d.append("/1 ! ");
    d.append(encoder_name);
    d.append(" name=enc ");
    d.append(args.as_str());
    d.append(" ! ");
    d.append(encoding);
    d.append(" ! ");
    d.append(parse_caps);
    d.append(" ! ");
    d.append(rtp_pay);
    d.append(" pt=");
    push_decimal(&mut d, s.payload_type as u64);
    d.append(" mtu=");
    push_decimal(&mut d, s.mtu as u64);
    d.append(" config-interval=-1 ! udpsink host=");
    d.append(host);
    d.append(" port=");
    push_decimal(&mut d, port as u64);
    d.append(" sync=false async=false");
    proof {
        assert(d@ =~= capture_pipeline_spec(*s, encoder_name@, host@, port));
    }
    d
}

/// Law: every member of an encoder family gets that family's low-latency
/// properties, over all keyframe intervals, bitrates, target usages and rate
/// controls: VA-API (rate control `cqp` fixes QP 22, anything else is CBR at
/// the bitrate), NVENC, VideoToolbox, Media Foundation, Quick Sync, AMF and
/// the x26x software encoders; any other element only gets `key-int-max`.
pub proof fn lemma_encoder_args_families(k: u32, br: u32, tu: u32, rc: Seq<char>)
    ensures
        encoder_args_spec("vah265enc"@, k, br, tu, rc) == "key-int-max="@ + dec(k as int) + " b-frames=0 ref-frames=1 target-usage="@ + dec(tu as int) + " "@ + (if rc == "cqp"@ { "rate-control=cqp qpi=22 qpp=22"@ } else { "rate-control=cbr bitrate="@ + dec(br as int) }),
        encoder_args_spec("vah264enc"@, k, br, tu, rc) == "key-int-max="@ + dec(k as int) + " b-frames=0 ref-frames=1 target-usage="@ + dec(tu as int) + " "@ + (if rc == "cqp"@ { "rate-control=cqp qpi=22 qpp=22"@ } else { "rate-control=cbr bitrate="@ + dec(br as int) }),
        encoder_args_spec("vaapih265enc"@, k, br, tu, rc) == "key-int-max="@ + dec(k as int) + " b-frames=0 ref-frames=1 target-usage="@ + dec(tu as int) + " "@ + (if rc == "cqp"@ { "rate-control=cqp qpi=22 qpp=22"@ } else { "rate-control=cbr bitrate="@ + dec(br as int) }),
        encoder_args_spec("vaapih264enc"@, k, br, tu, rc) == "key-int-max="@ + dec(k as int) + " b-frames=0 ref-frames=1 target-usage="@ + dec(tu as int) + " "@ + (if rc == "cqp"@ { "rate-control=cqp qpi=22 qpp=22"@ } else { "rate-control=cbr bitrate="@ + dec(br as int) }),
        encoder_args_spec("nvh265enc"@, k, br, tu, rc) == "preset=low-latency-hq zerolatency=true rc-mode=cbr-ld-hq gop-size="@ + dec(k as int) + " bframes=0 bitrate="@ + dec(br as int),
        encoder_args_spec("nvh264enc"@, k, br, tu, rc) == "preset=low-latency-hq zerolatency=true rc-mode=cbr-ld-hq gop-size="@ + dec(k as int) + " bframes=0 bitrate="@ + dec(br as int),
        encoder_args_spec("nvcudah265enc"@, k, br, tu, rc) == "preset=low-latency-hq zerolatency=true rc-mode=cbr-ld-hq gop-size="@ + dec(k as int) + " bframes=0 bitrate="@ + dec(br as int),
        encoder_args_spec("nvcudah264enc"@, k, br, tu, rc) == "preset=low-latency-hq zerolatency=true rc-mode=cbr-ld-hq gop-size="@ + dec(k as int) + " bframes=0 bitrate="@ + dec(br as int),
        encoder_args_spec("vtenc_h265"@, k, br, tu, rc) == "realtime=true allow-frame-reordering=false bitrate="@ + dec(br as int),
        encoder_args_spec("vtenc_h265_hw"@, k, br, tu, rc) == "realtime=true allow-frame-reordering=false bitrate="@ + dec(br as int),
        encoder_args_spec("vtenc_h264"@, k, br, tu, rc) == "realtime=true allow-frame-reordering=false bitrate="@ + dec(br as int),
        encoder_args_spec("vtenc_h264_hw"@, k, br, tu, rc) == "realtime=true allow-frame-reordering=false bitrate="@ + dec(br as int),
        encoder_args_spec("mfh265enc"@, k, br, tu, rc) == "low-latency=true bitrate="@ + dec(br as int),
        encoder_args_spec("mfh264enc"@, k, br, tu, rc) == "low-latency=true bitrate="@ + dec(br as int),
        encoder_args_spec("qsvh265enc"@, k, br, tu, rc) == "low-latency=true gop-size="@ + dec(k as int) + " ref-frames=1 b-frames=0 bitrate="@ + dec(br as int),
        encoder_args_spec("qsvh264enc"@, k, br, tu, rc) == "low-latency=true gop-size="@ + dec(k as int) + " ref-frames=1 b-frames=0 bitrate="@ + dec(br as int),
        encoder_args_spec("amfh265enc"@, k, br, tu, rc) == "usage=ultra-low-latency gop-size="@ + dec(k as int) + " bitrate="@ + dec(br as int),
        encoder_args_spec("amfh264enc"@, k, br, tu, rc) == "usage=ultra-low-latency gop-size="@ + dec(k as int) + " bitrate="@ + dec(br as int),
        encoder_args_spec("x265enc"@, k, br, tu, rc) == "tune=zerolatency speed-preset=veryfast key-int-max="@ + dec(k as int) + " bframes=0 bitrate="@ + dec(br as int),
        encoder_args_spec("x264enc"@, k, br, tu, rc) == "tune=zerolatency speed-preset=veryfast key-int-max="@ + dec(k as int) + " bframes=0 bitrate="@ + dec(br as int),
        forall|e: Seq<char>| !(e == "vah265enc"@ || e == "vah264enc"@ || e == "vaapih265enc"@ || e == "vaapih264enc"@ || e == "nvh265enc"@ || e == "nvh264enc"@ || e == "nvcudah265enc"@ || e == "nvcudah264enc"@ || e == "vtenc_h265"@ || e == "vtenc_h265_hw"@ || e == "vtenc_h264"@ || e == "vtenc_h264_hw"@ || e == "mfh265enc"@ || e == "mfh264enc"@ || e == "qsvh265enc"@ || e == "qsvh264enc"@ || e == "amfh265enc"@ || e == "amfh264enc"@ || e == "x265enc"@ || e == "x264enc"@) ==> #[trigger] encoder_args_spec(e, k, br, tu, rc) == "key-int-max="@ + dec(k as int),
{
    reveal_strlit("amfh264enc");
    reveal_strlit("amfh265enc");
    reveal_strlit("mfh264enc");
    reveal_strlit("mfh265enc");
    reveal_strlit("nvcudah264enc");
    reveal_strlit("nvcudah265enc");
    reveal_strlit("nvh264enc");
    reveal_strlit("nvh265enc");
    reveal_strlit("qsvh264enc");
    reveal_strlit("qsvh265enc");
    reveal_strlit("vaapih264enc");
    reveal_strlit("vaapih265enc");
    reveal_strlit("vah264enc");
    reveal_strlit("vah265enc");
    reveal_strlit("vtenc_h264");
    reveal_strlit("vtenc_h264_hw");
    reveal_strlit("vtenc_h265");
    reveal_strlit("vtenc_h265_hw");
    reveal_strlit("x264enc");
    reveal_strlit("x265enc");
    reveal_strlit("cqp");
    assert("nvh265enc"@[0] != "vah265enc"@[0]);
    assert("nvh265enc"@[0] != "vah264enc"@[0]);
    assert("nvh265enc"@.len() != "vaapih265enc"@.len());
    assert("nvh265enc"@.len() != "vaapih264enc"@.len());
    assert("nvh264enc"@[0] != "vah265enc"@[0]);
    assert("nvh264enc"@[0] != "vah264enc"@[0]);
    assert("nvh264enc"@.len() != "vaapih265enc"@.len());
    assert("nvh264enc"@.len() != "vaapih264enc"@.len());
    assert("nvcudah265enc"@.len() != "vah265enc"@.len());
    assert("nvcudah265enc"@.len() != "vah264enc"@.len());
    assert("nvcudah265enc"@.len() != "vaapih265enc"@.len());
    assert("nvcudah265enc"@.len() != "vaapih264enc"@.len());
    assert("nvcudah264enc"@.len() != "vah265enc"@.len());
    assert("nvcudah264enc"@.len() != "vah264enc"@.len());
    assert("nvcudah264enc"@.len() != "vaapih265enc"@.len());
    assert("nvcudah264enc"@.len() != "vaapih264enc"@.len());
    assert("vtenc_h265"@.len() != "vah265enc"@.len());
    assert("vtenc_h265"@.len() != "vah264enc"@.len());
    assert("vtenc_h265"@.len() != "vaapih265enc"@.len());
    assert("vtenc_h265"@.len() != "vaapih264enc"@.len());
    assert("vtenc_h265"@.len() != "nvh265enc"@.len());
    assert("vtenc_h265"@.len() != "nvh264enc"@.len());
    assert("vtenc_h265"@.len() != "nvcudah265enc"@.len());
    assert("vtenc_h265"@.len() != "nvcudah264enc"@.len());
    assert("vtenc_h265_hw"@.len() != "vah265enc"@.len());
    assert("vtenc_h265_hw"@.len() != "vah264enc"@.len());
    assert("vtenc_h265_hw"@.len() != "vaapih265enc"@.len());
    assert("vtenc_h265_hw"@.len() != "vaapih264enc"@.len());
    assert("vtenc_h265_hw"@.len() != "nvh265enc"@.len());
    assert("vtenc_h265_hw"@.len() != "nvh264enc"@.len());
    assert("vtenc_h265_hw"@[0] != "nvcudah265enc"@[0]);
    assert("vtenc_h265_hw"@[0] != "nvcudah264enc"@[0]);
    assert("vtenc_h264"@.len() != "vah265enc"@.len());
    assert("vtenc_h264"@.len() != "vah264enc"@.len());
    assert("vtenc_h264"@.len() != "vaapih265enc"@.len());
    assert("vtenc_h264"@.len() != "vaapih264enc"@.len());
    assert("vtenc_h264"@.len() != "nvh265enc"@.len());
    assert("vtenc_h264"@.len() != "nvh264enc"@.len());
    assert("vtenc_h264"@.len() != "nvcudah265enc"@.len());
    assert("vtenc_h264"@.len() != "nvcudah264enc"@.len());
    assert("vtenc_h264_hw"@.len() != "vah265enc"@.len());
    assert("vtenc_h264_hw"@.len() != "vah264enc"@.len());
    assert("vtenc_h264_hw"@.len() != "vaapih265enc"@.len());
    assert("vtenc_h264_hw"@.len() != "vaapih264enc"@.len());
    assert("vtenc_h264_hw"@.len() != "nvh265enc"@.len());
    assert("vtenc_h264_hw"@.len() != "nvh264enc"@.len());
    assert("vtenc_h264_hw"@[0] != "nvcudah265enc"@[0]);
    assert("vtenc_h264_hw"@[0] != "nvcudah264enc"@[0]);
    assert("mfh265enc"@[0] != "vah265enc"@[0]);
    assert("mfh265enc"@[0] != "vah264enc"@[0]);
    assert("mfh265enc"@.len() != "vaapih265enc"@.len());
    assert("mfh265enc"@.len() != "vaapih264enc"@.len());
    assert("mfh265enc"@[0] != "nvh265enc"@[0]);
    assert("mfh265enc"@[0] != "nvh264enc"@[0]);
    assert("mfh265enc"@.len() != "nvcudah265enc"@.len());
    assert("mfh265enc"@.len() != "nvcudah264enc"@.len());
    assert("mfh265enc"@.len() != "vtenc_h265"@.len());
    assert("mfh265enc"@.len() != "vtenc_h265_hw"@.len());
    assert("mfh265enc"@.len() != "vtenc_h264"@.len());
    assert("mfh265enc"@.len() != "vtenc_h264_hw"@.len());
    assert("mfh264enc"@[0] != "vah265enc"@[0]);
    assert("mfh264enc"@[0] != "vah264enc"@[0]);
    assert("mfh264enc"@.len() != "vaapih265enc"@.len());
    assert("mfh264enc"@.len() != "vaapih264enc"@.len());
    assert("mfh264enc"@[0] != "nvh265enc"@[0]);
    assert("mfh264enc"@[0] != "nvh264enc"@[0]);
    assert("mfh264enc"@.len() != "nvcudah265enc"@.len());
    assert("mfh264enc"@.len() != "nvcudah264enc"@.len());
    assert("mfh264enc"@.len() != "vtenc_h265"@.len());
    assert("mfh264enc"@.len() != "vtenc_h265_hw"@.len());
    assert("mfh264enc"@.len() != "vtenc_h264"@.len());
    assert("mfh264enc"@.len() != "vtenc_h264_hw"@.len());
    assert("qsvh265enc"@.len() != "vah265enc"@.len());
    assert("qsvh265enc"@.len() != "vah264enc"@.len());
    assert("qsvh265enc"@.len() != "vaapih265enc"@.len());
    assert("qsvh265enc"@.len() != "vaapih264enc"@.len());
    assert("qsvh265enc"@.len() != "nvh265enc"@.len());
    assert("qsvh265enc"@.len() != "nvh264enc"@.len());
    assert("qsvh265enc"@.len() != "nvcudah265enc"@.len());
    assert("qsvh265enc"@.len() != "nvcudah264enc"@.len());
    assert("qsvh265enc"@[0] != "vtenc_h265"@[0]);
    assert("qsvh265enc"@.len() != "vtenc_h265_hw"@.len());
    assert("qsvh265enc"@[0] != "vtenc_h264"@[0]);
    assert("qsvh265enc"@.len() != "vtenc_h264_hw"@.len());
    assert("qsvh265enc"@.len() != "mfh265enc"@.len());
    assert("qsvh265enc"@.len() != "mfh264enc"@.len());
    assert("qsvh264enc"@.len() != "vah265enc"@.len());
    assert("qsvh264enc"@.len() != "vah264enc"@.len());
    assert("qsvh264enc"@.len() != "vaapih265enc"@.len());
    assert("qsvh264enc"@.len() != "vaapih264enc"@.len());
    assert("qsvh264enc"@.len() != "nvh265enc"@.len());
    assert("qsvh264enc"@.len() != "nvh264enc"@.len());
    assert("qsvh264enc"@.len() != "nvcudah265enc"@.len());
    assert("qsvh264enc"@.len() != "nvcudah264enc"@.len());
    assert("qsvh264enc"@[0] != "vtenc_h265"@[0]);
    assert("qsvh264enc"@.len() != "vtenc_h265_hw"@.len());
    assert("qsvh264enc"@[0] != "vtenc_h264"@[0]);
    assert("qsvh264enc"@.len() != "vtenc_h264_hw"@.len());
    assert("qsvh264enc"@.len() != "mfh265enc"@.len());
    assert("qsvh264enc"@.len() != "mfh264enc"@.len());
    assert("amfh265enc"@.len() != "vah265enc"@.len());
    assert("amfh265enc"@.len() != "vah264enc"@.len());
    assert("amfh265enc"@.len() != "vaapih265enc"@.len());
    assert("amfh265enc"@.len() != "vaapih264enc"@.len());
    assert("amfh265enc"@.len() != "nvh265enc"@.len());
    assert("amfh265enc"@.len() != "nvh264enc"@.len());
    assert("amfh265enc"@.len() != "nvcudah265enc"@.len());
    assert("amfh265enc"@.len() != "nvcudah264enc"@.len());
    assert("amfh265enc"@[0] != "vtenc_h265"@[0]);
    assert("amfh265enc"@.len() != "vtenc_h265_hw"@.len());
    assert("amfh265enc"@[0] != "vtenc_h264"@[0]);
    assert("amfh265enc"@.len() != "vtenc_h264_hw"@.len());
    assert("amfh265enc"@.len() != "mfh265enc"@.len());
    assert("amfh265enc"@.len() != "mfh264enc"@.len());
    assert("amfh265enc"@[0] != "qsvh265enc"@[0]);
    assert("amfh265enc"@[0] != "qsvh264enc"@[0]);
    assert("amfh264enc"@.len() != "vah265enc"@.len());
    assert("amfh264enc"@.len() != "vah264enc"@.len());
    assert("amfh264enc"@.len() != "vaapih265enc"@.len());
    assert("amfh264enc"@.len() != "vaapih264enc"@.len());
    assert("amfh264enc"@.len() != "nvh265enc"@.len());
    assert("amfh264enc"@.len() != "nvh264enc"@.len());
    assert("amfh264enc"@.len() != "nvcudah265enc"@.len());
    assert("amfh264enc"@.len() != "nvcudah264enc"@.len());
    assert("amfh264enc"@[0] != "vtenc_h265"@[0]);
    assert("amfh264enc"@.len() != "vtenc_h265_hw"@.len());
    assert("amfh264enc"@[0] != "vtenc_h264"@[0]);
    assert("amfh264enc"@.len() != "vtenc_h264_hw"@.len());
    assert("amfh264enc"@.len() != "mfh265enc"@.len());
    assert("amfh264enc"@.len() != "mfh264enc"@.len());
    assert("amfh264enc"@[0] != "qsvh265enc"@[0]);
    assert("amfh264enc"@[0] != "qsvh264enc"@[0]);
    assert("x265enc"@.len() != "vah265enc"@.len());
    assert("x265enc"@.len() != "vah264enc"@.len());
    assert("x265enc"@.len() != "vaapih265enc"@.len());
    assert("x265enc"@.len() != "vaapih264enc"@.len());
    assert("x265enc"@.len() != "nvh265enc"@.len());
    assert("x265enc"@.len() != "nvh264enc"@.len());
    assert("x265enc"@.len() != "nvcudah265enc"@.len());
    assert("x265enc"@.len() != "nvcudah264enc"@.len());
    assert("x265enc"@.len() != "vtenc_h265"@.len());
    assert("x265enc"@.len() != "vtenc_h265_hw"@.len());
    assert("x265enc"@.len() != "vtenc_h264"@.len());
    assert("x265enc"@.len() != "vtenc_h264_hw"@.len());
    assert("x265enc"@.len() != "mfh265enc"@.len());
    assert("x265enc"@.len() != "mfh264enc"@.len());
    assert("x265enc"@.len() != "qsvh265enc"@.len());
    assert("x265enc"@.len() != "qsvh264enc"@.len());
    assert("x265enc"@.len() != "amfh265enc"@.len());
    assert("x265enc"@.len() != "amfh264enc"@.len());
    assert("x264enc"@.len() != "vah265enc"@.len());
    assert("x264enc"@.len() != "vah264enc"@.len());
    assert("x264enc"@.len() != "vaapih265enc"@.len());
    assert("x264enc"@.len() != "vaapih264enc"@.len());
    assert("x264enc"@.len() != "nvh265enc"@.len());
    assert("x264enc"@.len() != "nvh264enc"@.len());
    assert("x264enc"@.len() != "nvcudah265enc"@.len());
    assert("x264enc"@.len() != "nvcudah264enc"@.len());
    assert("x264enc"@.len() != "vtenc_h265"@.len());
    assert("x264enc"@.len() != "vtenc_h265_hw"@.len());
    assert("x264enc"@.len() != "vtenc_h264"@.len());
    assert("x264enc"@.len() != "vtenc_h264_hw"@.len());
    assert("x264enc"@.len() != "mfh265enc"@.len());
    assert("x264enc"@.len() != "mfh264enc"@.len());
    assert("x264enc"@.len() != "qsvh265enc"@.len());
    assert("x264enc"@.len() != "qsvh264enc"@.len());
    assert("x264enc"@.len() != "amfh265enc"@.len());
    assert("x264enc"@.len() != "amfh264enc"@.len());
}

/// Law: the standalone sender's properties per encoder family, over all
/// knobs: VA-API (`cqp` uses the given QP for I and P frames, anything else
/// is CBR), NVENC, the x26x software encoders, Quick Sync and AMF; any other
/// element only gets `key-int-max`.
pub proof fn lemma_low_latency_args_families(k: u32, br: u32, tu: u32, rc: Seq<char>, qp: u32)
    ensures
        low_latency_args_spec("vah265enc"@, k, br, tu, rc, qp) == "key-int-max="@ + dec(k as int) + " b-frames=0 ref-frames=1 target-usage="@ + dec(tu as int) + " "@ + (if rc == "cqp"@ { "rate-control=cqp qpi="@ + dec(qp as int) + " qpp="@ + dec(qp as int) } else { "rate-control=cbr bitrate="@ + dec(br as int) }),
        low_latency_args_spec("vah264enc"@, k, br, tu, rc, qp) == "key-int-max="@ + dec(k as int) + " b-frames=0 ref-frames=1 target-usage="@ + dec(tu as int) + " "@ + (if rc == "cqp"@ { "rate-control=cqp qpi="@ + dec(qp as int) + " qpp="@ + dec(qp as int) } else { "rate-control=cbr bitrate="@ + dec(br as int) }),
        low_latency_args_spec("vaapih265enc"@, k, br, tu, rc, qp) == "key-int-max="@ + dec(k as int) + " b-frames=0 ref-frames=1 target-usage="@ + dec(tu as int) + " "@ + (if rc == "cqp"@ { "rate-control=cqp qpi="@ + dec(qp as int) + " qpp="@ + dec(qp as int) } else { "rate-control=cbr bitrate="@ + dec(br as int) }),
        low_latency_args_spec("vaapih264enc"@, k, br, tu, rc, qp) == "key-int-max="@ + dec(k as int) + " b-frames=0 ref-frames=1 target-usage="@ + dec(tu as int) + " "@ + (if rc == "cqp"@ { "rate-control=cqp qpi="@ + dec(qp as int) + " qpp="@ + dec(qp as int) } else { "rate-control=cbr bitrate="@ + dec(br as int) }),
        low_latency_args_spec("nvh265enc"@, k, br, tu, rc, qp) == "preset=low-latency-hq zerolatency=true rc-mode=cbr-ld-hq gop-size="@ + dec(k as int) + " bframes=0 bitrate="@ + dec(br as int),
        low_latency_args_spec("nvh264enc"@, k, br, tu, rc, qp) == "preset=low-latency-hq zerolatency=true rc-mode=cbr-ld-hq gop-size="@ + dec(k as int) + " bframes=0 bitrate="@ + dec(br as int),
        low_latency_args_spec("nvcudah265enc"@, k, br, tu, rc, qp) == "preset=low-latency-hq zerolatency=true rc-mode=cbr-ld-hq gop-size="@ + dec(k as int) + " bframes=0 bitrate="@ + dec(br as int),
        low_latency_args_spec("nvcudah264enc"@, k, br, tu, rc, qp) == "preset=low-latency-hq zerolatency=true rc-mode=cbr-ld-hq gop-size="@ + dec(k as int) + " bframes=0 bitrate="@ + dec(br as int),
        low_latency_args_spec("x265enc"@, k, br, tu, rc, qp) == "tune=zerolatency speed-preset=veryfast key-int-max="@ + dec(k as int) + " bframes=0 bitrate="@ + dec(br as int),
        low_latency_args_spec("x264enc"@, k, br, tu, rc, qp) == "tune=zerolatency speed-preset=veryfast key-int-max="@ + dec(k as int) + " bframes=0 bitrate="@ + dec(br as int),
        low_latency_args_spec("qsvh265enc"@, k, br, tu, rc, qp) == "low-latency=true gop-size="@ + dec(k as int) + " ref-frames=1 b-frames=0 bitrate="@ + dec(br as int),
        low_latency_args_spec("qsvh264enc"@, k, br, tu, rc, qp) == "low-latency=true gop-size="@ + dec(k as int) + " ref-frames=1 b-frames=0 bitrate="@ + dec(br as int),
        low_latency_args_spec("amfh265enc"@, k, br, tu, rc, qp) == "usage=ultra-low-latency gop-size="@ + dec(k as int) + " bitrate="@ + dec(br as int),
        low_latency_args_spec("amfh264enc"@, k, br, tu, rc, qp) == "usage=ultra-low-latency gop-size="@ + dec(k as int) + " bitrate="@ + dec(br as int),
        forall|e: Seq<char>| !(e == "vah265enc"@ || e == "vah264enc"@ || e == "vaapih265enc"@ || e == "vaapih264enc"@ || e == "nvh265enc"@ || e == "nvh264enc"@ || e == "nvcudah265enc"@ || e == "nvcudah264enc"@ || e == "x265enc"@ || e == "x264enc"@ || e == "qsvh265enc"@ || e == "qsvh264enc"@ || e == "amfh265enc"@ || e == "amfh264enc"@) ==> #[trigger] low_latency_args_spec(e, k, br, tu, rc, qp) == "key-int-max="@ + dec(k as int),
{
    reveal_strlit("amfh264enc");
    reveal_strlit("amfh265enc");
    reveal_strlit("nvcudah264enc");
    reveal_strlit("nvcudah265enc");
    reveal_strlit("nvh264enc");
    reveal_strlit("nvh265enc");
    reveal_strlit("qsvh264enc");
    reveal_strlit("qsvh265enc");
    reveal_strlit("vaapih264enc");
    reveal_strlit("vaapih265enc");
    reveal_strlit("vah264enc");
    reveal_strlit("vah265enc");
    reveal_strlit("x264enc");
    reveal_strlit("x265enc");
    reveal_strlit("cqp");
    assert("nvh265enc"@[0] != "vah265enc"@[0]);
    assert("nvh265enc"@[0] != "vah264enc"@[0]);
    assert("nvh265enc"@.len() != "vaapih265enc"@.len());
    assert("nvh265enc"@.len() != "vaapih264enc"@.len());
    assert("nvh264enc"@[0] != "vah265enc"@[0]);
    assert("nvh264enc"@[0] != "vah264enc"@[0]);
    assert("nvh264enc"@.len() != "vaapih265enc"@.len());
    assert("nvh264enc"@.len() != "vaapih264enc"@.len());
    assert("nvcudah265enc"@.len() != "vah265enc"@.len());
    assert("nvcudah265enc"@.len() != "vah264enc"@.len());
    assert("nvcudah265enc"@.len() != "vaapih265enc"@.len());
    assert("nvcudah265enc"@.len() != "vaapih264enc"@.len());
    assert("nvcudah264enc"@.len() != "vah265enc"@.len());
    assert("nvcudah264enc"@.len() != "vah264enc"@.len());
    assert("nvcudah264enc"@.len() != "vaapih265enc"@.len());
    assert("nvcudah264enc"@.len() != "vaapih264enc"@.len());
    assert("x265enc"@.len() != "vah265enc"@.len());
    assert("x265enc"@.len() != "vah264enc"@.len());
    assert("x265enc"@.len() != "vaapih265enc"@.len());
    assert("x265enc"@.len() != "vaapih264enc"@.len());
    assert("x265enc"@.len() != "nvh265enc"@.len());
    assert("x265enc"@.len() != "nvh264enc"@.len());
    assert("x265enc"@.len() != "nvcudah265enc"@.len());
    assert("x265enc"@.len() != "nvcudah264enc"@.len());
    assert("x264enc"@.len() != "vah265enc"@.len());
    assert("x264enc"@.len() != "vah264enc"@.len());
    assert("x264enc"@.len() != "vaapih265enc"@.len());
    assert("x264enc"@.len() != "vaapih264enc"@.len());
    assert("x264enc"@.len() != "nvh265enc"@.len());
    assert("x264enc"@.len() != "nvh264enc"@.len());
    assert("x264enc"@.len() != "nvcudah265enc"@.len());
    assert("x264enc"@.len() != "nvcudah264enc"@.len());
    assert("qsvh265enc"@.len() != "vah265enc"@.len());
    assert("qsvh265enc"@.len() != "vah264enc"@.len());
    assert("qsvh265enc"@.len() != "vaapih265enc"@.len());
    assert("qsvh265enc"@.len() != "vaapih264enc"@.len());
    assert("qsvh265enc"@.len() != "nvh265enc"@.len());
    assert("qsvh265enc"@.len() != "nvh264enc"@.len());
    assert("qsvh265enc"@.len() != "nvcudah265enc"@.len());
    assert("qsvh265enc"@.len() != "nvcudah264enc"@.len());
    assert("qsvh265enc"@.len() != "x265enc"@.len());
    assert("qsvh265enc"@.len() != "x264enc"@.len());
    assert("qsvh264enc"@.len() != "vah265enc"@.len());
    assert("qsvh264enc"@.len() != "vah264enc"@.len());
    assert("qsvh264enc"@.len() != "vaapih265enc"@.len());
    assert("qsvh264enc"@.len() != "vaapih264enc"@.len());
    assert("qsvh264enc"@.len() != "nvh265enc"@.len());
    assert("qsvh264enc"@.len() != "nvh264enc"@.len());
    assert("qsvh264enc"@.len() != "nvcudah265enc"@.len());
    assert("qsvh264enc"@.len() != "nvcudah264enc"@.len());
    assert("qsvh264enc"@.len() != "x265enc"@.len());
    assert("qsvh264enc"@.len() != "x264enc"@.len());
    assert("amfh265enc"@.len() != "vah265enc"@.len());
    assert("amfh265enc"@.len() != "vah264enc"@.len());
    assert("amfh265enc"@.len() != "vaapih265enc"@.len());
    assert("amfh265enc"@.len() != "vaapih264enc"@.len());
    assert("amfh265enc"@.len() != "nvh265enc"@.len());
    assert("amfh265enc"@.len() != "nvh264enc"@.len());
    assert("amfh265enc"@.len() != "nvcudah265enc"@.len());
    assert("amfh265enc"@.len() != "nvcudah264enc"@.len());
    assert("amfh265enc"@.len() != "x265enc"@.len());
    assert("amfh265enc"@.len() != "x264enc"@.len());
    assert("amfh265enc"@[0] != "qsvh265enc"@[0]);
    assert("amfh265enc"@[0] != "qsvh264enc"@[0]);
    assert("amfh264enc"@.len() != "vah265enc"@.len());
    assert("amfh264enc"@.len() != "vah264enc"@.len());
    assert("amfh264enc"@.len() != "vaapih265enc"@.len());
    assert("amfh264enc"@.len() != "vaapih264enc"@.len());
    assert("amfh264enc"@.len() != "nvh265enc"@.len());
    assert("amfh264enc"@.len() != "nvh264enc"@.len());
    assert("amfh264enc"@.len() != "nvcudah265enc"@.len());
    assert("amfh264enc"@.len() != "nvcudah264enc"@.len());
    assert("amfh264enc"@.len() != "x265enc"@.len());
    assert("amfh264enc"@.len() != "x264enc"@.len());
    assert("amfh264enc"@[0] != "qsvh265enc"@[0]);
    assert("amfh264enc"@[0] != "qsvh264enc"@[0]);
}

/// Law: exactly the two ffmpeg software decoders get frame-parallel decode
/// disabled; every other decoder gets no extra properties.
pub proof fn lemma_decoder_args_software_only(decoder: Seq<char>)
    ensures
        decoder_args_spec("avdec_h265"@) == "max-threads=1 thread-type=1"@,
        decoder_args_spec("avdec_h264"@) == "max-threads=1 thread-type=1"@,
        decoder != "avdec_h265"@ && decoder != "avdec_h264"@ ==> decoder_args_spec(decoder) == ""@,
{
}

/// Law: each codec is packetised, described and parsed by its own elements
/// on both ends (H.264 by the h264 elements, H.265 by the h265 ones).
pub proof fn lemma_codec_elements()
    ensures
        sender_codec_parts(Codec::H264) == (
            "rtph264pay aggregate-mode=zero-latency"@,
            "video/x-h264,stream-format=byte-stream,alignment=au"@,
            "h264parse config-interval=-1"@,
        ),
        sender_codec_parts(Codec::H265) == (
            "rtph265pay aggregate-mode=zero-latency"@,
            "video/x-h265,stream-format=byte-stream,alignment=au"@,
            "h265parse config-interval=-1"@,
        ),
        receiver_codec_parts(Codec::H264) == ("H264"@, "rtph264depay"@, "h264parse"@),
        receiver_codec_parts(Codec::H265) == ("H265"@, "rtph265depay"@, "h265parse"@),
{
}

} // verus!
