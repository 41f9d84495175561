//! Per-OS pipeline element choices. Each candidate list is in preference
//! order; the caller probes the GStreamer registry and picks the first
//! available one.
use vstd::prelude::*;
use crate::config::Codec;
use crate::text::str_eq;

verus! {

#[derive(Debug, Clone, Copy, PartialEq, Eq, Structural)]
pub enum Os {
    Linux,
    Macos,
    Windows,
}

/// An encoder element choice: its element name and whether it runs on
/// hardware.
#[derive(Debug, Clone)]
pub struct Encoder {
    pub gst_element: &'static str,
    pub hardware: bool,
}

/// A decoder element choice: its element name and whether it runs on
/// hardware.
#[derive(Debug, Clone)]
pub struct Decoder {
    pub gst_element: &'static str,
    pub hardware: bool,
}

/// The platform named by a Rust `target_os` value (`"linux"`, `"macos"`,
/// `"windows"`); any other target falls back to Linux, best effort.
pub open spec fn os_of_target(target_os: Seq<char>) -> Os {
    if target_os == "macos"@ {
        Os::Macos
    } else if target_os == "windows"@ {
        Os::Windows
    } else {
        Os::Linux
    }
}

/// The platform this program was built for, from its `target_os` name.
pub fn current_os(target_os: &str) -> (r: Os)
    ensures
        r == os_of_target(target_os@),
{
    proof {
        reveal_strlit("linux");
        reveal_strlit("macos");
        reveal_strlit("windows");
        assert("linux"@[0] != "macos"@[0]);
        assert("linux"@[0] != "windows"@[0]);
        assert("linux"@ != "macos"@);
        assert("linux"@ != "windows"@);
    }
    if str_eq(target_os, "linux") {
        Os::Linux
    } else if str_eq(target_os, "macos") {
        Os::Macos
    } else if str_eq(target_os, "windows") {
        Os::Windows
    } else {
        Os::Linux
    }
}

/// A candidate table as plain values: element name and whether it is a
/// hardware element.
pub open spec fn table_view(t: Seq<(&'static str, bool)>) -> Seq<(Seq<char>, bool)> {
    t.map_values(|e: (&'static str, bool)| (e.0@, e.1))
}

pub open spec fn encoder_table(os: Os, codec: Codec) -> Seq<(Seq<char>, bool)> {
    match (os, codec) {
        (Os::Linux, Codec::H265) => seq![
            ("nvh265enc"@, true),
            ("nvcudah265enc"@, true),
            ("vah265enc"@, true),
            ("vaapih265enc"@, true),
            ("qsvh265enc"@, true),
            ("amfh265enc"@, true),
            ("x265enc"@, false),
        ],
        (Os::Linux, Codec::H264) => seq![
            ("nvh264enc"@, true),
            ("nvcudah264enc"@, true),
            ("vah264enc"@, true),
            ("vaapih264enc"@, true),
            ("qsvh264enc"@, true),
            ("amfh264enc"@, true),
            ("vulkanh264enc"@, true),
            ("x264enc"@, false),
        ],
        (Os::Macos, Codec::H265) => seq![
            ("vtenc_h265_hw"@, true),
            ("vtenc_h265"@, true),
            ("x265enc"@, false),
        ],
        (Os::Macos, Codec::H264) => seq![
            ("vtenc_h264_hw"@, true),
            ("vtenc_h264"@, true),
            ("x264enc"@, false),
        ],
        (Os::Windows, Codec::H265) => seq![
            ("nvh265enc"@, true),
            ("nvcudah265enc"@, true),
            ("qsvh265enc"@, true),
            ("mfh265enc"@, true),
            ("amfh265enc"@, true),
            ("x265enc"@, false),
        ],
        (Os::Windows, Codec::H264) => seq![
            ("nvh264enc"@, true),
            ("nvcudah264enc"@, true),
            ("qsvh264enc"@, true),
            ("mfh264enc"@, true),
            ("amfh264enc"@, true),
            ("x264enc"@, false),
        ],
    }
}

/// Encoder candidates for an OS and codec, hardware first.
pub fn encoder_candidates(os: Os, codec: Codec) -> (r: &'static [(&'static str, bool)])
    ensures
        table_view(r@) == encoder_table(os, codec),
{
    let r: &'static [(&'static str, bool)] = match (os, codec) {
        (Os::Linux, Codec::H265) => &[
            ("nvh265enc", true),
            ("nvcudah265enc", true),
            ("vah265enc", true),
            ("vaapih265enc", true),
            ("qsvh265enc", true),
            ("amfh265enc", true),
            ("x265enc", false),
        ],
        (Os::Linux, Codec::H264) => &[
            ("nvh264enc", true),
            ("nvcudah264enc", true),
            ("vah264enc", true),
            ("vaapih264enc", true),
            ("qsvh264enc", true),
            ("amfh264enc", true),
            ("vulkanh264enc", true),
            ("x264enc", false),
        ],
        (Os::Macos, Codec::H265) => &[
            ("vtenc_h265_hw", true),
            ("vtenc_h265", true),
            ("x265enc", false),
        ],
        (Os::Macos, Codec::H264) => &[
            ("vtenc_h264_hw", true),
            ("vtenc_h264", true),
            ("x264enc", false),
        ],
        (Os::Windows, Codec::H265) => &[
            ("nvh265enc", true),
            ("nvcudah265enc", true),
            ("qsvh265enc", true),
            ("mfh265enc", true),
            ("amfh265enc", true),
            ("x265enc", false),
        ],
        (Os::Windows, Codec::H264) => &[
            ("nvh264enc", true),
            ("nvcudah264enc", true),
            ("qsvh264enc", true),
            ("mfh264enc", true),
            ("amfh264enc", true),
            ("x264enc", false),
        ],
    };
    proof {
        assert(table_view(r@) =~= encoder_table(os, codec));
    }
    r
}


pub open spec fn decoder_table(os: Os, codec: Codec) -> Seq<(Seq<char>, bool)> {
    match (os, codec) {
        (Os::Linux, Codec::H265) => seq![
            ("avdec_h265"@, false),
            ("vah265dec"@, true),
            ("vaapih265dec"@, true),
            ("nvh265dec"@, true),
            ("nvcudah265dec"@, true),
            ("qsvh265dec"@, true),
            ("vulkanh265dec"@, true),
            ("v4l2slh265dec"@, true),
        ],
        (Os::Linux, Codec::H264) => seq![
            ("avdec_h264"@, false),
            ("vah264dec"@, true),
            ("vaapih264dec"@, true),
            ("nvh264dec"@, true),
            ("nvcudah264dec"@, true),
            ("qsvh264dec"@, true),
            ("vulkanh264dec"@, true),
            ("v4l2h264dec"@, true),
        ],
        (Os::Macos, Codec::H265) => seq![
            ("vtdec_hw"@, true),
            ("vtdec"@, true),
            ("avdec_h265"@, false),
        ],
        (Os::Macos, Codec::H264) => seq![
            ("vtdec_hw"@, true),
            ("vtdec"@, true),
            ("avdec_h264"@, false),
        ],
        (Os::Windows, Codec::H265) => seq![
            ("d3d12h265dec"@, true),
            ("d3d11h265dec"@, true),
            ("nvh265dec"@, true),
            ("nvcudah265dec"@, true),
            ("qsvh265dec"@, true),
            ("mfh265dec"@, true),
            ("avdec_h265"@, false),
        ],
        (Os::Windows, Codec::H264) => seq![
            ("d3d12h264dec"@, true),
            ("d3d11h264dec"@, true),
            ("nvh264dec"@, true),
            ("nvcudah264dec"@, true),
            ("qsvh264dec"@, true),
            ("mfh264dec"@, true),
            ("avdec_h264"@, false),
        ],
    }
}

/// Decoder candidates for an OS and codec. On Linux software decode comes
/// first: the Pi 5's hardware path emits tiled NV12 that compositors cannot
/// import, and software first keeps Linux variants predictable.
pub fn decoder_candidates(os: Os, codec: Codec) -> (r: &'static [(&'static str, bool)])
    ensures
        table_view(r@) == decoder_table(os, codec),
{
    let r: &'static [(&'static str, bool)] = match (os, codec) {
        (Os::Linux, Codec::H265) => &[
            ("avdec_h265", false),
            ("vah265dec", true),
            ("vaapih265dec", true),
            ("nvh265dec", true),
            ("nvcudah265dec", true),
            ("qsvh265dec", true),
            ("vulkanh265dec", true),
            ("v4l2slh265dec", true),
        ],
        (Os::Linux, Codec::H264) => &[
            ("avdec_h264", false),
            ("vah264dec", true),
            ("vaapih264dec", true),
            ("nvh264dec", true),
            ("nvcudah264dec", true),
            ("qsvh264dec", true),
            ("vulkanh264dec", true),
            ("v4l2h264dec", true),
        ],
        (Os::Macos, Codec::H265) => &[
            ("vtdec_hw", true),
            ("vtdec", true),
            ("avdec_h265", false),
        ],
        (Os::Macos, Codec::H264) => &[
            ("vtdec_hw", true),
            ("vtdec", true),
            ("avdec_h264", false),
        ],
        (Os::Windows, Codec::H265) => &[
            ("d3d12h265dec", true),
            ("d3d11h265dec", true),
            ("nvh265dec", true),
            ("nvcudah265dec", true),
            ("qsvh265dec", true),
            ("mfh265dec", true),
            ("avdec_h265", false),
        ],
        (Os::Windows, Codec::H264) => &[
            ("d3d12h264dec", true),
            ("d3d11h264dec", true),
            ("nvh264dec", true),
            ("nvcudah264dec", true),
            ("qsvh264dec", true),
            ("mfh264dec", true),
            ("avdec_h264", false),
        ],
    };
    proof {
        assert(table_view(r@) =~= decoder_table(os, codec));
    }
    r
}

/// Index of the first available candidate, if any.
pub open spec fn first_available(available: Seq<bool>) -> Option<int>
    decreases available.len(),
{
    if available.len() == 0 {
        None
    } else {
        match first_available(available.drop_last()) {
            Some(i) => Some(i),
            None => if available.last() {
                Some(available.len() - 1)
            } else {
                None
            },
        }
    }
}

/// First-match element from a candidate list, in the list's (hardware-first)
/// order. `available[i]` tells whether the element registry has candidate `i`.
pub fn pick_element(candidates: &[(&'static str, bool)], available: &[bool]) -> (r: Option<(&'static str, bool)>)
    requires
        available@.len() == candidates@.len(),
    ensures
        match first_available(available@) {
            Some(i) => r == Some(candidates@[i]),
            None => r is None,
        },
{
    let mut i: usize = 0;
    while i < candidates.len()
        invariant
            i <= candidates@.len(),
            available@.len() == candidates@.len(),
            first_available(available@.take(i as int)) is None,
        decreases candidates@.len() - i,
    {
        assert(available@.take(i + 1).drop_last() =~= available@.take(i as int));
        if available[i] {
            proof {
                lemma_first_available_prefix(available@, i as int + 1);
            }
            return Some(candidates[i]);
        }
        i += 1;
    }
    assert(available@.take(i as int) =~= available@);
    None
}

/// The first available index of a prefix that has one is the first of the whole.
pub proof fn lemma_first_available_prefix(available: Seq<bool>, n: int)
    requires
        0 <= n <= available.len(),
        first_available(available.take(n)) is Some,
    ensures
        first_available(available) == first_available(available.take(n)),
    decreases available.len() - n,
{
    if n < available.len() {
        assert(available.take(n + 1).drop_last() =~= available.take(n));
        lemma_first_available_prefix(available, n + 1);
    } else {
        assert(available.take(n) =~= available);
    }
}

/// With no available entry, every entry is unavailable.
pub proof fn lemma_first_available_none(available: Seq<bool>, k: int)
    requires
        first_available(available) is None,
        0 <= k < available.len(),
    ensures
        !available[k],
    decreases available.len(),
{
    if k < available.len() - 1 {
        lemma_first_available_none(available.drop_last(), k);
    }
}

/// Default sink for the local OS.
pub fn default_sink(os: Os) -> (r: &'static str)
    ensures
        r@ == match os {
            Os::Linux => "waylandsink fullscreen=true sync=false"@,
            Os::Macos => "osxvideosink sync=false"@,
            Os::Windows => "d3d11videosink sync=false"@,
        },
{
    match os {
        Os::Linux => "waylandsink fullscreen=true sync=false",
        Os::Macos => "osxvideosink sync=false",
        Os::Windows => "d3d11videosink sync=false",
    }
}

/// Default capture source for the local OS, in GStreamer syntax. On Linux the
/// portal step fills in `fd=N path=ID`.
pub fn default_source(os: Os) -> (r: &'static str)
    ensures
        r@ == match os {
            Os::Linux => "pipewiresrc fd=@PW_FD@ path=@NODE_ID@"@,
            Os::Macos => "avfvideosrc capture-screen=true"@,
            Os::Windows => "d3d11screencapturesrc"@,
        },
{
    match os {
        Os::Linux => "pipewiresrc fd=@PW_FD@ path=@NODE_ID@",
        Os::Macos => "avfvideosrc capture-screen=true",
        Os::Windows => "d3d11screencapturesrc",
    }
}

/// A candidate table in hardware-first order: every entry but the last is a
/// hardware element, and the last is the software fallback.
pub open spec fn hardware_first(t: Seq<(Seq<char>, bool)>) -> bool {
    &&& t.len() > 0
    &&& !t.last().1
    &&& forall|i: int| 0 <= i < t.len() - 1 ==> #[trigger] t[i].1
}

/// Every encoder table is hardware-first.
pub proof fn lemma_encoder_tables_hardware_first(os: Os, codec: Codec)
    ensures
        hardware_first(encoder_table(os, codec)),
{
}

/// The decoder tables of macOS and Windows are hardware-first (Linux lists
/// the software decoder first on purpose).
pub proof fn lemma_decoder_tables_hardware_first(os: Os, codec: Codec)
    requires
        os != Os::Linux,
    ensures
        hardware_first(decoder_table(os, codec)),
{
}

/// The first available entry comes no later than any available entry.
pub proof fn lemma_first_available_is_first(available: Seq<bool>, k: int)
    requires
        0 <= k < available.len(),
        available[k],
    ensures
        first_available(available) matches Some(j) && 0 <= j <= k && available[j],
    decreases available.len(),
{
    if k < available.len() - 1 {
        lemma_first_available_is_first(available.drop_last(), k);
    } else {
        if first_available(available.drop_last()) is Some {
            lemma_first_available_bounds(available.drop_last());
        }
    }
}

/// What `first_available` finds is an available index.
pub proof fn lemma_first_available_bounds(available: Seq<bool>)
    ensures
        first_available(available) matches Some(j) ==> 0 <= j < available.len() && available[j],
    decreases available.len(),
{
    if available.len() > 0 {
        lemma_first_available_bounds(available.drop_last());
    }
}

/// Law: picking from a hardware-first table yields a hardware element
/// whenever any hardware element of the table is available.
pub proof fn lemma_pick_prefers_hardware(table: Seq<(Seq<char>, bool)>, available: Seq<bool>, k: int)
    requires
        hardware_first(table),
        available.len() == table.len(),
        0 <= k < table.len(),
        available[k],
        table[k].1,
    ensures
        first_available(available) matches Some(j) && table[j].1,
{
    lemma_first_available_is_first(available, k);
}

/// Law: the encoder candidates of each platform and codec, in preference order.
pub proof fn lemma_encoder_tables_listed()
    ensures
        encoder_table(Os::Linux, Codec::H265) == seq![("nvh265enc"@, true), ("nvcudah265enc"@, true), ("vah265enc"@, true), ("vaapih265enc"@, true), ("qsvh265enc"@, true), ("amfh265enc"@, true), ("x265enc"@, false)],
        encoder_table(Os::Linux, Codec::H265).len() == 7,
        encoder_table(Os::Linux, Codec::H264) == seq![("nvh264enc"@, true), ("nvcudah264enc"@, true), ("vah264enc"@, true), ("vaapih264enc"@, true), ("qsvh264enc"@, true), ("amfh264enc"@, true), ("vulkanh264enc"@, true), ("x264enc"@, false)],
        encoder_table(Os::Linux, Codec::H264).len() == 8,
        encoder_table(Os::Macos, Codec::H265) == seq![("vtenc_h265_hw"@, true), ("vtenc_h265"@, true), ("x265enc"@, false)],
        encoder_table(Os::Macos, Codec::H265).len() == 3,
        encoder_table(Os::Macos, Codec::H264) == seq![("vtenc_h264_hw"@, true), ("vtenc_h264"@, true), ("x264enc"@, false)],
        encoder_table(Os::Macos, Codec::H264).len() == 3,
        encoder_table(Os::Windows, Codec::H265) == seq![("nvh265enc"@, true), ("nvcudah265enc"@, true), ("qsvh265enc"@, true), ("mfh265enc"@, true), ("amfh265enc"@, true), ("x265enc"@, false)],
        encoder_table(Os::Windows, Codec::H265).len() == 6,
        encoder_table(Os::Windows, Codec::H264) == seq![("nvh264enc"@, true), ("nvcudah264enc"@, true), ("qsvh264enc"@, true), ("mfh264enc"@, true), ("amfh264enc"@, true), ("x264enc"@, false)],
        encoder_table(Os::Windows, Codec::H264).len() == 6,
{
}

/// Law: the decoder candidates of each platform and codec, in preference order
/// (on Linux the software decoder comes first on purpose).
pub proof fn lemma_decoder_tables_listed()
    ensures
        decoder_table(Os::Linux, Codec::H265) == seq![("avdec_h265"@, false), ("vah265dec"@, true), ("vaapih265dec"@, true), ("nvh265dec"@, true), ("nvcudah265dec"@, true), ("qsvh265dec"@, true), ("vulkanh265dec"@, true), ("v4l2slh265dec"@, true)],
        decoder_table(Os::Linux, Codec::H265).len() == 8,
        decoder_table(Os::Linux, Codec::H264) == seq![("avdec_h264"@, false), ("vah264dec"@, true), ("vaapih264dec"@, true), ("nvh264dec"@, true), ("nvcudah264dec"@, true), ("qsvh264dec"@, true), ("vulkanh264dec"@, true), ("v4l2h264dec"@, true)],
        decoder_table(Os::Linux, Codec::H264).len() == 8,
        decoder_table(Os::Macos, Codec::H265) == seq![("vtdec_hw"@, true), ("vtdec"@, true), ("avdec_h265"@, false)],
        decoder_table(Os::Macos, Codec::H265).len() == 3,
        decoder_table(Os::Macos, Codec::H264) == seq![("vtdec_hw"@, true), ("vtdec"@, true), ("avdec_h264"@, false)],
        decoder_table(Os::Macos, Codec::H264).len() == 3,
        decoder_table(Os::Windows, Codec::H265) == seq![("d3d12h265dec"@, true), ("d3d11h265dec"@, true), ("nvh265dec"@, true), ("nvcudah265dec"@, true), ("qsvh265dec"@, true), ("mfh265dec"@, true), ("avdec_h265"@, false)],
        decoder_table(Os::Windows, Codec::H265).len() == 7,
        decoder_table(Os::Windows, Codec::H264) == seq![("d3d12h264dec"@, true), ("d3d11h264dec"@, true), ("nvh264dec"@, true), ("nvcudah264dec"@, true), ("qsvh264dec"@, true), ("mfh264dec"@, true), ("avdec_h264"@, false)],
        decoder_table(Os::Windows, Codec::H264).len() == 7,
{
}

} // verus!
