//! Persistent configuration: roles, codecs, quality presets and peers.
use vstd::prelude::*;
use crate::text::{chars_of, push_char, string_from_chars};

verus! {

/// Directory name under the platform configuration directory: the
/// configuration lives in `~/.config/share-screen/config.toml` on Linux.
pub const APP_DIR: &'static str = "share-screen";

/// File name of the configuration inside [`APP_DIR`].
pub const CONFIG_FILE: &'static str = "config.toml";

/// Which end of the stream this host is.
#[derive(Debug, Clone, Copy, PartialEq, Eq, Structural)]
pub enum Role {
    Sender,
    Receiver,
}

/// Video codec carried over RTP.
#[derive(Debug, Clone, Copy, PartialEq, Eq, Structural)]
pub enum Codec {
    H264,
    H265,
}

/// Two presets that bundle framerate/bitrate/encoder preset into a single
/// choice. Text optimises for low latency on static screens; Video for
/// smooth motion at the cost of latency.
#[derive(Debug, Clone, Copy, PartialEq, Eq, Structural)]
pub enum Quality {
    Text,
    Video,
}

impl Quality {
    pub fn framerate(self) -> (r: u32)
        ensures
            r == match self {
                Quality::Text => 30u32,
                Quality::Video => 60u32,
            },
    {
        match self {
            Quality::Text => 30,
            Quality::Video => 60,
        }
    }

    pub fn bitrate_kbps(self) -> (r: u32)
        ensures
            r == match self {
                Quality::Text => 12_000u32,
                Quality::Video => 20_000u32,
            },
    {
        match self {
            Quality::Text => 12_000,
            Quality::Video => 20_000,
        }
    }

    /// 2 = balanced+quality on VA-API. Latency-equivalent to higher values
    /// in measurements; quality is better.
    pub fn target_usage(self) -> (r: u32)
        ensures
            r == 2,
    {
        2
    }

    pub fn rate_control(self) -> (r: &'static str)
        ensures
            r@ == "cbr"@,
    {
        "cbr"
    }
}

/// A saved destination.
#[derive(Debug, Clone)]
pub struct Peer {
    /// User-friendly label, optional.
    pub label: String,
    /// host:port the sender pushes RTP to.
    pub address: String,
}

#[derive(Debug, Clone)]
pub struct Config {
    pub role: Role,
    pub quality: Quality,
    pub codec: Codec,
    pub payload_type: u8,
    /// Saved peer destinations. Sender pushes to `peers[active_peer]`.
    pub peers: Vec<Peer>,
    pub active_peer: usize,
    /// Receiver listens here. Sender ignores.
    pub listen_port: u16,
    pub width: u32,
    pub height: u32,
    /// Identifier of the monitor — interpretation is OS- and role-specific.
    pub monitor: String,
    /// receiver-only tuning
    pub jitter_ms: u32,
    pub idle_timeout_s: u32,
    pub rcvbuf: u32,
}

impl Default for Config {
    fn default() -> (r: Self)
        ensures
            r.role == Role::Receiver,
            r.quality == Quality::Text,
            r.codec == Codec::H265,
            r.payload_type == 96,
            r.peers@.len() == 0,
            r.active_peer == 0,
            r.listen_port == 5004,
            r.width == 1920,
            r.height == 1080,
            r.monitor@ == "auto"@,
            r.jitter_ms == 10,
            r.idle_timeout_s == 3,
            r.rcvbuf == 8 * 1024 * 1024,
    {
        Config {
            role: Role::Receiver,
            quality: Quality::Text,
            codec: Codec::H265,
            payload_type: 96,
            peers: Vec::new(),
            active_peer: 0,
            listen_port: 5004,
            width: 1920,
            height: 1080,
            monitor: "auto".to_owned(),
            jitter_ms: 10,
            idle_timeout_s: 3,
            rcvbuf: 8 * 1024 * 1024,
        }
    }
}

impl Config {
    /// The address of the selected peer, if the selection is in range.
    pub open spec fn spec_active_peer_address(&self) -> Option<Seq<char>> {
        if self.active_peer < self.peers@.len() {
            Some(self.peers@[self.active_peer as int].address@)
        } else {
            None
        }
    }

    pub fn active_peer_address(&self) -> (r: Option<&str>)
        ensures
            r is Some <==> self.spec_active_peer_address() is Some,
            r matches Some(a) ==> a@ == self.spec_active_peer_address()->0,
    {
        if self.active_peer < self.peers.len() {
            Some(self.peers[self.active_peer].address.as_str())
        } else {
            None
        }
    }
}

/// `part` appended to the path `base` as a further component, as
/// `Path::join` does for a relative `part` on a platform whose main
/// separator is `sep`: a separator goes between them unless `base` is empty
/// or already ends with one (`/` counts as one everywhere).
pub open spec fn path_join(base: Seq<char>, part: Seq<char>, sep: char) -> Seq<char> {
    if base.len() == 0 {
        part
    } else if base.last() == '/' || base.last() == sep {
        base + part
    } else {
        base + seq![sep] + part
    }
}

fn join_path(base: &str, part: &str, sep: char) -> (r: String)
    ensures
        r@ == path_join(base@, part@, sep),
{
    let cs = chars_of(base);
    let n = cs.len();
    let mut out = string_from_chars(&cs, 0, n);
    assert(cs@.subrange(0, n as int) =~= cs@);
    if n > 0 && cs[n - 1] != '/' && cs[n - 1] != sep {
        push_char(&mut out, sep);
    }
    out.append(part);
    proof {
        assert(out@ =~= path_join(base@, part@, sep));
    }
    out
}

/// The application's directory inside the platform configuration
/// directory `platform_dir` (paths joined with the main separator `sep`);
/// `None` when the platform has none.
pub fn config_dir(platform_dir: Option<&str>, sep: char) -> (r: Option<String>)
    ensures
        r is Some <==> platform_dir is Some,
        r matches Some(d) ==> d@ == path_join(platform_dir->0@, APP_DIR@, sep),
{
    match platform_dir {
        Some(base) => Some(join_path(base, APP_DIR, sep)),
        None => None,
    }
}

/// Where the configuration file lives, given the platform configuration
/// directory and the main path separator; `None` when the platform has none.
pub fn config_path(platform_dir: Option<&str>, sep: char) -> (r: Option<String>)
    ensures
        r is Some <==> platform_dir is Some,
        r matches Some(p) ==> p@ == path_join(path_join(platform_dir->0@, APP_DIR@, sep), CONFIG_FILE@, sep),
{
    match config_dir(platform_dir, sep) {
        Some(d) => Some(join_path(d.as_str(), CONFIG_FILE, sep)),
        None => None,
    }
}

} // verus!
