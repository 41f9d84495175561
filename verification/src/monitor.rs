//! Cross-platform monitor enumeration. Best-effort: on Linux the output of
//! OS-native tools (`kscreen-doctor -o`, `wlr-randr`) is parsed, falling back
//! to an empty list. Different from the monitor-share *negotiation* through
//! the xdg-desktop-portal on Linux: the portal popup is the authoritative
//! picker there.
use vstd::prelude::*;
use vstd::utf8::encode_utf8;
use vstd::string::StringSliceAdditionalSpecFns;
use crate::platform::Os;
use crate::text::{
    byte_line_spans, char_line_spans, chars_of, is_alpha, is_whitespace, is_ws, lines_from, push_char,
    string_from_chars, token_spans, trim, trim_chars, ws_tokens,
};

verus! {

#[derive(Debug, Clone, Copy, PartialEq, Eq, Structural)]
pub enum Source {
    KdeKScreen,
    WlrRandr,
    Cocoa,
    Win32,
    NotFound,
}

pub struct Enumeration {
    pub source: Source,
    pub names: Vec<String>,
    /// True if monitor selection is meaningful for *this* role + OS combo.
    /// On Linux + role=sender the portal handles it, so the value here is
    /// informational only.
    pub user_selectable: bool,
}

/// The values of the `Some` entries, in order.
pub open spec fn some_values<T>(s: Seq<Option<T>>) -> Seq<T>
    decreases s.len(),
{
    if s.len() == 0 {
        seq![]
    } else {
        let rest = some_values(s.drop_last());
        match s.last() {
            Some(v) => rest.push(v),
            None => rest,
        }
    }
}

/// The views of a list of strings.
pub open spec fn string_views(v: Seq<String>) -> Seq<Seq<char>> {
    v.map_values(|s: String| s@)
}

// ---------------------------------------------------------------------------
// ANSI stripping
// ---------------------------------------------------------------------------

/// ASCII letter byte.
pub open spec fn is_alpha_byte(b: u8) -> bool {
    (0x41 <= b && b <= 0x5A) || (0x61 <= b && b <= 0x7A)
}

/// Index of the first letter byte at or after `j` (or the end): the final
/// byte of an escape sequence.
pub open spec fn csi_end(b: Seq<u8>, j: int) -> int
    decreases b.len() - j,
{
    if j >= b.len() || is_alpha_byte(b[j]) {
        j
    } else {
        csi_end(b, j + 1)
    }
}

pub proof fn lemma_csi_end(b: Seq<u8>, j: int)
    ensures
        j <= csi_end(b, j),
        j <= b.len() ==> csi_end(b, j) <= b.len(),
    decreases b.len() - j,
{
    if j < b.len() && !is_alpha_byte(b[j]) {
        lemma_csi_end(b, j + 1);
    }
}

/// The bytes of `b` from `i` on with every `ESC [ ... letter` sequence
/// removed; each remaining byte becomes the character of the same code.
pub open spec fn strip_from(b: Seq<u8>, i: int) -> Seq<char>
    decreases b.len() + 1 - i,
{
    if i < 0 || i >= b.len() {
        seq![]
    } else if b[i] == 0x1b && i + 1 < b.len() && b[i + 1] == 0x5b {
        proof {
            lemma_csi_end(b, i + 2);
        }
        strip_from(b, csi_end(b, i + 2) + 1)
    } else {
        seq![b[i] as char] + strip_from(b, i + 1)
    }
}

/// Strip the CSI/SGR sequences of the bytes `b[lo..hi]`.
fn strip_range(b: &[u8], lo: usize, hi: usize) -> (r: Vec<char>)
    requires
        lo <= hi <= b@.len(),
    ensures
        r@ == strip_from(b@.subrange(lo as int, hi as int), 0),
{
    let ghost sub = b@.subrange(lo as int, hi as int);
    let mut out: Vec<char> = Vec::new();
    let mut i = lo;
    while i < hi
        invariant
            lo <= i <= hi <= b@.len(),
            sub == b@.subrange(lo as int, hi as int),
            out@ + strip_from(sub, i - lo) == strip_from(sub, 0),
        decreases hi - i,
    {
        if b[i] == 0x1b && i + 1 < hi && b[i + 1] == 0x5b {
            let ghost j0 = i - lo;
            i += 2;
            proof {
                lemma_csi_end(sub, i - lo);
            }
            while i < hi && !(((b[i] >= 0x41) && (b[i] <= 0x5A)) || ((b[i] >= 0x61) && (b[i] <= 0x7A)))
                invariant
                    lo <= i <= hi <= b@.len(),
                    sub == b@.subrange(lo as int, hi as int),
                    csi_end(sub, j0 + 2) == csi_end(sub, i - lo),
                decreases hi - i,
            {
                i += 1;
            }
            proof {
                assert(strip_from(sub, j0) == strip_from(sub, csi_end(sub, j0 + 2) + 1));
            }
            if i < hi {
                i += 1;
            } else {
                assert(strip_from(sub, i - lo + 1) == Seq::<char>::empty());
            }
        } else {
            proof {
                assert(strip_from(sub, i - lo) == seq![sub[i - lo] as char] + strip_from(sub, i - lo + 1));
                assert(out@.push(b@[i as int] as char) + strip_from(sub, i - lo + 1) =~= out@ + strip_from(sub, i - lo));
            }
            out.push(b[i] as char);
            i += 1;
        }
    }
    proof {
        assert(strip_from(sub, i - lo) == Seq::<char>::empty());
        assert(out@ =~= out@ + strip_from(sub, i - lo));
    }
    out
}

/// Minimal CSI / SGR stripper: removes `ESC [ ... letter` sequences; other
/// bytes are kept one character per byte.
pub fn strip_ansi(s: &str) -> (r: String)
    ensures
        r@ == strip_from(s.spec_bytes(), 0),
{
    let b = s.as_bytes();
    let cs = strip_range(b, 0, b.len());
    proof {
        assert(b@.subrange(0, b@.len() as int) =~= b@);
    }
    string_from_chars(&cs, 0, cs.len())
}

// ---------------------------------------------------------------------------
// Connector names
// ---------------------------------------------------------------------------

/// Number of `c` in `t`.
pub open spec fn count_char(t: Seq<char>, c: char) -> nat
    decreases t.len(),
{
    if t.len() == 0 {
        0
    } else {
        count_char(t.drop_last(), c) + if t.last() == c {
            1nat
        } else {
            0nat
        }
    }
}

/// Connector names look like eDP-1, HDMI-A-1, DP-2: a dash, at most 16 bytes
/// of UTF-8, an ASCII letter. The dash-count clause compares the bitwise
/// complement of the count with 4 (`!count > 4`), so it only rejects a name
/// with at least `usize::MAX - 4` dashes.
pub open spec fn connector_name(t: Seq<char>) -> bool {
    &&& t.contains('-')
    &&& encode_utf8(t).len() <= 16
    &&& !(count_char(t, '-') as usize) > 4
    &&& exists|i: int| 0 <= i < t.len() && is_alpha(#[trigger] t[i])
}

pub fn is_connector_name(s: &str) -> (r: bool)
    ensures
        r == connector_name(s@),
{
    let cs = chars_of(s);
    let byte_len = s.as_bytes().len();
    let mut has_dash = false;
    let mut dashes: usize = 0;
    let mut has_alpha = false;
    let mut i: usize = 0;
    while i < cs.len()
        invariant
            cs@ == s@,
            i <= cs@.len(),
            dashes == count_char(cs@.take(i as int), '-'),
            dashes <= i,
            has_dash == cs@.take(i as int).contains('-'),
            has_alpha == exists|k: int| 0 <= k < i && is_alpha(#[trigger] cs@[k]),
        decreases cs@.len() - i,
    {
        let c = cs[i];
        proof {
            assert(cs@.take(i + 1).drop_last() =~= cs@.take(i as int));
            assert(cs@.take(i + 1).last() == c);
            if cs@.take(i + 1).contains('-') && c != '-' {
                let k = choose|k: int| 0 <= k < i + 1 && #[trigger] cs@.take(i + 1)[k] == '-';
                assert(cs@.take(i as int)[k] == '-');
            }
            if cs@.take(i as int).contains('-') {
                let k = choose|k: int| 0 <= k < i && #[trigger] cs@.take(i as int)[k] == '-';
                assert(cs@.take(i + 1)[k] == '-');
            }
            if c == '-' {
                assert(cs@.take(i + 1)[i as int] == '-');
            }
        }
        if c == '-' {
            has_dash = true;
            dashes += 1;
        }
        if ('a' <= c && c <= 'z') || ('A' <= c && c <= 'Z') {
            has_alpha = true;
        }
        i += 1;
    }
    proof {
        assert(cs@.take(i as int) =~= cs@);
        assert(has_dash == s@.contains('-'));
        assert(byte_len == encode_utf8(s@).len());
        assert(dashes == count_char(s@, '-'));
        assert(has_alpha == exists|k: int| 0 <= k < s@.len() && is_alpha(#[trigger] s@[k]));
    }
    has_dash && byte_len <= 16 && !dashes > 4 && has_alpha
}

// ---------------------------------------------------------------------------
// kscreen-doctor
// ---------------------------------------------------------------------------

/// The `Output:` tag that starts a kscreen-doctor output line.
pub open spec fn output_tag() -> Seq<char> {
    seq!['O', 'u', 't', 'p', 'u', 't', ':']
}

/// The connector name that one line of `kscreen-doctor -o` output announces:
/// after ANSI stripping and trimming, `Output: <num> <connector> ...`.
pub open spec fn kscreen_line_name(line: Seq<u8>) -> Option<Seq<char>> {
    let t = trim(strip_from(line, 0));
    if t.len() >= 7 && t.take(7) == output_tag() {
        let parts = ws_tokens(t.skip(7));
        if parts.len() >= 2 && connector_name(parts[1]) {
            Some(parts[1])
        } else {
            None
        }
    } else {
        None
    }
}

/// Connector names listed in `kscreen-doctor -o` output (given as bytes).
pub open spec fn kscreen_names(text: Seq<u8>) -> Seq<Seq<char>> {
    some_values(lines_from(text, 0, 10u8, 13u8).map_values(|l: Seq<u8>| kscreen_line_name(l)))
}

/// The characters `cs[lo..hi]` as a new vector.
fn copy_chars(cs: &Vec<char>, lo: usize, hi: usize) -> (r: Vec<char>)
    requires
        lo <= hi <= cs@.len(),
    ensures
        r@ == cs@.subrange(lo as int, hi as int),
{
    let mut out: Vec<char> = Vec::new();
    let mut i = lo;
    while i < hi
        invariant
            lo <= i <= hi <= cs@.len(),
            out@ == cs@.subrange(lo as int, i as int),
        decreases hi - i,
    {
        out.push(cs[i]);
        assert(cs@.subrange(lo as int, i + 1) =~= cs@.subrange(lo as int, i as int).push(cs@[i as int]));
        i += 1;
    }
    out
}

/// The connector name announced by the line `text[lo..hi]`, if any.
fn kscreen_line(b: &[u8], lo: usize, hi: usize) -> (r: Option<String>)
    requires
        lo <= hi <= b@.len(),
    ensures
        match kscreen_line_name(b@.subrange(lo as int, hi as int)) {
            Some(n) => r matches Some(s) && s@ == n,
            None => r is None,
        },
{
    let plain = strip_range(b, lo, hi);
    let t = trim_chars(&plain);
    if t.len() >= 7 && t[0] == 'O' && t[1] == 'u' && t[2] == 't' && t[3] == 'p' && t[4] == 'u' && t[5]
        == 't' && t[6] == ':' {
        proof {
            assert(t@.take(7) =~= output_tag());
        }
        let rest = copy_chars(&t, 7, t.len());
        assert(rest@ =~= t@.skip(7));
        let parts = token_spans(&rest);
        if parts.len() >= 2 {
            let (a, z) = parts[1];
            let cand = string_from_chars(&rest, a, z);
            if is_connector_name(cand.as_str()) {
                return Some(cand);
            }
        }
        None
    } else {
        proof {
            if t@.len() >= 7 && t@.take(7) == output_tag() {
                assert(t@.take(7)[0] == 'O');
                assert(t@.take(7)[1] == 'u');
                assert(t@.take(7)[2] == 't');
                assert(t@.take(7)[3] == 'p');
                assert(t@.take(7)[4] == 'u');
                assert(t@.take(7)[5] == 't');
                assert(t@.take(7)[6] == ':');
            }
        }
        None
    }
}

/// Parse the output of `kscreen-doctor -o`: lines look like (with ANSI
/// escapes mixed in) `Output: 1 eDP-1 <uuid> ...`; the connector name is the
/// second field after `Output:`.
pub fn parse_kscreen_doctor(text: &str) -> (r: Vec<String>)
    ensures
        string_views(r@) == kscreen_names(text.spec_bytes()),
{
    let b = text.as_bytes();
    let spans = byte_line_spans(b);
    let ghost lines = lines_from(b@, 0, 10u8, 13u8);
    let ghost opts = lines.map_values(|l: Seq<u8>| kscreen_line_name(l));
    let mut names: Vec<String> = Vec::new();
    let mut k: usize = 0;
    while k < spans.len()
        invariant
            k <= spans@.len(),
            spans@.len() == lines.len(),
            lines == lines_from(b@, 0, 10u8, 13u8),
            opts == lines.map_values(|l: Seq<u8>| kscreen_line_name(l)),
            forall|j: int| 0 <= j < spans@.len() ==> #[trigger] spans@[j].0 <= spans@[j].1 <= b@.len(),
            forall|j: int| 0 <= j < spans@.len() ==> b@.subrange(spans@[j].0 as int, spans@[j].1 as int) == #[trigger] lines[j],
            string_views(names@) == some_values(opts.take(k as int)),
        decreases spans@.len() - k,
    {
        let (lo, hi) = spans[k];
        assert(spans@[k as int].0 <= spans@[k as int].1 <= b@.len());
        let found = kscreen_line(b, lo, hi);
        proof {
            assert(b@.subrange(lo as int, hi as int) == lines[k as int]);
            assert(opts.take(k + 1).drop_last() =~= opts.take(k as int));
            assert(opts.take(k + 1).last() == opts[k as int]);
        }
        match found {
            Some(s) => {
                let ghost before = names@;
                names.push(s);
                proof {
                    assert(string_views(names@) =~= string_views(before).push(s@));
                }
            }
            None => {}
        }
        k += 1;
    }
    proof {
        assert(opts.take(k as int) =~= opts);
    }
    names
}

/// Each value kept by `some_values` comes from a `Some` entry.
pub proof fn lemma_some_values_origin<T>(s: Seq<Option<T>>, i: int)
    requires
        0 <= i < some_values(s).len(),
    ensures
        exists|j: int| 0 <= j < s.len() && s[j] == Some(#[trigger] some_values(s)[i]),
    decreases s.len(),
{
    let rest = some_values(s.drop_last());
    if i < rest.len() {
        lemma_some_values_origin(s.drop_last(), i);
        let j = choose|j: int| 0 <= j < s.drop_last().len() && s.drop_last()[j] == Some(#[trigger] rest[i]);
        assert(s[j] == Some(some_values(s)[i]));
    } else {
        assert(s[s.len() - 1] == Some(some_values(s)[i]));
    }
}

/// Law: every name read from `kscreen-doctor -o` output is a connector
/// name (it has a dash and a letter and fits in 16 bytes), never a UUID.
pub proof fn lemma_kscreen_names_are_connectors(text: Seq<u8>, i: int)
    requires
        0 <= i < kscreen_names(text).len(),
    ensures
        connector_name(kscreen_names(text)[i]),
{
    let lines = lines_from(text, 0, 10u8, 13u8);
    let opts = lines.map_values(|l: Seq<u8>| kscreen_line_name(l));
    lemma_some_values_origin(opts, i);
    let j = choose|j: int| 0 <= j < opts.len() && opts[j] == Some(#[trigger] some_values(opts)[i]);
    assert(opts[j] == kscreen_line_name(lines[j]));
}

// ---------------------------------------------------------------------------
// wlr-randr
// ---------------------------------------------------------------------------

/// wlr-randr prints output names left-aligned and details indented: a line
/// not starting with whitespace names an output by its first field.
pub open spec fn wlr_line_name(line: Seq<char>) -> Option<Seq<char>> {
    if line.len() > 0 && is_ws(line[0]) {
        None
    } else if ws_tokens(line).len() > 0 {
        Some(ws_tokens(line)[0])
    } else {
        None
    }
}

/// Output names listed by `wlr-randr`.
pub open spec fn wlr_names(text: Seq<char>) -> Seq<Seq<char>> {
    some_values(lines_from(text, 0, '\n', '\r').map_values(|l: Seq<char>| wlr_line_name(l)))
}

fn wlr_line(cs: &Vec<char>, lo: usize, hi: usize) -> (r: Option<String>)
    requires
        lo <= hi <= cs@.len(),
    ensures
        match wlr_line_name(cs@.subrange(lo as int, hi as int)) {
            Some(n) => r matches Some(s) && s@ == n,
            None => r is None,
        },
{
    if lo < hi && is_whitespace(cs[lo]) {
        return None;
    }
    let line = copy_chars(cs, lo, hi);
    let parts = token_spans(&line);
    if parts.len() > 0 {
        let (a, z) = parts[0];
        Some(string_from_chars(&line, a, z))
    } else {
        None
    }
}

/// Parse the output of `wlr-randr`.
pub fn parse_wlr_randr(text: &str) -> (r: Vec<String>)
    ensures
        string_views(r@) == wlr_names(text@),
{
    let cs = chars_of(text);
    let spans = char_line_spans(&cs);
    let ghost lines = lines_from(cs@, 0, '\n', '\r');
    let ghost opts = lines.map_values(|l: Seq<char>| wlr_line_name(l));
    let mut names: Vec<String> = Vec::new();
    let mut k: usize = 0;
    while k < spans.len()
        invariant
            cs@ == text@,
            k <= spans@.len(),
            spans@.len() == lines.len(),
            lines == lines_from(cs@, 0, '\n', '\r'),
            opts == lines.map_values(|l: Seq<char>| wlr_line_name(l)),
            forall|j: int| 0 <= j < spans@.len() ==> #[trigger] spans@[j].0 <= spans@[j].1 <= cs@.len(),
            forall|j: int| 0 <= j < spans@.len() ==> cs@.subrange(spans@[j].0 as int, spans@[j].1 as int) == #[trigger] lines[j],
            string_views(names@) == some_values(opts.take(k as int)),
        decreases spans@.len() - k,
    {
        let (lo, hi) = spans[k];
        assert(spans@[k as int].0 <= spans@[k as int].1 <= cs@.len());
        let found = wlr_line(&cs, lo, hi);
        proof {
            assert(cs@.subrange(lo as int, hi as int) == lines[k as int]);
            assert(opts.take(k + 1).drop_last() =~= opts.take(k as int));
            assert(opts.take(k + 1).last() == opts[k as int]);
        }
        match found {
            Some(s) => {
                let ghost before = names@;
                names.push(s);
                proof {
                    assert(string_views(names@) =~= string_views(before).push(s@));
                }
            }
            None => {}
        }
        k += 1;
    }
    proof {
        assert(opts.take(k as int) =~= opts);
    }
    names
}

// ---------------------------------------------------------------------------
// Enumeration
// ---------------------------------------------------------------------------

/// Whether the wlr-randr probe is still needed after the kscreen-doctor one
/// (`None`: the tool could not be run or failed).
pub fn needs_wlr_probe(kscreen: &Option<Vec<String>>) -> (r: bool)
    ensures
        r == !(kscreen is Some && kscreen->0@.len() > 0),
{
    match kscreen {
        Some(v) => v.len() == 0,
        None => true,
    }
}

/// Pick the Linux monitor list: kscreen-doctor (KWin) first, then wlr-randr
/// (wlroots compositors); a tool that failed or listed nothing is skipped.
pub fn enumerate_linux(kscreen: Option<Vec<String>>, wlr: Option<Vec<String>>) -> (r: (Source, Vec<String>))
    ensures
        kscreen is Some && kscreen->0@.len() > 0 ==> r.0 == Source::KdeKScreen && r.1@ == kscreen->0@,
        !(kscreen is Some && kscreen->0@.len() > 0) && (wlr is Some && wlr->0@.len() > 0) ==> r.0
            == Source::WlrRandr && r.1@ == wlr->0@,
        !(kscreen is Some && kscreen->0@.len() > 0) && !(wlr is Some && wlr->0@.len() > 0) ==> r.0
            == Source::NotFound && r.1@.len() == 0,
{
    if let Some(names) = kscreen {
        if names.len() > 0 {
            return (Source::KdeKScreen, names);
        }
    }
    if let Some(names) = wlr {
        if names.len() > 0 {
            return (Source::WlrRandr, names);
        }
    }
    (Source::NotFound, Vec::new())
}

/// Screens on macOS; not enumerated yet.
pub fn cocoa_screens() -> (r: Vec<String>)
    ensures
        r@.len() == 0,
{
    Vec::new()
}

/// Screens on Windows; not enumerated yet.
pub fn win_screens() -> (r: Vec<String>)
    ensures
        r@.len() == 0,
{
    Vec::new()
}

/// The enumeration for `os`, given the Linux probe result (ignored elsewhere).
pub open spec fn enumeration_for(os: Os, linux: (Source, Seq<Seq<char>>)) -> (Source, Seq<Seq<char>>, bool) {
    match os {
        Os::Linux => (linux.0, linux.1, false),
        Os::Macos => (Source::Cocoa, seq![], true),
        Os::Windows => (Source::Win32, seq![], true),
    }
}

fn enumerate_for(os: Os, linux: (Source, Vec<String>)) -> (r: Enumeration)
    ensures
        (r.source, string_views(r.names@), r.user_selectable) == enumeration_for(os, (linux.0, string_views(linux.1@))),
{
    match os {
        Os::Linux => {
            let (source, names) = linux;
            Enumeration { source, names, user_selectable: false }
        },
        Os::Macos => {
            let names = cocoa_screens();
            assert(string_views(names@) =~= seq![]);
            Enumeration { source: Source::Cocoa, names, user_selectable: true }
        },
        Os::Windows => {
            let names = win_screens();
            assert(string_views(names@) =~= seq![]);
            Enumeration { source: Source::Win32, names, user_selectable: true }
        },
    }
}

/// Monitors for the sender role. On Linux the sender always goes through the
/// xdg-portal screencast prompt, which is the authoritative picker: the list
/// is for awareness and not selectable.
pub fn enumerate_for_sender(os: Os, linux: (Source, Vec<String>)) -> (r: Enumeration)
    ensures
        (r.source, string_views(r.names@), r.user_selectable) == enumeration_for(os, (linux.0, string_views(linux.1@))),
{
    enumerate_for(os, linux)
}

/// Monitors for the receiver role. On wlroots compositors there is no
/// standard protocol to place a client surface on an output, so on Linux the
/// list is informational only.
pub fn enumerate_for_receiver(os: Os, linux: (Source, Vec<String>)) -> (r: Enumeration)
    ensures
        (r.source, string_views(r.names@), r.user_selectable) == enumeration_for(os, (linux.0, string_views(linux.1@))),
{
    enumerate_for(os, linux)
}

} // verus!
