//! Receiver health read from Linux `/proc` tables: this process's CPU time,
//! the UDP receive backlog of the media socket, and UDP buffer-overflow drops.
use vstd::prelude::*;
use crate::monitor::some_values;
use crate::pipeline::{last_index_of, lemma_last_index_of};
use crate::text::{
    char_line_spans, chars_of, hex4_upper, lines_from, parse_uint, parse_unsigned, token_spans, ws_tokens,
};

verus! {

/// The number `t` spells in decimal (as `str::parse::<u64>`), or 0.
pub open spec fn parse_or_zero(t: Seq<char>) -> u64 {
    match parse_unsigned(t, 10, u64::MAX as nat) {
        Some(v) => v as u64,
        None => 0,
    }
}

/// `(utime, stime)` from `/proc/self/stat`: the fields after the
/// parenthesised command name (which may hold spaces) start with the state;
/// utime and stime are the 12th and 13th of them.
pub open spec fn cpu_tick_fields(stat: Seq<char>) -> Option<(u64, u64)> {
    match last_index_of(stat, ')') {
        None => None,
        Some(i) => {
            let rest = ws_tokens(stat.skip(i + 1));
            if rest.len() > 12 {
                Some((parse_or_zero(rest[11]), parse_or_zero(rest[12])))
            } else {
                None
            }
        },
    }
}

/// The characters `cs[lo..hi]` as a new vector.
fn sub_chars(cs: &Vec<char>, lo: usize, hi: usize) -> (r: Vec<char>)
    requires
        lo <= hi <= cs@.len(),
    ensures
        r@ == cs@.subrange(lo as int, hi as int),
{
    let mut out: Vec<char> = Vec::new();
    let mut i = lo;
    while i < hi
        invariant
            lo <= i <= hi <= cs@.len(),
            out@ == cs@.subrange(lo as int, i as int),
        decreases hi - i,
    {
        out.push(cs[i]);
        assert(cs@.subrange(lo as int, i + 1) =~= cs@.subrange(lo as int, i as int).push(cs@[i as int]));
        i += 1;
    }
    out
}

/// Parse `cs[lo..hi]` as a decimal `u64`, 0 when it is not one.
fn parse_u64_or_zero(cs: &Vec<char>, lo: usize, hi: usize) -> (r: u64)
    requires
        lo <= hi <= cs@.len(),
    ensures
        r == parse_or_zero(cs@.subrange(lo as int, hi as int)),
{
    match parse_uint(cs, lo, hi, 10, u64::MAX) {
        Some(v) => v,
        None => 0,
    }
}

/// Index of the last `c` in `cs`.
fn rfind_char(cs: &Vec<char>, c: char) -> (r: Option<usize>)
    ensures
        match last_index_of(cs@, c) {
            Some(i) => r == Some(i as usize),
            None => r is None,
        },
        r matches Some(k) ==> k < cs@.len(),
{
    proof {
        lemma_last_index_of(cs@, c);
    }
    let mut i = cs.len();
    assert(cs@.take(i as int) =~= cs@);
    while i > 0 && cs[i - 1] != c
        invariant
            i <= cs@.len(),
            last_index_of(cs@, c) == last_index_of(cs@.take(i as int), c),
        decreases i,
    {
        assert(cs@.take(i as int).drop_last() =~= cs@.take(i - 1));
        i -= 1;
    }
    if i == 0 {
        assert(cs@.take(0) =~= Seq::<char>::empty());
        None
    } else {
        assert(cs@.take(i as int).last() == c);
        Some(i - 1)
    }
}

/// The utime and stime fields of `/proc/self/stat` text.
pub fn self_cpu_tick_fields(stat: &str) -> (r: Option<(u64, u64)>)
    ensures
        r == cpu_tick_fields(stat@),
{
    let cs = chars_of(stat);
    let n = cs.len();
    proof {
        lemma_last_index_of(cs@, ')');
    }
    match rfind_char(&cs, ')') {
        None => None,
        Some(idx) => {
            let rest = sub_chars(&cs, idx + 1, n);
            assert(rest@ =~= stat@.skip(idx + 1));
            let toks = token_spans(&rest);
            if toks.len() > 12 {
                let (a, b) = toks[11];
                let (c, d) = toks[12];
                assert(rest@.subrange(a as int, b as int) == ws_tokens(rest@)[11]);
                assert(rest@.subrange(c as int, d as int) == ws_tokens(rest@)[12]);
                let utime = parse_u64_or_zero(&rest, a, b);
                let stime = parse_u64_or_zero(&rest, c, d);
                Some((utime, stime))
            } else {
                None
            }
        },
    }
}

/// utime + stime (clock ticks) of this process from `/proc/self/stat` text;
/// 0 when the text has no such fields.
pub fn self_cpu_ticks(stat: &str) -> (r: u64)
    requires
        cpu_tick_fields(stat@) matches Some((u, s)) ==> u + s <= u64::MAX,
    ensures
        r == match cpu_tick_fields(stat@) {
            Some((u, s)) => (u + s) as u64,
            None => 0,
        },
{
    match self_cpu_tick_fields(stat) {
        Some((utime, stime)) => utime + stime,
        None => 0,
    }
}

// ---------------------------------------------------------------------------
// /proc/net/udp[6]
// ---------------------------------------------------------------------------

/// The first `Some` of a sequence.
pub open spec fn first_some<T>(s: Seq<Option<T>>) -> Option<T>
    decreases s.len(),
{
    if s.len() == 0 {
        None
    } else if s[0] is Some {
        s[0]
    } else {
        first_some(s.drop_first())
    }
}

/// Index of the first `c` in `s`.
pub open spec fn first_index_of(s: Seq<char>, c: char) -> Option<int>
    decreases s.len(),
{
    if s.len() == 0 {
        None
    } else if s[0] == c {
        Some(0)
    } else {
        match first_index_of(s.drop_first(), c) {
            Some(i) => Some(i + 1),
            None => None,
        }
    }
}

proof fn lemma_first_index_of(s: Seq<char>, c: char)
    ensures
        first_index_of(s, c) matches Some(i) ==> 0 <= i < s.len() && s[i] == c,
    decreases s.len(),
{
    if s.len() > 0 && s[0] != c {
        lemma_first_index_of(s.drop_first(), c);
    }
}

/// ASCII lowercase of a character (others unchanged).
pub open spec fn ascii_lower(c: char) -> char {
    if 'A' <= c && c <= 'Z' {
        ((c as u32) + 32) as char
    } else {
        c
    }
}

/// Equal up to ASCII case.
pub open spec fn eq_ignore_ascii_case(a: Seq<char>, b: Seq<char>) -> bool {
    a.len() == b.len() && forall|i: int| 0 <= i < a.len() ==> ascii_lower(#[trigger] a[i]) == ascii_lower(b[i])
}

/// The receive queue a `/proc/net/udp` row reports when its local port is
/// `want` (hex): fields `sl local_address rem_address st tx_queue:rx_queue ...`.
pub open spec fn udp_row_queue(row: Seq<char>, want: Seq<char>) -> Option<u32> {
    let f = ws_tokens(row);
    if f.len() > 4 {
        match first_index_of(f[1], ':') {
            Some(i) => if eq_ignore_ascii_case(f[1].skip(i + 1), want) {
                match first_index_of(f[4], ':') {
                    Some(j) => match parse_unsigned(f[4].skip(j + 1), 16, u32::MAX as nat) {
                        Some(v) => Some(v as u32),
                        None => None,
                    },
                    None => None,
                }
            } else {
                None
            },
            None => None,
        }
    } else {
        None
    }
}

/// Bytes queued on the UDP socket bound to `port`, per one `/proc/net/udp`
/// table: the first data row (after the header) for that port with a
/// readable queue.
pub open spec fn recv_queue_spec(table: Seq<char>, port: u16) -> Option<u32> {
    let rows = lines_from(table, 0, '\n', '\r');
    let data = if rows.len() > 0 { rows.drop_first() } else { rows };
    first_some(data.map_values(|r: Seq<char>| udp_row_queue(r, hex4_upper(port))))
}

fn find_char(cs: &Vec<char>, lo: usize, hi: usize, c: char) -> (r: Option<usize>)
    requires
        lo <= hi <= cs@.len(),
    ensures
        match first_index_of(cs@.subrange(lo as int, hi as int), c) {
            Some(i) => r == Some((lo + i) as usize),
            None => r is None,
        },
        r matches Some(k) ==> lo <= k < hi,
{
    proof {
        lemma_first_index_of(cs@.subrange(lo as int, hi as int), c);
    }
    let mut i = lo;
    while i < hi
        invariant
            lo <= i <= hi <= cs@.len(),
            first_index_of(cs@.subrange(lo as int, hi as int), c) == match first_index_of(
                cs@.subrange(i as int, hi as int),
                c,
            ) {
                Some(k) => Some(k + (i - lo)),
                None => None::<int>,
            },
        decreases hi - i,
    {
        if cs[i] == c {
            assert(cs@.subrange(i as int, hi as int)[0] == c);
            return Some(i);
        }
        assert(cs@.subrange(i as int, hi as int).drop_first() =~= cs@.subrange(i + 1, hi as int));
        i += 1;
    }
    assert(cs@.subrange(i as int, hi as int).len() == 0);
    None
}

fn hex_digit_upper_exec(d: u16) -> (c: char)
    requires
        d < 16,
    ensures
        c == crate::text::hex_digit_upper(d as nat),
{
    match d {
        0 => '0',
        1 => '1',
        2 => '2',
        3 => '3',
        4 => '4',
        5 => '5',
        6 => '6',
        7 => '7',
        8 => '8',
        9 => '9',
        10 => 'A',
        11 => 'B',
        12 => 'C',
        13 => 'D',
        14 => 'E',
        _ => 'F',
    }
}

fn hex4(port: u16) -> (r: Vec<char>)
    ensures
        r@ == hex4_upper(port),
{
    let mut v: Vec<char> = Vec::new();
    v.push(hex_digit_upper_exec(port / 4096));
    v.push(hex_digit_upper_exec((port / 256) % 16));
    v.push(hex_digit_upper_exec((port / 16) % 16));
    v.push(hex_digit_upper_exec(port % 16));
    assert(v@ =~= hex4_upper(port));
    v
}

fn ascii_lower_exec(c: char) -> (r: char)
    ensures
        r == ascii_lower(c),
{
    match c {
        'A' => 'a', 'B' => 'b', 'C' => 'c', 'D' => 'd', 'E' => 'e', 'F' => 'f', 'G' => 'g',
        'H' => 'h', 'I' => 'i', 'J' => 'j', 'K' => 'k', 'L' => 'l', 'M' => 'm', 'N' => 'n',
        'O' => 'o', 'P' => 'p', 'Q' => 'q', 'R' => 'r', 'S' => 's', 'T' => 't', 'U' => 'u',
        'V' => 'v', 'W' => 'w', 'X' => 'x', 'Y' => 'y', 'Z' => 'z',
        _ => c,
    }
}

/// Whether `cs[lo..hi]` equals `want` up to ASCII case.
fn eq_ignore_case_range(cs: &Vec<char>, lo: usize, hi: usize, want: &Vec<char>) -> (r: bool)
    requires
        lo <= hi <= cs@.len(),
    ensures
        r == eq_ignore_ascii_case(cs@.subrange(lo as int, hi as int), want@),
{
    if hi - lo != want.len() {
        return false;
    }
    let ghost a = cs@.subrange(lo as int, hi as int);
    let mut k: usize = 0;
    while k < want.len()
        invariant
            lo <= hi <= cs@.len(),
            hi - lo == want@.len(),
            a == cs@.subrange(lo as int, hi as int),
            k <= want@.len(),
            forall|i: int| 0 <= i < k ==> ascii_lower(#[trigger] a[i]) == ascii_lower(want@[i]),
        decreases want@.len() - k,
    {
        if ascii_lower_exec(cs[lo + k]) != ascii_lower_exec(want[k]) {
            assert(a[k as int] == cs@[lo + k]);
            return false;
        }
        k += 1;
    }
    true
}

fn udp_row(cs: &Vec<char>, lo: usize, hi: usize, want: &Vec<char>) -> (r: Option<u32>)
    requires
        lo <= hi <= cs@.len(),
    ensures
        r == udp_row_queue(cs@.subrange(lo as int, hi as int), want@),
{
    let row = sub_chars(cs, lo, hi);
    let f = token_spans(&row);
    if f.len() <= 4 {
        return None;
    }
    let (a1, z1) = f[1];
    let (a4, z4) = f[4];
    assert(row@.subrange(a1 as int, z1 as int) == ws_tokens(row@)[1]);
    assert(row@.subrange(a4 as int, z4 as int) == ws_tokens(row@)[4]);
    proof {
        lemma_first_index_of(ws_tokens(row@)[1], ':');
        lemma_first_index_of(ws_tokens(row@)[4], ':');
    }
    match find_char(&row, a1, z1, ':') {
        None => None,
        Some(c1) => {
            assert(row@.subrange(c1 + 1, z1 as int) =~= ws_tokens(row@)[1].skip(c1 + 1 - a1));
            if !eq_ignore_case_range(&row, c1 + 1, z1, want) {
                return None;
            }
            match find_char(&row, a4, z4, ':') {
                None => None,
                Some(c4) => {
                    assert(row@.subrange(c4 + 1, z4 as int) =~= ws_tokens(row@)[4].skip(c4 + 1 - a4));
                    match parse_uint(&row, c4 + 1, z4, 16, 0xFFFF_FFFF) {
                        Some(v) => Some(v as u32),
                        None => None,
                    }
                },
            }
        },
    }
}

/// Receive queue (bytes) of the UDP socket bound to `port` in one
/// `/proc/net/udp`-format table.
pub fn recv_queue_in(table: &str, port: u16) -> (r: Option<u32>)
    ensures
        r == recv_queue_spec(table@, port),
{
    let want = hex4(port);
    let cs = chars_of(table);
    let rows = char_line_spans(&cs);
    let ghost all = lines_from(cs@, 0, '\n', '\r');
    let ghost data = if all.len() > 0 { all.drop_first() } else { all };
    let ghost opts = data.map_values(|r: Seq<char>| udp_row_queue(r, hex4_upper(port)));
    let mut k: usize = 1;
    proof {
        if all.len() > 0 {
            assert(opts.skip(0) =~= opts);
        } else {
            assert(opts.len() == 0);
        }
    }
    while k < rows.len()
        invariant
            cs@ == table@,
            want@ == hex4_upper(port),
            rows@.len() == all.len(),
            all == lines_from(cs@, 0, '\n', '\r'),
            data == if all.len() > 0 { all.drop_first() } else { all },
            opts == data.map_values(|r: Seq<char>| udp_row_queue(r, hex4_upper(port))),
            1 <= k,
            k <= rows@.len() || rows@.len() == 0,
            forall|j: int| 0 <= j < rows@.len() ==> #[trigger] rows@[j].0 <= rows@[j].1 <= cs@.len(),
            forall|j: int| 0 <= j < rows@.len() ==> cs@.subrange(rows@[j].0 as int, rows@[j].1 as int) == #[trigger] all[j],
            rows@.len() > 0 ==> first_some(opts) == first_some(opts.skip(k - 1)),
        decreases rows@.len() - k,
    {
        let (lo, hi) = rows[k];
        assert(rows@[k as int].0 <= rows@[k as int].1 <= cs@.len());
        let q = udp_row(&cs, lo, hi, &want);
        proof {
            assert(cs@.subrange(lo as int, hi as int) == all[k as int]);
            assert(opts.skip(k - 1)[0] == opts[k - 1]);
            assert(opts[k - 1] == udp_row_queue(data[k - 1], hex4_upper(port)));
            assert(data[k - 1] == all[k as int]);
            assert(opts.skip(k - 1).drop_first() =~= opts.skip(k as int));
        }
        if q.is_some() {
            return q;
        }
        k += 1;
    }
    proof {
        if rows@.len() > 0 {
            assert(opts.skip(k - 1).len() == 0);
        }
    }
    None
}

/// Bytes queued on the UDP socket bound to `port`: IPv4 table first, then
/// IPv6; a table that could not be read is skipped; 0 when neither has it.
pub fn recv_queue_bytes(udp: Option<&str>, udp6: Option<&str>, port: u16) -> (r: u32)
    ensures
        r == match (if udp is Some { recv_queue_spec(udp->0@, port) } else { None }) {
            Some(v) => v,
            None => match (if udp6 is Some { recv_queue_spec(udp6->0@, port) } else { None }) {
                Some(v) => v,
                None => 0,
            },
        },
{
    if let Some(t) = udp {
        if let Some(v) = recv_queue_in(t, port) {
            return v;
        }
    }
    if let Some(t) = udp6 {
        if let Some(v) = recv_queue_in(t, port) {
            return v;
        }
    }
    0
}

// ---------------------------------------------------------------------------
// /proc/net/snmp
// ---------------------------------------------------------------------------

/// `Udp:` rows of `/proc/net/snmp` start with this tag.
pub open spec fn udp_tag() -> Seq<char> {
    seq!['U', 'd', 'p', ':']
}

pub open spec fn is_udp_row(row: Seq<char>) -> bool {
    row.len() >= 4 && row.take(4) == udp_tag()
}

/// The `Udp:` rows of a table, in order.
pub open spec fn udp_rows(rows: Seq<Seq<char>>) -> Seq<Seq<char>>
    decreases rows.len(),
{
    if rows.len() == 0 {
        Seq::empty()
    } else {
        let before = udp_rows(rows.drop_last());
        if is_udp_row(rows.last()) {
            before.push(rows.last())
        } else {
            before
        }
    }
}

/// Cumulative UDP `RcvbufErrors` (receive-buffer overflow drops): the `Udp:`
/// rows come as a header then values; `RcvbufErrors` is the 6th field of the
/// values row (the tag counts as a field). 0 when absent or unreadable.
pub open spec fn rcvbuf_drops_spec(snmp: Seq<char>) -> u64 {
    let udp = udp_rows(lines_from(snmp, 0, '\n', '\r'));
    if udp.len() >= 2 {
        let v = ws_tokens(udp[1]);
        if v.len() > 5 {
            parse_or_zero(v[5])
        } else {
            0
        }
    } else {
        0
    }
}

pub fn rcvbuf_drops(snmp: &str) -> (r: u64)
    ensures
        r == rcvbuf_drops_spec(snmp@),
{
    let cs = chars_of(snmp);
    let rows = char_line_spans(&cs);
    let ghost all = lines_from(cs@, 0, '\n', '\r');
    let mut seen: usize = 0;
    let mut k: usize = 0;
    while k < rows.len()
        invariant
            cs@ == snmp@,
            rows@.len() == all.len(),
            all == lines_from(cs@, 0, '\n', '\r'),
            k <= rows@.len(),
            forall|j: int| 0 <= j < rows@.len() ==> #[trigger] rows@[j].0 <= rows@[j].1 <= cs@.len(),
            forall|j: int| 0 <= j < rows@.len() ==> cs@.subrange(rows@[j].0 as int, rows@[j].1 as int) == #[trigger] all[j],
            seen == udp_rows(all.take(k as int)).len(),
            seen <= 1,
        decreases rows@.len() - k,
    {
        let (lo, hi) = rows[k];
        assert(rows@[k as int].0 <= rows@[k as int].1 <= cs@.len());
        let is_udp = hi - lo >= 4 && cs[lo] == 'U' && cs[lo + 1] == 'd' && cs[lo + 2] == 'p' && cs[lo + 3] == ':';
        proof {
            let row = all[k as int];
            assert(cs@.subrange(lo as int, hi as int) == row);
            if is_udp {
                assert(row.take(4) =~= udp_tag());
            } else if row.len() >= 4 && row.take(4) == udp_tag() {
                assert(row.take(4)[0] == 'U');
                assert(row.take(4)[1] == 'd');
                assert(row.take(4)[2] == 'p');
                assert(row.take(4)[3] == ':');
            }
            assert(is_udp == is_udp_row(row));
            assert(all.take(k + 1).drop_last() =~= all.take(k as int));
            lemma_udp_rows_push(all.take(k as int), row);
            assert(all.take(k as int).push(row) =~= all.take(k + 1));
        }
        if is_udp {
            if seen == 1 {
                let data = sub_chars(&cs, lo, hi);
                let v = token_spans(&data);
                proof {
                    let f = udp_rows(all.take(k + 1));
                    lemma_udp_rows_prefix(all, k + 1);
                    assert(f.len() == 2);
                    assert(f[1] == all[k as int]);
                }
                if v.len() > 5 {
                    let (a, b) = v[5];
                    return parse_u64_or_zero(&data, a, b);
                }
                return 0;
            }
            seen += 1;
        }
        k += 1;
    }
    proof {
        assert(all.take(k as int) =~= all);
    }
    0
}

/// The `Udp:` rows of a table with one more row at the end.
proof fn lemma_udp_rows_push(s: Seq<Seq<char>>, x: Seq<char>)
    ensures
        udp_rows(s.push(x)) == if is_udp_row(x) {
            udp_rows(s).push(x)
        } else {
            udp_rows(s)
        },
{
    assert(s.push(x).drop_last() =~= s);
}

/// The `Udp:` rows of a prefix are a prefix of the `Udp:` rows of the whole.
proof fn lemma_udp_rows_prefix(s: Seq<Seq<char>>, n: int)
    requires
        0 <= n <= s.len(),
    ensures
        udp_rows(s.take(n)).len() <= udp_rows(s).len(),
        forall|i: int|
            0 <= i < udp_rows(s.take(n)).len() ==> #[trigger] udp_rows(s.take(n))[i] == udp_rows(s)[i],
    decreases s.len() - n,
{
    if n < s.len() {
        lemma_udp_rows_prefix(s, n + 1);
        lemma_udp_rows_push(s.take(n), s[n]);
        assert(s.take(n).push(s[n]) =~= s.take(n + 1));
        let short = udp_rows(s.take(n));
        let long = udp_rows(s.take(n + 1));
        assert forall|i: int| 0 <= i < short.len() implies #[trigger] short[i] == udp_rows(s)[i] by {
            assert(short[i] == long[i]);
        }
    } else {
        assert(s.take(n) =~= s);
    }
}

} // verus!
