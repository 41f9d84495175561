//! Character-level text helpers shared by the parsers and string builders.
use vstd::prelude::*;

verus! {

/// Appends one character to a string.
///
/// Trusted: wraps `String::push`, which per its documentation appends the
/// character to the end of the string; the contract says exactly that.
#[verifier::external_body]
pub(crate) fn push_char(s: &mut String, c: char)
    ensures
        final(s)@ == old(s)@.push(c),
{
    s.push(c);
}

/// The characters of `s`, in order.
pub fn chars_of(s: &str) -> (r: Vec<char>)
    ensures
        r@ == s@,
{
    let mut out: Vec<char> = Vec::new();
    for c in it: s.chars()
        invariant
            out@ == it.seq().take(it.index() as int),
    {
        out.push(c);
    }
    out
}

/// A string holding the characters `cs[lo..hi]`.
pub fn string_from_chars(cs: &Vec<char>, lo: usize, hi: usize) -> (r: String)
    requires
        lo <= hi <= cs@.len(),
    ensures
        r@ == cs@.subrange(lo as int, hi as int),
{
    let mut out = String::new();
    let mut i = lo;
    while i < hi
        invariant
            lo <= i <= hi <= cs@.len(),
            out@ == cs@.subrange(lo as int, i as int),
        decreases hi - i,
    {
        push_char(&mut out, cs[i]);
        proof {
            assert(cs@.subrange(lo as int, i + 1) =~= cs@.subrange(lo as int, i as int).push(cs@[i as int]));
        }
        i += 1;
    }
    out
}

/// Whether two strings hold the same characters.
pub fn str_eq(a: &str, b: &str) -> (r: bool)
    ensures
        r == (a@ == b@),
{
    let ca = chars_of(a);
    let cb = chars_of(b);
    if ca.len() != cb.len() {
        return false;
    }
    let mut i: usize = 0;
    while i < ca.len()
        invariant
            ca@ == a@,
            cb@ == b@,
            ca@.len() == cb@.len(),
            i <= ca@.len(),
            ca@.take(i as int) == cb@.take(i as int),
        decreases ca@.len() - i,
    {
        if ca[i] != cb[i] {
            assert(ca@[i as int] != cb@[i as int]);
            return false;
        }
        assert(ca@.take(i + 1) =~= ca@.take(i as int).push(ca@[i as int]));
        assert(cb@.take(i + 1) =~= cb@.take(i as int).push(cb@[i as int]));
        i += 1;
    }
    assert(ca@ =~= ca@.take(i as int));
    assert(cb@ =~= cb@.take(i as int));
    true
}

/// Unicode `White_Space`: the characters `char::is_whitespace` accepts.
pub open spec fn is_ws(c: char) -> bool {
    let u = c as u32;
    ||| 0x09 <= u <= 0x0D
    ||| u == 0x20
    ||| u == 0x85
    ||| u == 0xA0
    ||| u == 0x1680
    ||| 0x2000 <= u <= 0x200A
    ||| u == 0x2028
    ||| u == 0x2029
    ||| u == 0x202F
    ||| u == 0x205F
    ||| u == 0x3000
}

pub fn is_whitespace(c: char) -> (r: bool)
    ensures
        r == is_ws(c),
{
    let u = c as u32;
    (0x09 <= u && u <= 0x0D) || u == 0x20 || u == 0x85 || u == 0xA0 || u == 0x1680 || (0x2000 <= u
        && u <= 0x200A) || u == 0x2028 || u == 0x2029 || u == 0x202F || u == 0x205F || u == 0x3000
}

/// ASCII letter (what `is_ascii_alphabetic` accepts).
pub open spec fn is_alpha(c: char) -> bool {
    ('a' <= c && c <= 'z') || ('A' <= c && c <= 'Z')
}

/// `s` without its leading whitespace.
pub open spec fn trim_start(s: Seq<char>) -> Seq<char>
    decreases s.len(),
{
    if s.len() > 0 && is_ws(s[0]) {
        trim_start(s.drop_first())
    } else {
        s
    }
}

/// `s` without its trailing whitespace.
pub open spec fn trim_end(s: Seq<char>) -> Seq<char>
    decreases s.len(),
{
    if s.len() > 0 && is_ws(s.last()) {
        trim_end(s.drop_last())
    } else {
        s
    }
}

/// `s` without leading and trailing whitespace (what `str::trim` returns).
pub open spec fn trim(s: Seq<char>) -> Seq<char> {
    trim_end(trim_start(s))
}

/// Index of the first whitespace at or after `i` (or the end).
pub open spec fn token_end(s: Seq<char>, i: int) -> int
    decreases s.len() - i,
{
    if i >= s.len() || is_ws(s[i]) {
        i
    } else {
        token_end(s, i + 1)
    }
}

pub proof fn lemma_token_end(s: Seq<char>, i: int)
    requires
        0 <= i,
    ensures
        i <= token_end(s, i),
        i < s.len() ==> token_end(s, i) <= s.len(),
        i < s.len() && !is_ws(s[i]) ==> i < token_end(s, i),
        forall|k: int| i <= k < token_end(s, i) ==> !is_ws(#[trigger] s[k]),
        token_end(s, i) < s.len() ==> is_ws(s[token_end(s, i)]),
    decreases s.len() - i,
{
    if i < s.len() && !is_ws(s[i]) {
        lemma_token_end(s, i + 1);
    }
}

/// The whitespace-separated tokens of `s` from position `i` on (what
/// `str::split_whitespace` yields).
pub open spec fn tokens_from(s: Seq<char>, i: int) -> Seq<Seq<char>>
    decreases s.len() - i,
{
    if i < 0 || i >= s.len() {
        seq![]
    } else if is_ws(s[i]) {
        tokens_from(s, i + 1)
    } else {
        let j = token_end(s, i);
        proof {
            lemma_token_end(s, i);
        }
        seq![s.subrange(i, j)] + tokens_from(s, j)
    }
}

/// The whitespace-separated tokens of `s`.
pub open spec fn ws_tokens(s: Seq<char>) -> Seq<Seq<char>> {
    tokens_from(s, 0)
}

/// The characters of `cs` without leading and trailing whitespace.
pub fn trim_chars(cs: &Vec<char>) -> (r: Vec<char>)
    ensures
        r@ == trim(cs@),
{
    let mut lo: usize = 0;
    assert(cs@.skip(0) =~= cs@);
    while lo < cs.len() && is_whitespace(cs[lo])
        invariant
            lo <= cs@.len(),
            trim_start(cs@) == trim_start(cs@.skip(lo as int)),
        decreases cs@.len() - lo,
    {
        assert(cs@.skip(lo as int).drop_first() =~= cs@.skip(lo + 1));
        lo += 1;
    }
    let ghost t = cs@.skip(lo as int);
    assert(trim_start(cs@) == t);
    let mut hi: usize = cs.len();
    while hi > lo && is_whitespace(cs[hi - 1])
        invariant
            lo <= hi <= cs@.len(),
            t == cs@.skip(lo as int),
            trim_end(t) == trim_end(cs@.subrange(lo as int, hi as int)),
        decreases hi,
    {
        assert(cs@.subrange(lo as int, hi as int).drop_last() =~= cs@.subrange(lo as int, hi - 1));
        hi -= 1;
    }
    let mut out: Vec<char> = Vec::new();
    let mut i = lo;
    while i < hi
        invariant
            lo <= i <= hi <= cs@.len(),
            out@ == cs@.subrange(lo as int, i as int),
        decreases hi - i,
    {
        out.push(cs[i]);
        assert(cs@.subrange(lo as int, i + 1) =~= cs@.subrange(lo as int, i as int).push(cs@[i as int]));
        i += 1;
    }
    assert(t =~= cs@.subrange(lo as int, cs@.len() as int));
    out
}

/// Token spans of `cs`: the `[start, end)` ranges of its whitespace-separated
/// tokens, in order.
#[verifier::loop_isolation(false)]
pub fn token_spans(cs: &Vec<char>) -> (r: Vec<(usize, usize)>)
    ensures
        r@.len() == ws_tokens(cs@).len(),
        forall|k: int| 0 <= k < r@.len() ==> #[trigger] r@[k].0 <= r@[k].1 <= cs@.len(),
            forall|k: int| 0 <= k < r@.len() ==> cs@.subrange(r@[k].0 as int, r@[k].1 as int) == #[trigger] ws_tokens(cs@)[k],
{
    let mut out: Vec<(usize, usize)> = Vec::new();
    let mut i: usize = 0;
    let ghost mut spans_view = Seq::<Seq<char>>::empty();
    while i < cs.len()
        invariant
            i <= cs@.len(),
            out@.len() == spans_view.len(),
            forall|k: int| 0 <= k < out@.len() ==> #[trigger] out@[k].0 <= out@[k].1 <= cs@.len(),
                forall|k: int| 0 <= k < out@.len() ==> cs@.subrange(out@[k].0 as int, out@[k].1 as int) == #[trigger] spans_view[k],
            spans_view + tokens_from(cs@, i as int) == ws_tokens(cs@),
        decreases cs@.len() - i,
    {
        if is_whitespace(cs[i]) {
            i += 1;
        } else {
            let start = i;
            proof {
                lemma_token_end(cs@, i as int);
            }
            while i < cs.len() && !is_whitespace(cs[i])
                invariant
                    start <= i <= cs@.len(),
                    token_end(cs@, start as int) == token_end(cs@, i as int),
                decreases cs@.len() - i,
            {
                i += 1;
            }
            let ghost old_out = out@;
            let ghost old_view = spans_view;
            out.push((start, i));
            proof {
                let tok = cs@.subrange(start as int, i as int);
                assert(tokens_from(cs@, start as int) == seq![tok] + tokens_from(cs@, i as int));
                assert(spans_view.push(tok) + tokens_from(cs@, i as int) =~= spans_view + tokens_from(cs@, start as int));
                spans_view = spans_view.push(tok);
                assert forall|k: int| 0 <= k < out@.len() implies {
                    &&& out@[k].0 <= out@[k].1 <= cs@.len()
                    &&& cs@.subrange(out@[k].0 as int, out@[k].1 as int) == #[trigger] spans_view[k]
                } by {
                    if k < old_out.len() {
                        assert(out@[k] == old_out[k]);
                        assert(spans_view[k] == old_view[k]);
                    }
                }
            }
        }
    }
    proof {
        assert(tokens_from(cs@, i as int) == Seq::<Seq<char>>::empty());
        assert(spans_view =~= ws_tokens(cs@));
        assert forall|k: int| 0 <= k < out@.len() implies {
            &&& out@[k].0 <= out@[k].1 <= cs@.len()
            &&& cs@.subrange(out@[k].0 as int, out@[k].1 as int) == #[trigger] ws_tokens(cs@)[k]
        } by {
            assert(cs@.subrange(out@[k].0 as int, out@[k].1 as int) == spans_view[k]);
        }
    }
    out
}

// ---------------------------------------------------------------------------
// Lines
// ---------------------------------------------------------------------------

/// Index of the first `nl` at or after `i` (or the end).
pub open spec fn line_end<T>(s: Seq<T>, i: int, nl: T) -> int
    decreases s.len() - i,
{
    if i >= s.len() || s[i] == nl {
        i
    } else {
        line_end(s, i + 1, nl)
    }
}

pub proof fn lemma_line_end<T>(s: Seq<T>, i: int, nl: T)
    requires
        0 <= i <= s.len(),
    ensures
        i <= line_end(s, i, nl) <= s.len(),
        line_end(s, i, nl) < s.len() ==> s[line_end(s, i, nl)] == nl,
    decreases s.len() - i,
{
    if i < s.len() && s[i] != nl {
        lemma_line_end(s, i + 1, nl);
    }
}

/// The line starting at `i` and ending at `j` (a newline or the end), without
/// a carriage return right before the newline.
pub open spec fn line_body<T>(s: Seq<T>, i: int, j: int, cr: T) -> Seq<T> {
    if j < s.len() && i < j && s[j - 1] == cr {
        s.subrange(i, j - 1)
    } else {
        s.subrange(i, j)
    }
}

/// The lines of `s` from position `i` on (what `str::lines` yields): split
/// after each `nl`, the `nl` and one `cr` before it removed, no empty line
/// after a final `nl`.
pub open spec fn lines_from<T>(s: Seq<T>, i: int, nl: T, cr: T) -> Seq<Seq<T>>
    decreases s.len() + 1 - i,
{
    if i < 0 || i >= s.len() {
        seq![]
    } else {
        let j = line_end(s, i, nl);
        proof {
            lemma_line_end(s, i, nl);
        }
        seq![line_body(s, i, j, cr)] + lines_from(s, j + 1, nl, cr)
    }
}

/// Spans of the lines of a byte buffer (`\n`-separated, `\r\n` allowed).
#[verifier::loop_isolation(false)]
pub fn byte_line_spans(s: &[u8]) -> (r: Vec<(usize, usize)>)
    ensures
        r@.len() == lines_from(s@, 0, 10u8, 13u8).len(),
        forall|k: int| 0 <= k < r@.len() ==> #[trigger] r@[k].0 <= r@[k].1 <= s@.len(),
            forall|k: int| 0 <= k < r@.len() ==> s@.subrange(r@[k].0 as int, r@[k].1 as int) == #[trigger] lines_from(
                    s@,
                    0,
                    10u8,
                    13u8,
                )[k],
{
    let len = s.len();
    let mut out: Vec<(usize, usize)> = Vec::new();
    let ghost mut done = Seq::<Seq<u8>>::empty();
    let mut i: usize = 0;
    while i < len
        invariant
            len == s@.len(),
            i <= len,
            out@.len() == done.len(),
            forall|k: int| 0 <= k < out@.len() ==> #[trigger] out@[k].0 <= out@[k].1 <= s@.len(),
                forall|k: int| 0 <= k < out@.len() ==> s@.subrange(out@[k].0 as int, out@[k].1 as int) == #[trigger] done[k],
            done + lines_from(s@, i as int, 10u8, 13u8) == lines_from(s@, 0, 10u8, 13u8),
        decreases len - i,
    {
        let start = i;
        let mut j = i;
        proof {
            lemma_line_end(s@, i as int, 10u8);
        }
        while j < len && s[j] != 10u8
            invariant
                start <= j <= len,
                len == s@.len(),
                line_end(s@, start as int, 10u8) == line_end(s@, j as int, 10u8),
            decreases len - j,
        {
            j += 1;
        }
        let e = if j < len && j > start && s[j - 1] == 13u8 { j - 1 } else { j };
        let ghost old_out = out@;
        let ghost old_done = done;
        out.push((start, e));
        proof {
            let body = line_body(s@, start as int, j as int, 13u8);
            assert(s@.subrange(start as int, e as int) == body);
            assert(lines_from(s@, start as int, 10u8, 13u8) == seq![body] + lines_from(s@, j + 1, 10u8, 13u8));
            assert(done.push(body) + lines_from(s@, j + 1, 10u8, 13u8) =~= done + lines_from(s@, start as int, 10u8, 13u8));
            done = done.push(body);
            assert forall|k: int| 0 <= k < out@.len() implies {
                &&& out@[k].0 <= out@[k].1 <= s@.len()
                &&& s@.subrange(out@[k].0 as int, out@[k].1 as int) == #[trigger] done[k]
            } by {
                if k < old_out.len() {
                    assert(out@[k] == old_out[k]);
                    assert(done[k] == old_done[k]);
                }
            }
        }
        if j >= len {
            proof {
                assert(lines_from(s@, j + 1, 10u8, 13u8) == Seq::<Seq<u8>>::empty());
            }
            i = j;
            break;
        }
        i = j + 1;
    }
    proof {
        assert(done =~= lines_from(s@, 0, 10u8, 13u8));
        assert forall|k: int| 0 <= k < out@.len() implies {
            &&& out@[k].0 <= out@[k].1 <= s@.len()
            &&& s@.subrange(out@[k].0 as int, out@[k].1 as int) == #[trigger] lines_from(s@, 0, 10u8, 13u8)[k]
        } by {
            assert(s@.subrange(out@[k].0 as int, out@[k].1 as int) == done[k]);
        }
    }
    out
}

/// Spans of the lines of a character buffer (`\n`-separated, `\r\n` allowed).
#[verifier::loop_isolation(false)]
pub fn char_line_spans(s: &Vec<char>) -> (r: Vec<(usize, usize)>)
    ensures
        r@.len() == lines_from(s@, 0, '\n', '\r').len(),
        forall|k: int| 0 <= k < r@.len() ==> #[trigger] r@[k].0 <= r@[k].1 <= s@.len(),
            forall|k: int| 0 <= k < r@.len() ==> s@.subrange(r@[k].0 as int, r@[k].1 as int) == #[trigger] lines_from(
                    s@,
                    0,
                    '\n',
                    '\r',
                )[k],
{
    let len = s.len();
    let mut out: Vec<(usize, usize)> = Vec::new();
    let ghost mut done = Seq::<Seq<char>>::empty();
    let mut i: usize = 0;
    while i < len
        invariant
            len == s@.len(),
            i <= len,
            out@.len() == done.len(),
            forall|k: int| 0 <= k < out@.len() ==> #[trigger] out@[k].0 <= out@[k].1 <= s@.len(),
                forall|k: int| 0 <= k < out@.len() ==> s@.subrange(out@[k].0 as int, out@[k].1 as int) == #[trigger] done[k],
            done + lines_from(s@, i as int, '\n', '\r') == lines_from(s@, 0, '\n', '\r'),
        decreases len - i,
    {
        let start = i;
        let mut j = i;
        proof {
            lemma_line_end(s@, i as int, '\n');
        }
        while j < len && s[j] != '\n'
            invariant
                start <= j <= len,
                len == s@.len(),
                line_end(s@, start as int, '\n') == line_end(s@, j as int, '\n'),
            decreases len - j,
        {
            j += 1;
        }
        let e = if j < len && j > start && s[j - 1] == '\r' { j - 1 } else { j };
        let ghost old_out = out@;
        let ghost old_done = done;
        out.push((start, e));
        proof {
            let body = line_body(s@, start as int, j as int, '\r');
            assert(s@.subrange(start as int, e as int) == body);
            assert(lines_from(s@, start as int, '\n', '\r') == seq![body] + lines_from(s@, j + 1, '\n', '\r'));
            assert(done.push(body) + lines_from(s@, j + 1, '\n', '\r') =~= done + lines_from(s@, start as int, '\n', '\r'));
            done = done.push(body);
            assert forall|k: int| 0 <= k < out@.len() implies {
                &&& out@[k].0 <= out@[k].1 <= s@.len()
                &&& s@.subrange(out@[k].0 as int, out@[k].1 as int) == #[trigger] done[k]
            } by {
                if k < old_out.len() {
                    assert(out@[k] == old_out[k]);
                    assert(done[k] == old_done[k]);
                }
            }
        }
        if j >= len {
            proof {
                assert(lines_from(s@, j + 1, '\n', '\r') == Seq::<Seq<char>>::empty());
            }
            i = j;
            break;
        }
        i = j + 1;
    }
    proof {
        assert(done =~= lines_from(s@, 0, '\n', '\r'));
        assert forall|k: int| 0 <= k < out@.len() implies {
            &&& out@[k].0 <= out@[k].1 <= s@.len()
            &&& s@.subrange(out@[k].0 as int, out@[k].1 as int) == #[trigger] lines_from(s@, 0, '\n', '\r')[k]
        } by {
            assert(s@.subrange(out@[k].0 as int, out@[k].1 as int) == done[k]);
        }
    }
    out
}


// ---------------------------------------------------------------------------
// Numbers
// ---------------------------------------------------------------------------

/// The decimal digit character for `d < 10`.
pub open spec fn digit_char(d: nat) -> char {
    ((d + 48) as u32) as char
}

/// Decimal representation of `n`, without leading zeros.
pub open spec fn decimal(n: nat) -> Seq<char>
    decreases n,
{
    if n < 10 {
        seq![digit_char(n)]
    } else {
        decimal(n / 10).push(digit_char(n % 10))
    }
}

/// Decimal text is a non-empty run of ASCII digits that reads back as `n`.
pub proof fn lemma_decimal_reads_back(n: nat)
    ensures
        decimal(n).len() > 0,
        forall|i: int| 0 <= i < decimal(n).len() ==> '0' <= #[trigger] decimal(n)[i] <= '9',
        digits_value(decimal(n), 10) == Some(n),
    decreases n,
{
    let last = digit_char(n % 10);
    assert(last as u32 == (n % 10) + 48);
    assert(digit_value(last, 10) == Some(n % 10));
    if n >= 10 {
        lemma_decimal_reads_back(n / 10);
        let d = decimal(n);
        assert(d.drop_last() =~= decimal(n / 10));
        assert(d.last() == last);
        assert(digits_value(d, 10) == Some((n / 10) * 10 + n % 10));
    } else {
        assert(seq![digit_char(n)].drop_last() =~= Seq::<char>::empty());
        assert(digits_value(Seq::<char>::empty(), 10) == Some(0nat));
        assert(digits_value(seq![digit_char(n)], 10) == Some(0 * 10 + n));
    }
}

/// Append the decimal representation of `n`.
pub fn push_decimal(out: &mut String, n: u64)
    ensures
        final(out)@ == old(out)@ + decimal(n as nat),
    decreases n,
{
    if n >= 10 {
        push_decimal(out, n / 10);
    }
    let c = digit_to_char((n % 10) as u32);
    proof {
        assert(old(out)@ + decimal(n as nat) =~= if n >= 10 {
            (old(out)@ + decimal((n / 10) as nat)).push(digit_char((n % 10) as nat))
        } else {
            old(out)@.push(digit_char(n as nat))
        });
    }
    push_char(out, c);
}

fn digit_to_char(d: u32) -> (c: char)
    requires
        d < 10,
    ensures
        c == digit_char(d as nat),
{
    match d {
        0 => '0',
        1 => '1',
        2 => '2',
        3 => '3',
        4 => '4',
        5 => '5',
        6 => '6',
        7 => '7',
        8 => '8',
        _ => '9',
    }
}

/// Uppercase hexadecimal digit character for `d < 16`.
pub open spec fn hex_digit_upper(d: nat) -> char {
    if d < 10 {
        ((d + 48) as u32) as char
    } else {
        ((d + 55) as u32) as char
    }
}

/// Four uppercase hexadecimal digits of `n` (what `format!("{n:04X}")` gives
/// for a `u16`).
pub open spec fn hex4_upper(n: u16) -> Seq<char> {
    seq![
        hex_digit_upper((n / 4096) as nat),
        hex_digit_upper(((n / 256) % 16) as nat),
        hex_digit_upper(((n / 16) % 16) as nat),
        hex_digit_upper((n % 16) as nat),
    ]
}

/// Value of the digit `c` in base `radix` (digits, then letters of either case).
pub open spec fn digit_value(c: char, radix: nat) -> Option<nat> {
    let u = c as u32;
    let v: int = if 48 <= u <= 57 {
        u - 48
    } else if 97 <= u <= 122 {
        u - 97 + 10
    } else if 65 <= u <= 90 {
        u - 65 + 10
    } else {
        radix as int
    };
    if v < radix {
        Some(v as nat)
    } else {
        None
    }
}

/// Value of the digit string `d` in base `radix`, if every character is a digit.
pub open spec fn digits_value(d: Seq<char>, radix: nat) -> Option<nat>
    decreases d.len(),
{
    if d.len() == 0 {
        Some(0)
    } else {
        match (digits_value(d.drop_last(), radix), digit_value(d.last(), radix)) {
            (Some(v), Some(x)) => Some(v * radix + x),
            _ => None,
        }
    }
}

/// What `from_str_radix` gives for an unsigned type whose largest value is
/// `max`: an optional `+`, then at least one digit, the value at most `max`.
pub open spec fn parse_unsigned(s: Seq<char>, radix: nat, max: nat) -> Option<nat> {
    let d = if s.len() > 0 && s[0] == '+' {
        s.drop_first()
    } else {
        s
    };
    if d.len() == 0 {
        None
    } else {
        match digits_value(d, radix) {
            Some(v) => if v <= max {
                Some(v)
            } else {
                None
            },
            None => None,
        }
    }
}

/// A digit string only grows as digits are appended.
proof fn lemma_digits_value_grows(d: Seq<char>, n: int, radix: nat)
    requires
        0 <= n <= d.len(),
        radix >= 1,
        digits_value(d, radix) is Some,
    ensures
        digits_value(d.take(n), radix) is Some,
        digits_value(d.take(n), radix)->0 <= digits_value(d, radix)->0,
    decreases d.len() - n,
{
    if n == d.len() {
        assert(d.take(n) =~= d);
    } else {
        lemma_digits_value_grows(d, n + 1, radix);
        let p = d.take(n + 1);
        assert(p.drop_last() =~= d.take(n));
        let v = digits_value(d.take(n), radix)->0;
        let x = digit_value(p.last(), radix)->0;
        assert(v <= v * radix + x) by (nonlinear_arith)
            requires radix >= 1, 0 <= v, 0 <= x;
    }
}

/// Parse `cs[lo..hi]` as an unsigned number in base `radix` whose largest
/// value is `max`, the way `from_str_radix` does.
pub fn parse_uint(cs: &Vec<char>, lo: usize, hi: usize, radix: u64, max: u64) -> (r: Option<u64>)
    requires
        lo <= hi <= cs@.len(),
        2 <= radix <= 36,
    ensures
        r == match parse_unsigned(cs@.subrange(lo as int, hi as int), radix as nat, max as nat) {
            Some(v) => Some(v as u64),
            None => None::<u64>,
        },
{
    let ghost s = cs@.subrange(lo as int, hi as int);
    let mut start = lo;
    if lo < hi && cs[lo] == '+' {
        start = lo + 1;
    }
    let ghost d = cs@.subrange(start as int, hi as int);
    assert(d =~= if s.len() > 0 && s[0] == '+' { s.drop_first() } else { s });
    if start == hi {
        return None;
    }
    let mut v: u64 = 0;
    let mut i = start;
    assert(d.take(0) =~= Seq::<char>::empty());
    while i < hi
        invariant
            start <= i <= hi <= cs@.len(),
            2 <= radix <= 36,
            d == cs@.subrange(start as int, hi as int),
            s == cs@.subrange(lo as int, hi as int),
            d == if s.len() > 0 && s[0] == '+' { s.drop_first() } else { s },
            d.len() > 0,
            digits_value(d.take(i - start), radix as nat) == Some(v as nat),
            v <= max,
        decreases hi - i,
    {
        let c = cs[i];
        let u = c as u32;
        let x: u64 = if 48 <= u && u <= 57 {
            (u - 48) as u64
        } else if 97 <= u && u <= 122 {
            (u - 97 + 10) as u64
        } else if 65 <= u && u <= 90 {
            (u - 65 + 10) as u64
        } else {
            radix
        };
        proof {
            assert(d.take(i - start + 1).drop_last() =~= d.take(i - start));
            assert(d.take(i - start + 1).last() == c);
        }
        let ghost p = d.take(i - start + 1);
        if x >= radix {
            proof {
                assert(digit_value(c, radix as nat) is None);
                assert(digits_value(p, radix as nat) is None);
                if digits_value(d, radix as nat) is Some {
                    lemma_digits_value_grows(d, i - start + 1, radix as nat);
                }
                assert(digits_value(d, radix as nat) is None);
                assert(parse_unsigned(s, radix as nat, max as nat) is None);
            }
            return None;
        }
        assert(digit_value(c, radix as nat) == Some(x as nat));
        assert(digits_value(p, radix as nat) == Some((v * radix + x) as nat));
        if x > max || v > (max - x) / radix {
            proof {
                assert(v * radix + x > max) by (nonlinear_arith)
                    requires x > max || v > (max - x) as int / (radix as int), radix > 0, 0 <= x, 0 <= v;
                if digits_value(d, radix as nat) is Some {
                    lemma_digits_value_grows(d, i - start + 1, radix as nat);
                    assert(digits_value(d, radix as nat)->0 > max);
                }
                assert(parse_unsigned(s, radix as nat, max as nat) is None);
            }
            return None;
        }
        proof {
            assert(v * radix + x <= max) by (nonlinear_arith)
                requires v <= (max - x) as int / (radix as int), radix > 0, x <= max;
        }
        v = v * radix + x;
        i += 1;
    }
    assert(d.take(hi - start) =~= d);
    Some(v)
}


/// `s` without leading and trailing whitespace, as a new string.
pub fn trim_string(s: &str) -> (r: String)
    ensures
        r@ == trim(s@),
{
    let cs = chars_of(s);
    let t = trim_chars(&cs);
    string_from_chars(&t, 0, t.len())
}

/// Whether `s` holds the character `c`.
pub fn contains_char(s: &str, c: char) -> (r: bool)
    ensures
        r == s@.contains(c),
{
    let cs = chars_of(s);
    let mut i: usize = 0;
    while i < cs.len()
        invariant
            cs@ == s@,
            i <= cs@.len(),
            forall|k: int| 0 <= k < i ==> cs@[k] != c,
        decreases cs@.len() - i,
    {
        if cs[i] == c {
            assert(s@[i as int] == c);
            return true;
        }
        i += 1;
    }
    false
}

} // verus!
