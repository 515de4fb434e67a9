//! Character and string helpers shared by the version parser: whitespace
//! and digit classification, prefix tests, trimming, line splitting,
//! unsigned decimal parsing and rendering.

use vstd::prelude::*;
use vstd::string::StrSliceExecFns;
use vstd::string::StringExecFns;

verus! {

/// ASCII whitespace, the set stripped from field values.
pub open spec fn spec_is_ws(c: char) -> bool {
    c == ' ' || c == '\t' || c == '\n' || c == '\r' || c == '\u{b}' || c == '\u{c}'
}

/// Executable whitespace test.
pub fn is_ws_char(c: char) -> (b: bool)
    ensures
        b == spec_is_ws(c),
{
    c == ' ' || c == '\t' || c == '\n' || c == '\r' || c == '\u{b}' || c == '\u{c}'
}

/// Decimal digit test.
pub open spec fn spec_is_digit(c: char) -> bool {
    '0' <= c && c <= '9'
}

/// Numeric value of a decimal digit character.
pub open spec fn spec_digit_val(c: char) -> nat
    recommends
        spec_is_digit(c),
{
    (c as u32 - '0' as u32) as nat
}

/// Every character of `d` is a decimal digit.
pub open spec fn spec_all_digits(d: Seq<char>) -> bool {
    forall|k: int| 0 <= k < d.len() ==> spec_is_digit(#[trigger] d[k])
}

/// Value of a most-significant-first digit string.
pub open spec fn spec_digits_val(d: Seq<char>) -> nat
    decreases d.len(),
{
    if d.len() == 0 {
        0
    } else {
        spec_digits_val(d.drop_last()) * 10 + spec_digit_val(d.last())
    }
}

/// A prefix of a digit string never has a larger value than the whole.
pub proof fn lemma_digits_val_take_le(d: Seq<char>, m: int)
    requires
        0 <= m <= d.len(),
    ensures
        spec_digits_val(d.take(m)) <= spec_digits_val(d),
    decreases d.len(),
{
    if m == d.len() {
        assert(d.take(m) =~= d);
    } else {
        lemma_digits_val_take_le(d.drop_last(), m);
        assert(d.drop_last().take(m) =~= d.take(m));
    }
}

/// What an unsigned sixteen-bit field value parses to: an optional
/// leading `+`, then one or more decimal digits whose value fits.
pub open spec fn spec_parse_u16(s: Seq<char>) -> Option<u16> {
    let d = if s.len() > 0 && s[0] == '+' {
        s.drop_first()
    } else {
        s
    };
    if d.len() > 0 && spec_all_digits(d) && spec_digits_val(d) <= u16::MAX {
        Some(spec_digits_val(d) as u16)
    } else {
        None
    }
}

/// Parse a sixteen-bit unsigned decimal value, mirroring `spec_parse_u16`.
pub fn parse_u16(s: &str) -> (r: Option<u16>)
    ensures
        r == spec_parse_u16(s@),
{
    let n = s.unicode_len();
    let mut i: usize = 0;
    if n > 0 && s.get_char(0) == '+' {
        i = 1;
    }
    let ghost d = if s@.len() > 0 && s@[0] == '+' {
        s@.drop_first()
    } else {
        s@
    };
    assert(d =~= s@.subrange(i as int, n as int));
    if i >= n {
        return None;
    }
    let mut acc: u32 = 0;
    let mut k: usize = i;
    while k < n
        invariant
            i <= k <= n,
            n == s@.len(),
            d == (if s@.len() > 0 && s@[0] == '+' {
                s@.drop_first()
            } else {
                s@
            }),
            d =~= s@.subrange(i as int, n as int),
            forall|m: int| i <= m < k ==> spec_is_digit(#[trigger] s@[m]),
            acc == spec_digits_val(s@.subrange(i as int, k as int)),
            acc <= u16::MAX,
        decreases n - k,
    {
        let c = s.get_char(k);
        let u = c as u32;
        if u < 48 || u > 57 {
            assert(!spec_is_digit(d[k - i]));
            return None;
        }
        let dig = u - 48;
        proof {
            assert(s@.subrange(i as int, k + 1 as int).drop_last() =~= s@.subrange(
                i as int,
                k as int,
            ));
            assert(s@.subrange(i as int, k + 1 as int).last() == s@[k as int]);
        }
        acc = acc * 10 + dig;
        if acc > 65535 {
            proof {
                assert(d.take(k + 1 - i) =~= s@.subrange(i as int, k + 1 as int));
                lemma_digits_val_take_le(d, k + 1 - i);
            }
            return None;
        }
        k = k + 1;
    }
    Some(acc as u16)
}

/// Index of the first occurrence of `c` in `l`, or `l.len()` if absent.
pub open spec fn spec_first_ix(l: Seq<char>, c: char) -> int
    decreases l.len(),
{
    if l.len() == 0 {
        0
    } else if l[0] == c {
        0
    } else {
        1 + spec_first_ix(l.drop_first(), c)
    }
}

/// The first-occurrence index lies between zero and the length.
pub proof fn lemma_first_ix_bounds(l: Seq<char>, c: char)
    ensures
        0 <= spec_first_ix(l, c) <= l.len(),
    decreases l.len(),
{
    if l.len() > 0 && l[0] != c {
        lemma_first_ix_bounds(l.drop_first(), c);
    }
}

/// The first-occurrence index is the unique position with no `c` before
/// it and `c` at it (or the length, when `c` never occurs).
pub proof fn lemma_first_ix(l: Seq<char>, c: char, j: int)
    requires
        0 <= j <= l.len(),
        forall|k: int| 0 <= k < j ==> l[k] != c,
        j < l.len() ==> l[j] == c,
    ensures
        spec_first_ix(l, c) == j,
    decreases l.len(),
{
    if l.len() == 0 {
    } else if l[0] == c {
        assert(j == 0);
    } else {
        assert(j >= 1);
        lemma_first_ix(l.drop_first(), c, j - 1);
    }
}

/// `p` is a prefix of `s`.
pub open spec fn spec_is_prefix(p: Seq<char>, s: Seq<char>) -> bool {
    p.len() <= s.len() && forall|k: int| 0 <= k < p.len() ==> s[k] == #[trigger] p[k]
}

/// Executable prefix test.
pub fn str_starts_with(s: &str, p: &str) -> (r: bool)
    ensures
        r == spec_is_prefix(p@, s@),
{
    let pl = p.unicode_len();
    let sl = s.unicode_len();
    if pl > sl {
        return false;
    }
    let mut k: usize = 0;
    while k < pl
        invariant
            0 <= k <= pl,
            pl == p@.len(),
            sl == s@.len(),
            pl <= sl,
            forall|m: int| 0 <= m < k ==> s@[m] == #[trigger] p@[m],
        decreases pl - k,
    {
        if s.get_char(k) != p.get_char(k) {
            return false;
        }
        k = k + 1;
    }
    true
}

/// Executable character-wise string equality.
pub fn str_eq(a: &str, b: &str) -> (r: bool)
    ensures
        r == (a@ == b@),
{
    let al = a.unicode_len();
    let bl = b.unicode_len();
    if al != bl {
        return false;
    }
    let mut k: usize = 0;
    while k < al
        invariant
            0 <= k <= al,
            al == a@.len(),
            bl == b@.len(),
            al == bl,
            forall|m: int| 0 <= m < k ==> a@[m] == #[trigger] b@[m],
        decreases al - k,
    {
        if a.get_char(k) != b.get_char(k) {
            return false;
        }
        k = k + 1;
    }
    proof {
        assert(a@ =~= b@);
    }
    true
}

/// `t` with its leading whitespace removed.
pub open spec fn spec_trim_start(t: Seq<char>) -> Seq<char>
    decreases t.len(),
{
    if t.len() > 0 && spec_is_ws(t[0]) {
        spec_trim_start(t.drop_first())
    } else {
        t
    }
}

/// `t` with its trailing whitespace removed.
pub open spec fn spec_trim_end(t: Seq<char>) -> Seq<char>
    decreases t.len(),
{
    if t.len() > 0 && spec_is_ws(t.last()) {
        spec_trim_end(t.drop_last())
    } else {
        t
    }
}

/// `t` with surrounding whitespace removed.
pub open spec fn spec_trim(t: Seq<char>) -> Seq<char> {
    spec_trim_end(spec_trim_start(t))
}

/// Trimming the start keeps the suffix from the first non-whitespace
/// character on.
pub proof fn lemma_trim_start_ix(t: Seq<char>, i: int)
    requires
        0 <= i <= t.len(),
        forall|k: int| 0 <= k < i ==> spec_is_ws(#[trigger] t[k]),
        i < t.len() ==> !spec_is_ws(t[i]),
    ensures
        spec_trim_start(t) == t.skip(i),
    decreases i,
{
    if i == 0 {
        assert(t.skip(0) =~= t);
    } else {
        lemma_trim_start_ix(t.drop_first(), i - 1);
        assert(t.drop_first().skip(i - 1) =~= t.skip(i));
    }
}

/// Trimming the end keeps the prefix up to the last non-whitespace
/// character.
pub proof fn lemma_trim_end_ix(t: Seq<char>, j: int)
    requires
        0 <= j <= t.len(),
        forall|k: int| j <= k < t.len() ==> spec_is_ws(#[trigger] t[k]),
        j > 0 ==> !spec_is_ws(t[j - 1]),
    ensures
        spec_trim_end(t) == t.take(j),
    decreases t.len(),
{
    if j == t.len() {
        assert(t.take(j) =~= t);
    } else {
        lemma_trim_end_ix(t.drop_last(), j);
        assert(t.drop_last().take(j) =~= t.take(j));
    }
}

/// Remove surrounding whitespace, mirroring `spec_trim`.
pub fn trim_str<'a>(s: &'a str) -> (r: &'a str)
    ensures
        r@ == spec_trim(s@),
{
    let n = s.unicode_len();
    let mut i: usize = 0;
    while i < n && is_ws_char(s.get_char(i))
        invariant
            0 <= i <= n,
            n == s@.len(),
            forall|k: int| 0 <= k < i ==> spec_is_ws(#[trigger] s@[k]),
        decreases n - i,
    {
        i = i + 1;
    }
    let mut j: usize = n;
    while j > i && is_ws_char(s.get_char(j - 1))
        invariant
            i <= j <= n,
            n == s@.len(),
            forall|k: int| j <= k < n ==> spec_is_ws(#[trigger] s@[k]),
        decreases j,
    {
        j = j - 1;
    }
    proof {
        lemma_trim_start_ix(s@, i as int);
        lemma_trim_end_ix(s@.skip(i as int), j - i);
        assert(s@.skip(i as int).take(j - i) =~= s@.subrange(i as int, j as int));
    }
    s.substring_char(i, j)
}

/// `t` with its leading `-` separators removed.
pub open spec fn spec_drop_dashes(t: Seq<char>) -> Seq<char>
    decreases t.len(),
{
    if t.len() > 0 && t[0] == '-' {
        spec_drop_dashes(t.drop_first())
    } else {
        t
    }
}

/// Dropping leading dashes keeps the suffix from the first non-dash
/// character on.
pub proof fn lemma_drop_dashes_ix(t: Seq<char>, i: int)
    requires
        0 <= i <= t.len(),
        forall|k: int| 0 <= k < i ==> #[trigger] t[k] == '-',
        i < t.len() ==> t[i] != '-',
    ensures
        spec_drop_dashes(t) == t.skip(i),
    decreases i,
{
    if i == 0 {
        assert(t.skip(0) =~= t);
    } else {
        lemma_drop_dashes_ix(t.drop_first(), i - 1);
        assert(t.drop_first().skip(i - 1) =~= t.skip(i));
    }
}

/// Remove leading `-` separators, mirroring `spec_drop_dashes`.
pub fn strip_leading_dashes<'a>(s: &'a str) -> (r: &'a str)
    ensures
        r@ == spec_drop_dashes(s@),
{
    let n = s.unicode_len();
    let mut i: usize = 0;
    while i < n && s.get_char(i) == '-'
        invariant
            0 <= i <= n,
            n == s@.len(),
            forall|k: int| 0 <= k < i ==> #[trigger] s@[k] == '-',
        decreases n - i,
    {
        i = i + 1;
    }
    proof {
        lemma_drop_dashes_ix(s@, i as int);
        assert(s@.skip(i as int) =~= s@.subrange(i as int, n as int));
    }
    s.substring_char(i, n)
}

/// The lines of `t`: split on `\n`, with a `\r` that immediately
/// precedes a `\n` stripped; a final fragment without a newline is a
/// line of its own, and empty input has no lines.
pub open spec fn spec_lines(t: Seq<char>) -> Seq<Seq<char>>
    decreases t.len(),
    via spec_lines_decreases
{
    if t.len() == 0 {
        Seq::empty()
    } else {
        let j = spec_first_ix(t, '\n');
        if j == t.len() {
            seq![t]
        } else {
            let line = if j > 0 && t[j - 1] == '\r' {
                t.take(j - 1)
            } else {
                t.take(j)
            };
            seq![line] + spec_lines(t.skip(j + 1))
        }
    }
}

#[via_fn]
proof fn spec_lines_decreases(t: Seq<char>) {
    lemma_first_ix_bounds(t, '\n');
}

/// The view of each line of a split text.
pub open spec fn lines_view(lines: Seq<String>) -> Seq<Seq<char>> {
    lines.map_values(|l: String| l@)
}

/// Split a text into lines, mirroring `spec_lines`.
pub fn split_lines(s: &str) -> (lines: Vec<String>)
    ensures
        lines_view(lines@) == spec_lines(s@),
{
    let n = s.unicode_len();
    let mut lines: Vec<String> = Vec::new();
    let mut pos: usize = 0;
    proof {
        assert(s@.skip(0) =~= s@);
        assert(lines_view(lines@) + spec_lines(s@) =~= spec_lines(s@));
    }
    while pos < n
        invariant
            0 <= pos <= n,
            n == s@.len(),
            spec_lines(s@) == lines_view(lines@) + spec_lines(s@.skip(pos as int)),
        decreases n - pos,
    {
        let mut j: usize = pos;
        while j < n && s.get_char(j) != '\n'
            invariant
                pos <= j <= n,
                n == s@.len(),
                forall|k: int| pos <= k < j ==> #[trigger] s@[k] != '\n',
            decreases n - j,
        {
            j = j + 1;
        }
        let ghost t = s@.skip(pos as int);
        proof {
            assert forall|k: int| 0 <= k < j - pos implies t[k] != '\n' by {
                assert(t[k] == s@[k + pos]);
            }
            lemma_first_ix(t, '\n', j - pos);
        }
        let end: usize = if j < n && j > pos && s.get_char(j - 1) == '\r' {
            j - 1
        } else {
            j
        };
        let ghost prev = lines_view(lines@);
        let line = s.substring_char(pos, end);
        lines.push(String::from_str(line));
        proof {
            assert(lines_view(lines@) =~= prev.push(line@));
            assert(line@ =~= t.take(end - pos));
            if j < n {
                assert(t.skip(j - pos + 1) =~= s@.skip(j + 1));
                assert(spec_lines(t) == seq![t.take(end - pos)] + spec_lines(s@.skip(j + 1)));
                assert(prev.push(line@) + spec_lines(s@.skip(j + 1)) =~= prev + spec_lines(t));
            } else {
                assert(t.take(end - pos) =~= t);
                assert(spec_lines(t) == seq![t]);
                assert(s@.skip(n as int) =~= Seq::<char>::empty());
                assert(prev.push(line@) + spec_lines(s@.skip(n as int)) =~= prev + spec_lines(t));
            }
        }
        pos = if j < n {
            j + 1
        } else {
            n
        };
    }
    proof {
        assert(s@.skip(n as int) =~= Seq::<char>::empty());
        assert(lines_view(lines@) + spec_lines(s@.skip(n as int)) =~= lines_view(lines@));
    }
    lines
}

/// The decimal digit character for a value below ten.
pub open spec fn spec_digit_char(d: nat) -> char {
    if d == 0 {
        '0'
    } else if d == 1 {
        '1'
    } else if d == 2 {
        '2'
    } else if d == 3 {
        '3'
    } else if d == 4 {
        '4'
    } else if d == 5 {
        '5'
    } else if d == 6 {
        '6'
    } else if d == 7 {
        '7'
    } else if d == 8 {
        '8'
    } else {
        '9'
    }
}

/// The canonical decimal rendering of `n`: no sign, no leading zero
/// except for zero itself.
pub open spec fn spec_dec_digits(n: nat) -> Seq<char>
    decreases n,
{
    if n < 10 {
        seq![spec_digit_char(n)]
    } else {
        spec_dec_digits(n / 10).push(spec_digit_char(n % 10))
    }
}

/// The one-character string for a decimal digit value.
fn digit_str(d: u16) -> (r: &'static str)
    requires
        d < 10,
    ensures
        r@ == seq![spec_digit_char(d as nat)],
{
    let r: &'static str = if d == 0 {
        "0"
    } else if d == 1 {
        "1"
    } else if d == 2 {
        "2"
    } else if d == 3 {
        "3"
    } else if d == 4 {
        "4"
    } else if d == 5 {
        "5"
    } else if d == 6 {
        "6"
    } else if d == 7 {
        "7"
    } else if d == 8 {
        "8"
    } else {
        "9"
    };
    proof {
        reveal_strlit("0");
        reveal_strlit("1");
        reveal_strlit("2");
        reveal_strlit("3");
        reveal_strlit("4");
        reveal_strlit("5");
        reveal_strlit("6");
        reveal_strlit("7");
        reveal_strlit("8");
        reveal_strlit("9");
        assert(r@ =~= seq![spec_digit_char(d as nat)]);
    }
    r
}

/// Render `n` in decimal, mirroring `spec_dec_digits`.
pub fn u16_dec_str(n: u16) -> (s: String)
    ensures
        s@ == spec_dec_digits(n as nat),
    decreases n,
{
    if n < 10 {
        String::from_str(digit_str(n))
    } else {
        let mut s = u16_dec_str(n / 10);
        s.append(digit_str(n % 10));
        proof {
            assert(spec_dec_digits((n / 10) as nat).push(spec_digit_char((n % 10) as nat))
                =~= spec_dec_digits((n / 10) as nat) + seq![spec_digit_char((n % 10) as nat)]);
        }
        s
    }
}

} // verus!
