//! Character-level text utilities shared by the parsers and renderers.
//!
//! Every function here works on the `Seq<char>` view of a string and is
//! specified by a spec function that states the result directly.
use vstd::prelude::*;

verus! {

// ── Specifications ────────────────────────────────────────────────────────────

/// Unicode `White_Space` property, as `char::is_whitespace` defines it.
pub open spec fn is_ws(c: char) -> bool {
    ||| ('\u{9}' <= c && c <= '\u{d}')
    ||| c == ' '
    ||| c == '\u{85}'
    ||| c == '\u{a0}'
    ||| c == '\u{1680}'
    ||| ('\u{2000}' <= c && c <= '\u{200a}')
    ||| c == '\u{2028}'
    ||| c == '\u{2029}'
    ||| c == '\u{202f}'
    ||| c == '\u{205f}'
    ||| c == '\u{3000}'
}

/// `s` with leading whitespace removed.
pub open spec fn trim_start(s: Seq<char>) -> Seq<char>
    decreases s.len(),
{
    if s.len() > 0 && is_ws(s[0]) {
        trim_start(s.drop_first())
    } else {
        s
    }
}

/// `s` with trailing whitespace removed.
pub open spec fn trim_end(s: Seq<char>) -> Seq<char>
    decreases s.len(),
{
    if s.len() > 0 && is_ws(s.last()) {
        trim_end(s.drop_last())
    } else {
        s
    }
}

/// `s` with whitespace removed at both ends (`str::trim`).
pub open spec fn trim(s: Seq<char>) -> Seq<char> {
    trim_end(trim_start(s))
}

/// `s` begins with `p`.
pub open spec fn starts_with(s: Seq<char>, p: Seq<char>) -> bool {
    p.len() <= s.len() && s.take(p.len() as int) == p
}

/// `p` occurs in `s` starting at position `i`.
pub open spec fn occurs_at(s: Seq<char>, p: Seq<char>, i: int) -> bool {
    0 <= i && i + p.len() <= s.len() && s.subrange(i, i + p.len()) == p
}

/// `p` occurs somewhere in `s` (`str::contains`).
pub open spec fn contains_sub(s: Seq<char>, p: Seq<char>) -> bool {
    exists|i: int| occurs_at(s, p, i)
}

/// The position of the first occurrence of `p` in `s` at or after `from`.
pub open spec fn find_from(s: Seq<char>, p: Seq<char>, from: int) -> Option<int>
    decreases s.len() + 1 - from,
{
    if from < 0 || from + p.len() > s.len() {
        None
    } else if occurs_at(s, p, from) {
        Some(from)
    } else {
        find_from(s, p, from + 1)
    }
}

/// The position of the first occurrence of `p` in `s` (`str::find`, counted in chars).
pub open spec fn find_sub(s: Seq<char>, p: Seq<char>) -> Option<int> {
    find_from(s, p, 0)
}

/// The first index of `c` in `s`.
pub open spec fn find_char(s: Seq<char>, c: char) -> Option<int>
    decreases s.len(),
{
    if s.len() == 0 {
        None
    } else if s[0] == c {
        Some(0)
    } else {
        match find_char(s.drop_first(), c) {
            Some(i) => Some(i + 1),
            None => None,
        }
    }
}

/// A line as `str::lines` yields it: the text before a `\n`, without a final `\r`.
pub open spec fn strip_cr(piece: Seq<char>) -> Seq<char> {
    if piece.len() > 0 && piece.last() == '\r' {
        piece.drop_last()
    } else {
        piece
    }
}

/// The lines of `s` as `str::lines` yields them: split at `\n`, a `\r` before
/// the `\n` removed, and no empty line after a final `\n`.
pub open spec fn lines(s: Seq<char>) -> Seq<Seq<char>>
    decreases s.len(),
{
    if s.len() == 0 {
        seq![]
    } else {
        match find_char(s, '\n') {
            Some(i) => {
                proof {
                    lemma_find_char_bound(s, '\n');
                }
                seq![strip_cr(s.take(i))] + lines(s.skip(i + 1))
            },
            None => seq![s],
        }
    }
}

/// The views of a sequence of strings.
pub open spec fn views(v: Seq<String>) -> Seq<Seq<char>> {
    v.map_values(|s: String| s@)
}

/// `s` with every `c` removed.
pub open spec fn remove_char(s: Seq<char>, c: char) -> Seq<char>
    decreases s.len(),
{
    if s.len() == 0 {
        s
    } else if s.last() == c {
        remove_char(s.drop_last(), c)
    } else {
        remove_char(s.drop_last(), c).push(s.last())
    }
}

// ── Lemmas ────────────────────────────────────────────────────────────────────

pub proof fn lemma_find_char_bound(s: Seq<char>, c: char)
    ensures
        find_char(s, c) matches Some(i) ==> 0 <= i < s.len() && s[i] == c && forall|k: int|
            0 <= k < i ==> s[k] != c,
    decreases s.len(),
{
    if s.len() > 0 && s[0] != c {
        lemma_find_char_bound(s.drop_first(), c);
        if let Some(i) = find_char(s, c) {
            assert forall|k: int| 0 <= k < i implies s[k] != c by {
                if k > 0 {
                    assert(s[k] == s.drop_first()[k - 1]);
                }
            }
        }
    }
}

pub proof fn lemma_find_char_none(s: Seq<char>, c: char)
    requires
        forall|k: int| 0 <= k < s.len() ==> s[k] != c,
    ensures
        find_char(s, c) is None,
    decreases s.len(),
{
    if s.len() > 0 {
        lemma_find_char_none(s.drop_first(), c);
    }
}

pub proof fn lemma_find_char_at(s: Seq<char>, c: char, i: int)
    requires
        0 <= i < s.len(),
        s[i] == c,
        forall|k: int| 0 <= k < i ==> s[k] != c,
    ensures
        find_char(s, c) == Some(i),
    decreases s.len(),
{
    if i > 0 {
        lemma_find_char_at(s.drop_first(), c, i - 1);
    }
}

proof fn lemma_find_from_skip(s: Seq<char>, p: Seq<char>, from: int, j: int)
    requires
        0 <= from <= j,
        forall|k: int| from <= k < j ==> !occurs_at(s, p, k),
    ensures
        find_from(s, p, from) == find_from(s, p, j),
    decreases j - from,
{
    if from < j {
        if from + p.len() > s.len() {
            lemma_find_from_none_beyond(s, p, j);
        } else {
            lemma_find_from_skip(s, p, from + 1, j);
        }
    }
}

proof fn lemma_find_from_none_beyond(s: Seq<char>, p: Seq<char>, j: int)
    requires
        j + p.len() > s.len(),
    ensures
        find_from(s, p, j) is None,
{
}

/// What `find_sub` returning `Some(i)` means.
pub proof fn lemma_find_sub_some(s: Seq<char>, p: Seq<char>)
    ensures
        find_sub(s, p) matches Some(i) ==> occurs_at(s, p, i) && forall|k: int|
            0 <= k < i ==> !occurs_at(s, p, k),
        find_sub(s, p) is None ==> !contains_sub(s, p),
{
    lemma_find_from_facts(s, p, 0);
}

pub proof fn lemma_find_from_facts(s: Seq<char>, p: Seq<char>, from: int)
    requires
        0 <= from,
    ensures
        find_from(s, p, from) matches Some(i) ==> from <= i && occurs_at(s, p, i) && forall|k: int|
            from <= k < i ==> !occurs_at(s, p, k),
        find_from(s, p, from) is None ==> forall|k: int| from <= k ==> !occurs_at(s, p, k),
    decreases s.len() + 1 - from,
{
    if from + p.len() > s.len() {
    } else if occurs_at(s, p, from) {
    } else {
        lemma_find_from_facts(s, p, from + 1);
    }
}

proof fn lemma_trim_start_prefix(s: Seq<char>, i: int)
    requires
        0 <= i <= s.len(),
        forall|k: int| 0 <= k < i ==> is_ws(s[k]),
    ensures
        trim_start(s) == trim_start(s.skip(i)),
    decreases i,
{
    if i > 0 {
        assert(is_ws(s[0]));
        assert forall|k: int| 0 <= k < i - 1 implies is_ws(s.drop_first()[k]) by {
            assert(s.drop_first()[k] == s[k + 1]);
        }
        assert(s.drop_first().skip(i - 1) == s.skip(i));
        lemma_trim_start_prefix(s.drop_first(), i - 1);
    } else {
        assert(s.skip(0) == s);
    }
}

proof fn lemma_trim_end_suffix(s: Seq<char>, j: int)
    requires
        0 <= j <= s.len(),
        forall|k: int| j <= k < s.len() ==> is_ws(s[k]),
    ensures
        trim_end(s) == trim_end(s.take(j)),
    decreases s.len() - j,
{
    if j < s.len() {
        assert(is_ws(s[s.len() - 1]));
        assert forall|k: int| j <= k < s.len() - 1 implies is_ws(s.drop_last()[k]) by {
            assert(s.drop_last()[k] == s[k]);
        }
        assert(s.drop_last().take(j) == s.take(j));
        lemma_trim_end_suffix(s.drop_last(), j);
    } else {
        assert(s.take(j) == s);
    }
}

/// Trimming the start of a text that does not begin with whitespace changes nothing.
pub proof fn lemma_trim_start_none(s: Seq<char>)
    requires
        forall|k: int| 0 <= k < s.len() ==> !is_ws(#[trigger] s[k]),
    ensures
        trim_start(s) == s,
{
    if s.len() > 0 {
        assert(!is_ws(s[0]));
    }
}

/// Trimming the end of a text that does not end with whitespace changes nothing.
pub proof fn lemma_trim_end_none(s: Seq<char>)
    requires
        forall|k: int| 0 <= k < s.len() ==> !is_ws(#[trigger] s[k]),
    ensures
        trim_end(s) == s,
{
    if s.len() > 0 {
        assert(!is_ws(s[s.len() - 1]));
    }
}

// ── Executable helpers ────────────────────────────────────────────────────────

/// Appends one character (`String::push`).
#[verifier::external_body]
pub(crate) fn push_char(s: &mut String, c: char)
    ensures
        final(s)@ == old(s)@.push(c),
{
    s.push(c);
}

/// Appends a string slice.
pub fn push_str(s: &mut String, t: &str)
    ensures
        final(s)@ == old(s)@ + t@,
{
    s.append(t);
}

/// The characters of `s`.
pub fn chars_of(s: &str) -> (v: Vec<char>)
    ensures
        v@ == s@,
{
    let mut v: Vec<char> = Vec::new();
    for c in it: s.chars()
        invariant
            it.seq() == s@,
            v@ == s@.take(it.index() as int),
    {
        assert(s@.take(it.index() as int + 1) == s@.take(it.index() as int).push(c));
        v.push(c);
    }
    assert(s@.take(s@.len() as int) == s@);
    v
}

/// The string made of `v[lo..hi]`.
pub fn string_of(v: &Vec<char>, lo: usize, hi: usize) -> (s: String)
    requires
        lo <= hi <= v.len(),
    ensures
        s@ == v@.subrange(lo as int, hi as int),
{
    let mut s = String::new();
    let mut i = lo;
    while i < hi
        invariant
            lo <= i <= hi <= v.len(),
            s@ == v@.subrange(lo as int, i as int),
        decreases hi - i,
    {
        assert(v@.subrange(lo as int, i + 1) == v@.subrange(lo as int, i as int).push(v@[i as int]));
        push_char(&mut s, v[i]);
        i += 1;
    }
    s
}

/// Whether `c` is whitespace (`char::is_whitespace`).
pub fn is_whitespace(c: char) -> (b: bool)
    ensures
        b == is_ws(c),
{
    ('\u{9}' <= c && c <= '\u{d}') || c == ' ' || c == '\u{85}' || c == '\u{a0}' || c
        == '\u{1680}' || ('\u{2000}' <= c && c <= '\u{200a}') || c == '\u{2028}' || c == '\u{2029}'
        || c == '\u{202f}' || c == '\u{205f}' || c == '\u{3000}'
}

/// The bounds `(lo, hi)` of `v` with surrounding whitespace removed.
pub fn trim_bounds(v: &Vec<char>, lo0: usize, hi0: usize) -> (r: (usize, usize))
    requires
        lo0 <= hi0 <= v.len(),
    ensures
        lo0 <= r.0 <= r.1 <= hi0,
        v@.subrange(r.0 as int, r.1 as int) == trim(v@.subrange(lo0 as int, hi0 as int)),
{
    let ghost s = v@.subrange(lo0 as int, hi0 as int);
    let mut lo = lo0;
    while lo < hi0 && is_whitespace(v[lo])
        invariant
            lo0 <= lo <= hi0 <= v.len(),
            forall|k: int| lo0 <= k < lo ==> is_ws(v@[k]),
        decreases hi0 - lo,
    {
        lo += 1;
    }
    proof {
        lemma_trim_start_prefix(s, lo - lo0);
        assert(s.skip(lo - lo0) == v@.subrange(lo as int, hi0 as int));
        if lo < hi0 {
            assert(!is_ws(v@.subrange(lo as int, hi0 as int)[0]));
        }
    }
    let mut hi = hi0;
    while hi > lo && is_whitespace(v[hi - 1])
        invariant
            lo0 <= lo <= hi <= hi0 <= v.len(),
            forall|k: int| hi <= k < hi0 ==> is_ws(v@[k]),
        decreases hi - lo,
    {
        hi -= 1;
    }
    proof {
        let t = v@.subrange(lo as int, hi0 as int);
        lemma_trim_end_suffix(t, hi - lo);
        assert(t.take(hi - lo) == v@.subrange(lo as int, hi as int));
        if hi > lo {
            assert(!is_ws(v@.subrange(lo as int, hi as int).last()));
        }
    }
    (lo, hi)
}

/// `s` with surrounding whitespace removed (`str::trim`).
pub fn trim_str(s: &str) -> (r: String)
    ensures
        r@ == trim(s@),
{
    let v = chars_of(s);
    let (lo, hi) = trim_bounds(&v, 0, v.len());
    assert(v@.subrange(0, v@.len() as int) == v@);
    string_of(&v, lo, hi)
}

/// Whether `p` occurs in `v` at position `i`.
pub fn occurs_at_exec(v: &Vec<char>, p: &Vec<char>, i: usize) -> (b: bool)
    ensures
        b == occurs_at(v@, p@, i as int),
{
    if i > v.len() || p.len() > v.len() - i {
        return false;
    }
    let mut k: usize = 0;
    while k < p.len()
        invariant
            i + p.len() <= v.len(),
            k <= p.len(),
            forall|j: int| 0 <= j < k ==> v@[i + j] == p@[j],
        decreases p.len() - k,
    {
        if v[i + k] != p[k] {
            assert(v@.subrange(i as int, i + p.len())[k as int] != p@[k as int]);
            return false;
        }
        k += 1;
    }
    assert(v@.subrange(i as int, i + p.len()) =~= p@);
    true
}

/// The first position at or after `from` where `p` occurs in `v`.
pub fn find_from_exec(v: &Vec<char>, p: &Vec<char>, from: usize) -> (r: Option<usize>)
    ensures
        r matches Some(i) ==> find_from(v@, p@, from as int) == Some(i as int),
        r is None ==> find_from(v@, p@, from as int) is None,
{
    if from > v.len() {
        return None;
    }
    let mut i = from;
    while i < v.len()
        invariant
            from <= i <= v.len(),
            forall|k: int| from <= k < i ==> !occurs_at(v@, p@, k),
        decreases v.len() - i,
    {
        if occurs_at_exec(v, p, i) {
            proof {
                lemma_find_from_skip(v@, p@, from as int, i as int);
            }
            return Some(i);
        }
        i += 1;
    }
    proof {
        lemma_find_from_skip(v@, p@, from as int, i as int);
    }
    if occurs_at_exec(v, p, i) {
        return Some(i);
    }
    proof {
        lemma_find_from_none_beyond(v@, p@, i + 1);
    }
    None
}

/// Whether two texts are equal.
pub fn str_eq(a: &str, b: &str) -> (r: bool)
    ensures
        r == (a@ == b@),
{
    let va = chars_of(a);
    let vb = chars_of(b);
    if va.len() != vb.len() {
        return false;
    }
    let r = occurs_at_exec(&va, &vb, 0);
    assert(va@.subrange(0, vb@.len() as int) == va@);
    r
}

/// Whether `p` occurs in `s` (`str::contains`).
pub fn contains_str(s: &str, p: &str) -> (b: bool)
    ensures
        b == contains_sub(s@, p@),
{
    let v = chars_of(s);
    let pv = chars_of(p);
    let r = find_from_exec(&v, &pv, 0);
    proof {
        lemma_find_sub_some(s@, p@);
    }
    r.is_some()
}

/// Whether `s` begins with `p` (`str::starts_with`).
pub fn starts_with_str(s: &str, p: &str) -> (b: bool)
    ensures
        b == starts_with(s@, p@),
{
    let v = chars_of(s);
    let pv = chars_of(p);
    let b = occurs_at_exec(&v, &pv, 0);
    proof {
        if b {
            assert(v@.subrange(0, p@.len() as int) == v@.take(p@.len() as int));
        } else if p@.len() <= s@.len() {
            assert(v@.subrange(0, p@.len() as int) == v@.take(p@.len() as int));
        }
    }
    b
}

/// The lines of `s` (`str::lines`).
pub fn lines_of(s: &str) -> (r: Vec<String>)
    ensures
        views(r@) == lines(s@),
{
    let v = chars_of(s);
    let mut out: Vec<String> = Vec::new();
    let mut start: usize = 0;
    let mut i: usize = 0;
    proof {
        assert(v@.skip(0) == v@);
        assert(views(out@) =~= Seq::<Seq<char>>::empty());
        assert(views(out@) + lines(v@.skip(0)) =~= lines(v@));
    }
    while i < v.len()
        invariant
            start <= i <= v.len(),
            v@ == s@,
            views(out@) + lines(v@.skip(start as int)) == lines(s@),
            forall|k: int| start <= k < i ==> v@[k] != '\n',
        decreases v.len() - i,
    {
        if v[i] == '\n' {
            let hi = if i > start && v[i - 1] == '\r' {
                i - 1
            } else {
                i
            };
            let line = string_of(&v, start, hi);
            proof {
                let rest = v@.skip(start as int);
                lemma_find_char_at(rest, '\n', i - start);
                assert(rest.take(i - start) == v@.subrange(start as int, i as int));
                assert(rest.skip(i - start + 1) == v@.skip(i + 1));
                assert(strip_cr(rest.take(i - start)) == line@);
                assert(views(out@.push(line)) == views(out@).push(line@));
                assert(lines(rest) == seq![line@] + lines(v@.skip(i + 1)));
            }
            out.push(line);
            start = i + 1;
        }
        i += 1;
    }
    if start < v.len() {
        let line = string_of(&v, start, v.len());
        proof {
            let rest = v@.skip(start as int);
            assert forall|k: int| 0 <= k < rest.len() implies rest[k] != '\n' by {
                assert(rest[k] == v@[start + k]);
            }
            lemma_find_char_none(rest, '\n');
            assert(rest == line@);
            assert(views(out@.push(line)) == views(out@).push(line@));
        }
        out.push(line);
    } else {
        proof {
            assert(v@.skip(start as int).len() == 0);
            assert(views(out@) + lines(v@.skip(start as int)) == views(out@));
        }
    }
    out
}

// ── Decimal numbers ───────────────────────────────────────────────────────────

/// The ASCII digit for `d` (`0 <= d < 10`).
pub open spec fn digit(d: int) -> char {
    if d == 0 {
        '0'
    } else if d == 1 {
        '1'
    } else if d == 2 {
        '2'
    } else if d == 3 {
        '3'
    } else if d == 4 {
        '4'
    } else if d == 5 {
        '5'
    } else if d == 6 {
        '6'
    } else if d == 7 {
        '7'
    } else if d == 8 {
        '8'
    } else {
        '9'
    }
}

/// The decimal representation of `n` (as `Display` writes an unsigned integer).
pub open spec fn decimal(n: nat) -> Seq<char>
    decreases n,
{
    if n < 10 {
        seq![digit(n as int)]
    } else {
        decimal(n / 10).push(digit((n % 10) as int))
    }
}

/// All characters of `s` are ASCII digits.
pub open spec fn all_digits(s: Seq<char>) -> bool {
    forall|k: int| 0 <= k < s.len() ==> '0' <= #[trigger] s[k] && s[k] <= '9'
}

/// The value of the digit string `s` (most significant first).
pub open spec fn digits_value(s: Seq<char>) -> nat
    decreases s.len(),
{
    if s.len() == 0 {
        0
    } else {
        digits_value(s.drop_last()) * 10 + (s.last() as nat - '0' as nat) as nat
    }
}

/// The value `str::parse` gives an unsigned integer type for `s`, before the
/// type's range is checked: an optional `+` and at least one ASCII digit.
pub open spec fn unsigned_text(s: Seq<char>) -> Option<nat> {
    let body = if s.len() > 0 && s[0] == '+' {
        s.drop_first()
    } else {
        s
    };
    if body.len() > 0 && all_digits(body) {
        Some(digits_value(body))
    } else {
        None
    }
}

/// The value `str::parse` gives a signed integer type for `s`, before the
/// type's range is checked: an optional `+` or `-` and at least one ASCII digit.
pub open spec fn signed_text(s: Seq<char>) -> Option<int> {
    if s.len() > 0 && s[0] == '-' {
        let body = s.drop_first();
        if body.len() > 0 && all_digits(body) {
            Some(-(digits_value(body) as int))
        } else {
            None
        }
    } else {
        match unsigned_text(s) {
            Some(v) => Some(v as int),
            None => None,
        }
    }
}

/// The ASCII digit for `d`.
pub fn digit_exec(d: u64) -> (c: char)
    requires
        d < 10,
    ensures
        c == digit(d as int),
{
    if d == 0 {
        '0'
    } else if d == 1 {
        '1'
    } else if d == 2 {
        '2'
    } else if d == 3 {
        '3'
    } else if d == 4 {
        '4'
    } else if d == 5 {
        '5'
    } else if d == 6 {
        '6'
    } else if d == 7 {
        '7'
    } else if d == 8 {
        '8'
    } else {
        '9'
    }
}

/// Appends the decimal representation of `n` to `s`.
pub fn push_decimal(s: &mut String, n: u64)
    ensures
        final(s)@ == old(s)@ + decimal(n as nat),
    decreases n,
{
    if n < 10 {
        push_char(s, digit_exec(n));
    } else {
        push_decimal(s, n / 10);
        push_char(s, digit_exec(n % 10));
    }
}

/// The decimal representation of `n`.
pub fn decimal_string(n: u64) -> (s: String)
    ensures
        s@ == decimal(n as nat),
{
    let mut s = String::new();
    push_decimal(&mut s, n);
    s
}

/// Parses a `u16` (`<u16 as FromStr>::from_str`).
#[verifier::external_body]
pub(crate) fn parse_u16(s: &str) -> (r: Option<u16>)
    ensures
        r == (match unsigned_text(s@) {
            Some(v) if v <= u16::MAX => Some(v as u16),
            _ => None::<u16>,
        }),
{
    s.parse::<u16>().ok()
}

/// Parses a `u32` (`<u32 as FromStr>::from_str`).
#[verifier::external_body]
pub(crate) fn parse_u32(s: &str) -> (r: Option<u32>)
    ensures
        r == (match unsigned_text(s@) {
            Some(v) if v <= u32::MAX => Some(v as u32),
            _ => None::<u32>,
        }),
{
    s.parse::<u32>().ok()
}

/// Parses a `usize` (`<usize as FromStr>::from_str`).
#[verifier::external_body]
pub(crate) fn parse_usize(s: &str) -> (r: Option<usize>)
    ensures
        r == (match unsigned_text(s@) {
            Some(v) if v <= usize::MAX => Some(v as usize),
            _ => None::<usize>,
        }),
{
    s.parse::<usize>().ok()
}

/// Parses an `i64` (`<i64 as FromStr>::from_str`).
#[verifier::external_body]
pub(crate) fn parse_i64(s: &str) -> (r: Option<i64>)
    ensures
        r == (match signed_text(s@) {
            Some(v) if i64::MIN <= v <= i64::MAX => Some(v as i64),
            _ => None::<i64>,
        }),
{
    s.parse::<i64>().ok()
}

/// The lowercase form of a text, as `str::to_lowercase` computes it by the
/// Unicode case tables.
pub uninterp spec fn lowercase(s: Seq<char>) -> Seq<char>;

/// Lowercases `s` (`str::to_lowercase`).
#[verifier::external_body]
pub(crate) fn to_lowercase(s: &str) -> (r: String)
    ensures
        r@ == lowercase(s@),
{
    s.to_lowercase()
}

// ── UTF-8 lengths ──────────────────────────────────────────────────────────────

/// The number of bytes `c` takes in UTF-8.
pub open spec fn utf8_width(c: char) -> int {
    if (c as u32) < 0x80 {
        1
    } else if (c as u32) < 0x800 {
        2
    } else if (c as u32) < 0x10000 {
        3
    } else {
        4
    }
}

/// The characters that make up exactly the first `n` bytes of the UTF-8
/// encoding of `s`, when `n` falls on a character boundary.
pub open spec fn byte_prefix(s: Seq<char>, n: int) -> Option<Seq<char>>
    decreases s.len(),
{
    if n == 0 {
        Some(seq![])
    } else if n < 0 || s.len() == 0 {
        None
    } else {
        match byte_prefix(s.drop_first(), n - utf8_width(s[0])) {
            Some(p) => Some(seq![s[0]] + p),
            None => None,
        }
    }
}

pub fn utf8_width_exec(c: char) -> (w: usize)
    ensures
        w == utf8_width(c),
{
    let u = c as u32;
    if u < 0x80 {
        1
    } else if u < 0x800 {
        2
    } else if u < 0x10000 {
        3
    } else {
        4
    }
}

proof fn lemma_byte_prefix_step(s: Seq<char>, i: int, n: int)
    requires
        0 <= i < s.len(),
        n > 0,
    ensures
        byte_prefix(s.skip(i), n) == match byte_prefix(s.skip(i + 1), n - utf8_width(s[i])) {
            Some(p) => Some(seq![s[i]] + p),
            None => None::<Seq<char>>,
        },
{
    assert(s.skip(i).drop_first() == s.skip(i + 1));
    assert(s.skip(i)[0] == s[i]);
}

/// The number of leading characters of `v` whose UTF-8 encoding is exactly
/// `n` bytes long, if there is such a number.
pub fn byte_prefix_len(v: &Vec<char>, n: usize) -> (r: Option<usize>)
    ensures
        r matches Some(k) ==> k <= v@.len() && byte_prefix(v@, n as int) == Some(v@.take(k as int)),
        r is None ==> byte_prefix(v@, n as int) is None,
{
    let mut i: usize = 0;
    let mut acc: usize = 0;
    assert(v@.skip(0) == v@);
    assert(forall|p: Seq<char>| v@.take(0) + p == p);
    while i < v.len() && acc < n
        invariant
            i <= v.len(),
            acc <= n,
            byte_prefix(v@, n as int) == match byte_prefix(v@.skip(i as int), n - acc) {
                Some(p) => Some(v@.take(i as int) + p),
                None => None::<Seq<char>>,
            },
        decreases v.len() - i,
    {
        let w = utf8_width_exec(v[i]);
        proof {
            lemma_byte_prefix_step(v@, i as int, n - acc);
            assert(v@.take(i as int) + seq![v@[i as int]] == v@.take(i + 1));
            match byte_prefix(v@.skip(i + 1), n - acc - w) {
                Some(p) => {
                    assert(v@.take(i as int) + (seq![v@[i as int]] + p) == v@.take(i + 1) + p);
                },
                None => {},
            }
        }
        if w > n - acc {
            return None;
        }
        acc = acc + w;
        i += 1;
    }
    if acc == n {
        proof {
            assert(byte_prefix(v@.skip(i as int), 0) == Some(Seq::<char>::empty()));
            assert(v@.take(i as int) + Seq::<char>::empty() == v@.take(i as int));
        }
        Some(i)
    } else {
        assert(v@.skip(i as int).len() == 0);
        None
    }
}


// ── Trimming a given character ────────────────────────────────────────────────

/// `s` without its leading `c` characters.
pub open spec fn strip_leading(s: Seq<char>, c: char) -> Seq<char>
    decreases s.len(),
{
    if s.len() > 0 && s[0] == c {
        strip_leading(s.drop_first(), c)
    } else {
        s
    }
}

/// `s` without its trailing `c` characters.
pub open spec fn strip_trailing(s: Seq<char>, c: char) -> Seq<char>
    decreases s.len(),
{
    if s.len() > 0 && s.last() == c {
        strip_trailing(s.drop_last(), c)
    } else {
        s
    }
}

/// `s` with every leading and trailing `c` removed (`str::trim_matches`).
pub open spec fn trim_matches(s: Seq<char>, c: char) -> Seq<char> {
    strip_trailing(strip_leading(s, c), c)
}

/// `trim_matches` on `v[lo0..hi0]`, as bounds.
pub fn trim_char_bounds(v: &Vec<char>, lo0: usize, hi0: usize, c: char) -> (r: (usize, usize))
    requires
        lo0 <= hi0 <= v.len(),
    ensures
        lo0 <= r.0 <= r.1 <= hi0,
        v@.subrange(r.0 as int, r.1 as int) == trim_matches(v@.subrange(lo0 as int, hi0 as int), c),
{
    let ghost s = v@.subrange(lo0 as int, hi0 as int);
    let mut lo = lo0;
    while lo < hi0 && v[lo] == c
        invariant
            lo0 <= lo <= hi0 <= v.len(),
            s == v@.subrange(lo0 as int, hi0 as int),
            strip_leading(s, c) == strip_leading(v@.subrange(lo as int, hi0 as int), c),
        decreases hi0 - lo,
    {
        assert(v@.subrange(lo as int, hi0 as int).drop_first() == v@.subrange(lo + 1, hi0 as int));
        lo += 1;
    }
    let ghost u = v@.subrange(lo as int, hi0 as int);
    assert(strip_leading(u, c) == u);
    let mut hi = hi0;
    while hi > lo && v[hi - 1] == c
        invariant
            lo <= hi <= hi0 <= v.len(),
            u == v@.subrange(lo as int, hi0 as int),
            strip_trailing(u, c) == strip_trailing(v@.subrange(lo as int, hi as int), c),
        decreases hi,
    {
        assert(v@.subrange(lo as int, hi as int).drop_last() == v@.subrange(lo as int, hi - 1));
        hi -= 1;
    }
    (lo, hi)
}

/// `str::trim_matches(c)`.
pub fn trim_matches_str(s: &str, c: char) -> (r: String)
    ensures
        r@ == trim_matches(s@, c),
{
    let v = chars_of(s);
    let (lo, hi) = trim_char_bounds(&v, 0, v.len(), c);
    assert(v@.subrange(0, v@.len() as int) == v@);
    string_of(&v, lo, hi)
}

// ── Padding ───────────────────────────────────────────────────────────────────

/// `n` copies of `c` (none when `n <= 0`).
pub open spec fn repeat_char(c: char, n: int) -> Seq<char> {
    Seq::new(if n > 0 { n as nat } else { 0 }, |i: int| c)
}

/// `s` padded with spaces on the right to at least `w` characters (`{:<w}`).
pub open spec fn pad_right(s: Seq<char>, w: int) -> Seq<char> {
    s + repeat_char(' ', w - s.len())
}

/// `s` padded with spaces on the left to at least `w` characters (`{:>w}`).
pub open spec fn pad_left(s: Seq<char>, w: int) -> Seq<char> {
    repeat_char(' ', w - s.len()) + s
}

/// Appends `n` copies of `c`.
pub fn push_repeat(s: &mut String, c: char, n: usize)
    ensures
        final(s)@ == old(s)@ + repeat_char(c, n as int),
{
    let mut i: usize = 0;
    while i < n
        invariant
            i <= n,
            s@ == old(s)@ + repeat_char(c, i as int),
        decreases n - i,
    {
        assert(repeat_char(c, i + 1) == repeat_char(c, i as int).push(c));
        push_char(s, c);
        i += 1;
    }
}

/// Appends `t` padded on the right to `w` characters.
pub fn push_padded_right(s: &mut String, t: &str, w: usize)
    ensures
        final(s)@ == old(s)@ + pad_right(t@, w as int),
{
    let n = chars_of(t).len();
    push_str(s, t);
    if n < w {
        push_repeat(s, ' ', w - n);
    } else {
        push_repeat(s, ' ', 0);
        assert(repeat_char(' ', w - n) == repeat_char(' ', 0));
    }
}

/// Appends `t` padded on the left to `w` characters.
pub fn push_padded_left(s: &mut String, t: &str, w: usize)
    ensures
        final(s)@ == old(s)@ + pad_left(t@, w as int),
{
    let n = chars_of(t).len();
    if n < w {
        push_repeat(s, ' ', w - n);
    } else {
        push_repeat(s, ' ', 0);
        assert(repeat_char(' ', w - n) == repeat_char(' ', 0));
    }
    push_str(s, t);
}

// ── Floating-point syntax ─────────────────────────────────────────────────────

/// `c` with ASCII upper-case letters lowered.
pub open spec fn ascii_lower(c: char) -> char {
    if 'A' <= c && c <= 'Z' {
        ((c as u32) + 32) as char
    } else {
        c
    }
}

/// `s` equals `word` (lower-case ASCII) when ASCII case is ignored.
pub open spec fn eq_ignore_case(s: Seq<char>, word: Seq<char>) -> bool {
    s.len() == word.len() && forall|k: int| 0 <= k < s.len() ==> ascii_lower(#[trigger] s[k]) == word[k]
}

/// `s` without one leading sign character.
pub open spec fn unsigned_part(s: Seq<char>) -> Seq<char> {
    if s.len() > 0 && (s[0] == '+' || s[0] == '-') {
        s.drop_first()
    } else {
        s
    }
}

/// Digits with at most one `.`, and at least one digit.
pub open spec fn mantissa_ok(m: Seq<char>) -> bool {
    match find_char(m, '.') {
        None => m.len() > 0 && all_digits(m),
        Some(i) => all_digits(m.take(i)) && all_digits(m.skip(i + 1)) && m.len() > 1,
    }
}

/// An optional sign and at least one digit.
pub open spec fn exponent_ok(x: Seq<char>) -> bool {
    unsigned_part(x).len() > 0 && all_digits(unsigned_part(x))
}

/// The first `e` or `E` in `s`.
pub open spec fn find_exp(s: Seq<char>) -> Option<int>
    decreases s.len(),
{
    if s.len() == 0 {
        None
    } else if s[0] == 'e' || s[0] == 'E' {
        Some(0)
    } else {
        match find_exp(s.drop_first()) {
            Some(i) => Some(i + 1),
            None => None,
        }
    }
}

/// Whether `str::parse::<f64>` accepts `s`. Its documentation gives the
/// grammar, matched with ASCII case ignored:
/// `Sign? ('inf' | 'infinity' | 'nan' | Number)`, where
/// `Number ::= (Digit+ | Digit+ '.' Digit* | Digit* '.' Digit+) ('e' Sign? Digit+)?`.
pub open spec fn float_text(s: Seq<char>) -> bool {
    let b = unsigned_part(s);
    ||| eq_ignore_case(b, "inf"@)
    ||| eq_ignore_case(b, "infinity"@)
    ||| eq_ignore_case(b, "nan"@)
    ||| match find_exp(b) {
        None => mantissa_ok(b),
        Some(i) => mantissa_ok(b.take(i)) && exponent_ok(b.skip(i + 1)),
    }
}

fn all_digits_in(v: &Vec<char>, lo: usize, hi: usize) -> (r: bool)
    requires
        lo <= hi <= v.len(),
    ensures
        r == all_digits(v@.subrange(lo as int, hi as int)),
{
    let mut k = lo;
    while k < hi
        invariant
            lo <= k <= hi <= v.len(),
            forall|j: int| lo <= j < k ==> '0' <= v@[j] && v@[j] <= '9',
        decreases hi - k,
    {
        if !('0' <= v[k] && v[k] <= '9') {
            assert(v@.subrange(lo as int, hi as int)[k - lo] == v@[k as int]);
            return false;
        }
        k += 1;
    }
    assert forall|j: int| 0 <= j < hi - lo implies '0' <= #[trigger] v@.subrange(lo as int, hi as int)[j]
        && v@.subrange(lo as int, hi as int)[j] <= '9' by {
        assert(v@.subrange(lo as int, hi as int)[j] == v@[lo + j]);
    }
    true
}

fn mantissa_ok_in(v: &Vec<char>, lo: usize, hi: usize) -> (r: bool)
    requires
        lo <= hi <= v.len(),
    ensures
        r == mantissa_ok(v@.subrange(lo as int, hi as int)),
{
    let ghost m = v@.subrange(lo as int, hi as int);
    let mut k = lo;
    while k < hi && v[k] != '.'
        invariant
            lo <= k <= hi <= v.len(),
            forall|j: int| lo <= j < k ==> v@[j] != '.',
        decreases hi - k,
    {
        k += 1;
    }
    if k == hi {
        proof {
            assert forall|j: int| 0 <= j < m.len() implies m[j] != '.' by {
                assert(m[j] == v@[lo + j]);
            }
            lemma_find_char_none(m, '.');
        }
        hi > lo && all_digits_in(v, lo, hi)
    } else {
        proof {
            assert forall|j: int| 0 <= j < k - lo implies m[j] != '.' by {
                assert(m[j] == v@[lo + j]);
            }
            lemma_find_char_at(m, '.', k - lo);
            assert(m.take(k - lo) == v@.subrange(lo as int, k as int));
            assert(m.skip(k - lo + 1) == v@.subrange(k + 1, hi as int));
        }
        all_digits_in(v, lo, k) && all_digits_in(v, k + 1, hi) && hi - lo > 1
    }
}

/// The character with ASCII code `u` (`char::from_u32`).
#[verifier::external_body]
pub(crate) fn char_from_ascii(u: u32) -> (c: char)
    requires
        u < 128,
    ensures
        c == u as char,
{
    char::from_u32(u).unwrap()
}

fn lower_ascii(c: char) -> (d: char)
    ensures
        d == ascii_lower(c),
{
    if 'A' <= c && c <= 'Z' {
        char_from_ascii((c as u32) + 32)
    } else {
        c
    }
}

fn eq_ignore_case_in(v: &Vec<char>, lo: usize, hi: usize, word: &str) -> (r: bool)
    requires
        lo <= hi <= v.len(),
    ensures
        r == eq_ignore_case(v@.subrange(lo as int, hi as int), word@),
{
    let w = chars_of(word);
    if hi - lo != w.len() {
        return false;
    }
    let mut k: usize = 0;
    while k < w.len()
        invariant
            k <= w@.len() == hi - lo,
            lo <= hi <= v.len(),
            w@ == word@,
            forall|j: int| 0 <= j < k ==> ascii_lower(v@[lo + j]) == w@[j],
        decreases w.len() - k,
    {
        if lower_ascii(v[lo + k]) != w[k] {
            assert(v@.subrange(lo as int, hi as int)[k as int] == v@[lo + k]);
            return false;
        }
        k += 1;
    }
    assert forall|j: int| 0 <= j < hi - lo implies ascii_lower(
        #[trigger] v@.subrange(lo as int, hi as int)[j],
    ) == word@[j] by {
        assert(v@.subrange(lo as int, hi as int)[j] == v@[lo + j]);
    }
    true
}

/// Whether `s` is a floating-point number as `str::parse::<f64>` reads one.
pub fn is_float_text(s: &str) -> (r: bool)
    ensures
        r == float_text(s@),
{
    let v = chars_of(s);
    let mut lo: usize = 0;
    if v.len() > 0 && (v[0] == '+' || v[0] == '-') {
        lo = 1;
    }
    let hi = v.len();
    let ghost b = unsigned_part(s@);
    assert(b == v@.subrange(lo as int, hi as int));
    if eq_ignore_case_in(&v, lo, hi, "inf") || eq_ignore_case_in(&v, lo, hi, "infinity")
        || eq_ignore_case_in(&v, lo, hi, "nan") {
        return true;
    }
    let mut k = lo;
    while k < hi && v[k] != 'e' && v[k] != 'E'
        invariant
            lo <= k <= hi == v.len(),
            b == v@.subrange(lo as int, hi as int),
            find_exp(b) == match find_exp(v@.subrange(k as int, hi as int)) {
                Some(i) => Some(i + (k - lo)),
                None => None,
            },
        decreases hi - k,
    {
        assert(v@.subrange(k as int, hi as int).drop_first() == v@.subrange(k + 1, hi as int));
        k += 1;
    }
    if k == hi {
        assert(v@.subrange(k as int, hi as int).len() == 0);
        mantissa_ok_in(&v, lo, hi)
    } else {
        proof {
            assert(v@.subrange(k as int, hi as int)[0] == v@[k as int]);
            assert(b.take(k - lo) == v@.subrange(lo as int, k as int));
            assert(b.skip(k - lo + 1) == v@.subrange(k + 1, hi as int));
        }
        let mut x = k + 1;
        if x < hi && (v[x] == '+' || v[x] == '-') {
            x = x + 1;
        }
        proof {
            assert(unsigned_part(v@.subrange(k + 1, hi as int)) == v@.subrange(x as int, hi as int));
        }
        mantissa_ok_in(&v, lo, k) && hi > x && all_digits_in(&v, x, hi)
    }
}

/// The length in bytes of the UTF-8 encoding of `s`.
pub open spec fn utf8_len(s: Seq<char>) -> int
    decreases s.len(),
{
    if s.len() == 0 {
        0
    } else {
        utf8_width(s[0]) + utf8_len(s.drop_first())
    }
}

/// `utf8_len(v)`, or `cap` when it is at least `cap`.
pub fn utf8_len_capped(v: &Vec<char>, cap: usize) -> (r: usize)
    ensures
        r == if utf8_len(v@) < cap { utf8_len(v@) } else { cap as int },
{
    let mut i: usize = 0;
    let mut acc: usize = 0;
    assert(v@.skip(0) == v@);
    while i < v.len() && acc < cap
        invariant
            i <= v@.len(),
            acc <= cap,
            utf8_len(v@) == acc + utf8_len(v@.skip(i as int)),
        decreases v.len() - i,
    {
        assert(v@.skip(i as int).drop_first() == v@.skip(i + 1));
        assert(v@.skip(i as int)[0] == v@[i as int]);
        let w = utf8_width_exec(v[i]);
        if w >= cap - acc {
            proof {
                lemma_utf8_len_nonneg(v@.skip(i + 1));
            }
            return cap;
        }
        acc = acc + w;
        i += 1;
    }
    proof {
        lemma_utf8_len_nonneg(v@.skip(i as int));
    }
    if acc >= cap {
        cap
    } else {
        assert(v@.skip(i as int).len() == 0);
        acc
    }
}

pub proof fn lemma_utf8_len_nonneg(s: Seq<char>)
    ensures
        utf8_len(s) >= 0,
    decreases s.len(),
{
    if s.len() > 0 {
        lemma_utf8_len_nonneg(s.drop_first());
    }
}

/// What `byte_prefix` finds is a prefix.
pub proof fn lemma_byte_prefix_prefix(s: Seq<char>, n: int)
    ensures
        byte_prefix(s, n) matches Some(p) ==> p.len() <= s.len() && p == s.take(p.len() as int),
    decreases s.len(),
{
    if n != 0 && n >= 0 && s.len() > 0 {
        lemma_byte_prefix_prefix(s.drop_first(), n - utf8_width(s[0]));
        match byte_prefix(s.drop_first(), n - utf8_width(s[0])) {
            Some(q) => {
                assert(seq![s[0]] + q =~= s.take(q.len() as int + 1));
            },
            None => {},
        }
    }
}

/// Whether the UTF-8 encoding of `v` is shorter than `n` bytes.
pub fn utf8_len_below(v: &Vec<char>, n: u64) -> (r: bool)
    ensures
        r == (utf8_len(v@) < n),
{
    let mut i: usize = 0;
    let mut acc: u64 = 0;
    assert(v@.skip(0) == v@);
    while i < v.len()
        invariant
            i <= v@.len(),
            acc < n || n == 0,
            utf8_len(v@) == acc + utf8_len(v@.skip(i as int)),
        decreases v.len() - i,
    {
        assert(v@.skip(i as int).drop_first() == v@.skip(i + 1));
        assert(v@.skip(i as int)[0] == v@[i as int]);
        if n == 0 {
            proof {
                lemma_utf8_len_nonneg(v@);
            }
            return false;
        }
        let w = utf8_width_exec(v[i]) as u64;
        if w >= n - acc {
            proof {
                lemma_utf8_len_nonneg(v@.skip(i + 1));
            }
            return false;
        }
        acc = acc + w;
        i += 1;
    }
    assert(v@.skip(i as int).len() == 0);
    if n == 0 {
        proof {
            lemma_utf8_len_nonneg(v@);
        }
        return false;
    }
    true
}
} // verus!
