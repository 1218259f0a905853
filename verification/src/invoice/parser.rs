//! Parsing Serbian fiscal invoice pages.
//!
//! Fetching is outside work: [`ParseMachine`] asks for the page and for the
//! items API response, and decides everything else (what the page says, what
//! to post, when a failure is worth another attempt).
use vstd::prelude::*;

use crate::error::{error_text, Error};
use crate::invoice::{Invoice, InvoiceItem};
use crate::ports::Line;
use crate::sanitize::{cyrillic_to_latin, transliterate};
use crate::text::{
    chars_of, contains_str, contains_sub, decimal, find_char, find_from_exec, find_sub, lines,
    lines_of, push_char, push_decimal, push_str, string_of, trim, trim_bounds, trim_str, views,
};

verus! {

/// The page that receives the items request.
pub const SPECIFICATIONS_URL: &'static str = "https://suf.purs.gov.rs/specifications";

// ── Dates ─────────────────────────────────────────────────────────────────────

/// `s` split at every `c`.
pub open spec fn split_char(s: Seq<char>, c: char) -> Seq<Seq<char>>
    decreases s.len(),
{
    match find_char(s, c) {
        None => seq![s],
        Some(i) => {
            proof {
                crate::text::lemma_find_char_bound(s, c);
            }
            seq![s.take(i)] + split_char(s.skip(i + 1), c)
        },
    }
}

/// `s` without its trailing `c` characters.
pub open spec fn trim_end_char(s: Seq<char>, c: char) -> Seq<char>
    decreases s.len(),
{
    if s.len() > 0 && s.last() == c {
        trim_end_char(s.drop_last(), c)
    } else {
        s
    }
}

/// The ISO form of a Serbian `DD.MM.YYYY. HH:MM:SS` date, or the message of
/// the parse error.
pub open spec fn iso_date(s: Seq<char>) -> Result<Seq<char>, Seq<char>> {
    let t = trim(s);
    match find_char(t, ' ') {
        None => Err("expected space in date string: '"@ + t + "'"@),
        Some(i) => {
            let d = trim_end_char(t.take(i), '.');
            let segs = split_char(d, '.');
            if segs.len() != 3 {
                Err("expected DD.MM.YYYY in date part: '"@ + d + "'"@)
            } else {
                Ok(segs[2] + "-"@ + segs[1] + "-"@ + segs[0] + "T"@ + t.skip(i + 1))
            }
        },
    }
}

proof fn lemma_split_char_at(s: Seq<char>, c: char, i: int)
    requires
        0 <= i < s.len(),
        s[i] == c,
        forall|k: int| 0 <= k < i ==> s[k] != c,
    ensures
        split_char(s, c) == seq![s.take(i)] + split_char(s.skip(i + 1), c),
{
    crate::text::lemma_find_char_at(s, c, i);
}

proof fn lemma_split_char_none(s: Seq<char>, c: char)
    requires
        forall|k: int| 0 <= k < s.len() ==> s[k] != c,
    ensures
        split_char(s, c) == seq![s],
{
    crate::text::lemma_find_char_none(s, c);
}

/// Index of the first `c` in `v[from..to]`.
fn find_char_in(v: &Vec<char>, from: usize, to: usize, c: char) -> (r: Option<usize>)
    requires
        from <= to <= v.len(),
    ensures
        r matches Some(i) ==> from <= i < to && v@[i as int] == c && forall|k: int|
            from <= k < i ==> v@[k] != c,
        r is None ==> forall|k: int| from <= k < to ==> v@[k] != c,
{
    let mut i = from;
    while i < to
        invariant
            from <= i <= to <= v.len(),
            forall|k: int| from <= k < i ==> v@[k] != c,
        decreases to - i,
    {
        if v[i] == c {
            return Some(i);
        }
        i += 1;
    }
    None
}

/// The two dots of `v[lo..hi]` when it splits at `.` into exactly three parts.
fn split3_dots(v: &Vec<char>, lo: usize, hi: usize) -> (r: Option<(usize, usize)>)
    requires
        lo <= hi <= v.len(),
    ensures
        match r {
            Some((p1, p2)) => lo <= p1 < p2 < hi && split_char(
                v@.subrange(lo as int, hi as int),
                '.',
            ) == seq![
                v@.subrange(lo as int, p1 as int),
                v@.subrange(p1 + 1, p2 as int),
                v@.subrange(p2 + 1, hi as int),
            ],
            None => split_char(v@.subrange(lo as int, hi as int), '.').len() != 3,
        },
{
    let ghost d = v@.subrange(lo as int, hi as int);
    match find_char_in(v, lo, hi, '.') {
        None => {
            proof {
                lemma_split_char_none(d, '.');
            }
            None
        },
        Some(p1) => {
            let ghost r1 = v@.subrange(p1 + 1, hi as int);
            proof {
                lemma_split_char_at(d, '.', p1 - lo);
                assert(d.skip(p1 - lo + 1) == r1);
                assert(d.take(p1 - lo) == v@.subrange(lo as int, p1 as int));
            }
            match find_char_in(v, p1 + 1, hi, '.') {
                None => {
                    proof {
                        lemma_split_char_none(r1, '.');
                    }
                    None
                },
                Some(p2) => {
                    let ghost r2 = v@.subrange(p2 + 1, hi as int);
                    proof {
                        lemma_split_char_at(r1, '.', p2 - p1 - 1);
                        assert(r1.skip(p2 - p1) == r2);
                        assert(r1.take(p2 - p1 - 1) == v@.subrange(p1 + 1, p2 as int));
                    }
                    match find_char_in(v, p2 + 1, hi, '.') {
                        Some(p3) => {
                            proof {
                                lemma_split_char_at(r2, '.', p3 - p2 - 1);
                                assert(split_char(r2, '.').len() >= 2);
                            }
                            None
                        },
                        None => {
                            proof {
                                lemma_split_char_none(r2, '.');
                            }
                            Some((p1, p2))
                        },
                    }
                },
            }
        },
    }
}

/// The end of `v[lo..hi]` without its trailing dots.
fn trim_end_dots(v: &Vec<char>, lo: usize, hi: usize) -> (dh: usize)
    requires
        lo <= hi <= v.len(),
    ensures
        lo <= dh <= hi,
        trim_end_char(v@.subrange(lo as int, hi as int), '.') == v@.subrange(lo as int, dh as int),
{
    let mut dh = hi;
    while dh > lo && v[dh - 1] == '.'
        invariant
            lo <= dh <= hi <= v.len(),
            trim_end_char(v@.subrange(lo as int, hi as int), '.') == trim_end_char(
                v@.subrange(lo as int, dh as int),
                '.',
            ),
        decreases dh,
    {
        assert(v@.subrange(lo as int, dh as int).drop_last() == v@.subrange(lo as int, dh - 1));
        dh -= 1;
    }
    proof {
        let d = v@.subrange(lo as int, dh as int);
        if dh > lo {
            assert(d.last() != '.');
        }
    }
    dh
}

/// Convert Serbian date `"DD.MM.YYYY. HH:MM:SS"` to ISO 8601 `"YYYY-MM-DDTHH:MM:SS"`.
pub fn parse_date(s: &str) -> (r: Result<String, Error>)
    ensures
        match iso_date(s@) {
            Ok(d) => r matches Ok(x) && x@ == d,
            Err(m) => r matches Err(Error::Parse(x)) && x@ == m,
        },
{
    let v = chars_of(s);
    let (lo, hi) = trim_bounds(&v, 0, v.len());
    assert(v@.subrange(0, v@.len() as int) == v@);
    let ghost t = v@.subrange(lo as int, hi as int);
    match find_char_in(&v, lo, hi, ' ') {
        None => {
            proof {
                crate::text::lemma_find_char_none(t, ' ');
            }
            let mut m = String::new();
            push_str(&mut m, "expected space in date string: '");
            let ts = string_of(&v, lo, hi);
            push_str(&mut m, ts.as_str());
            push_str(&mut m, "'");
            Err(Error::Parse(m))
        },
        Some(sp) => {
            proof {
                crate::text::lemma_find_char_at(t, ' ', sp - lo);
                assert(t.take(sp - lo) == v@.subrange(lo as int, sp as int));
                assert(t.skip(sp - lo + 1) == v@.subrange(sp + 1, hi as int));
            }
            let dh = trim_end_dots(&v, lo, sp);
            match split3_dots(&v, lo, dh) {
                None => Err(date_part_error(&v, lo, dh)),
                Some((p1, p2)) => {
                    let mut out = string_of(&v, p2 + 1, dh);
                    push_str(&mut out, "-");
                    let mm = string_of(&v, p1 + 1, p2);
                    push_str(&mut out, mm.as_str());
                    push_str(&mut out, "-");
                    let dd = string_of(&v, lo, p1);
                    push_str(&mut out, dd.as_str());
                    push_str(&mut out, "T");
                    let tp = string_of(&v, sp + 1, hi);
                    push_str(&mut out, tp.as_str());
                    Ok(out)
                },
            }
        },
    }
}

fn date_part_error(v: &Vec<char>, lo: usize, dh: usize) -> (e: Error)
    requires
        lo <= dh <= v.len(),
    ensures
        e matches Error::Parse(m) && m@ == "expected DD.MM.YYYY in date part: '"@
            + v@.subrange(lo as int, dh as int) + "'"@,
{
    let mut m = String::new();
    push_str(&mut m, "expected DD.MM.YYYY in date part: '");
    let d = string_of(v, lo, dh);
    push_str(&mut m, d.as_str());
    push_str(&mut m, "'");
    Error::Parse(m)
}

// ── Prices ────────────────────────────────────────────────────────────────────

/// The European-formatted number `s` in Rust's number syntax: trimmed,
/// thousands dots removed, the decimal comma turned into a point.
pub open spec fn cleaned_price(s: Seq<char>) -> Seq<char> {
    crate::text::remove_char(trim(s), '.').map_values(|c: char| if c == ',' { '.' } else { c })
}

proof fn lemma_remove_char_concat(a: Seq<char>, b: Seq<char>, c: char)
    ensures
        crate::text::remove_char(a + b, c) == crate::text::remove_char(a, c) + crate::text::remove_char(
            b,
            c,
        ),
    decreases b.len(),
{
    if b.len() == 0 {
        assert(a + b =~= a);
        assert(crate::text::remove_char(a, c) + crate::text::remove_char(b, c) =~= crate::text::remove_char(a, c));
    } else {
        lemma_remove_char_concat(a, b.drop_last(), c);
        assert((a + b).drop_last() =~= a + b.drop_last());
        assert((a + b).last() == b.last());
        if b.last() != c {
            assert(crate::text::remove_char(a, c) + crate::text::remove_char(b.drop_last(), c).push(b.last())
                =~= (crate::text::remove_char(a, c) + crate::text::remove_char(b.drop_last(), c)).push(b.last()));
        }
    }
}

proof fn lemma_remove_char_absent(s: Seq<char>, c: char)
    requires
        forall|i: int| 0 <= i < s.len() ==> s[i] != c,
    ensures
        crate::text::remove_char(s, c) == s,
    decreases s.len(),
{
    if s.len() > 0 {
        lemma_remove_char_absent(s.drop_last(), c);
        assert(s.drop_last().push(s.last()) =~= s);
    }
}

/// `remove_char(s, c)` holds only characters of `s` other than `c`.
proof fn lemma_remove_char_from(s: Seq<char>, c: char)
    ensures
        forall|i: int|
            0 <= i < crate::text::remove_char(s, c).len() ==> crate::text::remove_char(s, c)[i] != c
                && s.contains(#[trigger] crate::text::remove_char(s, c)[i]),
    decreases s.len(),
{
    if s.len() > 0 {
        lemma_remove_char_from(s.drop_last(), c);
        let r = crate::text::remove_char(s, c);
        let rp = crate::text::remove_char(s.drop_last(), c);
        assert forall|i: int| 0 <= i < r.len() implies r[i] != c && s.contains(#[trigger] r[i]) by {
            if i < rp.len() {
                assert(r[i] == rp[i]);
                let k = choose|k: int| 0 <= k < s.drop_last().len() && s.drop_last()[k] == rp[i];
                assert(s[k] == rp[i]);
            } else {
                assert(r[i] == s.last());
                assert(s[s.len() - 1] == s.last());
            }
        }
    }
}

pub open spec fn is_digit(c: char) -> bool {
    '0' <= c && c <= '9'
}

/// A cleaned price never keeps a comma: the decimal separator comes out as
/// a point.
pub proof fn lemma_cleaned_price_has_no_comma(s: Seq<char>)
    ensures
        forall|i: int| 0 <= i < cleaned_price(s).len() ==> cleaned_price(s)[i] != ',',
{
}

/// A European amount — digits grouped by `.` in thousands, then one `,`
/// before the decimals — cleans to the same number written with a decimal
/// point and no grouping: `1.234,56` becomes `1234.56`, `179,98` becomes
/// `179.98`.
pub proof fn lemma_clean_european_amount(whole: Seq<char>, frac: Seq<char>)
    requires
        whole.len() > 0,
        is_digit(whole[0]),
        forall|i: int| 0 <= i < whole.len() ==> is_digit(#[trigger] whole[i]) || whole[i] == '.',
        frac.len() > 0,
        forall|i: int| 0 <= i < frac.len() ==> is_digit(#[trigger] frac[i]),
    ensures
        cleaned_price(whole + seq![','] + frac) == crate::text::remove_char(whole, '.') + seq!['.']
            + frac,
        forall|i: int|
            0 <= i < crate::text::remove_char(whole, '.').len() ==> is_digit(
                #[trigger] crate::text::remove_char(whole, '.')[i],
            ),
{
    let t = whole + seq![','] + frac;
    assert forall|k: int| 0 <= k < t.len() implies !crate::text::is_ws(#[trigger] t[k]) by {
        if k < whole.len() {
            assert(t[k] == whole[k]);
        } else if k == whole.len() {
            assert(t[k] == ',');
        } else {
            assert(t[k] == frac[k - whole.len() - 1]);
        }
    }
    crate::text::lemma_trim_start_none(t);
    crate::text::lemma_trim_end_none(t);
    assert(trim(t) == t);
    lemma_remove_char_concat(whole + seq![','], frac, '.');
    lemma_remove_char_concat(whole, seq![','], '.');
    lemma_remove_char_absent(frac, '.');
    lemma_remove_char_absent(seq![','], '.');
    let w = crate::text::remove_char(whole, '.');
    lemma_remove_char_from(whole, '.');
    assert forall|i: int| 0 <= i < w.len() implies is_digit(#[trigger] w[i]) by {
        let k = choose|k: int| 0 <= k < whole.len() && whole[k] == w[i];
    }
    let f = |c: char| if c == ',' { '.' } else { c };
    let r = w + seq![','] + frac;
    assert(r.map_values(f) =~= w + seq!['.'] + frac) by {
        assert forall|i: int| 0 <= i < r.len() implies r.map_values(f)[i] == (w + seq!['.'] + frac)[i] by {
            if i < w.len() {
                assert(r[i] == w[i]);
                assert(is_digit(w[i]));
            } else if i == w.len() {
            } else {
                assert(r[i] == frac[i - w.len() - 1]);
                assert(is_digit(frac[i - w.len() - 1]));
            }
        }
    }
}

/// Rewrite a European-formatted amount for number parsing: `"1.234,56"` →
/// `"1234.56"`. (Reading the number itself is floating point, which the
/// caller does.)
pub fn clean_price(s: &str) -> (r: String)
    ensures
        r@ == cleaned_price(s@),
{
    let t = trim_str(s);
    let mut cleaned = String::new();
    let ghost tv = t@;
    for ch in it: t.chars()
        invariant
            it.seq() == tv,
            cleaned@ == crate::text::remove_char(tv.take(it.index() as int), '.').map_values(
                |c: char| if c == ',' { '.' } else { c },
            ),
    {
        proof {
            let u = tv.take(it.index() as int + 1);
            assert(u.drop_last() == tv.take(it.index() as int));
            assert(u.last() == ch);
        }
        let ghost before = cleaned@;
        if ch == ',' {
            push_char(&mut cleaned, '.');
        } else if ch != '.' {
            push_char(&mut cleaned, ch);
        }
        proof {
            let u = tv.take(it.index() as int + 1);
            let f = |c: char| if c == ',' { '.' } else { c };
            assert(crate::text::remove_char(u, '.').map_values(f) =~= cleaned@);
        }
    }
    assert(tv.take(tv.len() as int) == tv);
    cleaned
}

// ── Token ─────────────────────────────────────────────────────────────────────

/// The marker that precedes the view-model token in the page's inline script.
pub open spec fn token_needle() -> Seq<char> {
    "viewModel.Token('"@
}

/// The token in one line: the text between the first `viewModel.Token('` and
/// the first `');` after it.
pub open spec fn token_in_line(line: Seq<char>) -> Option<Seq<char>> {
    match find_sub(line, token_needle()) {
        None => None,
        Some(start) => {
            let rest = line.skip(start + token_needle().len());
            match find_sub(rest, "');"@) {
                None => None,
                Some(end) => Some(rest.take(end)),
            }
        },
    }
}

/// The token of the first line that holds one.
pub open spec fn token_in_lines(ls: Seq<Seq<char>>) -> Option<Seq<char>>
    decreases ls.len(),
{
    if ls.len() == 0 {
        None
    } else {
        match token_in_line(ls[0]) {
            Some(t) => Some(t),
            None => token_in_lines(ls.drop_first()),
        }
    }
}

proof fn lemma_token_in_lines_skip(ls: Seq<Seq<char>>, i: int)
    requires
        0 <= i <= ls.len(),
        forall|k: int| 0 <= k < i ==> token_in_line(#[trigger] ls[k]) is None,
    ensures
        token_in_lines(ls) == token_in_lines(ls.skip(i)),
    decreases i,
{
    if i > 0 {
        assert(ls.drop_first().skip(i - 1) == ls.skip(i));
        assert forall|k: int| 0 <= k < i - 1 implies token_in_line(#[trigger] ls.drop_first()[k])
            is None by {
            assert(ls.drop_first()[k] == ls[k + 1]);
        }
        assert(token_in_line(ls[0]) is None);
        lemma_token_in_lines_skip(ls.drop_first(), i - 1);
    } else {
        assert(ls.skip(0) == ls);
    }
}

fn token_in_line_exec(line: &str) -> (r: Option<String>)
    ensures
        r matches Some(t) ==> token_in_line(line@) == Some(t@),
        r is None ==> token_in_line(line@) is None,
{
    let v = chars_of(line);
    let needle = chars_of("viewModel.Token('");
    let close = chars_of("');");
    proof {
        reveal_strlit("viewModel.Token('");
        reveal_strlit("');");
        crate::text::lemma_find_sub_some(line@, token_needle());
    }
    match find_from_exec(&v, &needle, 0) {
        None => None,
        Some(start) => {
            assert(needle@ == token_needle());
            assert(crate::text::occurs_at(line@, token_needle(), start as int));
            assert(start + needle@.len() <= v@.len());
            assert(v@.len() == v.len());
            let from = start + needle.len();
            let rest = string_of(&v, from, v.len());
            assert(rest@ == line@.skip(from as int));
            let rv = chars_of(rest.as_str());
            proof {
                crate::text::lemma_find_sub_some(rest@, "');"@);
            }
            match find_from_exec(&rv, &close, 0) {
                None => None,
                Some(end) => {
                    assert(rv@.subrange(0, end as int) == rest@.take(end as int));
                    Some(string_of(&rv, 0, end))
                },
            }
        },
    }
}

/// Extract the view-model token embedded in the page's inline JS.
pub fn extract_token(html: &str) -> (r: Result<String, Error>)
    ensures
        match token_in_lines(lines(html@)) {
            Some(t) => r matches Ok(x) && x@ == t,
            None => r matches Err(Error::Parse(m)) && m@ == "Token not found in page script"@,
        },
{
    let ls = lines_of(html);
    let mut i: usize = 0;
    while i < ls.len()
        invariant
            i <= ls.len(),
            views(ls@) == lines(html@),
            forall|k: int| 0 <= k < i ==> token_in_line(#[trigger] views(ls@)[k]) is None,
        decreases ls.len() - i,
    {
        match token_in_line_exec(ls[i].as_str()) {
            Some(t) => {
                proof {
                    lemma_token_in_lines_skip(views(ls@), i as int);
                    assert(views(ls@).skip(i as int)[0] == ls@[i as int]@);
                }
                return Ok(t);
            },
            None => {},
        }
        i += 1;
    }
    proof {
        lemma_token_in_lines_skip(views(ls@), i as int);
    }
    Err(Error::Parse("Token not found in page script".to_string()))
}

// ── Items request ─────────────────────────────────────────────────────────────

pub open spec fn is_unreserved(b: u8) -> bool {
    (65u8 <= b && b <= 90u8) || (97u8 <= b && b <= 122u8) || (48u8 <= b && b <= 57u8) || b == 45u8
        || b == 95u8 || b == 46u8 || b == 126u8
}

pub open spec fn hex_upper(d: int) -> char {
    if d < 10 {
        crate::text::digit(d)
    } else if d == 10 {
        'A'
    } else if d == 11 {
        'B'
    } else if d == 12 {
        'C'
    } else if d == 13 {
        'D'
    } else if d == 14 {
        'E'
    } else {
        'F'
    }
}

/// The percent-encoding of one byte (RFC 3986 unreserved bytes stay as they are).
pub open spec fn encoded_byte(b: u8) -> Seq<char> {
    if is_unreserved(b) {
        seq![b as char]
    } else {
        seq!['%', hex_upper((b / 16) as int), hex_upper((b % 16) as int)]
    }
}

pub open spec fn percent_encoded(bytes: Seq<u8>) -> Seq<char>
    decreases bytes.len(),
{
    if bytes.len() == 0 {
        seq![]
    } else {
        percent_encoded(bytes.drop_last()) + encoded_byte(bytes.last())
    }
}

fn hex_upper_exec(d: u8) -> (c: char)
    requires
        d < 16,
    ensures
        c == hex_upper(d as int),
{
    if d < 10 {
        crate::text::digit_exec(d as u64)
    } else if d == 10 {
        'A'
    } else if d == 11 {
        'B'
    } else if d == 12 {
        'C'
    } else if d == 13 {
        'D'
    } else if d == 14 {
        'E'
    } else {
        'F'
    }
}

/// Percent-encode the UTF-8 bytes of `s` that are not URL-safe.
pub fn percent_encode(s: &str) -> (r: String)
    ensures
        r@ == percent_encoded(vstd::utf8::encode_utf8(s@)),
{
    let bytes = s.as_bytes();
    let mut out = String::new();
    let mut i: usize = 0;
    while i < bytes.len()
        invariant
            i <= bytes@.len(),
            bytes@ == vstd::utf8::encode_utf8(s@),
            out@ == percent_encoded(bytes@.take(i as int)),
        decreases bytes.len() - i,
    {
        let b = bytes[i];
        proof {
            assert(bytes@.take(i + 1).drop_last() == bytes@.take(i as int));
            assert(bytes@.take(i + 1).last() == b);
        }
        if (65u8 <= b && b <= 90u8) || (97u8 <= b && b <= 122u8) || (48u8 <= b && b <= 57u8) || b
            == 45u8 || b == 95u8 || b == 46u8 || b == 126u8 {
            push_char(&mut out, byte_char(b));
        } else {
            push_char(&mut out, '%');
            push_char(&mut out, hex_upper_exec(b / 16));
            push_char(&mut out, hex_upper_exec(b % 16));
        }
        i += 1;
    }
    assert(bytes@.take(bytes@.len() as int) == bytes@);
    out
}

/// The character of an ASCII byte (`b as char`).
fn byte_char(b: u8) -> (c: char)
    requires
        b < 128,
    ensures
        c == b as char,
{
    b as char
}


// ── Page fields ───────────────────────────────────────────────────────────────

/// The text the HTML document `html` shows in the first element matching the
/// CSS selector `selector` (its descendant text nodes concatenated, as
/// `scraper` parses and selects): `Ok(None)` when nothing matches,
/// `Err(debug)` with the selector error's debug text when the selector does
/// not parse.
pub uninterp spec fn selected_text(html: Seq<char>, selector: Seq<char>) -> Result<
    Option<Seq<char>>,
    Seq<char>,
>;

/// Parses `html` as a document (`scraper::Html::parse_document`), parses
/// `selector` (`scraper::Selector::parse`), and collects the text of the
/// first matching element (`Html::select`, `ElementRef::text`).
#[verifier::external_body]
fn select_first_text(html: &str, selector: &str) -> (r: Result<Option<String>, String>)
    ensures
        match r {
            Ok(Some(t)) => selected_text(html@, selector@) == Ok::<Option<Seq<char>>, Seq<char>>(
                Some(t@),
            ),
            Ok(None) => selected_text(html@, selector@) == Ok::<Option<Seq<char>>, Seq<char>>(
                None,
            ),
            Err(d) => selected_text(html@, selector@) == Err::<Option<Seq<char>>, Seq<char>>(d@),
        },
{
    let sel = match scraper::Selector::parse(selector) {
        Ok(sel) => sel,
        Err(e) => return Err(format!("{:?}", e)),
    };
    let doc = scraper::Html::parse_document(html);
    match doc.select(&sel).next() {
        Some(el) => Ok(Some(el.text().collect::<String>())),
        None => Ok(None),
    }
}

/// The trimmed text of the first element matching `selector`, or the error message.
pub open spec fn sel_text_spec(html: Seq<char>, selector: Seq<char>) -> Result<Seq<char>, Seq<char>> {
    match selected_text(html, selector) {
        Err(d) => Err("invalid CSS selector '"@ + selector + "': "@ + d),
        Ok(None) => Err("element not found: "@ + selector),
        Ok(Some(t)) => Ok(trim(t)),
    }
}

/// The trimmed text of the first element matching `selector`.
pub fn sel_text(html: &str, selector: &str) -> (r: Result<String, Error>)
    ensures
        match sel_text_spec(html@, selector@) {
            Ok(t) => r matches Ok(x) && x@ == t,
            Err(m) => r matches Err(Error::Parse(x)) && x@ == m,
        },
{
    match select_first_text(html, selector) {
        Err(d) => {
            let mut m = String::new();
            push_str(&mut m, "invalid CSS selector '");
            push_str(&mut m, selector);
            push_str(&mut m, "': ");
            push_str(&mut m, d.as_str());
            Err(Error::Parse(m))
        },
        Ok(None) => {
            let mut m = String::new();
            push_str(&mut m, "element not found: ");
            push_str(&mut m, selector);
            Err(Error::Parse(m))
        },
        Ok(Some(t)) => Ok(trim_str(t.as_str())),
    }
}

/// What the invoice page shows.
#[derive(Debug)]
pub struct PageFields {
    pub invoice_number: String,
    /// The shop name, transliterated to Latin.
    pub retailer: String,
    /// The date in ISO form.
    pub date: String,
    /// The total as shown (European number format).
    pub price_raw: String,
    pub raw_bill_text: String,
}

pub struct PageView {
    pub invoice_number: Seq<char>,
    pub retailer: Seq<char>,
    pub date: Seq<char>,
    pub price_raw: Seq<char>,
    pub raw_bill_text: Seq<char>,
}

impl PageFields {
    pub open spec fn view(&self) -> PageView {
        PageView {
            invoice_number: self.invoice_number@,
            retailer: self.retailer@,
            date: self.date@,
            price_raw: self.price_raw@,
            raw_bill_text: self.raw_bill_text@,
        }
    }
}

/// The fields of an invoice page, or the message of the first failure, in
/// the order the page is read: invoice number, shop, date, total, then the
/// date's conversion.
pub open spec fn page_spec(html: Seq<char>) -> Result<PageView, Seq<char>> {
    match sel_text_spec(html, "#invoiceNumberLabel"@) {
        Err(m) => Err(m),
        Ok(num) => match sel_text_spec(html, "#shopFullNameLabel"@) {
            Err(m) => Err(m),
            Ok(shop) => match sel_text_spec(html, "#sdcDateTimeLabel"@) {
                Err(m) => Err(m),
                Ok(date_raw) => match sel_text_spec(html, "#totalAmountLabel"@) {
                    Err(m) => Err(m),
                    Ok(price_raw) => match iso_date(date_raw) {
                        Err(m) => Err(m),
                        Ok(date) => Ok(
                            PageView {
                                invoice_number: num,
                                retailer: transliterate(shop),
                                date,
                                price_raw,
                                raw_bill_text: match sel_text_spec(
                                    html,
                                    "#collapse3 > div > pre"@,
                                ) {
                                    Ok(t) => t,
                                    Err(_) => seq![],
                                },
                            },
                        ),
                    },
                },
            },
        },
    }
}

/// Read the invoice fields off the page.
pub fn page_fields(body: &str) -> (r: Result<PageFields, Error>)
    ensures
        match page_spec(body@) {
            Ok(v) => r matches Ok(f) && f.view() == v,
            Err(m) => r matches Err(Error::Parse(x)) && x@ == m,
        },
{
    let invoice_number = sel_text(body, "#invoiceNumberLabel")?;
    let shop = sel_text(body, "#shopFullNameLabel")?;
    let retailer = cyrillic_to_latin(shop.as_str());
    let date_raw = sel_text(body, "#sdcDateTimeLabel")?;
    let price_raw = sel_text(body, "#totalAmountLabel")?;
    let raw_bill_text = match sel_text(body, "#collapse3 > div > pre") {
        Ok(t) => t,
        Err(_) => String::new(),
    };
    let date = parse_date(date_raw.as_str())?;
    Ok(PageFields { invoice_number, retailer, date, price_raw, raw_bill_text })
}

/// The form body of the items request.
pub open spec fn items_body(invoice_number: Seq<char>, token: Seq<char>) -> Seq<char> {
    "invoiceNumber="@ + percent_encoded(vstd::utf8::encode_utf8(invoice_number)) + "&token="@
        + percent_encoded(vstd::utf8::encode_utf8(token))
}

/// `invoiceNumber=<number>&token=<token>`, both percent-encoded.
pub fn items_request_body(invoice_number: &str, token: &str) -> (r: String)
    ensures
        r@ == items_body(invoice_number@, token@),
{
    let mut r = String::new();
    push_str(&mut r, "invoiceNumber=");
    let a = percent_encode(invoice_number);
    push_str(&mut r, a.as_str());
    push_str(&mut r, "&token=");
    let b = percent_encode(token);
    push_str(&mut r, b.as_str());
    r
}

// ── Items response ────────────────────────────────────────────────────────────

/// One entry of the items API response: each field's text when the JSON
/// value is a string (text fields) or a number (numeric fields, in its
/// shortest round-trip decimal form).
#[derive(Debug)]
pub struct ItemFields {
    pub name: Option<String>,
    pub quantity: Option<String>,
    pub unit_price: Option<String>,
    pub total: Option<String>,
    pub gtin: Option<String>,
    pub label: Option<String>,
    pub label_rate: Option<String>,
    pub tax_base_amount: Option<String>,
    pub vat_amount: Option<String>,
}

/// The items API response: `success` when it is a boolean, `items` when it
/// is an array.
#[derive(Debug)]
pub struct ItemsResponse {
    pub success: Option<bool>,
    pub items: Option<Vec<ItemFields>>,
}

pub open spec fn text_or(o: Option<String>, d: Seq<char>) -> Seq<char> {
    match o {
        Some(s) => s@,
        None => d,
    }
}

/// The item built from one response entry: text fields transliterated,
/// missing text empty, missing numbers `0`.
pub open spec fn item_from(it: InvoiceItem, f: ItemFields) -> bool {
    &&& it.name@ == transliterate(text_or(f.name, seq![]))
    &&& it.quantity@ == text_or(f.quantity, "0"@)
    &&& it.unit_price@ == text_or(f.unit_price, "0"@)
    &&& it.total@ == text_or(f.total, "0"@)
    &&& it.gtin@ == transliterate(text_or(f.gtin, seq![]))
    &&& it.label@ == transliterate(text_or(f.label, seq![]))
    &&& it.label_rate@ == text_or(f.label_rate, "0"@)
    &&& it.tax_base_amount@ == text_or(f.tax_base_amount, "0"@)
    &&& it.vat_amount@ == text_or(f.vat_amount, "0"@)
}

fn text_field(o: &Option<String>) -> (r: String)
    ensures
        r@ == transliterate(text_or(*o, seq![])),
{
    match o {
        Some(s) => cyrillic_to_latin(s.as_str()),
        None => String::new(),
    }
}

fn number_field(o: &Option<String>) -> (r: String)
    ensures
        r@ == text_or(*o, "0"@),
{
    match o {
        Some(s) => s.clone(),
        None => "0".to_string(),
    }
}

/// The invoice items in an items API response.
pub fn items_from_response(resp: &ItemsResponse) -> (r: Result<Vec<InvoiceItem>, Error>)
    ensures
        resp.success != Some(true) ==> (r matches Err(Error::Parse(m)) && m@
            == "Failed to fetch invoice items"@),
        resp.success == Some(true) && resp.items is None ==> (r matches Err(Error::Parse(m)) && m@
            == "Missing 'items' array in API response"@),
        resp.success == Some(true) && resp.items is Some ==> (r matches Ok(items) && items@.len()
            == resp.items->0@.len() && forall|i: int|
            0 <= i < items@.len() ==> item_from(#[trigger] items@[i], resp.items->0@[i])),
{
    if resp.success != Some(true) {
        return Err(Error::Parse("Failed to fetch invoice items".to_string()));
    }
    match &resp.items {
        None => Err(Error::Parse("Missing 'items' array in API response".to_string())),
        Some(fs) => {
            let mut items: Vec<InvoiceItem> = Vec::new();
            let mut i: usize = 0;
            while i < fs.len()
                invariant
                    i <= fs.len(),
                    items@.len() == i,
                    forall|k: int| 0 <= k < i ==> item_from(#[trigger] items@[k], fs@[k]),
                decreases fs.len() - i,
            {
                let f = &fs[i];
                items.push(
                    InvoiceItem {
                        name: text_field(&f.name),
                        quantity: number_field(&f.quantity),
                        unit_price: number_field(&f.unit_price),
                        total: number_field(&f.total),
                        gtin: text_field(&f.gtin),
                        label: text_field(&f.label),
                        label_rate: number_field(&f.label_rate),
                        tax_base_amount: number_field(&f.tax_base_amount),
                        vat_amount: number_field(&f.vat_amount),
                    },
                );
                i += 1;
            }
            Ok(items)
        },
    }
}

// ── Fetch-and-retry conversation ──────────────────────────────────────────────

/// Whether a failure is worth another attempt: the token or the item fetch
/// failed (tokens can expire mid-request).
pub open spec fn retryable(e: Error) -> bool {
    let m = error_text(e);
    contains_sub(m, "fetch items"@) || contains_sub(m, "token"@) || contains_sub(m, "Token"@)
}

#[derive(Clone, Copy, Debug, PartialEq, Eq, Structural)]
pub enum ParsePhase {
    Start,
    AwaitPage,
    AwaitAmount,
    AwaitItems,
    Finished,
}

/// The answer to the last request.
#[derive(Debug)]
pub enum ParseEvent {
    Begin,
    /// The page body, or why it could not be fetched.
    Page(Result<String, Error>),
    /// The amount the cleaned total denotes, with two decimals; `None` when
    /// it is not a number.
    Amount(Option<String>),
    /// The items API response, or why it could not be fetched.
    Items(Result<ItemsResponse, Error>),
}

/// The outside work the parser needs next.
#[derive(Debug)]
pub enum ParseRequest {
    /// Wait `wait_secs` seconds, then GET `url`.
    Fetch { url: String, wait_secs: u64 },
    /// Read `cleaned` (`1234.56`) as a number and write it with two decimals.
    AmountOf(String),
    /// POST the form `body` to `url` and read the JSON response.
    PostItems { url: String, body: String },
    /// Parsing is over.
    Finish(Result<Invoice, Error>),
}

#[derive(Debug)]
pub struct ParseStep {
    pub say: Vec<Line>,
    pub request: ParseRequest,
}

/// The state of one `parse` run: up to `max_attempts` tries, retrying only
/// token / item-fetch failures.
#[derive(Debug)]
pub struct ParseMachine {
    pub url: String,
    pub max_attempts: u32,
    pub attempt: u32,
    pub phase: ParsePhase,
    pub last_err: Error,
    pub body: String,
    pub fields: Option<PageFields>,
    pub total: String,
}

pub open spec fn attempt_failed_text(attempt: nat, e: Error) -> Seq<char> {
    "Attempt "@ + decimal(attempt) + ": "@ + error_text(e)
}

pub open spec fn retrying_text(attempt: nat) -> Seq<char> {
    "Attempt "@ + decimal(attempt) + ": retrying after token failure…"@
}

/// What a failed attempt leads to: the failure itself when it is not
/// retryable; otherwise it is reported, and retried after a one-second wait
/// while attempts remain.
pub open spec fn failed_with(old: ParseMachine, new: ParseMachine, e: Error, step: ParseStep) -> bool {
    if !retryable(e) {
        &&& new.phase == ParsePhase::Finished
        &&& step.say@.len() == 0
        &&& step.request == ParseRequest::Finish(Err(e))
    } else if old.attempt < old.max_attempts {
        &&& new.phase == ParsePhase::AwaitPage
        &&& new.attempt == old.attempt + 1
        &&& new.last_err == e
        &&& crate::ports::line_views(step.say@) == seq![
            (false, attempt_failed_text(old.attempt as nat, e)),
            (false, retrying_text(new.attempt as nat)),
        ]
        &&& step.request matches ParseRequest::Fetch { url, wait_secs }
        &&& url == old.url && wait_secs == 1
    } else {
        &&& new.phase == ParsePhase::Finished
        &&& crate::ports::line_views(step.say@) == seq![
            (false, attempt_failed_text(old.attempt as nat, e)),
        ]
        &&& step.request == ParseRequest::Finish(Err(e))
    }
}

/// The message of a price that is not a number.
pub open spec fn price_error_text(raw: Seq<char>) -> Seq<char> {
    "cannot parse price: '"@ + raw + "'"@
}

impl ParseMachine {
    pub open spec fn accepts(&self, e: ParseEvent) -> bool {
        match (self.phase, e) {
            (ParsePhase::Start, ParseEvent::Begin) => true,
            (ParsePhase::AwaitPage, ParseEvent::Page(_)) => true,
            (ParsePhase::AwaitAmount, ParseEvent::Amount(_)) => true,
            (ParsePhase::AwaitItems, ParseEvent::Items(_)) => true,
            _ => false,
        }
    }

    /// The attempt count stays within bounds, and the page read so far is
    /// kept while the amount and items are pending.
    pub open spec fn wf(&self) -> bool {
        &&& self.attempt <= self.max_attempts
        &&& (self.phase == ParsePhase::AwaitPage || self.phase == ParsePhase::AwaitAmount
            || self.phase == ParsePhase::AwaitItems) ==> self.attempt >= 1
        &&& (self.phase == ParsePhase::AwaitAmount || self.phase == ParsePhase::AwaitItems)
            ==> self.fields is Some
    }

    /// A machine that will parse `url` in at most `max_attempts` tries.
    pub fn new(url: String, max_attempts: u32) -> (m: ParseMachine)
        ensures
            m.url == url,
            m.max_attempts == max_attempts,
            m.attempt == 0,
            m.phase == ParsePhase::Start,
            m.wf(),
    {
        ParseMachine {
            url,
            max_attempts,
            attempt: 0,
            phase: ParsePhase::Start,
            last_err: Error::Parse("max attempts exhausted".to_string()),
            body: String::new(),
            fields: None,
            total: String::new(),
        }
    }

    /// A failed attempt: retry it when it is retryable and attempts remain.
    fn fail(&mut self, e: Error) -> (step: ParseStep)
        requires
            old(self).wf(),
            old(self).attempt >= 1,
        ensures
            final(self).wf(),
            final(self).url == old(self).url,
            final(self).max_attempts == old(self).max_attempts,
            failed_with(*old(self), *final(self), e, step),
    {
        let m = e.message();
        let retry = contains_str(m.as_str(), "fetch items") || contains_str(m.as_str(), "token")
            || contains_str(m.as_str(), "Token");
        if !retry {
            self.phase = ParsePhase::Finished;
            return ParseStep { say: Vec::new(), request: ParseRequest::Finish(Err(e)) };
        }
        let mut say: Vec<Line> = Vec::new();
        let mut a = String::new();
        push_str(&mut a, "Attempt ");
        push_decimal(&mut a, self.attempt as u64);
        push_str(&mut a, ": ");
        push_str(&mut a, m.as_str());
        say.push(Line::Status(a));
        if self.attempt < self.max_attempts {
            self.attempt = self.attempt + 1;
            let mut b = String::new();
            push_str(&mut b, "Attempt ");
            push_decimal(&mut b, self.attempt as u64);
            push_str(&mut b, ": retrying after token failure…");
            say.push(Line::Status(b));
            self.last_err = e;
            self.phase = ParsePhase::AwaitPage;
            assert(crate::ports::line_views(say@) =~= seq![
                (false, attempt_failed_text((self.attempt - 1) as nat, self.last_err)),
                (false, retrying_text(self.attempt as nat)),
            ]);
            ParseStep {
                say,
                request: ParseRequest::Fetch { url: self.url.clone(), wait_secs: 1 },
            }
        } else {
            self.phase = ParsePhase::Finished;
            assert(crate::ports::line_views(say@) =~= seq![
                (false, attempt_failed_text(self.attempt as nat, e)),
            ]);
            ParseStep { say, request: ParseRequest::Finish(Err(e)) }
        }
    }

    /// Advance the parse by one answer.
    pub fn step(&mut self, event: ParseEvent) -> (step: ParseStep)
        requires
            old(self).accepts(event),
            old(self).wf(),
        ensures
            final(self).wf(),
            final(self).url == old(self).url,
            final(self).max_attempts == old(self).max_attempts,
            // Every fetch is one of at most `max_attempts` attempts.
            step.request is Fetch ==> 1 <= final(self).attempt <= final(self).max_attempts,
            match (old(self).phase, event) {
                (ParsePhase::Start, ParseEvent::Begin) => if old(self).max_attempts == 0 {
                    &&& final(self).phase == ParsePhase::Finished
                    &&& step.say@.len() == 0
                    &&& step.request == ParseRequest::Finish(Err(old(self).last_err))
                } else {
                    &&& final(self).phase == ParsePhase::AwaitPage
                    &&& final(self).attempt == 1
                    &&& step.say@.len() == 0
                    &&& step.request matches ParseRequest::Fetch { url, wait_secs }
                    &&& url == old(self).url && wait_secs == 0
                },
                (ParsePhase::AwaitPage, ParseEvent::Page(res)) => match res {
                    Err(e) => failed_with(*old(self), *final(self), e, step),
                    Ok(body) => match page_spec(body@) {
                        Err(m) => exists|e: Error|
                            failed_with(*old(self), *final(self), e, step) && (e matches Error::Parse(x)
                                && x@ == m),
                        Ok(v) => {
                            &&& final(self).phase == ParsePhase::AwaitAmount
                            &&& final(self).body == body
                            &&& final(self).fields matches Some(f) && f.view() == v
                            &&& step.say@.len() == 0
                            &&& step.request matches ParseRequest::AmountOf(c)
                            &&& c@ == cleaned_price(v.price_raw)
                        },
                    },
                },
                (ParsePhase::AwaitAmount, ParseEvent::Amount(a)) => match a {
                    None => exists|e: Error|
                        failed_with(*old(self), *final(self), e, step) && (e matches Error::Parse(x)
                            && x@ == price_error_text(old(self).fields->0.price_raw@)),
                    Some(total) => match token_in_lines(lines(old(self).body@)) {
                        None => exists|e: Error|
                            failed_with(*old(self), *final(self), e, step) && (e matches Error::Parse(x)
                                && x@ == "Token not found in page script"@),
                        Some(tok) => {
                            &&& final(self).phase == ParsePhase::AwaitItems
                            &&& final(self).total == total
                            &&& step.say@.len() == 0
                            &&& step.request matches ParseRequest::PostItems { url, body }
                            &&& url@ == SPECIFICATIONS_URL@
                            &&& body@ == items_body(old(self).fields->0.invoice_number@, tok)
                        },
                    },
                },
                (ParsePhase::AwaitItems, ParseEvent::Items(res)) => match res {
                    Ok(resp) if resp.success == Some(true) && resp.items is Some => {
                        &&& final(self).phase == ParsePhase::Finished
                        &&& step.say@.len() == 0
                        &&& step.request matches ParseRequest::Finish(Ok(inv))
                        &&& inv.invoice_number == old(self).fields->0.invoice_number
                        &&& inv.retailer == old(self).fields->0.retailer
                        &&& inv.date == old(self).fields->0.date
                        &&& inv.raw_bill_text == old(self).fields->0.raw_bill_text
                        &&& inv.total_price == old(self).total
                        &&& inv.currency@ == "RSD"@
                        &&& inv.country@ == "serbia"@
                        &&& inv.url == old(self).url
                        &&& inv.items@.len() == resp.items->0@.len()
                        &&& forall|i: int|
                            0 <= i < inv.items@.len() ==> item_from(
                                #[trigger] inv.items@[i],
                                resp.items->0@[i],
                            )
                    },
                    Ok(resp) => exists|e: Error|
                        failed_with(*old(self), *final(self), e, step) && (e matches Error::Parse(x)
                            && x@ == if resp.success != Some(true) {
                            "Failed to fetch invoice items"@
                        } else {
                            "Missing 'items' array in API response"@
                        }),
                    Err(e) => failed_with(*old(self), *final(self), e, step),
                },
                _ => false,
            },
    {
        match event {
            ParseEvent::Begin => {
                if self.max_attempts == 0 {
                    self.phase = ParsePhase::Finished;
                    let mut e = Error::Parse("max attempts exhausted".to_string());
                    std::mem::swap(&mut e, &mut self.last_err);
                    return ParseStep { say: Vec::new(), request: ParseRequest::Finish(Err(e)) };
                }
                self.attempt = 1;
                self.phase = ParsePhase::AwaitPage;
                ParseStep {
                    say: Vec::new(),
                    request: ParseRequest::Fetch { url: self.url.clone(), wait_secs: 0 },
                }
            },
            ParseEvent::Page(res) => match res {
                Err(e) => self.fail(e),
                Ok(body) => match page_fields(body.as_str()) {
                    Err(e) => self.fail(e),
                    Ok(f) => {
                        let c = clean_price(f.price_raw.as_str());
                        self.body = body;
                        self.fields = Some(f);
                        self.phase = ParsePhase::AwaitAmount;
                        ParseStep { say: Vec::new(), request: ParseRequest::AmountOf(c) }
                    },
                },
            },
            ParseEvent::Amount(a) => match a {
                None => {
                    let raw = match &self.fields {
                        Some(f) => f.price_raw.clone(),
                        None => String::new(),
                    };
                    let mut m = String::new();
                    push_str(&mut m, "cannot parse price: '");
                    push_str(&mut m, raw.as_str());
                    push_str(&mut m, "'");
                    self.fail(Error::Parse(m))
                },
                Some(total) => match extract_token(self.body.as_str()) {
                    Err(e) => self.fail(e),
                    Ok(tok) => {
                        let number = match &self.fields {
                            Some(f) => f.invoice_number.clone(),
                            None => String::new(),
                        };
                        let body = items_request_body(number.as_str(), tok.as_str());
                        self.total = total;
                        self.phase = ParsePhase::AwaitItems;
                        ParseStep {
                            say: Vec::new(),
                            request: ParseRequest::PostItems {
                                url: SPECIFICATIONS_URL.to_string(),
                                body,
                            },
                        }
                    },
                },
            },
            ParseEvent::Items(res) => match res {
                Err(e) => self.fail(e),
                Ok(resp) => match items_from_response(&resp) {
                    Err(e) => self.fail(e),
                    Ok(items) => {
                        let f = self.fields.take();
                        match f {
                            Some(f) => {
                                self.phase = ParsePhase::Finished;
                                let inv = Invoice {
                                    invoice_number: f.invoice_number,
                                    retailer: f.retailer,
                                    date: f.date,
                                    total_price: self.total.clone(),
                                    currency: "RSD".to_string(),
                                    country: "serbia".to_string(),
                                    url: self.url.clone(),
                                    raw_bill_text: f.raw_bill_text,
                                    items,
                                };
                                ParseStep {
                                    say: Vec::new(),
                                    request: ParseRequest::Finish(Ok(inv)),
                                }
                            },
                            None => {
                                self.phase = ParsePhase::Finished;
                                ParseStep {
                                    say: Vec::new(),
                                    request: ParseRequest::Finish(
                                        Err(Error::Parse("max attempts exhausted".to_string())),
                                    ),
                                }
                            },
                        }
                    },
                },
            },
        }
    }
}

} // verus!
