//! What the form checks and shows for one field: enum shortcuts, yes/no
//! answers, times and datetimes, offset expressions, string constraints,
//! hints and prompts.
use vstd::prelude::*;

use crate::error::Error;
use crate::ports::Style;
use crate::text::{
    byte_prefix, byte_prefix_len, chars_of, utf8_len, utf8_len_below, utf8_len_capped, decimal, find_char, is_whitespace, is_ws, lowercase,
    parse_usize, push_char, push_decimal, push_str, str_eq, string_of, to_lowercase,
    unsigned_text, views,
};

verus! {

// ── Styled text ───────────────────────────────────────────────────────────────

/// Text made of pieces, each painted in a style or left plain.
#[derive(Debug)]
pub struct Styled {
    pub parts: Vec<(Option<Style>, String)>,
}

pub open spec fn styled_view(s: Styled) -> Seq<(Option<Style>, Seq<char>)> {
    s.parts@.map_values(|p: (Option<Style>, String)| (p.0, p.1@))
}

/// One piece of text in one style.
pub fn painted(style: Style, text: String) -> (s: Styled)
    ensures
        styled_view(s) == seq![(Some(style), text@)],
{
    let mut parts: Vec<(Option<Style>, String)> = Vec::new();
    let ghost t = text@;
    parts.push((Some(style), text));
    let s = Styled { parts };
    assert(styled_view(s) == seq![(Some(style), t)]);
    s
}

pub open spec fn marker(required: bool) -> Seq<char> {
    if required {
        " *"@
    } else {
        ""@
    }
}

/// `"[1/8] name *"`: the header line for arrays, objects and datetimes.
pub open spec fn name_line_view(prefix: Seq<char>, name: Seq<char>, required: bool) -> Seq<
    (Option<Style>, Seq<char>),
> {
    seq![(Some(Style::Hint), prefix), (Some(Style::Field), name + marker(required))]
}

pub fn name_line(prefix: &str, name: &str, required: bool) -> (s: Styled)
    ensures
        styled_view(s) == name_line_view(prefix@, name@, required),
{
    let mut head = name.to_string();
    if required {
        push_str(&mut head, " *");
    } else {
        proof {
            reveal_strlit("");
            assert(head@ + ""@ =~= head@);
        }
    }
    let mut parts: Vec<(Option<Style>, String)> = Vec::new();
    let ghost hv = head@;
    parts.push((Some(Style::Hint), prefix.to_string()));
    parts.push((Some(Style::Field), head));
    let s = Styled { parts };
    assert(styled_view(s) =~= name_line_view(prefix@, name@, required));
    s
}

/// `"[1/8] name *  (hint)\n  > "`: the read prompt for scalar fields.
pub open spec fn field_prompt_view(
    prefix: Seq<char>,
    name: Seq<char>,
    required: bool,
    hint: Seq<char>,
) -> Seq<(Option<Style>, Seq<char>)> {
    seq![(Some(Style::Hint), prefix), (Some(Style::Field), name + marker(required))] + (if hint.len()
        == 0 {
        seq![]
    } else {
        seq![(Some(Style::Hint), hint)]
    }) + seq![(None, "\n  "@), (Some(Style::Prompt), "> "@)]
}

pub fn field_prompt(prefix: &str, name: &str, required: bool, hint: &str) -> (s: Styled)
    ensures
        styled_view(s) == field_prompt_view(prefix@, name@, required, hint@),
{
    let mut s = name_line(prefix, name, required);
    let ghost first = styled_view(s);
    if !str_eq(hint, "") {
        s.parts.push((Some(Style::Hint), hint.to_string()));
    }
    s.parts.push((None, "\n  ".to_string()));
    s.parts.push((Some(Style::Prompt), "> ".to_string()));
    proof {
        reveal_strlit("");
        if hint@.len() == 0 {
            assert(hint@ =~= ""@);
        }
        assert(styled_view(s) =~= field_prompt_view(prefix@, name@, required, hint@));
    }
    s
}

// ── Enum shortcut, booleans, times ────────────────────────────────────────────

/// A numeric shortcut (`"2"`) picks that option of `vals`; anything else is
/// kept as typed.
pub open spec fn resolved_enum(input: Seq<char>, vals: Option<Seq<Seq<char>>>) -> Seq<char> {
    match vals {
        Some(vs) => match unsigned_text(input) {
            Some(n) => if n <= usize::MAX && 1 <= n <= vs.len() {
                vs[n - 1]
            } else {
                input
            },
            None => input,
        },
        None => input,
    }
}

/// Map a numeric enum shortcut (`"2"`) to its option; otherwise `input`.
pub fn resolve_enum(input: &str, enum_vals: Option<&Vec<String>>) -> (r: String)
    ensures
        r@ == resolved_enum(
            input@,
            match enum_vals {
                Some(v) => Some(views(v@)),
                None => None,
            },
        ),
{
    match enum_vals {
        Some(vals) => {
            match parse_usize(input) {
                Some(n) => {
                    if 1 <= n && n <= vals.len() {
                        return vals[n - 1].clone();
                    }
                },
                None => {},
            }
            input.to_string()
        },
        None => input.to_string(),
    }
}

/// The answer a yes/no text gives, ignoring case.
pub open spec fn bool_answer(s: Seq<char>) -> Option<bool> {
    let l = lowercase(s);
    if l == "y"@ || l == "yes"@ || l == "true"@ || l == "1"@ {
        Some(true)
    } else if l == "n"@ || l == "no"@ || l == "false"@ || l == "0"@ {
        Some(false)
    } else {
        None
    }
}

pub fn parse_bool(s: &str) -> (r: Option<bool>)
    ensures
        r == bool_answer(s@),
{
    let l = to_lowercase(s);
    let t = l.as_str();
    if str_eq(t, "y") || str_eq(t, "yes") || str_eq(t, "true") || str_eq(t, "1") {
        Some(true)
    } else if str_eq(t, "n") || str_eq(t, "no") || str_eq(t, "false") || str_eq(t, "0") {
        Some(false)
    } else {
        None
    }
}

/// `"HH:MM"` (five bytes) becomes `"HH:MM:00"`; anything else is unchanged.
pub open spec fn normalized_time(t: Seq<char>) -> Seq<char> {
    if utf8_len(t) == 5 {
        t + ":00"@
    } else {
        t
    }
}

pub fn normalize_time(t: &str) -> (r: String)
    ensures
        r@ == normalized_time(t@),
{
    let mut r = t.to_string();
    if utf8_len_capped(&chars_of(t), 6) == 5 {
        push_str(&mut r, ":00");
    }
    r
}

/// At least 19 bytes with `T` at byte 10 (an ASCII byte in UTF-8 is always
/// the whole of one character).
pub open spec fn datetime_like(s: Seq<char>) -> bool {
    utf8_len(s) >= 19 && match byte_prefix(s, 10) {
        Some(p) => p.len() < s.len() && s[p.len() as int] == 'T',
        None => false,
    }
}

/// Minimal datetime check: at least 19 bytes with `T` at position 10.
pub fn looks_like_datetime(s: &str) -> (r: bool)
    ensures
        r == datetime_like(s@),
{
    let v = chars_of(s);
    if utf8_len_capped(&v, 19) < 19 {
        return false;
    }
    match byte_prefix_len(&v, 10) {
        Some(k) => {
            proof {
                crate::text::lemma_byte_prefix_prefix(v@, 10);
            }
            k < v.len() && v[k] == 'T'
        },
        None => false,
    }
}

// ── Whitespace-separated words ────────────────────────────────────────────────

/// The words of `s`, scanning from the left with the word `cur` under way
/// and the finished words `acc`.
pub open spec fn words_from(s: Seq<char>, cur: Seq<char>, acc: Seq<Seq<char>>) -> Seq<Seq<char>>
    decreases s.len(),
{
    if s.len() == 0 {
        if cur.len() > 0 {
            acc.push(cur)
        } else {
            acc
        }
    } else if is_ws(s[0]) {
        words_from(s.drop_first(), seq![], if cur.len() > 0 {
            acc.push(cur)
        } else {
            acc
        })
    } else {
        words_from(s.drop_first(), cur.push(s[0]), acc)
    }
}

/// The whitespace-separated words of `s` (`str::split_whitespace`).
pub open spec fn words(s: Seq<char>) -> Seq<Seq<char>> {
    words_from(s, seq![], seq![])
}

/// `str::split_whitespace`.
pub fn split_words(s: &str) -> (r: Vec<String>)
    ensures
        views(r@) == words(s@),
{
    let v = chars_of(s);
    let mut out: Vec<String> = Vec::new();
    let mut cur = String::new();
    let mut i: usize = 0;
    assert(v@.skip(0) == v@);
    assert(views(out@) =~= Seq::<Seq<char>>::empty());
    assert(cur@ =~= Seq::<char>::empty());
    while i < v.len()
        invariant
            i <= v@.len(),
            v@ == s@,
            words(s@) == words_from(v@.skip(i as int), cur@, views(out@)),
        decreases v.len() - i,
    {
        assert(v@.skip(i as int).drop_first() == v@.skip(i + 1));
        assert(v@.skip(i as int)[0] == v@[i as int]);
        if is_whitespace(v[i]) {
            if !cur.as_str().is_empty() {
                let w = cur;
                assert(views(out@.push(w)) == views(out@).push(w@));
                out.push(w);
            }
            cur = String::new();
        } else {
            push_char(&mut cur, v[i]);
        }
        i += 1;
    }
    assert(v@.skip(i as int).len() == 0);
    if !cur.as_str().is_empty() {
        assert(views(out@.push(cur)) == views(out@).push(cur@));
        out.push(cur);
    }
    out
}

/// A word of an offset expression: `now`, or one that starts with a sign.
pub open spec fn offset_word(w: Seq<char>) -> bool {
    w == "now"@ || (w.len() > 0 && (w[0] == '+' || w[0] == '-'))
}

/// Every word is `now` or a signed offset, and there is at least one.
pub open spec fn offset_expr(s: Seq<char>) -> bool {
    let ws = words(s);
    ws.len() > 0 && forall|k: int| 0 <= k < ws.len() ==> offset_word(#[trigger] ws[k])
}

/// True when every whitespace-separated token is `now` or a signed offset
/// (`+1d`, `-2h`); empty input is not an offset expression.
pub fn looks_like_offset_expr(s: &str) -> (r: bool)
    ensures
        r == offset_expr(s@),
{
    let ws = split_words(s);
    if ws.len() == 0 {
        return false;
    }
    let mut k: usize = 0;
    while k < ws.len()
        invariant
            k <= ws@.len(),
            views(ws@) == words(s@),
            forall|j: int| 0 <= j < k ==> offset_word(#[trigger] words(s@)[j]),
        decreases ws.len() - k,
    {
        let w = ws[k].as_str();
        let ok = str_eq(w, "now") || {
            let cv = chars_of(w);
            cv.len() > 0 && (cv[0] == '+' || cv[0] == '-')
        };
        assert(words(s@)[k as int] == ws@[k as int]@);
        if !ok {
            return false;
        }
        k += 1;
    }
    true
}

// ── Datetime text ─────────────────────────────────────────────────────────────

/// The clock's `"YYYY-MM-DD HH:MM:SS"` with the space (when it is the first
/// space and sits at byte 10) turned into `T`; anything else unchanged.
pub open spec fn datetime_form(ts: Seq<char>) -> Seq<char> {
    match find_char(ts, ' ') {
        Some(i) => if byte_prefix(ts, 10) == Some(ts.take(i)) {
            ts.take(i) + "T"@ + ts.skip(i + 1)
        } else {
            ts
        },
        None => ts,
    }
}

/// Convert the clock's `"YYYY-MM-DD HH:MM:SS"` to the schema's `T`-separated
/// datetime form. Anything else (e.g. a clock failure string) is left as is.
pub fn to_datetime_format(ts: &str) -> (r: String)
    ensures
        r@ == datetime_form(ts@),
{
    let v = chars_of(ts);
    let mut i: usize = 0;
    while i < v.len() && v[i] != ' '
        invariant
            i <= v@.len(),
            v@ == ts@,
            forall|j: int| 0 <= j < i ==> v@[j] != ' ',
        decreases v.len() - i,
    {
        i += 1;
    }
    if i == v.len() {
        proof {
            crate::text::lemma_find_char_none(v@, ' ');
        }
        return ts.to_string();
    }
    proof {
        crate::text::lemma_find_char_at(v@, ' ', i as int);
    }
    match byte_prefix_len(&v, 10) {
        Some(k) => {
            if k == i {
                let mut r = string_of(&v, 0, i);
                push_str(&mut r, "T");
                let rest = string_of(&v, i + 1, v.len());
                push_str(&mut r, rest.as_str());
                assert(v@.subrange(0, i as int) == ts@.take(i as int));
                assert(v@.subrange(i + 1, v@.len() as int) == ts@.skip(i + 1));
                r
            } else {
                proof {
                    if byte_prefix(ts@, 10) == Some(ts@.take(i as int)) {
                        assert(v@.take(k as int).len() == ts@.take(i as int).len());
                    }
                }
                ts.to_string()
            }
        },
        None => ts.to_string(),
    }
}

/// The prefill for a datetime field, from the clock's timestamp.
pub fn current_datetime_prefill(timestamp: &str) -> (r: String)
    ensures
        r@ == datetime_form(timestamp@),
{
    to_datetime_format(timestamp)
}

// ── Patterns ──────────────────────────────────────────────────────────────────

/// A compiled regular expression (`regex::Regex`).
#[verifier::external_type_specification]
#[verifier::external_body]
pub struct ExRegex(regex::Regex);

/// Whether `regex::Regex::new` accepts `pattern`.
pub uninterp spec fn pattern_compiles(pattern: Seq<char>) -> bool;

/// The message of the error `regex::Regex::new` gives for `pattern`.
pub uninterp spec fn pattern_error(pattern: Seq<char>) -> Seq<char>;

/// Whether the regular expression `pattern` matches somewhere in `input`
/// (`Regex::is_match`).
pub uninterp spec fn pattern_accepts(pattern: Seq<char>, input: Seq<char>) -> bool;

/// A regular expression together with the pattern it was compiled from.
#[derive(Debug)]
pub struct Pattern {
    source: String,
    re: regex::Regex,
}

impl Pattern {
    pub closed spec fn source(&self) -> Seq<char> {
        self.source@
    }
}

/// `regex::Regex::new`: the compiled pattern, or the compiler's message.
#[verifier::external_body]
pub(crate) fn compile_pattern(pattern: &str) -> (r: Result<Pattern, String>)
    ensures
        r is Ok == pattern_compiles(pattern@),
        r matches Ok(p) ==> p.source() == pattern@,
        r matches Err(m) ==> m@ == pattern_error(pattern@),
{
    regex::Regex::new(pattern).map(|re| Pattern { source: pattern.to_string(), re }).map_err(
        |e| e.to_string(),
    )
}

/// `Regex::is_match`.
#[verifier::external_body]
pub(crate) fn pattern_matches(p: &Pattern, input: &str) -> (b: bool)
    ensures
        b == pattern_accepts(p.source(), input@),
{
    p.re.is_match(input)
}

/// Compile `pattern` and test it against `input`; `Err` when the pattern
/// itself is invalid (a schema bug).
pub fn validate_pattern(input: &str, pattern: &str) -> (r: Result<bool, String>)
    ensures
        pattern_compiles(pattern@) ==> r == Ok::<bool, String>(pattern_accepts(pattern@, input@)),
        !pattern_compiles(pattern@) ==> (r matches Err(m) && m@ == pattern_error(pattern@)),
{
    match compile_pattern(pattern) {
        Ok(p) => Ok(pattern_matches(&p, input)),
        Err(m) => Err(m),
    }
}

// ── Hints and string constraints ──────────────────────────────────────────────

pub open spec fn join_with(xs: Seq<Seq<char>>, sep: Seq<char>) -> Seq<char>
    decreases xs.len(),
{
    if xs.len() == 0 {
        seq![]
    } else if xs.len() == 1 {
        xs[0]
    } else {
        join_with(xs.drop_last(), sep) + sep + xs.last()
    }
}

pub fn join_texts(xs: &Vec<String>, sep: &str) -> (r: String)
    ensures
        r@ == join_with(views(xs@), sep@),
{
    let ghost xv = views(xs@);
    let mut r = String::new();
    let mut i: usize = 0;
    while i < xs.len()
        invariant
            i <= xs@.len(),
            xv == views(xs@),
            r@ == join_with(xv.take(i as int), sep@),
        decreases xs.len() - i,
    {
        if i > 0 {
            push_str(&mut r, sep);
        }
        push_str(&mut r, xs[i].as_str());
        proof {
            assert(xv.take(i + 1).drop_last() == xv.take(i as int));
            assert(xv.take(i + 1).last() == xs@[i as int]@);
            if i == 0 {
                assert(xv.take(1)[0] == xs@[0]@);
            }
        }
        i += 1;
    }
    assert(xv.take(xs@.len() as int) == xv);
    r
}

pub open spec fn opt_seq(o: Option<&str>) -> Option<Seq<char>> {
    match o {
        Some(s) => Some(s@),
        None => None,
    }
}

/// The hint pieces shown next to a field prompt.
pub open spec fn hint_items(
    format: Option<Seq<char>>,
    pattern: Option<Seq<char>>,
    minimum: Option<Seq<char>>,
    maximum: Option<Seq<char>>,
    enum_vals: Option<Seq<Seq<char>>>,
    required: bool,
) -> Seq<Seq<char>> {
    (match format {
        Some(f) => seq!["format: "@ + f],
        None => seq![],
    }) + (match pattern {
        Some(p) => seq!["pattern: "@ + p],
        None => seq![],
    }) + (match minimum {
        Some(m) => seq!["min: "@ + m],
        None => seq![],
    }) + (match maximum {
        Some(m) => seq!["max: "@ + m],
        None => seq![],
    }) + (match enum_vals {
        Some(vs) => seq!["one of: "@ + join_with(vs, " | "@)],
        None => seq![],
    }) + (if required {
        seq![]
    } else {
        seq!["optional"@]
    })
}

/// The inline hint: `" (a, b, ...)"`, or empty when there is nothing to say.
pub open spec fn hint_text(items: Seq<Seq<char>>) -> Seq<char> {
    if items.len() == 0 {
        seq![]
    } else {
        " ("@ + join_with(items, ", "@) + ")"@
    }
}

fn push_item(items: &mut Vec<String>, a: &str, b: &str)
    ensures
        views(final(items)@) == views(old(items)@).push(a@ + b@),
{
    let mut s = String::new();
    push_str(&mut s, a);
    push_str(&mut s, b);
    items.push(s);
    assert(views(items@) == views(old(items)@).push(a@ + b@));
}

/// The inline hint shown next to a field prompt; `minimum` and `maximum` are
/// the bounds as they are displayed.
pub fn build_hint(
    format: Option<&str>,
    pattern: Option<&str>,
    minimum: Option<&str>,
    maximum: Option<&str>,
    enum_vals: Option<&Vec<String>>,
    required: bool,
) -> (r: String)
    ensures
        r@ == hint_text(
            hint_items(
                opt_seq(format),
                opt_seq(pattern),
                opt_seq(minimum),
                opt_seq(maximum),
                match enum_vals {
                    Some(v) => Some(views(v@)),
                    None => None,
                },
                required,
            ),
        ),
{
    let mut items: Vec<String> = Vec::new();
    match format {
        Some(f) => push_item(&mut items, "format: ", f),
        None => {},
    }
    let ghost a = views(items@);
    match pattern {
        Some(p) => push_item(&mut items, "pattern: ", p),
        None => {},
    }
    let ghost b = views(items@);
    match minimum {
        Some(m) => push_item(&mut items, "min: ", m),
        None => {},
    }
    let ghost c = views(items@);
    match maximum {
        Some(m) => push_item(&mut items, "max: ", m),
        None => {},
    }
    let ghost d = views(items@);
    match enum_vals {
        Some(vs) => {
            let j = join_texts(vs, " | ");
            push_item(&mut items, "one of: ", j.as_str());
        },
        None => {},
    }
    let ghost e = views(items@);
    if !required {
        push_item(&mut items, "optional", "");
        proof {
            reveal_strlit("");
            assert("optional"@ + ""@ =~= "optional"@);
        }
    }
    assert(views(items@) =~= hint_items(
        opt_seq(format),
        opt_seq(pattern),
        opt_seq(minimum),
        opt_seq(maximum),
        match enum_vals {
            Some(v) => Some(views(v@)),
            None => None,
        },
        required,
    ));
    if items.len() == 0 {
        String::new()
    } else {
        let mut r = String::new();
        push_str(&mut r, " (");
        let j = join_texts(&items, ", ");
        push_str(&mut r, j.as_str());
        push_str(&mut r, ")");
        r
    }
}

/// Whether `x` is among `xs`.
pub fn contains_text(xs: &Vec<String>, x: &str) -> (b: bool)
    ensures
        b == views(xs@).contains(x@),
{
    let mut i: usize = 0;
    while i < xs.len()
        invariant
            i <= xs@.len(),
            forall|k: int| 0 <= k < i ==> xs@[k]@ != x@,
        decreases xs.len() - i,
    {
        if str_eq(xs[i].as_str(), x) {
            assert(views(xs@)[i as int] == x@);
            return true;
        }
        i += 1;
    }
    proof {
        if views(xs@).contains(x@) {
            let k = choose|k: int| 0 <= k < views(xs@).len() && views(xs@)[k] == x@;
            assert(xs@[k]@ == x@);
        }
    }
    false
}

/// What a string answer violates, first to last: the minimum length in
/// bytes, the pattern, the allowed values, the datetime format.
pub open spec fn string_check(
    input: Seq<char>,
    min_length: Option<u64>,
    pattern: Option<Seq<char>>,
    enum_vals: Option<Seq<Seq<char>>>,
    format: Option<Seq<char>>,
) -> Result<Option<Seq<char>>, Seq<char>> {
    if min_length matches Some(n) && utf8_len(input) < n {
        Ok(Some("Must be at least "@ + decimal(min_length->0 as nat) + " character(s)."@))
    } else if pattern matches Some(p) && !pattern_compiles(p) {
        Err("Invalid schema pattern '"@ + pattern->0 + "': "@ + pattern_error(pattern->0))
    } else if pattern matches Some(p) && !pattern_accepts(p, input) {
        Ok(Some("Does not match required pattern: "@ + pattern->0))
    } else if enum_vals matches Some(vs) && !vs.contains(input) {
        Ok(Some("Must be one of: "@ + join_with(enum_vals->0, ", "@)))
    } else if format == Some("datetime"@) && !datetime_like(input) {
        Ok(Some("Expected datetime format: YYYY-MM-DDTHH:MM:SS"@))
    } else {
        Ok(None)
    }
}

/// Validate a string answer against the schema's constraints: `Ok(None)`
/// when valid, `Ok(Some(message))` to show and ask again, `Err` when the
/// schema itself is broken (an invalid pattern).
pub fn validate_string_input(
    input: &str,
    min_length: Option<u64>,
    pattern: Option<&str>,
    enum_vals: Option<&Vec<String>>,
    format: Option<&str>,
) -> (r: Result<Option<String>, Error>)
    ensures
        match string_check(
            input@,
            min_length,
            opt_seq(pattern),
            match enum_vals {
                Some(v) => Some(views(v@)),
                None => None,
            },
            opt_seq(format),
        ) {
            Ok(None) => r matches Ok(None),
            Ok(Some(m)) => r matches Ok(Some(t)) && t@ == m,
            Err(m) => r matches Err(Error::Parse(t)) && t@ == m,
        },
{
    match min_length {
        Some(n) => {
            if utf8_len_below(&chars_of(input), n) {
                let mut m = String::new();
                push_str(&mut m, "Must be at least ");
                push_decimal(&mut m, n);
                push_str(&mut m, " character(s).");
                return Ok(Some(m));
            }
        },
        None => {},
    }
    match pattern {
        Some(p) => match compile_pattern(p) {
            Err(e) => {
                let mut m = String::new();
                push_str(&mut m, "Invalid schema pattern '");
                push_str(&mut m, p);
                push_str(&mut m, "': ");
                push_str(&mut m, e.as_str());
                return Err(Error::Parse(m));
            },
            Ok(re) => {
                if !pattern_matches(&re, input) {
                    let mut m = String::new();
                    push_str(&mut m, "Does not match required pattern: ");
                    push_str(&mut m, p);
                    return Ok(Some(m));
                }
            },
        },
        None => {},
    }
    match enum_vals {
        Some(vals) => {
            if !contains_text(vals, input) {
                let mut m = String::new();
                push_str(&mut m, "Must be one of: ");
                let j = join_texts(vals, ", ");
                push_str(&mut m, j.as_str());
                return Ok(Some(m));
            }
        },
        None => {},
    }
    let is_datetime = match format {
        Some(f) => str_eq(f, "datetime"),
        None => false,
    };
    if is_datetime && !looks_like_datetime(input) {
        return Ok(Some("Expected datetime format: YYYY-MM-DDTHH:MM:SS".to_string()));
    }
    Ok(None)
}

} // verus!
