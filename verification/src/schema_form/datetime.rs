//! Datetime entry: the prefilled current time, component edits and offset
//! expressions like `+1d -2h +30m`.
use vstd::prelude::*;

use crate::error::Error;
use crate::ports::Style;
use crate::schema_form::fields::{
    datetime_form, datetime_like, looks_like_datetime, looks_like_offset_expr, normalize_time,
    normalized_time, offset_expr, painted, split_words, styled_view, to_datetime_format, words,
    Styled,
};
use crate::text::{
    byte_prefix, byte_prefix_len, chars_of, parse_i64, push_str, signed_text, str_eq, string_of,
    views,
};

verus! {

// ── The `time` crate ──────────────────────────────────────────────────────────

/// A calendar date and time of day.
#[verifier::external_type_specification]
#[verifier::external_body]
pub struct ExDateTime(time::PrimitiveDateTime);

/// A signed span of time.
#[verifier::external_type_specification]
#[verifier::external_body]
pub struct ExDuration(time::Duration);

/// A parsed format description.
#[verifier::external_type_specification]
#[verifier::external_body]
pub struct ExFormatItem(time::format_description::OwnedFormatItem);

/// A parsed format description, viewed as the description it was read from.
pub struct Layout {
    item: time::format_description::OwnedFormatItem,
    description: Ghost<Seq<char>>,
}

impl View for Layout {
    type V = Seq<char>;

    closed spec fn view(&self) -> Seq<char> {
        self.description@
    }
}

/// Where a datetime comes from: a text read with a layout, or another
/// datetime shifted by a number of seconds.
pub enum MomentOrigin {
    Parsed(Seq<char>, Seq<char>),
    Shifted(Box<MomentOrigin>, int),
}

/// A datetime, viewed as where it comes from. Reading the same text with the
/// same layout, or shifting the same datetime by the same span, gives the
/// same datetime, so every question below about it is one about its origin.
pub struct Moment {
    value: time::PrimitiveDateTime,
    origin: Ghost<MomentOrigin>,
}

impl View for Moment {
    type V = MomentOrigin;

    closed spec fn view(&self) -> MomentOrigin {
        self.origin@
    }
}

/// A span of time, viewed as its number of seconds.
pub struct Span {
    value: time::Duration,
    seconds: Ghost<int>,
}

impl View for Span {
    type V = int;

    closed spec fn view(&self) -> int {
        self.seconds@
    }
}

/// Whether `time::format_description::parse_owned` refuses `description`,
/// with its message.
pub uninterp spec fn layout_refusal(description: Seq<char>) -> Option<Seq<char>>;

/// `time::format_description::parse_owned` (version 1 syntax).
#[verifier::external_body]
fn layout(description: &str) -> (r: Result<Layout, String>)
    ensures
        match layout_refusal(description@) {
            None => r matches Ok(l) && l@ == description@,
            Some(m) => r matches Err(e) && e@ == m,
        },
{
    match time::format_description::parse_owned::<1>(description) {
        Ok(item) => Ok(Layout { item, description: Ghost(description@) }),
        Err(e) => Err(e.to_string()),
    }
}

/// Whether `PrimitiveDateTime::parse` refuses `text` under the layout read
/// from `layout`, with its message.
pub uninterp spec fn datetime_refusal(text: Seq<char>, layout: Seq<char>) -> Option<Seq<char>>;

/// `PrimitiveDateTime::parse`; the parser's message on failure.
#[verifier::external_body]
fn parse_with(s: &str, layout: &Layout) -> (r: Result<Moment, String>)
    ensures
        match datetime_refusal(s@, layout@) {
            None => r matches Ok(m) && m@ == MomentOrigin::Parsed(s@, layout@),
            Some(m) => r matches Err(e) && e@ == m,
        },
{
    match time::PrimitiveDateTime::parse(s, &layout.item) {
        Ok(value) => Ok(Moment { value, origin: Ghost(MomentOrigin::Parsed(s@, layout.description@)) }),
        Err(e) => Err(e.to_string()),
    }
}

/// `Duration::seconds`: a span of exactly `n` seconds.
#[verifier::external_body]
fn seconds(n: i64) -> (d: Span)
    ensures
        d@ == n,
{
    Span { value: time::Duration::seconds(n), seconds: Ghost(n as int) }
}

/// Whether shifting the datetime `m` by `secs` seconds stays in the range
/// `PrimitiveDateTime` holds.
pub uninterp spec fn shift_fits(m: MomentOrigin, secs: int) -> bool;

/// `PrimitiveDateTime::checked_add`: `None` when the result is out of range.
#[verifier::external_body]
fn checked_shift(dt: Moment, d: Span) -> (r: Option<Moment>)
    ensures
        match r {
            Some(x) => shift_fits(dt@, d@) && x@ == MomentOrigin::Shifted(Box::new(dt@), d@),
            None => !shift_fits(dt@, d@),
        },
{
    match dt.value.checked_add(d.value) {
        Some(value) => Some(
            Moment { value, origin: Ghost(MomentOrigin::Shifted(Box::new(dt.origin@), d.seconds@)) },
        ),
        None => None,
    }
}

/// What `PrimitiveDateTime::format` writes for the datetime `m` under the
/// layout read from `layout`, or the formatter's message.
pub uninterp spec fn formatted(m: MomentOrigin, layout: Seq<char>) -> Result<Seq<char>, Seq<char>>;

/// `PrimitiveDateTime::format`; the formatter's message on failure.
#[verifier::external_body]
fn format_with(dt: &Moment, layout: &Layout) -> (r: Result<String, String>)
    ensures
        match formatted(dt@, layout@) {
            Ok(t) => r matches Ok(s) && s@ == t,
            Err(m) => r matches Err(e) && e@ == m,
        },
{
    dt.value.format(&layout.item).map_err(|e| e.to_string())
}

// ── Offsets ───────────────────────────────────────────────────────────────────

/// One word of an offset expression: back to `now`, or a shift in seconds.
#[derive(Debug, PartialEq, Eq, Structural)]
pub enum OffsetStep {
    Now,
    Shift(i64),
}

/// Seconds per unit: `d`, `h`, `m`, `s`.
pub open spec fn unit_seconds(u: Seq<char>) -> Option<int> {
    if u == seq!['d'] {
        Some(86400)
    } else if u == seq!['h'] {
        Some(3600)
    } else if u == seq!['m'] {
        Some(60)
    } else if u == seq!['s'] {
        Some(1)
    } else {
        None
    }
}

pub open spec fn quoted(t: Seq<char>) -> Seq<char> {
    "'"@ + t + "'"@
}

pub open spec fn in_i64(x: int) -> bool {
    i64::MIN <= x <= i64::MAX
}

/// What one word of an offset expression means: `Ok(None)` for `now`,
/// `Ok(Some(seconds))` for a signed count of a unit (the last character),
/// or the message of the error.
pub open spec fn offset_step_of(token: Seq<char>) -> Result<Option<int>, Seq<char>> {
    if token == "now"@ {
        Ok(None)
    } else if token.len() > 0 && (token[0] == '+' || token[0] == '-') {
        let sign: int = if token[0] == '+' {
            1
        } else {
            -1
        };
        let rest = token.drop_first();
        let num = if rest.len() == 0 {
            rest
        } else {
            rest.drop_last()
        };
        let unit = if rest.len() == 0 {
            rest
        } else {
            seq![rest.last()]
        };
        match signed_text(num) {
            Some(n) => if !in_i64(n) {
                Err("Invalid offset token: "@ + quoted(token))
            } else if !in_i64(n * sign) {
                Err("Offset out of range: "@ + quoted(token))
            } else {
                match unit_seconds(unit) {
                    Some(k) => if in_i64(n * sign * k) {
                        Ok(Some(n * sign * k))
                    } else {
                        Err("Offset out of range: "@ + quoted(token))
                    },
                    None => Err("Unknown unit in "@ + quoted(token) + " — use d, h, m, s"@),
                }
            },
            None => Err("Invalid offset token: "@ + quoted(token)),
        }
    } else {
        Err("Unrecognised offset token: "@ + quoted(token))
    }
}

/// The value of a sign character: `+` forwards, `-` back.
pub open spec fn sign_of(sign: char) -> int {
    if sign == '+' {
        1
    } else {
        -1
    }
}

proof fn lemma_offset_token_parts(sign: char, num: Seq<char>, u: char)
    requires
        sign == '+' || sign == '-',
    ensures
        ({
            let t = seq![sign] + num + seq![u];
            &&& t != "now"@
            &&& t.len() > 0 && t[0] == sign
            &&& t.drop_first().len() > 0
            &&& t.drop_first().drop_last() == num
            &&& seq![t.drop_first().last()] == seq![u]
        }),
{
    reveal_strlit("now");
    let t = seq![sign] + num + seq![u];
    assert(t[0] == sign);
    assert("now"@[0] == 'n');
    assert(t.drop_first() =~= num + seq![u]);
    assert((num + seq![u]).drop_last() =~= num);
}

/// Each unit is worth its seconds: `±Nd`, `±Nh`, `±Nm`, `±Ns` shift by N
/// days, hours, minutes and seconds (86400, 3600, 60 and 1 seconds), forward
/// for `+` and back for `-`; so `+1m` shifts exactly as `+60s`.
pub proof fn lemma_offset_units(sign: char, num: Seq<char>, n: int)
    requires
        sign == '+' || sign == '-',
        signed_text(num) == Some(n),
    ensures
        in_i64(n * 86400) && in_i64(-n * 86400) ==> offset_step_of(seq![sign] + num + seq!['d'])
            == Ok::<Option<int>, Seq<char>>(Some(sign_of(sign) * n * 86400)),
        in_i64(n * 3600) && in_i64(-n * 3600) ==> offset_step_of(seq![sign] + num + seq!['h'])
            == Ok::<Option<int>, Seq<char>>(Some(sign_of(sign) * n * 3600)),
        in_i64(n * 60) && in_i64(-n * 60) ==> offset_step_of(seq![sign] + num + seq!['m'])
            == Ok::<Option<int>, Seq<char>>(Some(sign_of(sign) * n * 60)),
        in_i64(n) && in_i64(-n) ==> offset_step_of(seq![sign] + num + seq!['s'])
            == Ok::<Option<int>, Seq<char>>(Some(sign_of(sign) * n)),
{
    reveal_strlit("now");
    assert(seq!['d'] != seq!['h'] && seq!['d'] != seq!['m'] && seq!['d'] != seq!['s']) by {
        assert(seq!['d'][0] != seq!['h'][0]);
        assert(seq!['d'][0] != seq!['m'][0]);
        assert(seq!['d'][0] != seq!['s'][0]);
    }
    assert(seq!['h'] != seq!['m'] && seq!['h'] != seq!['s'] && seq!['m'] != seq!['s']) by {
        assert(seq!['h'][0] != seq!['m'][0]);
        assert(seq!['h'][0] != seq!['s'][0]);
        assert(seq!['m'][0] != seq!['s'][0]);
    }
    lemma_offset_token_parts(sign, num, 'd');
    lemma_offset_token_parts(sign, num, 'h');
    lemma_offset_token_parts(sign, num, 'm');
    lemma_offset_token_parts(sign, num, 's');
    if sign == '+' {
        assert(n * 1 == n);
    } else {
        assert(n * -1 == -n);
    }
    assert(n * sign_of(sign) * 86400 == sign_of(sign) * n * 86400) by (nonlinear_arith);
    assert(n * sign_of(sign) * 3600 == sign_of(sign) * n * 3600) by (nonlinear_arith);
    assert(n * sign_of(sign) * 60 == sign_of(sign) * n * 60) by (nonlinear_arith);
    assert(n * sign_of(sign) * 1 == sign_of(sign) * n) by (nonlinear_arith);
    assert(in_i64(n * 86400) && in_i64(-n * 86400) ==> in_i64(n) && in_i64(n * sign_of(sign)) && in_i64(
        n * sign_of(sign) * 86400,
    )) by (nonlinear_arith)
        requires
            sign_of(sign) == 1 || sign_of(sign) == -1,
    ;
    assert(in_i64(n * 3600) && in_i64(-n * 3600) ==> in_i64(n) && in_i64(n * sign_of(sign)) && in_i64(
        n * sign_of(sign) * 3600,
    )) by (nonlinear_arith)
        requires
            sign_of(sign) == 1 || sign_of(sign) == -1,
    ;
    assert(in_i64(n * 60) && in_i64(-n * 60) ==> in_i64(n) && in_i64(n * sign_of(sign)) && in_i64(
        n * sign_of(sign) * 60,
    )) by (nonlinear_arith)
        requires
            sign_of(sign) == 1 || sign_of(sign) == -1,
    ;
    assert(in_i64(n) && in_i64(-n) ==> in_i64(n * sign_of(sign)) && in_i64(n * sign_of(sign) * 1))
        by (nonlinear_arith)
        requires
            sign_of(sign) == 1 || sign_of(sign) == -1,
    ;
}

fn quoted_error(head: &str, token: &str, tail: &str) -> (e: Error)
    ensures
        e matches Error::Parse(m) && m@ == head@ + quoted(token@) + tail@,
{
    let mut m = String::new();
    push_str(&mut m, head);
    push_str(&mut m, "'");
    push_str(&mut m, token);
    push_str(&mut m, "'");
    push_str(&mut m, tail);
    proof {
        assert(head@ + "'"@ + token@ + "'"@ + tail@ =~= head@ + quoted(token@) + tail@);
    }
    Error::Parse(m)
}

/// Read one word of an offset expression.
pub fn offset_step(token: &str) -> (r: Result<OffsetStep, Error>)
    ensures
        match offset_step_of(token@) {
            Ok(None) => r == Ok::<OffsetStep, Error>(OffsetStep::Now),
            Ok(Some(s)) => r matches Ok(OffsetStep::Shift(t)) && t == s,
            Err(m) => r matches Err(Error::Parse(t)) && t@ == m,
        },
{
    proof {
        reveal_strlit("");
        reveal_strlit("d");
        reveal_strlit("h");
        reveal_strlit("m");
        reveal_strlit("s");
        assert("d"@ =~= seq!['d']);
        assert("h"@ =~= seq!['h']);
        assert("m"@ =~= seq!['m']);
        assert("s"@ =~= seq!['s']);
    }
    if str_eq(token, "now") {
        return Ok(OffsetStep::Now);
    }
    let v = chars_of(token);
    if !(v.len() > 0 && (v[0] == '+' || v[0] == '-')) {
        return Err(quoted_error("Unrecognised offset token: ", token, ""));
    }
    let sign: i64 = if v[0] == '+' {
        1
    } else {
        -1
    };
    let ghost rest = token@.drop_first();
    let (num, unit) = if v.len() == 1 {
        (String::new(), String::new())
    } else {
        (string_of(&v, 1, v.len() - 1), string_of(&v, v.len() - 1, v.len()))
    };
    proof {
        if v.len() > 1 {
            assert(num@ =~= rest.drop_last());
            assert(unit@ =~= seq![rest.last()]);
        } else {
            assert(rest.len() == 0);
            assert(num@ =~= rest);
            assert(unit@ =~= rest);
        }
    }
    let n = match parse_i64(num.as_str()) {
        Some(n) => n,
        None => return Err(quoted_error("Invalid offset token: ", token, "")),
    };
    let q = match n.checked_mul(sign) {
        Some(q) => q,
        None => return Err(quoted_error("Offset out of range: ", token, "")),
    };
    let per: i64 = if str_eq(unit.as_str(), "d") {
        86400
    } else if str_eq(unit.as_str(), "h") {
        3600
    } else if str_eq(unit.as_str(), "m") {
        60
    } else if str_eq(unit.as_str(), "s") {
        1
    } else {
        return Err(quoted_error("Unknown unit in ", token, " — use d, h, m, s"));
    };
    match q.checked_mul(per) {
        Some(secs) => Ok(OffsetStep::Shift(secs)),
        None => Err(quoted_error("Offset out of range: ", token, "")),
    }
}

/// The layout offsets are read and written in.
pub open spec fn iso_layout() -> Seq<char> {
    "[year]-[month]-[day]T[hour]:[minute]:[second]"@
}

pub open spec fn cannot_parse_text(s: Seq<char>, detail: Seq<char>) -> Seq<char> {
    "Cannot parse datetime '"@ + s + "': "@ + detail
}

/// One offset word applied to the datetime `cur`: `now` reads the `now`
/// text, a shift moves by its seconds; or the error's message.
pub open spec fn offset_move(cur: MomentOrigin, w: Seq<char>, now: Seq<char>) -> Result<
    MomentOrigin,
    Seq<char>,
> {
    match offset_step_of(w) {
        Err(m) => Err(m),
        Ok(None) => match datetime_refusal(now, iso_layout()) {
            Some(d) => Err(cannot_parse_text(now, d)),
            None => Ok(MomentOrigin::Parsed(now, iso_layout())),
        },
        Ok(Some(secs)) => if shift_fits(cur, secs) {
            Ok(MomentOrigin::Shifted(Box::new(cur), secs))
        } else {
            Err("Offset out of range: "@ + quoted(w))
        },
    }
}

/// The words `ws` applied in turn from the datetime `cur`; the first error
/// stops them.
pub open spec fn moved(cur: MomentOrigin, ws: Seq<Seq<char>>, now: Seq<char>) -> Result<
    MomentOrigin,
    Seq<char>,
>
    decreases ws.len(),
{
    if ws.len() == 0 {
        Ok(cur)
    } else {
        match offset_move(cur, ws[0], now) {
            Err(m) => Err(m),
            Ok(next) => moved(next, ws.drop_first(), now),
        }
    }
}

/// What applying the offset expression `expr` to `base` gives, with `now`
/// for the word `now`: the shifted datetime's text, or the parse error's
/// message.
pub open spec fn offsets_result(base: Seq<char>, expr: Seq<char>, now: Seq<char>) -> Result<
    Seq<char>,
    Seq<char>,
> {
    match layout_refusal(iso_layout()) {
        Some(m) => Err(m),
        None => match datetime_refusal(base, iso_layout()) {
            Some(d) => Err(cannot_parse_text(base, d)),
            None => match moved(MomentOrigin::Parsed(base, iso_layout()), words(expr), now) {
                Err(m) => Err(m),
                Ok(o) => formatted(o, iso_layout()),
            },
        },
    }
}

/// Apply a chain of offset words to `base_dt`. `now` resets to the `now`
/// argument; units are `d`, `h`, `m`, `s`.
pub fn apply_offsets(base_dt: &str, expr: &str, now: &str) -> (r: Result<String, Error>)
    ensures
        match offsets_result(base_dt@, expr@, now@) {
            Ok(t) => r matches Ok(s) && s@ == t,
            Err(m) => r matches Err(Error::Parse(e)) && e@ == m,
        },
{
    proof {
        reveal_strlit("");
    }
    let fmt = match layout("[year]-[month]-[day]T[hour]:[minute]:[second]") {
        Ok(f) => f,
        Err(m) => return Err(Error::Parse(m)),
    };
    let mut dt = match parse_with(base_dt, &fmt) {
        Ok(d) => d,
        Err(e) => return Err(cannot_parse(base_dt, e.as_str())),
    };
    let tokens = split_words(expr);
    let ghost all = words(expr@);
    assert(all.skip(0) == all);
    let mut i: usize = 0;
    while i < tokens.len()
        invariant
            i <= tokens@.len(),
            views(tokens@) == words(expr@),
            all == words(expr@),
            fmt@ == iso_layout(),
            layout_refusal(iso_layout()) is None,
            datetime_refusal(base_dt@, iso_layout()) is None,
            moved(MomentOrigin::Parsed(base_dt@, iso_layout()), all, now@) == moved(
                dt@,
                all.skip(i as int),
                now@,
            ),
        decreases tokens.len() - i,
    {
        let t = tokens[i].as_str();
        assert(all[i as int] == t@);
        assert(all.skip(i as int)[0] == t@);
        assert(all.skip(i as int).drop_first() == all.skip(i + 1));
        let ghost rest = all.skip(i as int);
        assert(moved(dt@, rest, now@) == match offset_move(dt@, t@, now@) {
            Err(m) => Err(m),
            Ok(next) => moved(next, rest.drop_first(), now@),
        });
        match offset_step(t) {
            Err(e) => {
                assert(offset_step_of(t@) is Err);
                return Err(e);
            },
            Ok(OffsetStep::Now) => {
                assert(offset_step_of(t@) == Ok::<Option<int>, Seq<char>>(None));
                dt = match parse_with(now, &fmt) {
                    Ok(d) => d,
                    Err(e) => return Err(cannot_parse(now, e.as_str())),
                };
            },
            Ok(OffsetStep::Shift(secs)) => {
                dt = match checked_shift(dt, seconds(secs)) {
                    Some(d) => d,
                    None => {
                        proof { reveal_strlit(""); }
                        assert("Offset out of range: "@ + quoted(t@) + ""@ =~= "Offset out of range: "@
                            + quoted(t@));
                        return Err(quoted_error("Offset out of range: ", t, ""));
                    },
                };
            },
        }
        i += 1;
    }
    assert(all.skip(i as int).len() == 0);
    match format_with(&dt, &fmt) {
        Ok(s) => Ok(s),
        Err(m) => Err(Error::Parse(m)),
    }
}

fn cannot_parse(s: &str, detail: &str) -> (e: Error)
    ensures
        e matches Error::Parse(m) && m@ == "Cannot parse datetime '"@ + s@ + "': "@ + detail@,
{
    let mut m = String::new();
    push_str(&mut m, "Cannot parse datetime '");
    push_str(&mut m, s);
    push_str(&mut m, "': ");
    push_str(&mut m, detail);
    Error::Parse(m)
}


// ── The datetime prompt ───────────────────────────────────────────────────────

/// Which part of the prefill an edit replaces.
#[derive(Clone, Copy, Debug, PartialEq, Eq, Structural)]
pub enum Component {
    Date,
    Time,
    Full,
}

/// Where a datetime entry stands.
#[derive(Clone, Copy, Debug, PartialEq, Eq, Structural)]
pub enum DatetimePhase {
    Start,
    AwaitTimestamp,
    /// The clock gave no usable datetime: a plain prompt until one is typed.
    Plain,
    AwaitChoice,
    AwaitComponent(Component),
    Finished,
}

/// The answer to the last request.
#[derive(Debug)]
pub enum PromptEvent {
    Begin,
    /// The clock's `"YYYY-MM-DD HH:MM:SS"`.
    Timestamp(String),
    /// The line the user typed (trimmed), or why reading failed.
    Line(Result<String, Error>),
}

/// The outside work a datetime entry needs next.
#[derive(Debug)]
pub enum PromptRequest {
    Timestamp,
    ReadLine(Styled),
    Finish(Result<String, Error>),
}

/// Status lines to show, then the next request.
#[derive(Debug)]
pub struct PromptStep {
    pub say: Vec<Styled>,
    pub request: PromptRequest,
}

/// One datetime entry.
#[derive(Debug)]
pub struct DatetimePrompt {
    pub phase: DatetimePhase,
    pub prefill: String,
}

pub open spec fn styled_views(v: Seq<Styled>) -> Seq<Seq<(Option<Style>, Seq<char>)>> {
    v.map_values(|s: Styled| styled_view(s))
}

pub open spec fn hint(t: Seq<char>) -> Seq<(Option<Style>, Seq<char>)> {
    seq![(Some(Style::Hint), t)]
}

pub open spec fn failure(t: Seq<char>) -> Seq<(Option<Style>, Seq<char>)> {
    seq![(Some(Style::Error), t)]
}

pub open spec fn caret(t: Seq<char>) -> Seq<(Option<Style>, Seq<char>)> {
    seq![(Some(Style::Prompt), t)]
}

/// The menu shown before each choice.
pub open spec fn menu(prefill: Seq<char>) -> Seq<Seq<(Option<Style>, Seq<char>)>> {
    seq![
        hint("  current: "@ + prefill),
        hint("  Enter accept · d date · t time · dt full · offsets like +1d -2h +30m"@),
    ]
}

/// The date part (first ten bytes) and time part (after byte ten) of a prefill.
pub open spec fn date_part(p: Seq<char>) -> Seq<char> {
    match byte_prefix(p, 10) {
        Some(d) => d,
        None => p,
    }
}

pub open spec fn time_part(p: Seq<char>) -> Seq<char> {
    match byte_prefix(p, 10) {
        Some(d) => if d.len() < p.len() {
            p.skip(d.len() as int + 1)
        } else {
            seq![]
        },
        None => seq![],
    }
}

pub open spec fn component_label(c: Component) -> Seq<char> {
    match c {
        Component::Date => "date (YYYY-MM-DD)"@,
        Component::Time => "time (HH:MM or HH:MM:SS)"@,
        Component::Full => "full (YYYY-MM-DDTHH:MM:SS)"@,
    }
}

pub open spec fn component_current(c: Component, prefill: Seq<char>) -> Seq<char> {
    match c {
        Component::Date => date_part(prefill),
        Component::Time => time_part(prefill),
        Component::Full => prefill,
    }
}

pub open spec fn component_error(c: Component) -> Seq<char> {
    match c {
        Component::Date => "    ✗ invalid date"@,
        Component::Time => "    ✗ invalid time (use HH:MM or HH:MM:SS)"@,
        Component::Full => "    ✗ invalid datetime"@,
    }
}

/// The datetime a plain (non-offset) component answer gives.
pub open spec fn plain_candidate(c: Component, prefill: Seq<char>, raw: Seq<char>) -> Seq<char> {
    match c {
        Component::Date => (if raw.len() == 0 {
            date_part(prefill)
        } else {
            raw
        }) + "T"@ + time_part(prefill),
        Component::Time => date_part(prefill) + "T"@ + (if raw.len() == 0 {
            time_part(prefill)
        } else {
            normalized_time(raw)
        }),
        Component::Full => if raw.len() == 0 {
            prefill
        } else {
            raw
        },
    }
}

pub open spec fn plain_prompt() -> Seq<(Option<Style>, Seq<char>)> {
    caret("  datetime (YYYY-MM-DDTHH:MM:SS) > "@)
}

fn hint_line(t: String) -> (s: Styled)
    ensures
        styled_view(s) == hint(t@),
{
    painted(Style::Hint, t)
}

fn error_line(t: &str) -> (s: Styled)
    ensures
        styled_view(s) == failure(t@),
{
    painted(Style::Error, t.to_string())
}

fn caret_line(t: &str) -> (s: Styled)
    ensures
        styled_view(s) == caret(t@),
{
    painted(Style::Prompt, t.to_string())
}

/// The ten-byte date part and what follows the `T` of a prefill.
fn split_prefill(p: &str) -> (r: (String, String))
    ensures
        r.0@ == date_part(p@),
        r.1@ == time_part(p@),
{
    let v = chars_of(p);
    match byte_prefix_len(&v, 10) {
        Some(k) => {
            proof {
                crate::text::lemma_byte_prefix_prefix(v@, 10);
            }
            let d = string_of(&v, 0, k);
            assert(d@ == v@.take(k as int));
            if k < v.len() {
                let t = string_of(&v, k + 1, v.len());
                assert(t@ == v@.skip(k + 1));
                (d, t)
            } else {
                (d, String::new())
            }
        },
        None => (p.to_string(), String::new()),
    }
}

/// What an offset expression leads to: the error the offsets end with, the
/// shifted datetime, or, when that is no datetime, `complaint` and the menu
/// again.
/// The datetime an offset edit proposes: the shifted prefill, or for a date
/// or time edit that part of it joined with the prefill's other part.
pub open spec fn offset_candidate(c: Option<Component>, p: Seq<char>, shifted: Seq<char>) -> Seq<
    char,
> {
    match c {
        Some(Component::Date) => date_part(shifted) + "T"@ + time_part(p),
        Some(Component::Time) => date_part(p) + "T"@ + time_part(shifted),
        _ => shifted,
    }
}

/// The step after the offset expression `expr` is typed at prefill `p`: the
/// parse error of applying it; the candidate, when it is datetime-like; or
/// `complaint` and the menu again.
pub open spec fn offset_outcome(
    new: DatetimePrompt,
    step: PromptStep,
    p: Seq<char>,
    expr: Seq<char>,
    c: Option<Component>,
    complaint: Seq<char>,
) -> bool {
    match offsets_result(p, expr, p) {
        Err(m) => step.request matches PromptRequest::Finish(Err(Error::Parse(e))) && e@ == m
            && step.say@.len() == 0,
        Ok(shifted) => {
            let cand = offset_candidate(c, p, shifted);
            if datetime_like(cand) {
                step.request matches PromptRequest::Finish(Ok(v)) && v@ == cand && step.say@.len()
                    == 0
            } else {
                &&& new.phase == DatetimePhase::AwaitChoice
                &&& new.prefill@ == p
                &&& styled_views(step.say@) == seq![failure(complaint)] + menu(p)
                &&& step.request matches PromptRequest::ReadLine(q) && styled_view(q) == caret(
                    "  > "@,
                )
            }
        },
    }
}

impl DatetimePrompt {
    pub open spec fn accepts(&self, e: PromptEvent) -> bool {
        match (self.phase, e) {
            (DatetimePhase::Start, PromptEvent::Begin) => true,
            (DatetimePhase::AwaitTimestamp, PromptEvent::Timestamp(_)) => true,
            (DatetimePhase::Plain, PromptEvent::Line(_)) => true,
            (DatetimePhase::AwaitChoice, PromptEvent::Line(_)) => true,
            (DatetimePhase::AwaitComponent(_), PromptEvent::Line(_)) => true,
            _ => false,
        }
    }

    /// The menu and component edits only ever work on a prefill that looks
    /// like a datetime.
    pub open spec fn wf(&self) -> bool {
        (self.phase is AwaitChoice || self.phase is AwaitComponent) ==> datetime_like(self.prefill@)
    }

    pub fn new() -> (m: DatetimePrompt)
        ensures
            m.phase == DatetimePhase::Start,
            m.wf(),
    {
        DatetimePrompt { phase: DatetimePhase::Start, prefill: String::new() }
    }

    fn show_menu(&mut self, mut say: Vec<Styled>) -> (step: PromptStep)
        requires
            datetime_like(old(self).prefill@),
        ensures
            final(self).phase == DatetimePhase::AwaitChoice,
            final(self).prefill == old(self).prefill,
            styled_views(step.say@) == styled_views(say@) + menu(old(self).prefill@),
            step.request matches PromptRequest::ReadLine(q) && styled_view(q) == caret("  > "@),
    {
        let ghost before = styled_views(say@);
        let mut a = String::new();
        push_str(&mut a, "  current: ");
        push_str(&mut a, self.prefill.as_str());
        say.push(hint_line(a));
        say.push(hint_line("  Enter accept · d date · t time · dt full · offsets like +1d -2h +30m".to_string()));
        assert(styled_views(say@) =~= before + menu(self.prefill@));
        self.phase = DatetimePhase::AwaitChoice;
        PromptStep { say, request: PromptRequest::ReadLine(caret_line("  > ")) }
    }

    fn finish(&mut self, say: Vec<Styled>, r: Result<String, Error>) -> (step: PromptStep)
        ensures
            final(self).phase == DatetimePhase::Finished,
            final(self).prefill == old(self).prefill,
            step.say == say,
            step.request == PromptRequest::Finish(r),
    {
        self.phase = DatetimePhase::Finished;
        PromptStep { say, request: PromptRequest::Finish(r) }
    }

    /// Advance by one answer. Every datetime the entry ends with looks like
    /// a datetime.
    pub fn step(&mut self, event: PromptEvent) -> (step: PromptStep)
        requires
            old(self).wf(),
            old(self).accepts(event),
        ensures
            final(self).wf(),
            step.request matches PromptRequest::Finish(Ok(v)) ==> datetime_like(v@),
            step.request is Finish <==> final(self).phase == DatetimePhase::Finished,
            step.request is Timestamp ==> final(self).phase == DatetimePhase::AwaitTimestamp,
            step.request is ReadLine ==> (final(self).phase == DatetimePhase::Plain
                || final(self).phase == DatetimePhase::AwaitChoice
                || final(self).phase is AwaitComponent),
            match (old(self).phase, event) {
                (DatetimePhase::Start, PromptEvent::Begin) => final(self).phase
                    == DatetimePhase::AwaitTimestamp && step.say@.len() == 0
                    && step.request is Timestamp,
                (DatetimePhase::AwaitTimestamp, PromptEvent::Timestamp(ts)) => {
                    let p = datetime_form(ts@);
                    &&& final(self).prefill@ == p
                    &&& if datetime_like(p) {
                        &&& final(self).phase == DatetimePhase::AwaitChoice
                        &&& styled_views(step.say@) == menu(p)
                        &&& step.request matches PromptRequest::ReadLine(q) && styled_view(q)
                            == caret("  > "@)
                    } else {
                        &&& final(self).phase == DatetimePhase::Plain
                        &&& step.say@.len() == 0
                        &&& step.request matches PromptRequest::ReadLine(q) && styled_view(q)
                            == plain_prompt()
                    }
                },
                (DatetimePhase::Plain, PromptEvent::Line(Ok(raw))) => if datetime_like(raw@) {
                    step.request == PromptRequest::Finish(Ok(raw))
                } else {
                    &&& final(self).phase == DatetimePhase::Plain
                    &&& styled_views(step.say@) == seq![
                        failure("    ✗ expected YYYY-MM-DDTHH:MM:SS"@),
                    ]
                    &&& step.request matches PromptRequest::ReadLine(q) && styled_view(q)
                        == plain_prompt()
                },
                (_, PromptEvent::Line(Err(e))) => step.request == PromptRequest::Finish(Err(e)),
                (DatetimePhase::AwaitChoice, PromptEvent::Line(Ok(choice))) => {
                    let p = old(self).prefill@;
                    if choice@.len() == 0 {
                        step.request == PromptRequest::Finish(Ok(old(self).prefill))
                    } else if choice@ == "d"@ || choice@ == "t"@ || choice@ == "dt"@ {
                        let c = if choice@ == "d"@ {
                            Component::Date
                        } else if choice@ == "t"@ {
                            Component::Time
                        } else {
                            Component::Full
                        };
                        &&& final(self).phase == DatetimePhase::AwaitComponent(c)
                        &&& final(self).prefill == old(self).prefill
                        &&& styled_views(step.say@) == seq![
                            hint(
                                "  "@ + component_label(c) + "  [current: "@ + component_current(c, p)
                                    + "]"@,
                            ),
                        ]
                        &&& step.request matches PromptRequest::ReadLine(q) && styled_view(q)
                            == caret("  > "@)
                    } else if !offset_expr(choice@) {
                        &&& final(self).phase == DatetimePhase::AwaitChoice
                        &&& styled_views(step.say@) == seq![
                            failure("    ✗ type Enter, d, t, dt, or an offset like +1d"@),
                        ] + menu(p)
                    } else {
                        offset_outcome(*final(self), step, p, choice@, None, "    ✗ resulting datetime is invalid"@)
                    }
                },
                (DatetimePhase::AwaitComponent(c), PromptEvent::Line(Ok(raw))) => {
                    let p = old(self).prefill@;
                    &&& offset_expr(raw@) && raw@.len() > 0 ==> offset_outcome(
                        *final(self),
                        step,
                        p,
                        raw@,
                        Some(c),
                        component_error(c),
                    )
                    &&& !offset_expr(raw@) ==> {
                        let cand = plain_candidate(c, p, raw@);
                        if datetime_like(cand) {
                            step.request matches PromptRequest::Finish(Ok(v)) && v@ == cand
                        } else {
                            &&& final(self).phase == DatetimePhase::AwaitChoice
                            &&& styled_views(step.say@) == seq![failure(component_error(c))] + menu(p)
                        }
                    }
                },
                _ => false,
            },
    {
        match event {
            PromptEvent::Begin => {
                self.phase = DatetimePhase::AwaitTimestamp;
                PromptStep { say: Vec::new(), request: PromptRequest::Timestamp }
            },
            PromptEvent::Timestamp(ts) => {
                self.prefill = to_datetime_format(ts.as_str());
                if !looks_like_datetime(self.prefill.as_str()) {
                    self.phase = DatetimePhase::Plain;
                    return PromptStep {
                        say: Vec::new(),
                        request: PromptRequest::ReadLine(caret_line("  datetime (YYYY-MM-DDTHH:MM:SS) > ")),
                    };
                }
                self.show_menu(Vec::new())
            },
            PromptEvent::Line(Err(e)) => self.finish(Vec::new(), Err(e)),
            PromptEvent::Line(Ok(raw)) => {
                match self.phase {
                    DatetimePhase::Plain => {
                        if looks_like_datetime(raw.as_str()) {
                            return self.finish(Vec::new(), Ok(raw));
                        }
                        let mut say: Vec<Styled> = Vec::new();
                        say.push(error_line("    ✗ expected YYYY-MM-DDTHH:MM:SS"));
                        PromptStep {
                            say,
                            request: PromptRequest::ReadLine(caret_line("  datetime (YYYY-MM-DDTHH:MM:SS) > ")),
                        }
                    },
                    DatetimePhase::AwaitChoice => self.take_choice(raw),
                    DatetimePhase::AwaitComponent(c) => self.edit(c, raw),
                    _ => {
                        proof {
                            assert(false);
                        }
                        self.finish(Vec::new(), Err(Error::Parse(String::new())))
                    },
                }
            },
        }
    }

    fn take_choice(&mut self, choice: String) -> (step: PromptStep)
        requires
            old(self).phase == DatetimePhase::AwaitChoice,
            datetime_like(old(self).prefill@),
        ensures
            final(self).wf(),
            step.request matches PromptRequest::Finish(Ok(v)) ==> datetime_like(v@),
            step.request is Finish <==> final(self).phase == DatetimePhase::Finished,
            step.request is Timestamp ==> final(self).phase == DatetimePhase::AwaitTimestamp,
            step.request is ReadLine ==> (final(self).phase == DatetimePhase::Plain
                || final(self).phase == DatetimePhase::AwaitChoice
                || final(self).phase is AwaitComponent),
            ({
                let p = old(self).prefill@;
                if choice@.len() == 0 {
                    step.request == PromptRequest::Finish(Ok(old(self).prefill))
                } else if choice@ == "d"@ || choice@ == "t"@ || choice@ == "dt"@ {
                    let c = if choice@ == "d"@ {
                        Component::Date
                    } else if choice@ == "t"@ {
                        Component::Time
                    } else {
                        Component::Full
                    };
                    &&& final(self).phase == DatetimePhase::AwaitComponent(c)
                    &&& final(self).prefill == old(self).prefill
                    &&& styled_views(step.say@) == seq![
                        hint(
                            "  "@ + component_label(c) + "  [current: "@ + component_current(c, p)
                                + "]"@,
                        ),
                    ]
                    &&& step.request matches PromptRequest::ReadLine(q) && styled_view(q) == caret(
                        "  > "@,
                    )
                } else if !offset_expr(choice@) {
                    &&& final(self).phase == DatetimePhase::AwaitChoice
                    &&& styled_views(step.say@) == seq![
                        failure("    ✗ type Enter, d, t, dt, or an offset like +1d"@),
                    ] + menu(p)
                } else {
                    offset_outcome(*final(self), step, p, choice@, None, "    ✗ resulting datetime is invalid"@)
                }
            }),
    {
        proof {
            reveal_strlit("");
        }
        if str_eq(choice.as_str(), "") {
            proof {
                if choice@.len() == 0 {
                    assert(choice@ =~= ""@);
                }
            }
            let p = self.prefill.clone();
            return self.finish(Vec::new(), Ok(p));
        }
        proof {
            if choice@.len() == 0 {
                assert(choice@ =~= ""@);
            }
        }
        let c = if str_eq(choice.as_str(), "d") {
            Some(Component::Date)
        } else if str_eq(choice.as_str(), "t") {
            Some(Component::Time)
        } else if str_eq(choice.as_str(), "dt") {
            Some(Component::Full)
        } else {
            None
        };
        match c {
            Some(c) => {
                let (d, t) = split_prefill(self.prefill.as_str());
                let current = match c {
                    Component::Date => d,
                    Component::Time => t,
                    Component::Full => self.prefill.clone(),
                };
                let label = match c {
                    Component::Date => "date (YYYY-MM-DD)",
                    Component::Time => "time (HH:MM or HH:MM:SS)",
                    Component::Full => "full (YYYY-MM-DDTHH:MM:SS)",
                };
                let mut line = String::new();
                push_str(&mut line, "  ");
                push_str(&mut line, label);
                push_str(&mut line, "  [current: ");
                push_str(&mut line, current.as_str());
                push_str(&mut line, "]");
                let mut say: Vec<Styled> = Vec::new();
                say.push(hint_line(line));
                self.phase = DatetimePhase::AwaitComponent(c);
                PromptStep { say, request: PromptRequest::ReadLine(caret_line("  > ")) }
            },
            None => {
                if looks_like_offset_expr(choice.as_str()) {
                    let p = self.prefill.clone();
                    match apply_offsets(p.as_str(), choice.as_str(), p.as_str()) {
                        Err(e) => self.finish(Vec::new(), Err(e)),
                        Ok(cand) => {
                            if looks_like_datetime(cand.as_str()) {
                                self.finish(Vec::new(), Ok(cand))
                            } else {
                                let mut say: Vec<Styled> = Vec::new();
                                say.push(error_line("    ✗ resulting datetime is invalid"));
                                let ghost pv = self.prefill@;
                                let st = self.show_menu(say);
                                assert(styled_views(st.say@) =~= seq![
                                    failure("    ✗ resulting datetime is invalid"@),
                                ] + menu(pv));
                                st
                            }
                        },
                    }
                } else {
                    let mut say: Vec<Styled> = Vec::new();
                    say.push(error_line("    ✗ type Enter, d, t, dt, or an offset like +1d"));
                    self.show_menu(say)
                }
            },
        }
    }

    fn edit(&mut self, c: Component, raw: String) -> (step: PromptStep)
        requires
            old(self).phase == DatetimePhase::AwaitComponent(c),
            datetime_like(old(self).prefill@),
        ensures
            final(self).wf(),
            step.request matches PromptRequest::Finish(Ok(v)) ==> datetime_like(v@),
            step.request is Finish <==> final(self).phase == DatetimePhase::Finished,
            step.request is Timestamp ==> final(self).phase == DatetimePhase::AwaitTimestamp,
            step.request is ReadLine ==> (final(self).phase == DatetimePhase::Plain
                || final(self).phase == DatetimePhase::AwaitChoice
                || final(self).phase is AwaitComponent),
            offset_expr(raw@) && raw@.len() > 0 ==> offset_outcome(
                *final(self),
                step,
                old(self).prefill@,
                raw@,
                Some(c),
                component_error(c),
            ),
            !offset_expr(raw@) ==> {
                let p = old(self).prefill@;
                let cand = plain_candidate(c, p, raw@);
                if datetime_like(cand) {
                    step.request matches PromptRequest::Finish(Ok(v)) && v@ == cand
                } else {
                    &&& final(self).phase == DatetimePhase::AwaitChoice
                    &&& styled_views(step.say@) == seq![failure(component_error(c))] + menu(p)
                }
            },
    {
        let (d, t) = split_prefill(self.prefill.as_str());
        let empty = str_eq(raw.as_str(), "");
        proof {
            reveal_strlit("");
            if raw@.len() == 0 {
                assert(raw@ =~= ""@);
            }
        }
        let offsets = !empty && looks_like_offset_expr(raw.as_str());
        proof {
            if raw@.len() == 0 {
                assert(words(raw@) =~= Seq::<Seq<char>>::empty());
            }
        }
        let cand: String = if offsets {
            let p = self.prefill.clone();
            let shifted = match apply_offsets(p.as_str(), raw.as_str(), p.as_str()) {
                Err(e) => return self.finish(Vec::new(), Err(e)),
                Ok(s) => s,
            };
            let (sd, st) = split_prefill(shifted.as_str());
            match c {
                Component::Date => {
                    let mut x = sd;
                    push_str(&mut x, "T");
                    push_str(&mut x, t.as_str());
                    x
                },
                Component::Time => {
                    let mut x = d;
                    push_str(&mut x, "T");
                    push_str(&mut x, st.as_str());
                    x
                },
                Component::Full => shifted,
            }
        } else {
            match c {
                Component::Date => {
                    let mut x = if empty {
                        d
                    } else {
                        raw
                    };
                    push_str(&mut x, "T");
                    push_str(&mut x, t.as_str());
                    x
                },
                Component::Time => {
                    let mut x = d;
                    push_str(&mut x, "T");
                    if empty {
                        push_str(&mut x, t.as_str());
                    } else {
                        let n = normalize_time(raw.as_str());
                        push_str(&mut x, n.as_str());
                    }
                    x
                },
                Component::Full => if empty {
                    self.prefill.clone()
                } else {
                    raw
                },
            }
        };
        if looks_like_datetime(cand.as_str()) {
            return self.finish(Vec::new(), Ok(cand));
        }
        let msg = match c {
            Component::Date => "    ✗ invalid date",
            Component::Time => "    ✗ invalid time (use HH:MM or HH:MM:SS)",
            Component::Full => "    ✗ invalid datetime",
        };
        let mut say: Vec<Styled> = Vec::new();
        say.push(error_line(msg));
        let ghost pv = self.prefill@;
        let st = self.show_menu(say);
        assert(styled_views(st.say@) =~= seq![failure(component_error(c))] + menu(pv));
        st
    }
}
} // verus!
