//! `insert`: parse invoice URLs, save their items, then sync once.
//!
//! The per-URL flow is [`RunOne`], a machine the caller drives by performing
//! its requests (connectivity probe, queueing, parsing, printing, writing);
//! the batch that runs it per URL is [`crate::commands::batch::RunBatch`].
//! What the batch decides and reports is computed here.
use vstd::prelude::*;

use crate::error::{error_text, Error};
use crate::invoice::Invoice;
use crate::paths::{extension_of, has_extension};
use crate::ports::{RowState, StoredDoc};
use crate::text::{
    chars_of, contains_str, decimal, find_char, is_whitespace, lines, lines_of, push_char,
    push_decimal, push_str, starts_with, string_of, trim, trim_bounds, views, byte_prefix,
};

verus! {

// ── URL lists ──────────────────────────────────────────────────────────────────

/// The result of attempting to load URLs from a file.
#[derive(Debug)]
pub enum LoadedUrls {
    /// At least one URL was found.
    Found(Vec<String>),
    /// The file was read successfully but contained no usable URLs.
    Empty,
}

/// The URLs among `ls`: each line trimmed, blank lines and `#` comments dropped.
pub open spec fn url_lines(ls: Seq<Seq<char>>) -> Seq<Seq<char>>
    decreases ls.len(),
{
    if ls.len() == 0 {
        seq![]
    } else {
        let rest = url_lines(ls.drop_last());
        let t = trim(ls.last());
        if t.len() > 0 && t[0] != '#' {
            rest.push(t)
        } else {
            rest
        }
    }
}

/// Parse `contents` (a file of one URL per line), stripping blank lines and
/// `#`-comments.
pub fn parse_url_list(contents: &str) -> (r: LoadedUrls)
    ensures
        match r {
            LoadedUrls::Found(urls) => urls@.len() > 0 && views(urls@) == url_lines(
                lines(contents@),
            ),
            LoadedUrls::Empty => url_lines(lines(contents@)).len() == 0,
        },
{
    let ls = lines_of(contents);
    let mut urls: Vec<String> = Vec::new();
    let mut i: usize = 0;
    while i < ls.len()
        invariant
            i <= ls.len(),
            views(ls@) == lines(contents@),
            views(urls@) == url_lines(views(ls@).take(i as int)),
        decreases ls.len() - i,
    {
        let v = chars_of(ls[i].as_str());
        let (lo, hi) = trim_bounds(&v, 0, v.len());
        proof {
            assert(v@.subrange(0, v@.len() as int) == v@);
            assert(views(ls@).take(i + 1).drop_last() == views(ls@).take(i as int));
            assert(views(ls@).take(i + 1).last() == ls@[i as int]@);
        }
        if lo < hi && v[lo] != '#' {
            let t = string_of(&v, lo, hi);
            proof {
                assert(t@[0] == v@[lo as int]);
                assert(views(urls@.push(t)) == views(urls@).push(t@));
            }
            urls.push(t);
        }
        i += 1;
    }
    assert(views(ls@).take(ls@.len() as int) == views(ls@));
    if urls.len() == 0 {
        LoadedUrls::Empty
    } else {
        LoadedUrls::Found(urls)
    }
}

// ── Outcomes ───────────────────────────────────────────────────────────────────

/// What happened to a single URL — the unit the final report is built from.
#[derive(Debug)]
pub enum Outcome {
    /// Parsed and written. Carries the fields shown in the report one-liner.
    Saved { date: String, retailer: String, total: String, currency: String, files: usize },
    /// `--dry-run`: parsed and printed, nothing written.
    DryRun { date: String, retailer: String },
    /// Already recorded (duplicate); skipped.
    Skipped { url: String },
    /// Offline; the URL was queued for later.
    Queued { url: String },
    /// Parsing failed; the URL was recorded in the failed log.
    Failed { url: String },
}

impl Outcome {
    pub fn is_failure(&self) -> (b: bool)
        ensures
            b == (*self is Failed),
    {
        match self {
            Outcome::Failed { .. } => true,
            _ => false,
        }
    }
}

/// The whole batch's result: every URL's [`Outcome`] plus the single sync step.
#[derive(Debug)]
pub struct BatchResult {
    pub outcomes: Vec<Outcome>,
    pub sync: SyncReport,
}

/// The sync row's outcome: its final state, its one-line label, and any
/// captured git output to surface (only present on failure).
#[derive(Debug)]
pub struct SyncReport {
    pub state: RowState,
    pub line: String,
    pub error: Option<String>,
}

// ── Sync decision ──────────────────────────────────────────────────────────────

/// The one git operation a finished batch warrants.
#[derive(Debug, PartialEq, Eq, Structural)]
pub enum SyncPlan {
    /// Invoices were written: commit and push.
    Push,
    /// URLs were queued offline: commit pending changes without pushing.
    CommitOnly,
    /// Nothing to commit.
    Nothing,
}

pub open spec fn any_saved(os: Seq<Outcome>) -> bool {
    exists|i: int| 0 <= i < os.len() && os[i] is Saved
}

pub open spec fn any_queued(os: Seq<Outcome>) -> bool {
    exists|i: int| 0 <= i < os.len() && os[i] is Queued
}

/// The plan for a finished batch: nothing under `--no-sync`, a push when
/// anything was saved, a local commit when something was queued offline.
pub open spec fn plan_for(os: Seq<Outcome>, no_sync: bool) -> SyncPlan {
    if no_sync {
        SyncPlan::Nothing
    } else if any_saved(os) {
        SyncPlan::Push
    } else if any_queued(os) {
        SyncPlan::CommitOnly
    } else {
        SyncPlan::Nothing
    }
}

impl SyncPlan {
    /// The plan for a finished batch: nothing under `--no-sync`, a push when
    /// anything was saved, a local commit when something was queued offline.
    pub fn for_outcomes(outcomes: &Vec<Outcome>, no_sync: bool) -> (p: SyncPlan)
        ensures
            p == plan_for(outcomes@, no_sync),
    {
        if no_sync {
            return SyncPlan::Nothing;
        }
        let mut saved = false;
        let mut queued = false;
        let mut i: usize = 0;
        while i < outcomes.len()
            invariant
                i <= outcomes.len(),
                saved == exists|k: int| 0 <= k < i && outcomes@[k] is Saved,
                queued == exists|k: int| 0 <= k < i && outcomes@[k] is Queued,
            decreases outcomes.len() - i,
        {
            match &outcomes[i] {
                Outcome::Saved { .. } => {
                    saved = true;
                },
                Outcome::Queued { .. } => {
                    queued = true;
                },
                _ => {},
            }
            i += 1;
        }
        if saved {
            SyncPlan::Push
        } else if queued {
            SyncPlan::CommitOnly
        } else {
            SyncPlan::Nothing
        }
    }

    /// The sync this plan runs: `Some((push, offline_prefix))`, or `None`.
    pub fn sync_args(&self) -> (r: Option<(bool, Option<String>)>)
        ensures
            *self == SyncPlan::Push ==> r matches Some((true, None)),
            *self == SyncPlan::CommitOnly ==> (r matches Some((false, Some(p))) && p@
                == "Offline"@),
            *self == SyncPlan::Nothing ==> r is None,
    {
        match self {
            SyncPlan::Push => Some((true, None)),
            SyncPlan::CommitOnly => Some((false, Some("Offline".to_string()))),
            SyncPlan::Nothing => None,
        }
    }
}

impl SyncReport {
    /// Whether this is the Sync row for `plan` when its sync ended with
    /// `failure`: skipped when there was nothing to sync, else passed with the
    /// plan's label, or failed carrying the error's text.
    pub open spec fn fits(self, plan: SyncPlan, failure: Option<Error>) -> bool {
        if plan == SyncPlan::Nothing {
            self.state == RowState::Skip && self.line@ == "Sync · nothing to commit"@
                && self.error is None
        } else {
            match failure {
                None => self.state == RowState::Pass && self.error is None && self.line@ == if plan
                    == SyncPlan::Push {
                    "Sync · pushed"@
                } else {
                    "Sync · committed (offline)"@
                },
                Some(e) => self.state == RowState::Fail && self.line@ == "Sync · failed"@
                    && (self.error matches Some(m) && m@ == error_text(e)),
            }
        }
    }

    /// The Sync row for `plan`, given the error its sync ended with, if any.
    pub fn for_plan(plan: &SyncPlan, failure: Option<Error>) -> (r: SyncReport)
        ensures
            r.fits(*plan, failure),
    {
        match plan {
            SyncPlan::Nothing => SyncReport {
                state: RowState::Skip,
                line: "Sync · nothing to commit".to_string(),
                error: None,
            },
            _ => match failure {
                None => SyncReport {
                    state: RowState::Pass,
                    line: if *plan == SyncPlan::Push {
                        "Sync · pushed".to_string()
                    } else {
                        "Sync · committed (offline)".to_string()
                    },
                    error: None,
                },
                Some(e) => SyncReport {
                    state: RowState::Fail,
                    line: "Sync · failed".to_string(),
                    error: Some(e.message()),
                },
            },
        }
    }
}

// ── Row / report rendering ─────────────────────────────────────────────────────

/// `url` compacted to its first 11 and last 8 characters around `…` when it
/// is longer than 20 characters.
pub open spec fn abbreviated(u: Seq<char>) -> Seq<char> {
    if u.len() <= 20 {
        u
    } else {
        u.take(11) + seq!['…'] + u.skip(u.len() - 8)
    }
}

/// Compact a long URL to `<head>…<tail>` — the leading host chars plus the
/// final 8 — so rows stay a fixed, terminal-friendly width. Short URLs pass
/// through.
pub fn abbreviate(url: &str) -> (r: String)
    ensures
        r@ == abbreviated(url@),
{
    let v = chars_of(url);
    if v.len() <= 20 {
        return string_of(&v, 0, v.len());
    }
    let mut r = string_of(&v, 0, 11);
    push_char(&mut r, '…');
    let tail = string_of(&v, v.len() - 8, v.len());
    push_str(&mut r, tail.as_str());
    assert(v@.subrange(0, 11) == v@.take(11));
    assert(v@.subrange(v@.len() - 8, v@.len() as int) == v@.skip(v@.len() - 8));
    assert(v@.subrange(0, v@.len() as int) == v@);
    r
}

/// The pending labels for the live list: one abbreviated link per URL
/// followed by the Sync row. Empty in `--dry-run`.
pub open spec fn pending_labels(urls: Seq<String>, dry_run: bool) -> Seq<Seq<char>> {
    if dry_run {
        seq![]
    } else {
        Seq::new(urls.len(), |i: int| abbreviated(urls[i]@)).push("⟳ Sync"@)
    }
}

/// The pending labels for the live list: one abbreviated link per URL
/// followed by the Sync row. Empty in `--dry-run`.
pub fn row_labels(urls: &Vec<String>, dry_run: bool) -> (r: Vec<String>)
    ensures
        views(r@) == pending_labels(urls@, dry_run),
        dry_run ==> r@.len() == 0,
        !dry_run ==> r@.len() == urls@.len() + 1 && (forall|i: int|
            0 <= i < urls@.len() ==> #[trigger] r@[i]@ == abbreviated(urls@[i]@)) && r@[urls@.len()
            as int]@ == "⟳ Sync"@,
{
    let mut labels: Vec<String> = Vec::new();
    if dry_run {
        return labels;
    }
    let mut i: usize = 0;
    while i < urls.len()
        invariant
            i <= urls.len(),
            labels@.len() == i,
            forall|k: int| 0 <= k < i ==> #[trigger] labels@[k]@ == abbreviated(urls@[k]@),
        decreases urls.len() - i,
    {
        labels.push(abbreviate(urls[i].as_str()));
        i += 1;
    }
    labels.push("⟳ Sync".to_string());
    assert(views(labels@) =~= pending_labels(urls@, dry_run));
    labels
}

/// The state a resolved row/report line takes for an outcome.
pub open spec fn state_of(o: Outcome) -> RowState {
    match o {
        Outcome::Saved { .. } => RowState::Pass,
        Outcome::DryRun { .. } => RowState::Skip,
        Outcome::Skipped { .. } => RowState::Warn,
        Outcome::Queued { .. } => RowState::Warn,
        Outcome::Failed { .. } => RowState::Fail,
    }
}

pub fn row_state(o: &Outcome) -> (s: RowState)
    ensures
        s == state_of(*o),
{
    match o {
        Outcome::Saved { .. } => RowState::Pass,
        Outcome::DryRun { .. } => RowState::Skip,
        Outcome::Skipped { .. } | Outcome::Queued { .. } => RowState::Warn,
        Outcome::Failed { .. } => RowState::Fail,
    }
}

pub open spec fn glyph_of(state: RowState) -> char {
    match state {
        RowState::Pass => '✓',
        RowState::Warn => '⚠',
        RowState::Fail => '✗',
        RowState::Skip => '·',
    }
}

/// The plain report glyph mirroring a [`RowState`].
pub fn report_glyph(state: RowState) -> (c: char)
    ensures
        c == glyph_of(state),
{
    match state {
        RowState::Pass => '✓',
        RowState::Warn => '⚠',
        RowState::Fail => '✗',
        RowState::Skip => '·',
    }
}

/// `s` with its first `c` replaced by `d`.
pub open spec fn replace_first(s: Seq<char>, c: char, d: char) -> Seq<char> {
    match find_char(s, c) {
        Some(i) => s.update(i, d),
        None => s,
    }
}

/// The first 16 bytes of an ISO datetime with `T` shown as a space.
pub open spec fn short_dt(iso: Seq<char>) -> Seq<char> {
    let head = match byte_prefix(iso, 16) {
        Some(p) => p,
        None => iso,
    };
    replace_first(head, 'T', ' ')
}

/// `"2024-03-15T14:30:00"` → `"2024-03-15 14:30"` for compact display.
pub fn short_datetime(iso: &str) -> (r: String)
    ensures
        r@ == short_dt(iso@),
{
    let v = chars_of(iso);
    let hi = match crate::text::byte_prefix_len(&v, 16) {
        Some(k) => k,
        None => v.len(),
    };
    assert(v@.take(v@.len() as int) == v@);
    let ghost head = v@.take(hi as int);
    assert(head == match byte_prefix(iso@, 16) {
        Some(p) => p,
        None => iso@,
    });
    proof {
        crate::text::lemma_find_char_bound(head, 'T');
    }
    let mut out = String::new();
    let mut j: usize = 0;
    let mut replaced = false;
    while j < hi
        invariant
            j <= hi <= v.len(),
            head == v@.take(hi as int),
            find_char(head, 'T') matches Some(t) ==> 0 <= t < head.len(),
            !replaced ==> forall|k: int| 0 <= k < j ==> head[k] != 'T',
            !replaced ==> out@ == head.take(j as int),
            replaced ==> (find_char(head, 'T') matches Some(t) && t < j && out@ == head.update(
                t,
                ' ',
            ).take(j as int)),
        decreases hi - j,
    {
        if !replaced && v[j] == 'T' {
            proof {
                crate::text::lemma_find_char_at(head, 'T', j as int);
                assert(head.update(j as int, ' ').take(j + 1) == head.take(j as int).push(' '));
            }
            push_char(&mut out, ' ');
            replaced = true;
        } else {
            proof {
                if replaced {
                    let t = find_char(head, 'T')->0;
                    assert(head.update(t, ' ').take(j + 1) == head.update(t, ' ').take(
                        j as int,
                    ).push(v@[j as int]));
                } else {
                    assert(head.take(j + 1) == head.take(j as int).push(v@[j as int]));
                }
            }
            push_char(&mut out, v[j]);
        }
        j += 1;
    }
    proof {
        if !replaced {
            crate::text::lemma_find_char_none(head, 'T');
            assert(head.take(hi as int) == head);
        } else {
            let t = find_char(head, 'T')->0;
            assert(head.update(t, ' ').len() == hi);
            assert(head.update(t, ' ').take(hi as int) == head.update(t, ' '));
        }
    }
    out
}

/// The glyph-less label for row `n`'s outcome.
pub open spec fn outcome_text(n: nat, o: Outcome) -> Seq<char> {
    match o {
        Outcome::Saved { date, retailer, total, currency, files } => "#"@ + decimal(n) + " · "@
            + short_dt(date@) + " · "@ + retailer@ + " · "@ + total@ + " "@ + currency@ + " · "@
            + decimal(files as nat) + " "@ + if files == 1 {
            "item"@
        } else {
            "items"@
        },
        Outcome::DryRun { date, retailer } => "#"@ + decimal(n) + " · "@ + short_dt(date@)
            + " · "@ + retailer@ + " · dry-run (not written)"@,
        Outcome::Skipped { url } => "#"@ + decimal(n) + " duplicate · "@ + abbreviated(url@),
        Outcome::Queued { url } => "#"@ + decimal(n) + " queued (offline) · "@ + abbreviated(
            url@,
        ),
        Outcome::Failed { url } => "#"@ + decimal(n) + " failed · "@ + abbreviated(url@),
    }
}

/// The glyph-less label for row `n`'s outcome — shared by the live row and
/// the durable report line.
pub fn outcome_label(n: u64, o: &Outcome) -> (s: String)
    ensures
        s@ == outcome_text(n as nat, *o),
{
    let mut s = String::new();
    push_char(&mut s, '#');
    push_decimal(&mut s, n);
    match o {
        Outcome::Saved { date, retailer, total, currency, files } => {
            push_str(&mut s, " · ");
            let d = short_datetime(date.as_str());
            push_str(&mut s, d.as_str());
            push_str(&mut s, " · ");
            push_str(&mut s, retailer.as_str());
            push_str(&mut s, " · ");
            push_str(&mut s, total.as_str());
            push_str(&mut s, " ");
            push_str(&mut s, currency.as_str());
            push_str(&mut s, " · ");
            push_decimal(&mut s, *files as u64);
            push_str(&mut s, " ");
            if *files == 1 {
                push_str(&mut s, "item");
            } else {
                push_str(&mut s, "items");
            }
        },
        Outcome::DryRun { date, retailer } => {
            push_str(&mut s, " · ");
            let d = short_datetime(date.as_str());
            push_str(&mut s, d.as_str());
            push_str(&mut s, " · ");
            push_str(&mut s, retailer.as_str());
            push_str(&mut s, " · dry-run (not written)");
        },
        Outcome::Skipped { url } => {
            push_str(&mut s, " duplicate · ");
            let a = abbreviate(url.as_str());
            push_str(&mut s, a.as_str());
        },
        Outcome::Queued { url } => {
            push_str(&mut s, " queued (offline) · ");
            let a = abbreviate(url.as_str());
            push_str(&mut s, a.as_str());
        },
        Outcome::Failed { url } => {
            push_str(&mut s, " failed · ");
            let a = abbreviate(url.as_str());
            push_str(&mut s, a.as_str());
        },
    }
    proof {
        reveal_strlit("#");
    }
    s
}

/// The widest visible prefix a live row can carry (indent + marker + space).
pub const LIVE_PREFIX: usize = 6;

/// The dense live label of a saved invoice: retailer, sum and item count.
pub open spec fn dense_text(n: nat, retailer: Seq<char>, total: Seq<char>, files: nat) -> Seq<char> {
    "#"@ + decimal(n) + " · "@ + retailer + " · "@ + total + " · "@ + decimal(files) + "×"@
}

/// The live-row label for row `n`: the full one-liner when it fits `width`
/// (or the width is unknown), else for a saved invoice the dense form.
pub open spec fn live_text(n: nat, o: Outcome, width: Option<usize>) -> Seq<char> {
    let full = outcome_text(n, o);
    let fits = match width {
        None => true,
        Some(w) => full.len() + LIVE_PREFIX <= w,
    };
    if fits {
        full
    } else {
        match o {
            Outcome::Saved { retailer, total, files, .. } => dense_text(
                n,
                retailer@,
                total@,
                files as nat,
            ),
            _ => full,
        }
    }
}

/// The live-row label for row `n`, made to fit `width`.
pub fn live_label(n: u64, o: &Outcome, width: Option<usize>) -> (s: String)
    ensures
        s@ == live_text(n as nat, *o, width),
{
    let full = outcome_label(n, o);
    let len = chars_of(full.as_str()).len();
    let fits = match width {
        None => true,
        Some(w) => len <= w && w - len >= LIVE_PREFIX,
    };
    if fits {
        return full;
    }
    match o {
        Outcome::Saved { retailer, total, files, .. } => {
            let mut s = String::new();
            push_char(&mut s, '#');
            push_decimal(&mut s, n);
            push_str(&mut s, " · ");
            push_str(&mut s, retailer.as_str());
            push_str(&mut s, " · ");
            push_str(&mut s, total.as_str());
            push_str(&mut s, " · ");
            push_decimal(&mut s, *files as u64);
            push_str(&mut s, "×");
            proof {
                reveal_strlit("#");
            }
            s
        },
        _ => full,
    }
}

/// Lines joined with `sep` between them.
pub open spec fn join(ls: Seq<Seq<char>>, sep: Seq<char>) -> Seq<char>
    decreases ls.len(),
{
    if ls.len() == 0 {
        seq![]
    } else if ls.len() == 1 {
        ls[0]
    } else {
        join(ls.drop_last(), sep) + sep + ls.last()
    }
}

/// How many outcomes satisfy `pred`.
pub open spec fn count(os: Seq<Outcome>, pred: spec_fn(Outcome) -> bool) -> nat
    decreases os.len(),
{
    if os.len() == 0 {
        0
    } else {
        count(os.drop_last(), pred) + if pred(os.last()) {
            1nat
        } else {
            0nat
        }
    }
}

pub open spec fn is_saved_or_dry(o: Outcome) -> bool {
    o is Saved || o is DryRun
}

pub open spec fn is_skipped(o: Outcome) -> bool {
    o is Skipped
}

pub open spec fn is_queued(o: Outcome) -> bool {
    o is Queued
}

pub open spec fn is_failed(o: Outcome) -> bool {
    o is Failed
}

/// The summary footer of a batch.
pub open spec fn footer_text(os: Seq<Outcome>) -> Seq<char> {
    let queued = count(os, |o: Outcome| is_queued(o));
    "Processed "@ + decimal(os.len()) + " · "@ + decimal(count(os, |o: Outcome| is_saved_or_dry(o)))
        + " saved · "@ + decimal(count(os, |o: Outcome| is_skipped(o))) + " skipped · "@ + decimal(
        count(os, |o: Outcome| is_failed(o)),
    ) + " failed"@ + if queued > 0 {
        " · "@ + decimal(queued) + " queued"@
    } else {
        ""@
    }
}

/// Every outcome falls in exactly one of the footer's four tallies.
pub proof fn lemma_footer_counts_partition(os: Seq<Outcome>)
    ensures
        count(os, |o: Outcome| is_saved_or_dry(o)) + count(os, |o: Outcome| is_skipped(o)) + count(
            os,
            |o: Outcome| is_queued(o),
        ) + count(os, |o: Outcome| is_failed(o)) == os.len(),
    decreases os.len(),
{
    if os.len() > 0 {
        lemma_footer_counts_partition(os.drop_last());
    }
}

pub fn footer(outcomes: &Vec<Outcome>) -> (s: String)
    ensures
        s@ == footer_text(outcomes@),
{
    let mut saved: u64 = 0;
    let mut skipped: u64 = 0;
    let mut queued: u64 = 0;
    let mut failed: u64 = 0;
    let mut i: usize = 0;
    while i < outcomes.len()
        invariant
            i <= outcomes.len(),
            saved == count(outcomes@.take(i as int), |o: Outcome| is_saved_or_dry(o)),
            skipped == count(outcomes@.take(i as int), |o: Outcome| is_skipped(o)),
            queued == count(outcomes@.take(i as int), |o: Outcome| is_queued(o)),
            failed == count(outcomes@.take(i as int), |o: Outcome| is_failed(o)),
            saved + skipped + queued + failed == i,
        decreases outcomes.len() - i,
    {
        proof {
            assert(outcomes@.take(i + 1).drop_last() == outcomes@.take(i as int));
            assert(outcomes@.take(i + 1).last() == outcomes@[i as int]);
        }
        match &outcomes[i] {
            Outcome::Saved { .. } | Outcome::DryRun { .. } => {
                saved += 1;
            },
            Outcome::Skipped { .. } => {
                skipped += 1;
            },
            Outcome::Queued { .. } => {
                queued += 1;
            },
            Outcome::Failed { .. } => {
                failed += 1;
            },
        }
        i += 1;
    }
    assert(outcomes@.take(outcomes@.len() as int) == outcomes@);
    let mut s = String::new();
    push_str(&mut s, "Processed ");
    push_decimal(&mut s, outcomes.len() as u64);
    push_str(&mut s, " · ");
    push_decimal(&mut s, saved);
    push_str(&mut s, " saved · ");
    push_decimal(&mut s, skipped);
    push_str(&mut s, " skipped · ");
    push_decimal(&mut s, failed);
    push_str(&mut s, " failed");
    if queued > 0 {
        push_str(&mut s, " · ");
        push_decimal(&mut s, queued);
        push_str(&mut s, " queued");
    }
    proof {
        reveal_strlit("");
    }
    s
}

/// The report line of outcome `i`.
pub open spec fn report_row(os: Seq<Outcome>, i: int) -> Seq<char> {
    seq![glyph_of(state_of(os[i]))] + " "@ + outcome_text((i + 1) as nat, os[i])
}

/// The lines of the final report.
pub open spec fn report_lines(os: Seq<Outcome>, sync: SyncReport, batch: bool) -> Seq<Seq<char>> {
    let rows = Seq::new(os.len(), |i: int| report_row(os, i));
    let sync_line = seq![glyph_of(sync.state)] + " "@ + sync.line@;
    let err = match sync.error {
        Some(e) => seq![e@],
        None => seq![],
    };
    let foot = if batch {
        seq![footer_text(os)]
    } else {
        seq![]
    };
    rows.push(sync_line) + err + foot
}

/// Build the final report: a one-liner per URL in input order, then the Sync
/// line (with any captured git error beneath it on failure), plus a summary
/// footer in batch (`--file`) mode.
pub fn render_report(result: &BatchResult, batch: bool) -> (s: String)
    requires
        result.outcomes@.len() < u64::MAX,
    ensures
        s@ == join(report_lines(result.outcomes@, result.sync, batch), "\n"@),
{
    let os = &result.outcomes;
    let ghost all = report_lines(result.outcomes@, result.sync, batch);
    let mut lines: Vec<String> = Vec::new();
    let mut i: usize = 0;
    while i < os.len()
        invariant
            i <= os.len() < u64::MAX,
            lines@.len() == i,
            os == &result.outcomes,
            all == report_lines(result.outcomes@, result.sync, batch),
            forall|k: int| 0 <= k < i ==> #[trigger] lines@[k]@ == all[k],
        decreases os.len() - i,
    {
        let mut line = String::new();
        push_char(&mut line, report_glyph(row_state(&os[i])));
        push_str(&mut line, " ");
        let label = outcome_label((i + 1) as u64, &os[i]);
        push_str(&mut line, label.as_str());
        proof {
            let rows = Seq::new(os@.len(), |k: int| report_row(os@, k));
            assert(rows[i as int] == report_row(os@, i as int));
            assert(all[i as int] == rows[i as int]);
        }
        lines.push(line);
        i += 1;
    }
    let mut sync_line = String::new();
    push_char(&mut sync_line, report_glyph(result.sync.state));
    push_str(&mut sync_line, " ");
    push_str(&mut sync_line, result.sync.line.as_str());
    lines.push(sync_line);
    match &result.sync.error {
        Some(e) => lines.push(e.clone()),
        None => {},
    }
    if batch {
        lines.push(footer(os));
    }
    assert(views(lines@) =~= all);
    join_lines(&lines)
}

/// `ls` joined with newlines.
pub fn join_lines(ls: &Vec<String>) -> (s: String)
    ensures
        s@ == join(views(ls@), "\n"@),
{
    let mut s = String::new();
    let mut i: usize = 0;
    while i < ls.len()
        invariant
            i <= ls.len(),
            s@ == join(views(ls@).take(i as int), "\n"@),
        decreases ls.len() - i,
    {
        proof {
            assert(views(ls@).take(i + 1).drop_last() == views(ls@).take(i as int));
            assert(views(ls@).take(i + 1).last() == ls@[i as int]@);
        }
        if i > 0 {
            push_str(&mut s, "\n");
        } else {
            assert(views(ls@).take(i + 1) =~= seq![ls@[0]@]);
        }
        push_str(&mut s, ls[i].as_str());
        i += 1;
    }
    assert(views(ls@).take(ls@.len() as int) == views(ls@));
    s
}

// ── In-RAM duplicate index ────────────────────────────────────────────────────

/// Snapshot of the transaction directory (read once) used to detect
/// re-inserts: a URL is a duplicate when it appears literally in any `.md`
/// doc, or was saved earlier in the same run.
#[derive(Debug)]
pub struct Dedup {
    pub md_contents: Vec<String>,
    pub session: Vec<String>,
}

/// The contents of the `.md` docs among `docs`, in order.
pub open spec fn md_contents_of(docs: Seq<StoredDoc>) -> Seq<Seq<char>>
    decreases docs.len(),
{
    if docs.len() == 0 {
        seq![]
    } else {
        let rest = md_contents_of(docs.drop_last());
        if extension_of(docs.last().path@) == Some("md"@) {
            rest.push(docs.last().content@)
        } else {
            rest
        }
    }
}

proof fn lemma_md_content_listed(docs: Seq<StoredDoc>, i: int)
    requires
        0 <= i < docs.len(),
        extension_of(docs[i].path@) == Some("md"@),
    ensures
        exists|j: int|
            0 <= j < md_contents_of(docs).len() && #[trigger] md_contents_of(docs)[j]
                == docs[i].content@,
    decreases docs.len(),
{
    let init = docs.drop_last();
    if i < docs.len() - 1 {
        assert(init[i] == docs[i]);
        lemma_md_content_listed(init, i);
        let j = choose|j: int|
            0 <= j < md_contents_of(init).len() && #[trigger] md_contents_of(init)[j]
                == init[i].content@;
        assert(md_contents_of(docs)[j] == md_contents_of(init)[j]);
    } else {
        let j = md_contents_of(init).len() as int;
        assert(md_contents_of(docs)[j] == docs[i].content@);
    }
}

/// A `.md` document of the store that holds `url` makes the index built
/// from the store know `url` as recorded.
pub proof fn lemma_recorded_url_known(docs: Seq<StoredDoc>, i: int, url: Seq<char>, d: Dedup)
    requires
        0 <= i < docs.len(),
        extension_of(docs[i].path@) == Some("md"@),
        crate::text::contains_sub(docs[i].content@, url),
        views(d.md_contents@) == md_contents_of(docs),
    ensures
        d.has(url),
{
    lemma_md_content_listed(docs, i);
    let j = choose|j: int|
        0 <= j < md_contents_of(docs).len() && #[trigger] md_contents_of(docs)[j]
            == docs[i].content@;
    assert(views(d.md_contents@)[j] == d.md_contents@[j]@);
    assert(crate::text::contains_sub(d.md_contents@[j]@, url));
}

impl Dedup {
    /// Whether `url` counts as already recorded.
    pub open spec fn has(&self, url: Seq<char>) -> bool {
        ||| exists|i: int|
            0 <= i < self.md_contents@.len() && crate::text::contains_sub(
                #[trigger] self.md_contents@[i]@,
                url,
            )
        ||| exists|j: int| 0 <= j < self.session@.len() && #[trigger] self.session@[j]@ == url
    }

    /// Index the `.md` docs of a store listing.
    pub fn from_store(docs: Vec<StoredDoc>) -> (d: Dedup)
        ensures
            views(d.md_contents@) == md_contents_of(docs@),
            d.session@.len() == 0,
    {
        let mut md_contents: Vec<String> = Vec::new();
        let mut i: usize = 0;
        let ghost all = docs@;
        let n = docs.len();
        let mut docs = docs;
        while i < n
            invariant
                i <= n == all.len(),
                docs@ == all.skip(i as int),
                views(md_contents@) == md_contents_of(all.take(i as int)),
            decreases all.len() - i,
        {
            assert(docs@.len() == n - i);
            let d = docs.remove(0);
            proof {
                assert(all.take(i + 1).drop_last() == all.take(i as int));
                assert(all.take(i + 1).last() == all[i as int]);
                assert(all.skip(i as int).drop_first() == all.skip(i + 1));
            }
            if has_extension(d.path.as_str(), "md") {
                proof {
                    assert(views(md_contents@.push(d.content)) == views(md_contents@).push(
                        d.content@,
                    ));
                }
                md_contents.push(d.content);
            }
            i += 1;
        }
        assert(all.take(all.len() as int) == all);
        Dedup { md_contents, session: Vec::new() }
    }

    /// True when `url` appears in any snapshot doc or was saved this run.
    pub fn contains(&self, url: &str) -> (b: bool)
        ensures
            b == self.has(url@),
    {
        let mut i: usize = 0;
        while i < self.md_contents.len()
            invariant
                i <= self.md_contents.len(),
                forall|k: int|
                    0 <= k < i ==> !crate::text::contains_sub(#[trigger] self.md_contents@[k]@, url@),
            decreases self.md_contents.len() - i,
        {
            if contains_str(self.md_contents[i].as_str(), url) {
                return true;
            }
            i += 1;
        }
        let mut j: usize = 0;
        while j < self.session.len()
            invariant
                j <= self.session.len(),
                forall|k: int| 0 <= k < j ==> #[trigger] self.session@[k]@ != url@,
            decreases self.session.len() - j,
        {
            if crate::text::str_eq(self.session[j].as_str(), url) {
                return true;
            }
            j += 1;
        }
        false
    }

    /// Note a URL just saved this run, so a later copy counts as a duplicate.
    pub fn record(&mut self, url: &str)
        ensures
            final(self).has(url@),
            forall|u: Seq<char>| old(self).has(u) ==> final(self).has(u),
            final(self).md_contents == old(self).md_contents,
            final(self).session@ == old(self).session@.push(final(self).session@.last()),
            final(self).session@.last()@ == url@,
    {
        self.session.push(url.to_string());
        proof {
            let n = self.session@.len() - 1;
            assert(self.session@[n]@ == url@);
            assert forall|u: Seq<char>| old(self).has(u) implies self.has(u) by {
                if exists|j: int| 0 <= j < old(self).session@.len() && #[trigger] old(
                    self,
                ).session@[j]@ == u {
                    let j = choose|j: int|
                        0 <= j < old(self).session@.len() && #[trigger] old(self).session@[j]@
                            == u;
                    assert(self.session@[j] == old(self).session@[j]);
                    assert(self.session@[j]@ == u);
                } else {
                    let i = choose|i: int|
                        0 <= i < old(self).md_contents@.len() && crate::text::contains_sub(
                            #[trigger] old(self).md_contents@[i]@,
                            u,
                        );
                    assert(crate::text::contains_sub(self.md_contents@[i]@, u));
                }
            }
        }
    }
}

// ── One URL ───────────────────────────────────────────────────────────────────

#[derive(Clone, Copy, Debug, PartialEq, Eq, Structural)]
pub enum RunOnePhase {
    Start,
    AwaitInternet,
    AwaitEnqueue,
    AwaitParse,
    AwaitRecord,
    AwaitPrint,
    AwaitWrite,
    Finished,
}

/// The answer to the last request.
#[derive(Debug)]
pub enum RunOneEvent {
    Begin,
    Internet(bool),
    Enqueued(Result<(), Error>),
    Parsed(Result<Invoice, Error>),
    Recorded(Result<(), Error>),
    Printed,
    /// How many files were written, or why writing failed.
    Written(Result<usize, Error>),
}

/// The outside work one URL needs next.
#[derive(Debug)]
pub enum RunOneRequest {
    HasInternet,
    /// Add the URL to the offline queue.
    Enqueue(String),
    /// Parse the invoice at the URL.
    Parse(String),
    /// Note the URL in the failed-links log.
    RecordFailed(String),
    /// Show the invoice (dry run).
    Print(Invoice),
    /// Save one file per item of the invoice.
    Write(Invoice),
    Finish(Result<Outcome, Error>),
}

/// Parse + write one URL. Performs no git sync (that is the batch's job) and
/// no live-display output — it only ends with an [`Outcome`].
#[derive(Debug)]
pub struct RunOne {
    pub url: String,
    pub dry_run: bool,
    pub force: bool,
    /// Whether the URL was already recorded when the run started.
    pub known: bool,
    pub phase: RunOnePhase,
    pub date: String,
    pub retailer: String,
    pub total: String,
    pub currency: String,
}

impl RunOne {
    /// Past the first step a run goes on only for a URL that is new or forced.
    pub open spec fn inv(&self) -> bool {
        &&& self.phase == RunOnePhase::Start || self.phase == RunOnePhase::Finished || !self.known
            || self.force
        &&& self.phase == RunOnePhase::AwaitPrint ==> self.dry_run
        &&& self.phase == RunOnePhase::AwaitWrite ==> !self.dry_run
        &&& self.phase != RunOnePhase::Start && self.phase != RunOnePhase::Finished
            ==> self.url@.len() > 0
    }

    pub open spec fn accepts(&self, e: RunOneEvent) -> bool {
        match (self.phase, e) {
            (RunOnePhase::Start, RunOneEvent::Begin) => true,
            (RunOnePhase::AwaitInternet, RunOneEvent::Internet(_)) => true,
            (RunOnePhase::AwaitEnqueue, RunOneEvent::Enqueued(_)) => true,
            (RunOnePhase::AwaitParse, RunOneEvent::Parsed(_)) => true,
            (RunOnePhase::AwaitRecord, RunOneEvent::Recorded(_)) => true,
            (RunOnePhase::AwaitPrint, RunOneEvent::Printed) => true,
            (RunOnePhase::AwaitWrite, RunOneEvent::Written(_)) => true,
            _ => false,
        }
    }

    /// Whether `o` is an outcome this run may end with: saved only when the
    /// URL is new or forced, skipped only when it is known and not forced.
    pub open spec fn may_end_with(&self, o: Outcome) -> bool {
        match o {
            Outcome::Saved { .. } => !self.dry_run && (!self.known || self.force) && self.url@.len() > 0,
            Outcome::DryRun { .. } => self.dry_run,
            Outcome::Skipped { url } => url == self.url && self.known && !self.force,
            Outcome::Queued { url } => url == self.url,
            Outcome::Failed { url } => url == self.url,
        }
    }

    /// A run for `url`; `dedup` tells whether it was recorded before.
    pub fn new(url: &str, dry_run: bool, force: bool, dedup: &Dedup) -> (m: RunOne)
        ensures
            m.url@ == url@,
            m.dry_run == dry_run,
            m.force == force,
            m.known == dedup.has(url@),
            m.phase == RunOnePhase::Start,
            m.inv(),
    {
        RunOne {
            url: url.to_string(),
            dry_run,
            force,
            known: dedup.contains(url),
            phase: RunOnePhase::Start,
            date: String::new(),
            retailer: String::new(),
            total: String::new(),
            currency: String::new(),
        }
    }

    fn finish(&mut self, r: Result<Outcome, Error>) -> (step: RunOneRequest)
        ensures
            final(self).phase == RunOnePhase::Finished,
            final(self).url == old(self).url,
            final(self).dry_run == old(self).dry_run,
            final(self).force == old(self).force,
            final(self).known == old(self).known,
            step == RunOneRequest::Finish(r),
    {
        self.phase = RunOnePhase::Finished;
        RunOneRequest::Finish(r)
    }

    /// Advance by one answer.
    pub fn step(&mut self, event: RunOneEvent) -> (req: RunOneRequest)
        requires
            old(self).inv(),
            old(self).accepts(event),
        ensures
            final(self).inv(),
            final(self).url == old(self).url,
            final(self).dry_run == old(self).dry_run,
            final(self).force == old(self).force,
            final(self).known == old(self).known,
            // A recorded URL is never parsed again unless forced.
            req is Parse ==> !final(self).known || final(self).force,
            // A dry run never writes.
            req is Write ==> !final(self).dry_run,
            (req is Finish) == (final(self).phase == RunOnePhase::Finished),
            final(self).phase != RunOnePhase::Start,
            req matches RunOneRequest::Finish(Ok(o)) ==> final(self).may_end_with(o),
            match (old(self).phase, event) {
                (RunOnePhase::Start, RunOneEvent::Begin) => if old(self).url@.len() == 0 {
                    &&& final(self).phase == RunOnePhase::Finished
                    &&& req matches RunOneRequest::Finish(Err(Error::Parse(m)))
                    &&& m@ == "URL must not be empty"@
                } else if !old(self).force && old(self).known {
                    &&& final(self).phase == RunOnePhase::Finished
                    &&& req matches RunOneRequest::Finish(Ok(Outcome::Skipped { url }))
                    &&& url == old(self).url
                } else {
                    final(self).phase == RunOnePhase::AwaitInternet && req is HasInternet
                },
                (RunOnePhase::AwaitInternet, RunOneEvent::Internet(up)) => if up {
                    &&& final(self).phase == RunOnePhase::AwaitParse
                    &&& req == RunOneRequest::Parse(old(self).url)
                } else {
                    &&& final(self).phase == RunOnePhase::AwaitEnqueue
                    &&& req == RunOneRequest::Enqueue(old(self).url)
                },
                (RunOnePhase::AwaitEnqueue, RunOneEvent::Enqueued(res)) => match res {
                    Ok(_) => final(self).phase == RunOnePhase::Finished && req
                        == RunOneRequest::Finish(Ok(Outcome::Queued { url: old(self).url })),
                    Err(e) => final(self).phase == RunOnePhase::Finished && req
                        == RunOneRequest::Finish(Err(e)),
                },
                (RunOnePhase::AwaitParse, RunOneEvent::Parsed(res)) => match res {
                    Err(_) => final(self).phase == RunOnePhase::AwaitRecord && req
                        == RunOneRequest::RecordFailed(old(self).url),
                    Ok(inv) => if old(self).dry_run {
                        &&& final(self).phase == RunOnePhase::AwaitPrint
                        &&& final(self).date == inv.date
                        &&& final(self).retailer == inv.retailer
                        &&& req == RunOneRequest::Print(inv)
                    } else {
                        &&& final(self).phase == RunOnePhase::AwaitWrite
                        &&& final(self).date == inv.date
                        &&& final(self).retailer == inv.retailer
                        &&& final(self).total == inv.total_price
                        &&& final(self).currency == inv.currency
                        &&& req == RunOneRequest::Write(inv)
                    },
                },
                (RunOnePhase::AwaitRecord, RunOneEvent::Recorded(res)) => match res {
                    Ok(_) => final(self).phase == RunOnePhase::Finished && req
                        == RunOneRequest::Finish(Ok(Outcome::Failed { url: old(self).url })),
                    Err(e) => final(self).phase == RunOnePhase::Finished && req
                        == RunOneRequest::Finish(Err(e)),
                },
                (RunOnePhase::AwaitPrint, RunOneEvent::Printed) => final(self).phase
                    == RunOnePhase::Finished && req == RunOneRequest::Finish(
                    Ok(Outcome::DryRun { date: old(self).date, retailer: old(self).retailer }),
                ),
                (RunOnePhase::AwaitWrite, RunOneEvent::Written(res)) => match res {
                    Ok(n) => final(self).phase == RunOnePhase::Finished && req
                        == RunOneRequest::Finish(
                        Ok(
                            Outcome::Saved {
                                date: old(self).date,
                                retailer: old(self).retailer,
                                total: old(self).total,
                                currency: old(self).currency,
                                files: n,
                            },
                        ),
                    ),
                    Err(e) => final(self).phase == RunOnePhase::Finished && req
                        == RunOneRequest::Finish(Err(e)),
                },
                _ => false,
            },
    {
        match event {
            RunOneEvent::Begin => {
                proof {
                    reveal_strlit("");
                    if self.url@.len() == 0 {
                        assert(self.url@ =~= ""@);
                    }
                }
                if crate::text::str_eq(self.url.as_str(), "") {
                    return self.finish(Err(Error::Parse("URL must not be empty".to_string())));
                }
                if !self.force && self.known {
                    let url = self.url.clone();
                    return self.finish(Ok(Outcome::Skipped { url }));
                }
                self.phase = RunOnePhase::AwaitInternet;
                RunOneRequest::HasInternet
            },
            RunOneEvent::Internet(up) => {
                if up {
                    self.phase = RunOnePhase::AwaitParse;
                    RunOneRequest::Parse(self.url.clone())
                } else {
                    self.phase = RunOnePhase::AwaitEnqueue;
                    RunOneRequest::Enqueue(self.url.clone())
                }
            },
            RunOneEvent::Enqueued(res) => match res {
                Ok(()) => {
                    let url = self.url.clone();
                    self.finish(Ok(Outcome::Queued { url }))
                },
                Err(e) => self.finish(Err(e)),
            },
            RunOneEvent::Parsed(res) => match res {
                Err(_) => {
                    self.phase = RunOnePhase::AwaitRecord;
                    RunOneRequest::RecordFailed(self.url.clone())
                },
                Ok(inv) => {
                    self.date = inv.date.clone();
                    self.retailer = inv.retailer.clone();
                    if self.dry_run {
                        self.phase = RunOnePhase::AwaitPrint;
                        RunOneRequest::Print(inv)
                    } else {
                        self.total = inv.total_price.clone();
                        self.currency = inv.currency.clone();
                        self.phase = RunOnePhase::AwaitWrite;
                        RunOneRequest::Write(inv)
                    }
                },
            },
            RunOneEvent::Recorded(res) => match res {
                Ok(()) => {
                    let url = self.url.clone();
                    self.finish(Ok(Outcome::Failed { url }))
                },
                Err(e) => self.finish(Err(e)),
            },
            RunOneEvent::Printed => {
                let date = self.date.clone();
                let retailer = self.retailer.clone();
                self.finish(Ok(Outcome::DryRun { date, retailer }))
            },
            RunOneEvent::Written(res) => match res {
                Ok(n) => {
                    let o = Outcome::Saved {
                        date: self.date.clone(),
                        retailer: self.retailer.clone(),
                        total: self.total.clone(),
                        currency: self.currency.clone(),
                        files: n,
                    };
                    self.finish(Ok(o))
                },
                Err(e) => self.finish(Err(e)),
            },
        }
    }
}

/// What the batch makes of one URL's result: an error becomes a failure
/// (recorded in the failed log unless the URL is empty).
pub fn settle(url: &str, r: Result<Outcome, Error>) -> (s: (Outcome, bool))
    ensures
        match r {
            Ok(o) => s.0 == o && !s.1,
            Err(_) => (s.0 matches Outcome::Failed { url: u } && u@ == url@) && s.1 == (url@.len()
                > 0),
        },
{
    match r {
        Ok(o) => (o, false),
        Err(_) => {
            let record = !crate::text::str_eq(url, "");
            proof {
                reveal_strlit("");
                if url@.len() == 0 {
                    assert(url@ =~= ""@);
                }
            }
            (Outcome::Failed { url: url.to_string() }, record)
        },
    }
}

/// The error `insert` ends with when URLs failed.
pub fn insert_result(outcomes: &Vec<Outcome>, batch: bool) -> (r: Result<(), Error>)
    ensures
        count(outcomes@, |o: Outcome| is_failed(o)) == 0 ==> r is Ok,
        count(outcomes@, |o: Outcome| is_failed(o)) > 0 ==> (r matches Err(Error::Parse(m)) && m@
            == if batch {
            decimal(count(outcomes@, |o: Outcome| is_failed(o))) + " URL(s) failed to process"@
        } else {
            "URL failed to process"@
        }),
{
    let mut failed: u64 = 0;
    let mut i: usize = 0;
    while i < outcomes.len()
        invariant
            i <= outcomes.len(),
            failed == count(outcomes@.take(i as int), |o: Outcome| is_failed(o)),
            failed <= i,
        decreases outcomes.len() - i,
    {
        proof {
            assert(outcomes@.take(i + 1).drop_last() == outcomes@.take(i as int));
            assert(outcomes@.take(i + 1).last() == outcomes@[i as int]);
        }
        if outcomes[i].is_failure() {
            failed += 1;
        }
        i += 1;
    }
    assert(outcomes@.take(outcomes@.len() as int) == outcomes@);
    if failed == 0 {
        return Ok(());
    }
    if batch {
        let mut m = String::new();
        push_decimal(&mut m, failed);
        push_str(&mut m, " URL(s) failed to process");
        Err(Error::Parse(m))
    } else {
        Err(Error::Parse("URL failed to process".to_string()))
    }
}

/// The URLs an `insert` invocation processes: the lines of `--file`, or the
/// single trimmed positional URL. `None` when the file held no URLs.
pub fn resolve_urls(file_contents: Option<&str>, url: Option<&str>) -> (r: Option<Vec<String>>)
    ensures
        match file_contents {
            Some(c) => match r {
                Some(urls) => urls@.len() > 0 && views(urls@) == url_lines(lines(c@)),
                None => url_lines(lines(c@)).len() == 0,
            },
            None => r matches Some(urls) && urls@.len() == 1 && urls@[0]@ == trim(
                match url {
                    Some(u) => u@,
                    None => seq![],
                },
            ),
        },
{
    match file_contents {
        Some(c) => match parse_url_list(c) {
            LoadedUrls::Empty => None,
            LoadedUrls::Found(urls) => Some(urls),
        },
        None => {
            let u = match url {
                Some(u) => crate::text::trim_str(u),
                None => String::new(),
            };
            let mut v: Vec<String> = Vec::new();
            v.push(u);
            Some(v)
        },
    }
}

} // verus!
