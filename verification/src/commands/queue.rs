//! `queue`: the offline queue of invoice URLs (a local file, or a remote API).
//!
//! Processing is [`QueueProcess`], a machine the caller drives: it performs
//! each [`QueueRequest`] (read the queue, run the insert batch, write the
//! queue back) and answers with a [`QueueEvent`].
use vstd::prelude::*;

use crate::commands::insert::Outcome;
use crate::error::Error;
use crate::ports::{line_views, Line};
use crate::text::{decimal, pad_left, push_decimal, push_padded_left, push_str, str_eq, views};

verus! {

// ── add / remove / list ───────────────────────────────────────────────────────

/// The status line after queueing `url`.
pub fn add_line(url: &str) -> (l: Line)
    ensures
        l.text() == "Queued: "@ + url@,
        !l.is_out(),
{
    let mut m = String::new();
    push_str(&mut m, "Queued: ");
    push_str(&mut m, url);
    Line::Status(m)
}

/// `xs` without the entries equal to `x`.
pub open spec fn without(xs: Seq<Seq<char>>, x: Seq<char>) -> Seq<Seq<char>>
    decreases xs.len(),
{
    if xs.len() == 0 {
        seq![]
    } else {
        let rest = without(xs.drop_last(), x);
        if xs.last() == x {
            rest
        } else {
            rest.push(xs.last())
        }
    }
}

/// After a removal no copy of `x` is left, and removing it again changes
/// nothing.
pub proof fn lemma_without_removes_all(xs: Seq<Seq<char>>, x: Seq<char>)
    ensures
        forall|i: int| 0 <= i < without(xs, x).len() ==> without(xs, x)[i] != x,
        without(without(xs, x), x) == without(xs, x),
        without(xs, x).len() <= xs.len(),
    decreases xs.len(),
{
    if xs.len() > 0 {
        lemma_without_removes_all(xs.drop_last(), x);
        let rest = without(xs.drop_last(), x);
        if xs.last() != x {
            assert(rest.push(xs.last()).drop_last() == rest);
            assert(without(rest.push(xs.last()), x) == without(rest, x).push(xs.last()));
        }
    }
}

/// The queue after removing `url`, and what to tell the user.
#[derive(Debug)]
pub struct Removal {
    pub kept: Vec<String>,
    pub line: Line,
}

/// Remove every occurrence of `url` from the queue `lines`.
pub fn remove(lines: Vec<String>, url: &str) -> (r: Removal)
    ensures
        views(r.kept@) == without(views(lines@), url@),
        r.kept@.len() == lines@.len() ==> (!r.line.is_out() && r.line.text()
            == "URL not found in queue: "@ + url@),
        r.kept@.len() < lines@.len() ==> (r.line.is_out() && r.line.text() == "Removed "@ + decimal(
            (lines@.len() - r.kept@.len()) as nat,
        ) + " occurrence(s) of the URL from the queue."@),
{
    let ghost lv = views(lines@);
    let before = lines.len();
    let mut kept: Vec<String> = Vec::new();
    let mut i: usize = 0;
    while i < lines.len()
        invariant
            i <= lines@.len() == before,
            lv == views(lines@),
            views(kept@) == without(lv.take(i as int), url@),
            kept@.len() <= i,
        decreases lines.len() - i,
    {
        proof {
            assert(lv.take(i + 1).drop_last() == lv.take(i as int));
            assert(lv.take(i + 1).last() == lines@[i as int]@);
        }
        if !str_eq(lines[i].as_str(), url) {
            kept.push(lines[i].clone());
        }
        i += 1;
    }
    assert(lv.take(before as int) == lv);
    let removed = before - kept.len();
    let line = if removed == 0 {
        let mut m = String::new();
        push_str(&mut m, "URL not found in queue: ");
        push_str(&mut m, url);
        Line::Status(m)
    } else {
        let mut m = String::new();
        push_str(&mut m, "Removed ");
        push_decimal(&mut m, removed as u64);
        push_str(&mut m, " occurrence(s) of the URL from the queue.");
        Line::Out(m)
    };
    Removal { kept, line }
}

/// The lines `queue list` prints.
pub open spec fn list_lines(q: Seq<Seq<char>>) -> Seq<Seq<char>> {
    if q.len() == 0 {
        seq!["Queue is empty."@]
    } else {
        Seq::new(q.len(), |i: int| pad_left(decimal((i + 1) as nat), 4) + ". "@ + q[i]) + seq![
            "\n"@ + decimal(q.len()) + " URL(s) in queue."@,
        ]
    }
}

/// `queue list`.
pub fn list(lines: &Vec<String>) -> (r: Vec<String>)
    requires
        lines@.len() < u64::MAX,
    ensures
        views(r@) == list_lines(views(lines@)),
{
    let ghost q = views(lines@);
    let mut out: Vec<String> = Vec::new();
    if lines.len() == 0 {
        out.push("Queue is empty.".to_string());
        return out;
    }
    let mut i: usize = 0;
    while i < lines.len()
        invariant
            i <= lines@.len() < u64::MAX,
            q == views(lines@),
            views(out@) == Seq::new(
                i as nat,
                |k: int| pad_left(decimal((k + 1) as nat), 4) + ". "@ + q[k],
            ),
        decreases lines.len() - i,
    {
        let mut n = String::new();
        push_decimal(&mut n, (i + 1) as u64);
        let mut m = String::new();
        push_padded_left(&mut m, n.as_str(), 4);
        push_str(&mut m, ". ");
        push_str(&mut m, lines[i].as_str());
        let ghost before = views(out@);
        out.push(m);
        proof {
            assert(views(out@) == before.push(m@));
            assert(Seq::new((i + 1) as nat, |k: int| pad_left(decimal((k + 1) as nat), 4) + ". "@ + q[k])
                == Seq::new(i as nat, |k: int| pad_left(decimal((k + 1) as nat), 4) + ". "@ + q[k]).push(
                pad_left(decimal((i + 1) as nat), 4) + ". "@ + q[i as int],
            ));
        }
        i += 1;
    }
    let mut last = String::new();
    push_str(&mut last, "\n");
    push_decimal(&mut last, lines.len() as u64);
    push_str(&mut last, " URL(s) in queue.");
    let ghost body = views(out@);
    out.push(last);
    assert(views(out@) == body.push(last@));
    out
}

// ── process ───────────────────────────────────────────────────────────────────

/// The URLs paired with their outcomes (as far as both go), split into the
/// succeeded and the failed ones, with a status line for each.
pub open spec fn split_outcomes(urls: Seq<Seq<char>>, os: Seq<Outcome>, k: int) -> (
    Seq<Seq<char>>,
    Seq<Seq<char>>,
    Seq<(bool, Seq<char>)>,
)
    decreases k,
{
    if k <= 0 {
        (seq![], seq![], seq![])
    } else {
        let prev = split_outcomes(urls, os, k - 1);
        let u = urls[k - 1];
        if os[k - 1] is Failed {
            (prev.0, prev.1.push(u), prev.2.push((false, "  "@ + u + " … FAILED"@)))
        } else {
            (prev.0.push(u), prev.1, prev.2.push((false, "  "@ + u + " … ok"@)))
        }
    }
}

/// The first `k` URLs beside their outcomes.
pub open spec fn url_outcomes(urls: Seq<Seq<char>>, os: Seq<Outcome>, k: int) -> Seq<
    (Seq<char>, Outcome),
> {
    Seq::new(k as nat, |i: int| (urls[i], os[i]))
}

/// The URL of a run that failed.
pub open spec fn failed_url(p: (Seq<char>, Outcome)) -> Option<Seq<char>> {
    match p.1 {
        Outcome::Failed { .. } => Some(p.0),
        _ => None,
    }
}

/// The URL of a run that did not fail: saved, skipped as already recorded,
/// queued again, or a dry run.
pub open spec fn done_url(p: (Seq<char>, Outcome)) -> Option<Seq<char>> {
    match p.1 {
        Outcome::Failed { .. } => None,
        _ => Some(p.0),
    }
}

/// Processing the queue keeps in it exactly the URLs whose run failed, in
/// queue order, and counts every other run — saved, skipped because already
/// recorded, queued, dry run — as succeeded; each URL's status line says
/// FAILED exactly when its run failed.
pub proof fn lemma_split_keeps_failed(urls: Seq<Seq<char>>, os: Seq<Outcome>, k: int)
    requires
        0 <= k <= urls.len(),
        k <= os.len(),
    ensures
        split_outcomes(urls, os, k).1 == url_outcomes(urls, os, k).filter_map(
            |p: (Seq<char>, Outcome)| failed_url(p),
        ),
        split_outcomes(urls, os, k).0 == url_outcomes(urls, os, k).filter_map(
            |p: (Seq<char>, Outcome)| done_url(p),
        ),
        split_outcomes(urls, os, k).2.len() == k,
        forall|i: int|
            0 <= i < k ==> #[trigger] split_outcomes(urls, os, k).2[i] == (
                false,
                "  "@ + urls[i] + if os[i] is Failed {
                    " … FAILED"@
                } else {
                    " … ok"@
                },
            ),
    decreases k,
{
    if k > 0 {
        lemma_split_keeps_failed(urls, os, k - 1);
        let ps = url_outcomes(urls, os, k);
        assert(ps.drop_last() =~= url_outcomes(urls, os, k - 1));
        assert(ps.last() == (urls[k - 1], os[k - 1]));
        let prev = split_outcomes(urls, os, k - 1);
        let cur = split_outcomes(urls, os, k);
        if os[k - 1] is Failed {
            assert(prev.1.push(urls[k - 1]) =~= prev.1 + seq![urls[k - 1]]);
        } else {
            assert(prev.0.push(urls[k - 1]) =~= prev.0 + seq![urls[k - 1]]);
        }
        assert forall|i: int| 0 <= i < k implies #[trigger] cur.2[i] == (
            false,
            "  "@ + urls[i] + if os[i] is Failed {
                " … FAILED"@
            } else {
                " … ok"@
            },
        ) by {
            if i < k - 1 {
                assert(cur.2[i] == prev.2[i]);
            }
        }
    }
}

pub open spec fn paired(urls: Seq<Seq<char>>, os: Seq<Outcome>) -> int {
    if urls.len() < os.len() {
        urls.len() as int
    } else {
        os.len() as int
    }
}

/// The entries of `xs` that occur in `keep`, in order.
pub open spec fn kept_if_in(xs: Seq<Seq<char>>, keep: Seq<Seq<char>>) -> Seq<Seq<char>>
    decreases xs.len(),
{
    if xs.len() == 0 {
        seq![]
    } else {
        let rest = kept_if_in(xs.drop_last(), keep);
        if keep.contains(xs.last()) {
            rest.push(xs.last())
        } else {
            rest
        }
    }
}

fn contains_text(xs: &Vec<String>, x: &str) -> (b: bool)
    ensures
        b == views(xs@).contains(x@),
{
    let mut i: usize = 0;
    while i < xs.len()
        invariant
            i <= xs@.len(),
            forall|k: int| 0 <= k < i ==> xs@[k]@ != x@,
        decreases xs.len() - i,
    {
        if str_eq(xs[i].as_str(), x) {
            assert(views(xs@)[i as int] == x@);
            return true;
        }
        i += 1;
    }
    proof {
        if views(xs@).contains(x@) {
            let k = choose|k: int| 0 <= k < views(xs@).len() && views(xs@)[k] == x@;
            assert(xs@[k]@ == x@);
        }
    }
    false
}

/// Where a queue run stands.
#[derive(Clone, Copy, Debug, PartialEq, Eq, Structural)]
pub enum QueuePhase {
    Start,
    AwaitUrls,
    AwaitBatch,
    AwaitUpdate,
    Finished,
}

/// The answer to the last request.
#[derive(Debug)]
pub enum QueueEvent {
    Begin,
    /// The queued URLs (local file or remote API).
    Urls(Result<Vec<String>, Error>),
    /// Each URL's outcome from the insert batch.
    BatchDone(Vec<Outcome>),
    /// The queue was written back (local) or trimmed (remote).
    Updated(Result<(), Error>),
}

/// The outside work a queue run needs next.
#[derive(Debug)]
pub enum QueueRequest {
    /// Read the local queue file.
    ListLocal,
    /// Fetch the queue from the remote API.
    FetchRemote,
    /// Insert these URLs as one batch (one sync at the end unless `no_sync`).
    RunBatch { urls: Vec<String>, no_sync: bool },
    /// Replace the local queue with these URLs.
    Replace(Vec<String>),
    /// Tell the remote API to drop these URLs.
    RemoveRemote(Vec<String>),
    Finish(Result<(), Error>),
}

/// Lines to show, then the next request.
#[derive(Debug)]
pub struct QueueStep {
    pub say: Vec<Line>,
    pub request: QueueRequest,
}

/// One `queue process` run.
#[derive(Debug)]
pub struct QueueProcess {
    pub remote: bool,
    pub no_sync: bool,
    /// The remote API's URL, named while fetching.
    pub api_url: String,
    pub phase: QueuePhase,
    pub urls: Vec<String>,
    pub succeeded: Vec<String>,
    pub failed: Vec<String>,
}

/// The closing lines and result once the queue is updated.
pub open spec fn done_lines(remote: bool, s: nat, f: nat) -> Seq<(bool, Seq<char>)> {
    seq![(true, "\nDone. "@ + decimal(s) + " succeeded, "@ + decimal(f) + " failed."@)] + if !remote
        && f > 0 {
        seq![(false, "Failed URLs remain in the queue."@)]
    } else {
        seq![]
    }
}

impl QueueProcess {
    pub open spec fn accepts(&self, e: QueueEvent) -> bool {
        match (self.phase, e) {
            (QueuePhase::Start, QueueEvent::Begin) => true,
            (QueuePhase::AwaitUrls, QueueEvent::Urls(_)) => true,
            (QueuePhase::AwaitBatch, QueueEvent::BatchDone(_)) => true,
            (QueuePhase::AwaitUpdate, QueueEvent::Updated(_)) => true,
            _ => false,
        }
    }

    /// A run over the local queue, or the remote one at `api_url`.
    pub fn new(remote: bool, no_sync: bool, api_url: String) -> (m: QueueProcess)
        ensures
            m.remote == remote,
            m.no_sync == no_sync,
            m.api_url == api_url,
            m.phase == QueuePhase::Start,
    {
        QueueProcess {
            remote,
            no_sync,
            api_url,
            phase: QueuePhase::Start,
            urls: Vec::new(),
            succeeded: Vec::new(),
            failed: Vec::new(),
        }
    }

    fn done(&mut self) -> (step: QueueStep)
        ensures
            final(self).phase == QueuePhase::Finished,
            final(self).remote == old(self).remote,
            final(self).no_sync == old(self).no_sync,
            final(self).succeeded == old(self).succeeded,
            final(self).failed == old(self).failed,
            line_views(step.say@) == done_lines(
                old(self).remote,
                old(self).succeeded@.len(),
                old(self).failed@.len(),
            ),
            old(self).failed@.len() == 0 ==> step.request == QueueRequest::Finish(Ok(())),
            old(self).failed@.len() > 0 ==> (step.request matches QueueRequest::Finish(
                Err(Error::Parse(m)),
            ) && m@ == decimal(old(self).failed@.len()) + " URL(s) failed"@),
    {
        let mut say: Vec<Line> = Vec::new();
        let mut m = String::new();
        push_str(&mut m, "\nDone. ");
        push_decimal(&mut m, self.succeeded.len() as u64);
        push_str(&mut m, " succeeded, ");
        push_decimal(&mut m, self.failed.len() as u64);
        push_str(&mut m, " failed.");
        say.push(Line::Out(m));
        let f = self.failed.len();
        if !self.remote && f > 0 {
            say.push(Line::Status("Failed URLs remain in the queue.".to_string()));
        }
        self.phase = QueuePhase::Finished;
        let request = if f > 0 {
            let mut e = String::new();
            push_decimal(&mut e, f as u64);
            push_str(&mut e, " URL(s) failed");
            QueueRequest::Finish(Err(Error::Parse(e)))
        } else {
            QueueRequest::Finish(Ok(()))
        };
        QueueStep { say, request }
    }

    /// Advance by one answer.
    pub fn step(&mut self, event: QueueEvent) -> (step: QueueStep)
        requires
            old(self).accepts(event),
        ensures
            final(self).remote == old(self).remote,
            final(self).no_sync == old(self).no_sync,
            match (old(self).phase, event) {
                (QueuePhase::Start, QueueEvent::Begin) => {
                    &&& final(self).phase == QueuePhase::AwaitUrls
                    &&& if old(self).remote {
                        &&& line_views(step.say@) == seq![
                            (false, "Fetching queue from "@ + old(self).api_url@ + "…"@),
                        ]
                        &&& step.request is FetchRemote
                    } else {
                        &&& step.say@.len() == 0
                        &&& step.request is ListLocal
                    }
                },
                (QueuePhase::AwaitUrls, QueueEvent::Urls(res)) => match res {
                    Err(e) => final(self).phase == QueuePhase::Finished && step.say@.len() == 0
                        && step.request == QueueRequest::Finish(Err(e)),
                    Ok(urls) => if urls@.len() == 0 {
                        &&& final(self).phase == QueuePhase::Finished
                        &&& line_views(step.say@) == seq![
                            (
                                true,
                                if old(self).remote {
                                    "Remote queue is empty."@
                                } else {
                                    "Queue is empty."@
                                },
                            ),
                        ]
                        &&& step.request == QueueRequest::Finish(Ok(()))
                    } else {
                        &&& final(self).phase == QueuePhase::AwaitBatch
                        &&& views(final(self).urls@) == views(urls@)
                        &&& line_views(step.say@) == seq![
                            (
                                true,
                                "Processing "@ + decimal(urls@.len()) + if old(self).remote {
                                    " remote URL(s)…"@
                                } else {
                                    " queued URL(s)…"@
                                },
                            ),
                        ]
                        &&& step.request matches QueueRequest::RunBatch { urls: u, no_sync: n }
                            && views(u@) == views(urls@) && n == old(self).no_sync
                    },
                },
                (QueuePhase::AwaitBatch, QueueEvent::BatchDone(os)) => {
                    let sp = split_outcomes(
                        views(old(self).urls@),
                        os@,
                        paired(views(old(self).urls@), os@),
                    );
                    &&& views(final(self).succeeded@) == sp.0
                    &&& views(final(self).failed@) == sp.1
                    &&& if old(self).remote {
                        if sp.0.len() > 0 {
                            &&& final(self).phase == QueuePhase::AwaitUpdate
                            &&& line_views(step.say@) == sp.2
                            &&& step.request matches QueueRequest::RemoveRemote(u) && views(u@)
                                == sp.0
                        } else {
                            &&& final(self).phase == QueuePhase::Finished
                            &&& line_views(step.say@) == sp.2 + done_lines(true, 0, sp.1.len())
                            &&& sp.1.len() == 0 ==> step.request == QueueRequest::Finish(Ok(()))
                            &&& sp.1.len() > 0 ==> (step.request matches QueueRequest::Finish(
                                Err(Error::Parse(m)),
                            ) && m@ == decimal(sp.1.len()) + " URL(s) failed"@)
                        }
                    } else {
                        &&& final(self).phase == QueuePhase::AwaitUpdate
                        &&& line_views(step.say@) == sp.2
                        &&& step.request matches QueueRequest::Replace(u) && views(u@)
                            == kept_if_in(views(old(self).urls@), sp.1)
                    }
                },
                (QueuePhase::AwaitUpdate, QueueEvent::Updated(res)) => match res {
                    Err(e) => final(self).phase == QueuePhase::Finished && step.say@.len() == 0
                        && step.request == QueueRequest::Finish(Err(e)),
                    Ok(_) => {
                        let f = old(self).failed@.len();
                        &&& final(self).phase == QueuePhase::Finished
                        &&& line_views(step.say@) == done_lines(
                            old(self).remote,
                            old(self).succeeded@.len(),
                            f,
                        )
                        &&& f == 0 ==> step.request == QueueRequest::Finish(Ok(()))
                        &&& f > 0 ==> (step.request matches QueueRequest::Finish(
                            Err(Error::Parse(m)),
                        ) && m@ == decimal(f) + " URL(s) failed"@)
                    },
                },
                _ => false,
            },
    {
        match event {
            QueueEvent::Begin => {
                self.phase = QueuePhase::AwaitUrls;
                let mut say: Vec<Line> = Vec::new();
                if self.remote {
                    let mut m = String::new();
                    push_str(&mut m, "Fetching queue from ");
                    push_str(&mut m, self.api_url.as_str());
                    push_str(&mut m, "…");
                    say.push(Line::Status(m));
                    QueueStep { say, request: QueueRequest::FetchRemote }
                } else {
                    QueueStep { say, request: QueueRequest::ListLocal }
                }
            },
            QueueEvent::Urls(res) => match res {
                Err(e) => {
                    self.phase = QueuePhase::Finished;
                    QueueStep { say: Vec::new(), request: QueueRequest::Finish(Err(e)) }
                },
                Ok(urls) => {
                    let mut say: Vec<Line> = Vec::new();
                    if urls.len() == 0 {
                        self.phase = QueuePhase::Finished;
                        let m = if self.remote {
                            "Remote queue is empty.".to_string()
                        } else {
                            "Queue is empty.".to_string()
                        };
                        say.push(Line::Out(m));
                        return QueueStep { say, request: QueueRequest::Finish(Ok(())) };
                    }
                    let mut m = String::new();
                    push_str(&mut m, "Processing ");
                    push_decimal(&mut m, urls.len() as u64);
                    if self.remote {
                        push_str(&mut m, " remote URL(s)…");
                    } else {
                        push_str(&mut m, " queued URL(s)…");
                    }
                    say.push(Line::Out(m));
                    let batch = copy_all(&urls);
                    self.urls = urls;
                    self.phase = QueuePhase::AwaitBatch;
                    QueueStep { say, request: QueueRequest::RunBatch { urls: batch, no_sync: self.no_sync } }
                },
            },
            QueueEvent::BatchDone(os) => {
                let ghost uv = views(self.urls@);
                let n = if self.urls.len() < os.len() {
                    self.urls.len()
                } else {
                    os.len()
                };
                let mut succeeded: Vec<String> = Vec::new();
                let mut failed: Vec<String> = Vec::new();
                let mut say: Vec<Line> = Vec::new();
                let mut i: usize = 0;
                while i < n
                    invariant
                        i <= n <= self.urls@.len(),
                        n <= os@.len(),
                        uv == views(self.urls@),
                        ({
                            let sp = split_outcomes(uv, os@, i as int);
                            &&& views(succeeded@) == sp.0
                            &&& views(failed@) == sp.1
                            &&& line_views(say@) == sp.2
                        }),
                        succeeded@.len() + failed@.len() == i,
                    decreases n - i,
                {
                    let u = &self.urls[i];
                    let mut m = String::new();
                    push_str(&mut m, "  ");
                    push_str(&mut m, u.as_str());
                    if os[i].is_failure() {
                        push_str(&mut m, " … FAILED");
                        failed.push(u.clone());
                    } else {
                        push_str(&mut m, " … ok");
                        succeeded.push(u.clone());
                    }
                    say.push(Line::Status(m));
                    i += 1;
                }
                self.succeeded = succeeded;
                self.failed = failed;
                if self.remote {
                    if self.succeeded.len() > 0 {
                        self.phase = QueuePhase::AwaitUpdate;
                        let drop = copy_all(&self.succeeded);
                        QueueStep { say, request: QueueRequest::RemoveRemote(drop) }
                    } else {
                        let mut fin = self.done();
                        let ghost first = line_views(say@);
                        let ghost rest = line_views(fin.say@);
                        say.append(&mut fin.say);
                        assert(line_views(say@) == first + rest);
                        QueueStep { say, request: fin.request }
                    }
                } else {
                    let mut remaining: Vec<String> = Vec::new();
                    let mut j: usize = 0;
                    while j < self.urls.len()
                        invariant
                            j <= self.urls@.len(),
                            uv == views(self.urls@),
                            views(remaining@) == kept_if_in(uv.take(j as int), views(self.failed@)),
                        decreases self.urls.len() - j,
                    {
                        proof {
                            assert(uv.take(j + 1).drop_last() == uv.take(j as int));
                            assert(uv.take(j + 1).last() == self.urls@[j as int]@);
                        }
                        if contains_text(&self.failed, self.urls[j].as_str()) {
                            remaining.push(self.urls[j].clone());
                        }
                        j += 1;
                    }
                    assert(uv.take(uv.len() as int) == uv);
                    self.phase = QueuePhase::AwaitUpdate;
                    QueueStep { say, request: QueueRequest::Replace(remaining) }
                }
            },
            QueueEvent::Updated(res) => match res {
                Err(e) => {
                    self.phase = QueuePhase::Finished;
                    QueueStep { say: Vec::new(), request: QueueRequest::Finish(Err(e)) }
                },
                Ok(()) => self.done(),
            },
        }
    }
}

fn copy_all(xs: &Vec<String>) -> (r: Vec<String>)
    ensures
        views(r@) == views(xs@),
{
    let mut r: Vec<String> = Vec::new();
    let mut i: usize = 0;
    while i < xs.len()
        invariant
            i <= xs@.len(),
            views(r@) == views(xs@).take(i as int),
        decreases xs.len() - i,
    {
        r.push(xs[i].clone());
        assert(views(xs@).take(i + 1) == views(xs@).take(i as int).push(xs@[i as int]@));
        i += 1;
    }
    assert(views(xs@).take(xs@.len() as int) == views(xs@));
    r
}

} // verus!
