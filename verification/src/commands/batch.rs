//! The `insert` batch: every URL parsed and saved in turn, then one sync.
//!
//! [`RunBatch`] runs a [`RunOne`] per URL and, once all are settled, the one
//! [`SyncMachine`] the batch warrants. The caller performs each
//! [`BatchRequest`], applies the [`ProgressOp`]s to its live list, and hands
//! the answer back as a [`BatchEvent`].
use vstd::prelude::*;

use crate::cli::InsertArgs;
use crate::commands::insert::{
    live_label, live_text, md_contents_of, pending_labels, plan_for, row_labels, row_state, settle,
    state_of, BatchResult, Dedup, Outcome, RunOne, RunOneEvent, RunOnePhase, RunOneRequest,
    SyncPlan, SyncReport,
};
use crate::commands::sync::{SyncEvent, SyncMachine, SyncPhase, SyncRequest, SyncStep};
use crate::error::Error;
use crate::ports::{Line, RowState, StoredDoc};
use crate::text::views;

verus! {

/// One change to the live progress list.
#[derive(Debug)]
pub enum ProgressOp {
    /// Show these pending rows (none in a dry run).
    Start(Vec<String>),
    /// Spin row `i`.
    Activate(usize),
    /// Settle row `i` with its state and label.
    Resolve(usize, RowState, String),
    /// Stop and erase the list.
    Finish,
}

/// What a progress change shows, as plain values.
pub enum RowView {
    Start(Seq<Seq<char>>),
    Activate(int),
    Resolve(int, RowState, Seq<char>),
    Finish,
}

pub open spec fn row_view(op: ProgressOp) -> RowView {
    match op {
        ProgressOp::Start(ls) => RowView::Start(views(ls@)),
        ProgressOp::Activate(i) => RowView::Activate(i as int),
        ProgressOp::Resolve(i, st, l) => RowView::Resolve(i as int, st, l@),
        ProgressOp::Finish => RowView::Finish,
    }
}

pub open spec fn row_views(ops: Seq<ProgressOp>) -> Seq<RowView> {
    ops.map_values(|op: ProgressOp| row_view(op))
}

/// The rows of the first `k` outcomes: each spun, then settled with its
/// state and live label.
pub open spec fn url_rows(os: Seq<Outcome>, width: Option<usize>, k: nat) -> Seq<RowView>
    decreases k,
{
    if k == 0 {
        seq![]
    } else {
        url_rows(os, width, (k - 1) as nat) + seq![
            RowView::Activate(k - 1),
            RowView::Resolve(k - 1, state_of(os[k - 1]), live_text(k, os[k - 1], width)),
        ]
    }
}

/// Whether `o` may stand for `url` in a batch run with these flags.
pub open spec fn outcome_fits(url: Seq<char>, dry_run: bool, force: bool, o: Outcome) -> bool {
    match o {
        Outcome::Saved { .. } => !dry_run && url.len() > 0,
        Outcome::DryRun { .. } => dry_run,
        Outcome::Skipped { url: u } => u@ == url && !force,
        Outcome::Queued { url: u } => u@ == url,
        Outcome::Failed { url: u } => u@ == url,
    }
}

/// No URL is saved twice.
pub open spec fn saved_once(urls: Seq<String>, os: Seq<Outcome>) -> bool {
    forall|i: int, j: int|
        0 <= i < j < os.len() && #[trigger] os[i] is Saved && #[trigger] os[j] is Saved
            ==> urls[i]@ != urls[j]@
}

/// No URL settled so far was saved under the text of `url`.
pub open spec fn fresh(urls: Seq<String>, os: Seq<Outcome>, url: Seq<char>) -> bool {
    forall|i: int| 0 <= i < os.len() && #[trigger] os[i] is Saved ==> urls[i]@ != url
}

/// A URL that comes again after it was saved in the same batch is skipped.
pub open spec fn later_copies_skipped(urls: Seq<String>, os: Seq<Outcome>) -> bool {
    forall|i: int, j: int|
        0 <= i < j < os.len() && #[trigger] os[i] is Saved && urls[i]@ == urls[j]@
            ==> (#[trigger] os[j] matches Outcome::Skipped { url } && url@ == urls[j]@)
}

#[derive(Clone, Copy, Debug, PartialEq, Eq, Structural)]
pub enum BatchPhase {
    Start,
    /// A URL's run waits on an answer.
    Url,
    /// A failed URL waits for its failed-log entry.
    Recording,
    /// The sync waits on an answer.
    Syncing,
    Finished,
}

/// The answer to the last request.
#[derive(Debug)]
pub enum BatchEvent {
    /// The transaction store's listing (read once, for duplicate detection)
    /// and the terminal width.
    Begin { listing: Result<Vec<StoredDoc>, Error>, width: Option<usize> },
    /// The answer to the current URL's request.
    One(RunOneEvent),
    /// The failed-log entry was attempted; its result does not matter.
    FailureNoted,
    /// The answer to the sync's request.
    Sync(SyncEvent),
}

/// The outside work the batch needs next.
#[derive(Debug)]
pub enum BatchRequest {
    /// A request of the current URL's run (never its `Finish`).
    One(RunOneRequest),
    /// Note this URL in the failed-links log (best effort).
    RecordFailed(String),
    /// A request of the sync (never its `Finish`).
    Sync(SyncRequest),
    /// The batch is over; its result is [`RunBatch::result`].
    Finish,
}

/// Changes to the live list, lines to show, then the next request.
#[derive(Debug)]
pub struct BatchStep {
    pub progress: Vec<ProgressOp>,
    pub say: Vec<Line>,
    pub request: BatchRequest,
}

/// Parse + write every URL (no per-URL sync), then one git sync for the
/// whole set, driving one live list: a row per URL plus a trailing Sync row.
#[derive(Debug)]
pub struct RunBatch {
    pub urls: Vec<String>,
    pub dry_run: bool,
    pub no_sync: bool,
    pub force: bool,
    pub data_dir: String,
    pub phase: BatchPhase,
    pub width: Option<usize>,
    pub dedup: Dedup,
    /// One per URL settled so far, in input order.
    pub outcomes: Vec<Outcome>,
    /// The current URL's run.
    pub one: RunOne,
    /// The failure waiting for its failed-log entry.
    pub pending: Option<Outcome>,
    pub plan: SyncPlan,
    pub sync: SyncMachine,
    pub report: SyncReport,
}

impl RunBatch {
    pub open spec fn accepts(&self, e: BatchEvent) -> bool {
        match (self.phase, e) {
            (BatchPhase::Start, BatchEvent::Begin { .. }) => true,
            (BatchPhase::Url, BatchEvent::One(ev)) => self.one.accepts(ev),
            (BatchPhase::Recording, BatchEvent::FailureNoted) => true,
            (BatchPhase::Syncing, BatchEvent::Sync(ev)) => self.sync.accepts(ev),
            _ => false,
        }
    }

    /// What holds of the settled URLs at every step: one outcome per URL in
    /// input order, each fitting its URL; every saved URL is known to the
    /// duplicate index; without `--force` no URL is saved twice.
    pub open spec fn settled_ok(&self) -> bool {
        &&& self.outcomes@.len() <= self.urls@.len()
        &&& forall|i: int|
            0 <= i < self.outcomes@.len() ==> outcome_fits(
                self.urls@[i]@,
                self.dry_run,
                self.force,
                #[trigger] self.outcomes@[i],
            )
        &&& forall|i: int|
            0 <= i < self.outcomes@.len() && #[trigger] self.outcomes@[i] is Saved
                ==> self.dedup.has(self.urls@[i]@)
        &&& !self.force ==> saved_once(self.urls@, self.outcomes@)
        &&& !self.force ==> later_copies_skipped(self.urls@, self.outcomes@)
    }

    /// The sync this batch runs for its plan: quiet, on the data directory,
    /// pushing only for [`SyncPlan::Push`], marked offline for
    /// [`SyncPlan::CommitOnly`].
    pub open spec fn sync_fits(&self) -> bool {
        &&& self.sync.data_dir == self.data_dir
        &&& self.sync.user_message is None
        &&& self.sync.quiet
        &&& self.sync.push == (self.plan == SyncPlan::Push)
        &&& match self.sync.offline_prefix {
            Some(p) => self.plan == SyncPlan::CommitOnly && p@ == "Offline"@,
            None => self.plan == SyncPlan::Push,
        }
    }

    pub open spec fn wf(&self) -> bool {
        &&& self.settled_ok()
        &&& self.phase == BatchPhase::Start ==> self.outcomes@.len() == 0
        &&& self.phase == BatchPhase::Url ==> {
            &&& self.outcomes@.len() < self.urls@.len()
            &&& self.one.url@ == self.urls@[self.outcomes@.len() as int]@
            &&& self.one.dry_run == self.dry_run
            &&& self.one.force == self.force
            &&& self.one.known == self.dedup.has(self.one.url@)
            &&& self.one.inv()
            &&& self.one.phase != RunOnePhase::Start
            &&& self.one.phase != RunOnePhase::Finished
        }
        &&& self.phase == BatchPhase::Recording ==> {
            &&& self.outcomes@.len() < self.urls@.len()
            &&& self.pending matches Some(Outcome::Failed { url })
            &&& url@ == self.urls@[self.outcomes@.len() as int]@
            &&& !self.force ==> fresh(self.urls@, self.outcomes@, url@)
        }
        &&& (self.phase == BatchPhase::Syncing || self.phase == BatchPhase::Finished) ==> {
            &&& self.outcomes@.len() == self.urls@.len()
            &&& self.plan == plan_for(self.outcomes@, self.no_sync)
        }
        &&& self.phase == BatchPhase::Syncing ==> {
            &&& self.plan != SyncPlan::Nothing
            &&& self.sync_fits()
            &&& self.sync.wf()
            &&& self.sync.phase != SyncPhase::Start
            &&& self.sync.phase != SyncPhase::Finished
        }
        &&& self.phase == BatchPhase::Finished ==> exists|f: Option<Error>|
            self.report.fits(self.plan, f)
    }

    /// The settings a batch keeps from start to finish.
    pub open spec fn same_settings(&self, other: &RunBatch) -> bool {
        &&& self.urls == other.urls
        &&& self.dry_run == other.dry_run
        &&& self.no_sync == other.no_sync
        &&& self.force == other.force
        &&& self.data_dir == other.data_dir
    }

    /// The live list up to the settled URLs.
    pub open spec fn base_shown(&self) -> Seq<RowView> {
        seq![RowView::Start(pending_labels(self.urls@, self.dry_run))] + url_rows(
            self.outcomes@,
            self.width,
            self.outcomes@.len(),
        )
    }

    /// Every change made to the live list so far, as the state determines
    /// it: the pending rows, each settled URL's row spun and settled, the
    /// current URL's row spinning, and at the end the Sync row and the close.
    pub open spec fn shown(&self) -> Seq<RowView> {
        if self.phase == BatchPhase::Start {
            seq![]
        } else {
            let n = self.urls@.len() as int;
            self.base_shown() + (if self.phase == BatchPhase::Url || self.phase
                == BatchPhase::Recording {
                seq![RowView::Activate(self.outcomes@.len() as int)]
            } else {
                seq![]
            }) + (if self.phase == BatchPhase::Finished {
                seq![
                    RowView::Activate(n),
                    RowView::Resolve(n, self.report.state, self.report.line@),
                    RowView::Finish,
                ]
            } else {
                seq![]
            })
        }
    }

    /// Which request each phase waits on.
    pub open spec fn awaits(&self, r: BatchRequest) -> bool {
        match r {
            BatchRequest::One(q) => self.phase == BatchPhase::Url && !(q is Finish),
            BatchRequest::RecordFailed(u) => self.phase == BatchPhase::Recording
                && self.outcomes@.len() < self.urls@.len() && u@ == self.urls@[self.outcomes@.len() as int]@,
            BatchRequest::Sync(q) => self.phase == BatchPhase::Syncing && !(q is Finish),
            BatchRequest::Finish => self.phase == BatchPhase::Finished,
        }
    }

    /// A batch run with `--no-sync` never syncs; without pushing anything it
    /// ends with the Sync row skipped.
    pub proof fn lemma_no_sync_never_syncs(b: RunBatch)
        requires
            b.wf(),
            b.no_sync,
        ensures
            b.phase != BatchPhase::Syncing,
            b.phase == BatchPhase::Finished ==> b.report.state == RowState::Skip,
    {
        if b.phase == BatchPhase::Finished {
            let f = choose|f: Option<Error>| b.report.fits(b.plan, f);
            assert(b.report.fits(b.plan, f));
        }
    }

    /// Without `--force` no URL is saved twice in one batch, and a URL that
    /// comes again after it was saved is skipped; a dry run saves nothing; each settled URL has its own outcome, in input order.
    pub proof fn lemma_settled_urls(b: RunBatch)
        requires
            b.wf(),
        ensures
            !b.force ==> saved_once(b.urls@, b.outcomes@),
            !b.force ==> later_copies_skipped(b.urls@, b.outcomes@),
            b.dry_run ==> forall|i: int| 0 <= i < b.outcomes@.len() ==> !(#[trigger] b.outcomes@[i] is Saved),
            b.phase == BatchPhase::Finished ==> b.outcomes@.len() == b.urls@.len(),
            forall|i: int|
                0 <= i < b.outcomes@.len() ==> outcome_fits(
                    b.urls@[i]@,
                    b.dry_run,
                    b.force,
                    #[trigger] b.outcomes@[i],
                ),
    {
        if b.dry_run {
            assert forall|i: int| 0 <= i < b.outcomes@.len() implies !(#[trigger] b.outcomes@[i] is Saved) by {
                assert(outcome_fits(b.urls@[i]@, b.dry_run, b.force, b.outcomes@[i]));
            }
        }
    }

    /// A batch over `urls` with the flags of `args`, syncing `data_dir`.
    pub fn new(urls: Vec<String>, args: &InsertArgs, data_dir: String) -> (m: RunBatch)
        ensures
            m.urls == urls,
            m.dry_run == args.dry_run,
            m.no_sync == args.no_sync,
            m.force == args.force,
            m.data_dir == data_dir,
            m.phase == BatchPhase::Start,
            m.outcomes@.len() == 0,
            m.wf(),
    {
        RunBatch {
            urls,
            dry_run: args.dry_run,
            no_sync: args.no_sync,
            force: args.force,
            data_dir: data_dir.clone(),
            phase: BatchPhase::Start,
            width: None,
            dedup: Dedup { md_contents: Vec::new(), session: Vec::new() },
            outcomes: Vec::new(),
            one: RunOne {
                url: String::new(),
                dry_run: args.dry_run,
                force: args.force,
                known: false,
                phase: RunOnePhase::Finished,
                date: String::new(),
                retailer: String::new(),
                total: String::new(),
                currency: String::new(),
            },
            pending: None,
            plan: SyncPlan::Nothing,
            sync: SyncMachine::new(data_dir, None, None, false, true),
            report: SyncReport { state: RowState::Skip, line: String::new(), error: None },
        }
    }

    /// The finished batch's result.
    pub fn result(self) -> (r: BatchResult)
        requires
            self.phase == BatchPhase::Finished,
        ensures
            r.outcomes == self.outcomes,
            r.sync == self.report,
    {
        BatchResult { outcomes: self.outcomes, sync: self.report }
    }

    proof fn lemma_rows_grow(os: Seq<Outcome>, o: Outcome, width: Option<usize>, k: nat)
        requires
            k <= os.len(),
        ensures
            url_rows(os.push(o), width, k) == url_rows(os, width, k),
        decreases k,
    {
        if k > 0 {
            Self::lemma_rows_grow(os, o, width, (k - 1) as nat);
            assert(os.push(o)[k - 1] == os[k - 1]);
        }
    }

    /// Settle the current URL with `o`: record a save in the duplicate index
    /// and settle its row.
    fn conclude(&mut self, o: Outcome, progress: &mut Vec<ProgressOp>, Ghost(prior): Ghost<Seq<RowView>>)
        requires
            old(self).settled_ok(),
            old(self).outcomes@.len() < old(self).urls@.len(),
            outcome_fits(old(self).urls@[old(self).outcomes@.len() as int]@, old(self).dry_run, old(self).force, o),
            o is Saved && !old(self).force ==> !old(self).dedup.has(
                old(self).urls@[old(self).outcomes@.len() as int]@,
            ),
            !old(self).force && !fresh(
                old(self).urls@,
                old(self).outcomes@,
                old(self).urls@[old(self).outcomes@.len() as int]@,
            ) ==> (o matches Outcome::Skipped { url } && url@ == old(self).urls@[old(
                self,
            ).outcomes@.len() as int]@),
            prior + row_views(old(progress)@) == old(self).base_shown() + seq![
                RowView::Activate(old(self).outcomes@.len() as int),
            ],
        ensures
            final(self).settled_ok(),
            final(self).same_settings(old(self)),
            final(self).outcomes@ == old(self).outcomes@.push(o),
            final(self).dedup.md_contents == old(self).dedup.md_contents,
            final(self).width == old(self).width,
            final(self).phase == old(self).phase,
            final(self).plan == old(self).plan,
            prior + row_views(final(progress)@) == final(self).base_shown(),
    {
        let k = self.outcomes.len();
        let n = self.urls.len();
        if let Outcome::Saved { .. } = o {
            self.dedup.record(self.urls[k].as_str());
        }
        let label = live_label((k + 1) as u64, &o, self.width);
        let st = row_state(&o);
        proof {
            assert(row_views(progress@.push(ProgressOp::Resolve(k, st, label))) =~= row_views(
                progress@,
            ).push(RowView::Resolve(k as int, st, label@)));
        }
        let ghost resolved = RowView::Resolve(k as int, st, label@);
        progress.push(ProgressOp::Resolve(k, st, label));
        let ghost before = self.outcomes@;
        self.outcomes.push(o);
        proof {
            Self::lemma_rows_grow(before, o, self.width, k as nat);
            assert(self.outcomes@[k as int] == o);
            assert(url_rows(self.outcomes@, self.width, (k + 1) as nat) == url_rows(
                before,
                self.width,
                k as nat,
            ) + seq![
                RowView::Activate(k as int),
                RowView::Resolve(k as int, state_of(o), live_text((k + 1) as nat, o, self.width)),
            ]);
            assert(row_views(progress@) == row_views(old(progress)@).push(resolved));
            assert(st == state_of(o));
            assert(label@ == live_text((k + 1) as nat, o, self.width));
            assert(self.base_shown() =~= old(self).base_shown() + seq![
                RowView::Activate(k as int),
                RowView::Resolve(k as int, state_of(o), live_text((k + 1) as nat, o, self.width)),
            ]);
            assert(prior + row_views(progress@) =~= (prior + row_views(old(progress)@)).push(
                resolved,
            ));
            assert(prior + row_views(progress@) =~= self.base_shown());
            assert forall|i: int|
                0 <= i < self.outcomes@.len() && #[trigger] self.outcomes@[i] is Saved implies self.dedup.has(
                self.urls@[i]@,
            ) by {
                if i < k {
                    assert(before[i] == self.outcomes@[i]);
                }
            }
            assert forall|i: int|
                0 <= i < self.outcomes@.len() implies outcome_fits(
                self.urls@[i]@,
                self.dry_run,
                self.force,
                #[trigger] self.outcomes@[i],
            ) by {
                if i < k {
                    assert(before[i] == self.outcomes@[i]);
                }
            }
            if !self.force {
                assert forall|i: int, j: int|
                    0 <= i < j < self.outcomes@.len() && #[trigger] self.outcomes@[i] is Saved
                        && #[trigger] self.outcomes@[j] is Saved implies self.urls@[i]@
                    != self.urls@[j]@ by {
                    assert(self.outcomes@[i] == before[i]);
                    if j < k {
                        assert(self.outcomes@[j] == before[j]);
                    } else {
                        assert(old(self).dedup.has(self.urls@[i]@));
                    }
                }
            }
        }
    }

    /// The Sync row settled with `failure`, the list closed, the batch over.
    fn close(&mut self, failure: Option<Error>, progress: &mut Vec<ProgressOp>, Ghost(prior): Ghost<Seq<RowView>>)
        requires
            old(self).settled_ok(),
            old(self).outcomes@.len() == old(self).urls@.len(),
            old(self).plan == plan_for(old(self).outcomes@, old(self).no_sync),
            prior + row_views(old(progress)@) == old(self).base_shown(),
        ensures
            final(self).wf(),
            final(self).phase == BatchPhase::Finished,
            final(self).same_settings(old(self)),
            final(self).outcomes == old(self).outcomes,
            final(self).dedup.md_contents == old(self).dedup.md_contents,
            final(self).width == old(self).width,
            final(self).report.fits(final(self).plan, failure),
            final(self).plan == old(self).plan,
            prior + row_views(final(progress)@) == final(self).shown(),
    {
        self.report = SyncReport::for_plan(&self.plan, failure);
        let n = self.urls.len();
        let line = self.report.line.clone();
        proof {
            assert(row_views(
                progress@.push(ProgressOp::Activate(n)).push(
                    ProgressOp::Resolve(n, self.report.state, line),
                ).push(ProgressOp::Finish),
            ) =~= row_views(progress@) + seq![
                RowView::Activate(n as int),
                RowView::Resolve(n as int, self.report.state, self.report.line@),
                RowView::Finish,
            ]);
        }
        progress.push(ProgressOp::Activate(n));
        progress.push(ProgressOp::Resolve(n, self.report.state, line));
        progress.push(ProgressOp::Finish);
        self.phase = BatchPhase::Finished;
    }

    /// Take the sync's step: forward its request, or close the batch when it
    /// is over.
    fn after_sync(
        &mut self,
        st: SyncStep,
        progress: &mut Vec<ProgressOp>,
        Ghost(prior): Ghost<Seq<RowView>>,
    ) -> (r: (Vec<Line>, BatchRequest))
        requires
            old(self).settled_ok(),
            old(self).outcomes@.len() == old(self).urls@.len(),
            old(self).plan == plan_for(old(self).outcomes@, old(self).no_sync),
            old(self).plan != SyncPlan::Nothing,
            old(self).sync_fits(),
            old(self).sync.wf(),
            old(self).sync.phase != SyncPhase::Start,
            (st.request is Finish) == (old(self).sync.phase == SyncPhase::Finished),
            prior + row_views(old(progress)@) == old(self).base_shown(),
        ensures
            final(self).wf(),
            final(self).awaits(r.1),
            final(self).same_settings(old(self)),
            final(self).outcomes == old(self).outcomes,
            final(self).dedup.md_contents == old(self).dedup.md_contents,
            final(self).width == old(self).width,
            final(self).phase == BatchPhase::Syncing || final(self).phase == BatchPhase::Finished,
            prior + row_views(final(progress)@) == final(self).shown(),
            r.0 == st.say,
    {
        let SyncStep { say, request } = st;
        match request {
            SyncRequest::Finish(res) => {
                let failure = match res {
                    Ok(()) => None,
                    Err(e) => Some(e),
                };
                self.close(failure, progress, Ghost(prior));
                (say, BatchRequest::Finish)
            },
            other => {
                self.phase = BatchPhase::Syncing;
                (say, BatchRequest::Sync(other))
            },
        }
    }

    /// All URLs settled: start the sync the plan calls for, or close.
    fn begin_sync(&mut self, progress: &mut Vec<ProgressOp>, Ghost(prior): Ghost<Seq<RowView>>) -> (r: (
        Vec<Line>,
        BatchRequest,
    ))
        requires
            old(self).settled_ok(),
            old(self).outcomes@.len() == old(self).urls@.len(),
            prior + row_views(old(progress)@) == old(self).base_shown(),
        ensures
            final(self).wf(),
            final(self).awaits(r.1),
            final(self).same_settings(old(self)),
            final(self).outcomes == old(self).outcomes,
            final(self).dedup.md_contents == old(self).dedup.md_contents,
            final(self).width == old(self).width,
            final(self).phase == BatchPhase::Syncing || final(self).phase == BatchPhase::Finished,
            prior + row_views(final(progress)@) == final(self).shown(),
    {
        self.plan = SyncPlan::for_outcomes(&self.outcomes, self.no_sync);
        match self.plan.sync_args() {
            Some((push, prefix)) => {
                self.sync = SyncMachine::new(self.data_dir.clone(), prefix, None, push, true);
                let st = self.sync.step(SyncEvent::Begin);
                self.after_sync(st, progress, Ghost(prior))
            },
            None => {
                self.close(None, progress, Ghost(prior));
                (Vec::new(), BatchRequest::Finish)
            },
        }
    }

    /// Start runs for the next URLs until one needs outside work, or start
    /// the sync once all are settled.
    fn advance(&mut self, progress: &mut Vec<ProgressOp>, Ghost(prior): Ghost<Seq<RowView>>) -> (r: (
        Vec<Line>,
        BatchRequest,
    ))
        requires
            old(self).settled_ok(),
            old(self).phase != BatchPhase::Start,
            prior + row_views(old(progress)@) == old(self).base_shown(),
        ensures
            final(self).wf(),
            final(self).awaits(r.1),
            final(self).phase != BatchPhase::Start,
            final(self).same_settings(old(self)),
            old(self).outcomes@.len() <= final(self).outcomes@.len(),
            final(self).outcomes@.take(old(self).outcomes@.len() as int) == old(self).outcomes@,
            final(self).dedup.md_contents == old(self).dedup.md_contents,
            final(self).width == old(self).width,
            prior + row_views(final(progress)@) == final(self).shown(),
    {
        loop
            invariant
                self.settled_ok(),
                self.phase != BatchPhase::Start,
                self.same_settings(old(self)),
                old(self).outcomes@.len() <= self.outcomes@.len(),
                self.outcomes@.take(old(self).outcomes@.len() as int) == old(self).outcomes@,
                self.dedup.md_contents == old(self).dedup.md_contents,
                self.width == old(self).width,
                prior + row_views(progress@) == self.base_shown(),
            decreases self.urls@.len() - self.outcomes@.len(),
        {
            let k = self.outcomes.len();
            if k >= self.urls.len() {
                return self.begin_sync(progress, Ghost(prior));
            }
            proof {
                assert(row_views(progress@.push(ProgressOp::Activate(k))) =~= row_views(
                    progress@,
                ).push(RowView::Activate(k as int)));
            }
            progress.push(ProgressOp::Activate(k));
            assert(prior + row_views(progress@) =~= self.base_shown() + seq![
                RowView::Activate(k as int),
            ]);
            self.one = RunOne::new(self.urls[k].as_str(), self.dry_run, self.force, &self.dedup);
            let req = self.one.step(RunOneEvent::Begin);
            match req {
                RunOneRequest::Finish(res) => {
                    let (o, record) = settle(self.urls[k].as_str(), res);
                    if record {
                        self.pending = Some(o);
                        self.phase = BatchPhase::Recording;
                        return (Vec::new(), BatchRequest::RecordFailed(self.urls[k].clone()));
                    }
                    let ghost before = self.outcomes@;
                    self.conclude(o, progress, Ghost(prior));
                    assert(self.outcomes@.take(old(self).outcomes@.len() as int) =~= before.take(
                        old(self).outcomes@.len() as int,
                    ));
                },
                other => {
                    self.phase = BatchPhase::Url;
                    return (Vec::new(), BatchRequest::One(other));
                },
            }
        }
    }

    /// Advance the batch by one answer.
    pub fn step(&mut self, event: BatchEvent) -> (step: BatchStep)
        requires
            old(self).wf(),
            old(self).accepts(event),
        ensures
            final(self).wf(),
            final(self).awaits(step.request),
            final(self).same_settings(old(self)),
            // Settled URLs stay settled.
            old(self).outcomes@.len() <= final(self).outcomes@.len(),
            final(self).outcomes@.take(old(self).outcomes@.len() as int) == old(self).outcomes@,
            // The live list is exactly what the state says it shows.
            old(self).shown() + row_views(step.progress@) == final(self).shown(),
            match event {
                BatchEvent::Begin { listing, width } => {
                    &&& final(self).width == width
                    &&& views(final(self).dedup.md_contents@) == match listing {
                        Ok(docs) => md_contents_of(docs@),
                        Err(_) => seq![],
                    }
                },
                _ => {
                    &&& final(self).width == old(self).width
                    &&& final(self).dedup.md_contents == old(self).dedup.md_contents
                },
            },
    {
        let mut progress: Vec<ProgressOp> = Vec::new();
        let ghost prior = self.shown();
        let (say, request) = match event {
            BatchEvent::Begin { listing, width } => {
                self.dedup = match listing {
                    Ok(docs) => Dedup::from_store(docs),
                    Err(_) => Dedup { md_contents: Vec::new(), session: Vec::new() },
                };
                self.width = width;
                let labels = row_labels(&self.urls, self.dry_run);
                proof {
                    assert(row_views(seq![ProgressOp::Start(labels)]) =~= seq![
                        RowView::Start(pending_labels(self.urls@, self.dry_run)),
                    ]);
                    assert(url_rows(self.outcomes@, self.width, 0) == Seq::<RowView>::empty());
                }
                progress.push(ProgressOp::Start(labels));
                self.phase = BatchPhase::Url;
                self.advance(&mut progress, Ghost(prior))
            },
            BatchEvent::One(e) => {
                let req = self.one.step(e);
                match req {
                    RunOneRequest::Finish(res) => {
                        let k = self.outcomes.len();
                        let (o, record) = settle(self.urls[k].as_str(), res);
                        if record {
                            self.pending = Some(o);
                            self.phase = BatchPhase::Recording;
                            (Vec::new(), BatchRequest::RecordFailed(self.urls[k].clone()))
                        } else {
                            self.conclude(o, &mut progress, Ghost(prior));
                            self.advance(&mut progress, Ghost(prior))
                        }
                    },
                    other => (Vec::new(), BatchRequest::One(other)),
                }
            },
            BatchEvent::FailureNoted => {
                let o = self.pending.take().unwrap();
                self.conclude(o, &mut progress, Ghost(prior));
                self.advance(&mut progress, Ghost(prior))
            },
            BatchEvent::Sync(e) => {
                let st = self.sync.step(e);
                self.after_sync(st, &mut progress, Ghost(prior))
            },
        };
        BatchStep { progress, say, request }
    }
}

} // verus!
