use localbill::commands::insert::{abbreviate, parse_url_list, Dedup, LoadedUrls};

#[test]
fn parses_valid_urls() {
    let LoadedUrls::Found(urls) = parse_url_list("https://example.com/1\nhttps://example.com/2\n")
    else {
        panic!("expected Found");
    };
    assert_eq!(urls, ["https://example.com/1", "https://example.com/2"]);
}

#[test]
fn skips_blank_lines_and_comments() {
    let LoadedUrls::Found(urls) =
        parse_url_list("# comment\n\nhttps://example.com/1\n  \n# another\nhttps://example.com/2")
    else {
        panic!("expected Found");
    };
    assert_eq!(urls, ["https://example.com/1", "https://example.com/2"]);
}

#[test]
fn trims_whitespace() {
    let LoadedUrls::Found(urls) = parse_url_list("  https://example.com/1  \n") else {
        panic!("expected Found");
    };
    assert_eq!(urls[0], "https://example.com/1");
}

#[test]
fn returns_empty_for_blank_content() {
    assert!(matches!(
        parse_url_list("# just a comment\n\n   \n"),
        LoadedUrls::Empty
    ));
}

#[test]
fn abbreviate_keeps_head_and_tail() {
    let url = "https://suf.purs.gov.rs/v/?vl=A9kZlongtokenQw3xY9Kp";
    assert_eq!(abbreviate(url), "https://suf…Qw3xY9Kp");
}

#[test]
fn abbreviate_passes_short_urls_through() {
    assert_eq!(abbreviate("http://x/1"), "http://x/1");
}

#[test]
fn dedup_detects_disk_and_session_hits() {
    let mut dedup = Dedup {
        md_contents: vec!["link: \"http://x/1\"".to_string()],
        session: Vec::new(),
    };
    assert!(dedup.contains("http://x/1"));
    assert!(!dedup.contains("http://x/2"));
    dedup.record("http://x/2");
    assert!(dedup.contains("http://x/2"));
}

use localbill::commands::batch::{BatchEvent, BatchRequest, ProgressOp, RunBatch};
use localbill::commands::insert::{
    live_label, render_report, BatchResult, Outcome, RunOne, RunOneEvent, RunOneRequest,
    SyncPlan, SyncReport,
};
use localbill::commands::sync::{SyncEvent, SyncRequest};
use localbill::cli::InsertArgs;
use localbill::ports::{RowState, StoredDoc};

fn saved(date: &str, retailer: &str) -> Outcome {
    Outcome::Saved {
        date: date.to_string(),
        retailer: retailer.to_string(),
        total: "100.00".to_string(),
        currency: "RSD".to_string(),
        files: 1,
    }
}

fn batch_result(outcomes: Vec<Outcome>, sync: SyncReport) -> BatchResult {
    BatchResult { outcomes, sync }
}

fn no_sync() -> SyncReport {
    SyncReport {
        state: RowState::Skip,
        line: "Sync · nothing to commit".to_string(),
        error: None,
    }
}

#[test]
fn live_label_full_when_wide_dense_when_narrow() {
    let o = saved("2024-03-15T14:30:00", "Maxi");

    let wide = live_label(1, &o, Some(200));
    assert!(wide.contains("2024-03-15 14:30") && wide.contains("RSD"));

    let narrow = live_label(1, &o, Some(24));
    assert!(narrow.contains("Maxi") && narrow.contains("100.00") && narrow.contains('×'));
    assert!(!narrow.contains("RSD") && !narrow.contains("14:30"));

    assert_eq!(live_label(1, &o, None), wide);
}

#[test]
fn report_lists_outcomes_in_input_order_with_sync_line() {
    let outcomes = vec![
        saved("2024-03-15T14:30:00", "Maxi"),
        saved("2024-03-12T09:02:00", "Idea"),
    ];
    let sync = SyncReport {
        state: RowState::Pass,
        line: "Sync · pushed".to_string(),
        error: None,
    };
    let report = render_report(&batch_result(outcomes, sync), true);
    let lines: Vec<&str> = report.lines().collect();
    assert!(lines[0].contains("#1") && lines[0].contains("Maxi"));
    assert!(lines[1].contains("#2") && lines[1].contains("Idea"));
    assert!(lines[2].contains("Sync · pushed"));
    assert_eq!(
        *lines.last().unwrap(),
        "Processed 2 · 2 saved · 0 skipped · 0 failed"
    );
}

#[test]
fn report_surfaces_git_error_beneath_failed_sync() {
    let sync = SyncReport {
        state: RowState::Fail,
        line: "Sync · failed".to_string(),
        error: Some("`git push origin main` failed: auth denied".to_string()),
    };
    let report = render_report(
        &batch_result(vec![saved("2024-03-15T14:30:00", "Maxi")], sync),
        false,
    );
    assert!(report.contains("✗ Sync · failed"));
    assert!(report.contains("auth denied"));
}

#[test]
fn report_pluralises_items() {
    let outcomes = vec![Outcome::Saved {
        date: "2024-03-15T14:30:00".to_string(),
        retailer: "Maxi".to_string(),
        total: "179.98".to_string(),
        currency: "RSD".to_string(),
        files: 2,
    }];
    assert!(render_report(&batch_result(outcomes, no_sync()), false).contains("2 items"));
}

#[test]
fn sync_plan_pushes_when_anything_written() {
    let outcomes = vec![
        Outcome::Failed { url: "x".into() },
        saved("2024-03-15T14:30:00", "Maxi"),
    ];
    assert!(matches!(
        SyncPlan::for_outcomes(&outcomes, false),
        SyncPlan::Push
    ));
}

#[test]
fn sync_plan_commits_only_when_queued_offline() {
    let outcomes = vec![Outcome::Queued { url: "x".into() }];
    assert!(matches!(
        SyncPlan::for_outcomes(&outcomes, false),
        SyncPlan::CommitOnly
    ));
}

#[test]
fn sync_plan_does_nothing_without_writes_or_queue() {
    let outcomes = vec![
        Outcome::Skipped { url: "x".into() },
        Outcome::Failed { url: "y".into() },
    ];
    assert!(matches!(
        SyncPlan::for_outcomes(&outcomes, false),
        SyncPlan::Nothing
    ));
}

#[test]
fn sync_plan_respects_no_sync() {
    let outcomes = vec![saved("2024-03-15T14:30:00", "Maxi")];
    assert!(matches!(
        SyncPlan::for_outcomes(&outcomes, true),
        SyncPlan::Nothing
    ));
}

fn empty_dedup() -> Dedup {
    Dedup { md_contents: Vec::new(), session: Vec::new() }
}

#[test]
fn insert_queues_when_offline() {
    let mut one = RunOne::new("http://x/1", false, false, &empty_dedup());
    assert!(matches!(one.step(RunOneEvent::Begin), RunOneRequest::HasInternet));
    let RunOneRequest::Enqueue(url) = one.step(RunOneEvent::Internet(false)) else {
        panic!("expected the URL to be queued");
    };
    assert_eq!(url, "http://x/1");
    let req = one.step(RunOneEvent::Enqueued(Ok(())));
    assert!(matches!(req, RunOneRequest::Finish(Ok(Outcome::Queued { .. }))));
}

#[test]
fn insert_skips_duplicate() {
    let dedup = Dedup::from_store(vec![StoredDoc {
        path: "/mem/old.md".to_string(),
        content: "link: \"http://x/1\"".to_string(),
    }]);
    let mut one = RunOne::new("http://x/1", false, false, &dedup);
    let req = one.step(RunOneEvent::Begin);
    assert!(matches!(req, RunOneRequest::Finish(Ok(Outcome::Skipped { .. }))));
}

use localbill::invoice::mapper::plan_item_files;
use localbill::invoice::parser::{ItemFields, ItemsResponse, ParseEvent, ParseMachine, ParseRequest};
use localbill::invoice::Invoice;

fn invoice_page() -> String {
    "<html><body>\
     <span id=\"invoiceNumberLabel\">INV-1</span>\
     <span id=\"shopFullNameLabel\">Maxi</span>\
     <span id=\"sdcDateTimeLabel\">15.03.2024. 14:30:00</span>\
     <span id=\"totalAmountLabel\">179,98</span>\
     <div id=\"collapse3\"><div><pre>receipt</pre></div></div>\
     <script>viewModel.Token('tok123');</script>\
     </body></html>"
        .to_string()
}

fn items_response() -> ItemsResponse {
    ItemsResponse {
        success: Some(true),
        items: Some(vec![ItemFields {
            name: Some("Mleko".to_string()),
            quantity: Some("2.0".to_string()),
            unit_price: Some("89.99".to_string()),
            total: Some("179.98".to_string()),
            gtin: Some(String::new()),
            label: Some(String::new()),
            label_rate: Some("0.0".to_string()),
            tax_base_amount: Some("0.0".to_string()),
            vat_amount: Some("0.0".to_string()),
        }]),
    }
}

/// Parse `url` against the one test page.
fn parse_page(url: &str) -> Result<Invoice, localbill::error::Error> {
    let mut m = ParseMachine::new(url.to_string(), 3);
    let mut step = m.step(ParseEvent::Begin);
    loop {
        let event = match step.request {
            ParseRequest::Fetch { .. } => ParseEvent::Page(Ok(invoice_page())),
            ParseRequest::AmountOf(c) => {
                let n: f64 = c.parse().unwrap();
                ParseEvent::Amount(Some(format!("{n:.2}")))
            }
            ParseRequest::PostItems { .. } => ParseEvent::Items(Ok(items_response())),
            ParseRequest::Finish(r) => return r,
        };
        step = m.step(event);
    }
}

#[test]
fn insert_happy_path_writes_file() {
    let mut docs: Vec<(String, String)> = Vec::new();
    let mut one = RunOne::new("http://x/1", false, false, &empty_dedup());
    let mut req = one.step(RunOneEvent::Begin);
    let outcome = loop {
        let event = match req {
            RunOneRequest::HasInternet => RunOneEvent::Internet(true),
            RunOneRequest::Parse(url) => RunOneEvent::Parsed(parse_page(&url)),
            RunOneRequest::Write(inv) => {
                let files = plan_item_files(&inv, Vec::new());
                let n = files.len();
                docs.extend(files);
                RunOneEvent::Written(Ok(n))
            }
            RunOneRequest::Finish(r) => break r.unwrap(),
            other => panic!("unexpected request {other:?}"),
        };
        req = one.step(event);
    };
    assert!(matches!(outcome, Outcome::Saved { files: 1, .. }));
    assert_eq!(docs.len(), 1);
    assert!(docs[0].1.contains("name: \"Mleko\""));
}

fn batch_args(no_sync: bool, force: bool) -> InsertArgs {
    InsertArgs { url: None, file: None, dry_run: false, no_sync, force }
}

/// Drive a batch: every URL parses to the test page, writes succeed, and git
/// reports a clean, reachable repository. Returns the result, every progress
/// change, and the git commands asked for.
fn drive_batch(
    urls: &[&str],
    listing: Vec<StoredDoc>,
    args: &InsertArgs,
    online: bool,
) -> (BatchResult, Vec<ProgressOp>, Vec<String>) {
    let mut b = RunBatch::new(
        urls.iter().map(|u| u.to_string()).collect(),
        args,
        "/data".to_string(),
    );
    let mut ops: Vec<ProgressOp> = Vec::new();
    let mut git: Vec<String> = Vec::new();
    let mut step = b.step(BatchEvent::Begin { listing: Ok(listing), width: None });
    loop {
        ops.extend(step.progress);
        let event = match step.request {
            BatchRequest::One(r) => BatchEvent::One(match r {
                RunOneRequest::HasInternet => RunOneEvent::Internet(online),
                RunOneRequest::Enqueue(_) => RunOneEvent::Enqueued(Ok(())),
                RunOneRequest::Parse(url) => RunOneEvent::Parsed(parse_page(&url)),
                RunOneRequest::Write(inv) => RunOneEvent::Written(Ok(inv.items.len())),
                RunOneRequest::RecordFailed(_) => RunOneEvent::Recorded(Ok(())),
                RunOneRequest::Print(_) => RunOneEvent::Printed,
                RunOneRequest::Finish(_) => panic!("a finished run is never forwarded"),
            }),
            BatchRequest::RecordFailed(_) => BatchEvent::FailureNoted,
            BatchRequest::Sync(r) => BatchEvent::Sync(match r {
                SyncRequest::IsRepo => SyncEvent::IsRepo(true),
                SyncRequest::HasInternet => SyncEvent::HasInternet(online),
                SyncRequest::Reachable => SyncEvent::Reachable(true),
                SyncRequest::Pull => {
                    git.push("pull".to_string());
                    SyncEvent::Pulled(Ok(()))
                }
                SyncRequest::IsDirty => SyncEvent::Dirty(Ok(true)),
                SyncRequest::Timestamp => SyncEvent::Now("2024-01-01 00:00:00".to_string()),
                SyncRequest::Commit(m) => {
                    git.push(format!("commit:{m}"));
                    SyncEvent::Committed(Ok(()))
                }
                SyncRequest::CurrentBranch => SyncEvent::Branch(Ok("main".to_string())),
                SyncRequest::Push(b) => {
                    git.push(format!("push:{b}"));
                    SyncEvent::Pushed(Ok(()))
                }
                SyncRequest::Finish(_) => panic!("a finished sync is never forwarded"),
            }),
            BatchRequest::Finish => break,
        };
        step = b.step(event);
    }
    (b.result(), ops, git)
}

#[test]
fn batch_saves_a_repeated_url_once_then_pushes() {
    let (result, ops, git) =
        drive_batch(&["http://x/1", "http://x/1"], Vec::new(), &batch_args(false, false), true);
    assert!(matches!(result.outcomes[0], Outcome::Saved { files: 1, .. }));
    assert!(matches!(&result.outcomes[1], Outcome::Skipped { url } if url == "http://x/1"));
    assert_eq!(result.sync.state, RowState::Pass);
    assert_eq!(result.sync.line, "Sync · pushed");
    assert_eq!(git, ["pull", "commit:Data sync: 2024-01-01 00:00:00", "push:main"]);
    // Start, two rows spun and settled, then the Sync row and the close.
    assert_eq!(ops.len(), 1 + 4 + 3);
    assert!(matches!(&ops[0], ProgressOp::Start(labels) if labels.len() == 3));
    assert!(matches!(&ops[2], ProgressOp::Resolve(0, RowState::Pass, _)));
    assert!(matches!(&ops[4], ProgressOp::Resolve(1, RowState::Warn, _)));
    assert!(matches!(&ops[6], ProgressOp::Resolve(2, RowState::Pass, l) if l == "Sync · pushed"));
    assert!(matches!(ops[7], ProgressOp::Finish));
}

#[test]
fn batch_with_force_saves_a_repeated_url_again() {
    let (result, _, _) =
        drive_batch(&["http://x/1", "http://x/1"], Vec::new(), &batch_args(true, true), true);
    assert!(matches!(result.outcomes[0], Outcome::Saved { .. }));
    assert!(matches!(result.outcomes[1], Outcome::Saved { .. }));
    assert_eq!(result.sync.line, "Sync · nothing to commit");
}

#[test]
fn batch_offline_queues_and_commits_without_push() {
    let (result, _, git) = drive_batch(&["http://x/9"], Vec::new(), &batch_args(false, false), false);
    assert!(matches!(result.outcomes[0], Outcome::Queued { .. }));
    assert_eq!(result.sync.line, "Sync · committed (offline)");
    assert_eq!(git, ["commit:OfflineData sync: 2024-01-01 00:00:00"]);
}

#[test]
fn batch_skips_url_found_on_disk_and_empty_url_fails() {
    let listing = vec![StoredDoc {
        path: "/mem/old.md".to_string(),
        content: "link: \"http://x/1\"".to_string(),
    }];
    let (result, _, git) =
        drive_batch(&["http://x/1", ""], listing, &batch_args(false, false), true);
    assert!(matches!(result.outcomes[0], Outcome::Skipped { .. }));
    assert!(matches!(&result.outcomes[1], Outcome::Failed { url } if url.is_empty()));
    assert_eq!(result.sync.state, RowState::Skip);
    assert!(git.is_empty());
}

#[test]
fn saved_files_make_the_url_known_next_time() {
    let inv = parse_page("http://x/77").unwrap();
    let files = plan_item_files(&inv, Vec::new());
    let docs: Vec<StoredDoc> = files
        .into_iter()
        .map(|(name, content)| StoredDoc { path: format!("/mem/{name}"), content })
        .collect();
    assert!(docs[0].path.ends_with(".md"));
    let dedup = Dedup::from_store(docs);
    assert!(dedup.contains("http://x/77"));
    assert!(!dedup.contains("http://x/78"));
}
