use localbill::cli::InsertArgs;
use localbill::commands::batch::{BatchEvent, BatchRequest, RunBatch};
use localbill::commands::insert::{Outcome, RunOneEvent, RunOneRequest};
use localbill::commands::queue::{
    add_line, list, remove, QueueEvent, QueueProcess, QueueRequest,
};
use localbill::invoice::parser::{ItemFields, ItemsResponse, ParseEvent, ParseMachine, ParseRequest};
use localbill::invoice::Invoice;
use localbill::ports::Line;

fn invoice_page() -> String {
    "<html><body>\
     <span id=\"invoiceNumberLabel\">INV-1</span>\
     <span id=\"shopFullNameLabel\">Maxi</span>\
     <span id=\"sdcDateTimeLabel\">15.03.2024. 14:30:00</span>\
     <span id=\"totalAmountLabel\">179,98</span>\
     <div id=\"collapse3\"><div><pre>receipt</pre></div></div>\
     <script>viewModel.Token('tok123');</script>\
     </body></html>"
        .to_string()
}

fn invalid_page() -> String {
    "<html><body><span id=\"shopFullNameLabel\">Maxi</span></body></html>".into()
}

fn items_response() -> ItemsResponse {
    ItemsResponse {
        success: Some(true),
        items: Some(vec![ItemFields {
            name: Some("Mleko".to_string()),
            quantity: Some("2.0".to_string()),
            unit_price: Some("89.99".to_string()),
            total: Some("179.98".to_string()),
            gtin: Some(String::new()),
            label: Some(String::new()),
            label_rate: Some("0.0".to_string()),
            tax_base_amount: Some("0.0".to_string()),
            vat_amount: Some("0.0".to_string()),
        }]),
    }
}

/// Parse `url`, serving the next of `pages` for each fetch.
fn parse(url: &str, pages: &mut Vec<String>) -> Result<Invoice, localbill::error::Error> {
    let mut m = ParseMachine::new(url.to_string(), 3);
    let mut step = m.step(ParseEvent::Begin);
    loop {
        let event = match step.request {
            ParseRequest::Fetch { .. } => ParseEvent::Page(Ok(pages.remove(0))),
            ParseRequest::AmountOf(c) => {
                let n: f64 = c.parse().unwrap();
                ParseEvent::Amount(Some(format!("{n:.2}")))
            }
            ParseRequest::PostItems { .. } => ParseEvent::Items(Ok(items_response())),
            ParseRequest::Finish(r) => return r,
        };
        step = m.step(event);
    }
}

/// Insert `urls` as one batch, online, with the given pages.
fn run_batch(urls: Vec<String>, no_sync: bool, pages: &mut Vec<String>) -> Vec<Outcome> {
    let args = InsertArgs { url: None, file: None, dry_run: false, no_sync, force: false };
    let mut b = RunBatch::new(urls, &args, "/mem".to_string());
    let mut step = b.step(BatchEvent::Begin { listing: Ok(Vec::new()), width: None });
    loop {
        let event = match step.request {
            BatchRequest::One(r) => BatchEvent::One(match r {
                RunOneRequest::HasInternet => RunOneEvent::Internet(true),
                RunOneRequest::Parse(url) => RunOneEvent::Parsed(parse(&url, pages)),
                RunOneRequest::Write(inv) => RunOneEvent::Written(Ok(inv.items.len())),
                RunOneRequest::RecordFailed(_) => RunOneEvent::Recorded(Ok(())),
                other => panic!("unexpected request {other:?}"),
            }),
            BatchRequest::RecordFailed(_) => BatchEvent::FailureNoted,
            BatchRequest::Sync(r) => panic!("no sync expected, got {r:?}"),
            BatchRequest::Finish => break,
        };
        step = b.step(event);
    }
    b.result().outcomes
}

#[test]
fn queue_process_local_drains_successes_keeps_failures() {
    let mut queue: Vec<String> = vec!["http://x/1".into(), "http://x/2".into()];
    let mut pages = vec![invoice_page(), invalid_page()];
    let mut m = QueueProcess::new(false, true, "http://localhost:8087/queue".to_string());
    let mut step = m.step(QueueEvent::Begin);
    let res = loop {
        let event = match step.request {
            QueueRequest::ListLocal => QueueEvent::Urls(Ok(queue.clone())),
            QueueRequest::RunBatch { urls, no_sync } => {
                QueueEvent::BatchDone(run_batch(urls, no_sync, &mut pages))
            }
            QueueRequest::Replace(kept) => {
                queue = kept;
                QueueEvent::Updated(Ok(()))
            }
            QueueRequest::FetchRemote | QueueRequest::RemoveRemote(_) => {
                panic!("local processing never calls the remote queue")
            }
            QueueRequest::Finish(r) => break r,
        };
        step = m.step(event);
    };
    assert!(res.is_err());
    assert_eq!(queue, ["http://x/2"]);
}

#[test]
fn queue_add_line_names_the_url() {
    let Line::Status(text) = add_line("http://x/1") else {
        panic!("a status line");
    };
    assert_eq!(text, "Queued: http://x/1");
}

#[test]
fn queue_remove_drops_every_copy_and_is_idempotent() {
    let lines: Vec<String> = vec!["a".into(), "b".into(), "a".into()];
    let r = remove(lines, "a");
    assert_eq!(r.kept, ["b"]);
    assert!(matches!(&r.line, Line::Out(t) if t == "Removed 2 occurrence(s) of the URL from the queue."));
    let again = remove(r.kept, "a");
    assert_eq!(again.kept, ["b"]);
    assert!(matches!(&again.line, Line::Status(t) if t == "URL not found in queue: a"));
}

#[test]
fn queue_list_numbers_the_urls() {
    let lines: Vec<String> = vec!["http://x/1".into(), "http://x/2".into()];
    assert_eq!(
        list(&lines),
        ["   1. http://x/1", "   2. http://x/2", "\n2 URL(s) in queue."]
    );
    assert_eq!(list(&Vec::new()), ["Queue is empty."]);
}

#[test]
fn queue_file_reads_back_what_was_written() {
    let urls: Vec<String> = vec!["http://x/1".into(), "http://x/2?a=b".into()];
    let text = localbill::adapters::store::queue_content(&urls);
    assert_eq!(text, "http://x/1\nhttp://x/2?a=b\n");
    assert_eq!(localbill::adapters::store::queued_urls(&text), urls);
    assert_eq!(localbill::adapters::store::queue_content(&Vec::new()), "");
    // Blank lines and surrounding spaces are not URLs.
    assert_eq!(
        localbill::adapters::store::queued_urls("  http://x/3 \r\n\n"),
        ["http://x/3"]
    );
}
