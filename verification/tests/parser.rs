use localbill::invoice::parser::{
    extract_token, parse_date, ItemFields, ItemsResponse, ParseEvent, ParseMachine, ParseRequest,
};

fn invoice_page(with_token: bool) -> String {
    let token_script = if with_token {
        "<script>viewModel.Token('tok123');</script>"
    } else {
        ""
    };
    format!(
        "<html><body>\
         <span id=\"invoiceNumberLabel\">INV-1</span>\
         <span id=\"shopFullNameLabel\">Maxi</span>\
         <span id=\"sdcDateTimeLabel\">15.03.2024. 14:30:00</span>\
         <span id=\"totalAmountLabel\">179,98</span>\
         <div id=\"collapse3\"><div><pre>receipt</pre></div></div>\
         {token_script}\
         </body></html>"
    )
}

fn items_response() -> ItemsResponse {
    ItemsResponse {
        success: Some(true),
        items: Some(vec![ItemFields {
            name: Some("Mleko".to_string()),
            quantity: Some("2.0".to_string()),
            unit_price: Some("89.99".to_string()),
            total: Some("179.98".to_string()),
            gtin: Some(String::new()),
            label: Some(String::new()),
            label_rate: Some("0.0".to_string()),
            tax_base_amount: Some("0.0".to_string()),
            vat_amount: Some("0.0".to_string()),
        }]),
    }
}

#[test]
fn date_conversion() {
    assert_eq!(parse_date("15.03.2024. 14:30:00").unwrap(), "2024-03-15T14:30:00");
}

#[test]
fn token_extraction() {
    let html = "var x = 1;\nviewModel.Token('abc123');\nvar y = 2;";
    assert_eq!(extract_token(html).unwrap(), "abc123");
}

fn invalid_page() -> String {
    "<html><body><span id=\"shopFullNameLabel\">Maxi</span></body></html>".into()
}

/// Run a parse of `http://x`, serving `pages` in order and `items` for the
/// item request; returns the result and the pages left unserved.
fn parse_with(
    pages: Vec<String>,
    items: Option<ItemsResponse>,
    max_attempts: u32,
) -> (Result<localbill::invoice::Invoice, localbill::error::Error>, usize) {
    let mut pages = pages.into_iter();
    let mut items = items;
    let mut m = ParseMachine::new("http://x".to_string(), max_attempts);
    let mut step = m.step(ParseEvent::Begin);
    loop {
        let event = match step.request {
            ParseRequest::Fetch { .. } => ParseEvent::Page(Ok(pages.next().expect("a page"))),
            ParseRequest::AmountOf(c) => {
                let n: f64 = c.parse().unwrap();
                ParseEvent::Amount(Some(format!("{n:.2}")))
            }
            ParseRequest::PostItems { .. } => ParseEvent::Items(Ok(items.take().expect("items"))),
            ParseRequest::Finish(r) => return (r, pages.len()),
        };
        step = m.step(event);
    }
}

#[test]
fn parser_happy_path() {
    let (res, _) = parse_with(vec![invoice_page(true)], Some(items_response()), 3);
    let inv = res.unwrap();
    assert_eq!(inv.retailer, "Maxi");
    assert_eq!(inv.date, "2024-03-15T14:30:00");
    assert_eq!(inv.items.len(), 1);
    assert_eq!(inv.items[0].name, "Mleko");
}

#[test]
fn parser_fails_fast_on_non_token_error() {
    let (res, left) = parse_with(vec![invalid_page(), invoice_page(true)], None, 3);
    assert!(res.is_err());
    // The second page is never fetched: no retry happened.
    assert_eq!(left, 1);
}

#[test]
fn parser_retries_on_token_failure_then_succeeds() {
    // First page lacks the token (retryable); second page has it.
    let mut pages = vec![invoice_page(false), invoice_page(true)].into_iter();
    let mut m = ParseMachine::new("http://x".to_string(), 3);
    let mut step = m.step(ParseEvent::Begin);
    let inv = loop {
        let event = match step.request {
            ParseRequest::Fetch { .. } => ParseEvent::Page(Ok(pages.next().expect("a page"))),
            ParseRequest::AmountOf(c) => {
                let n: f64 = c.parse().unwrap();
                ParseEvent::Amount(Some(format!("{n:.2}")))
            }
            ParseRequest::PostItems { .. } => ParseEvent::Items(Ok(items_response())),
            ParseRequest::Finish(r) => break r.unwrap(),
        };
        step = m.step(event);
    };
    assert_eq!(inv.items.len(), 1);
}
