use localbill::cli::{ReportArgs, ReportCommand, ValidateArgs};
use localbill::commands::report::run as monthly;
use localbill::commands::search::{duplicate_listing, extract_fields, find_duplicates, search_by_name};
use localbill::commands::validate::{check_docs, compile_schema, report_validation, validate_doc};
use localbill::error::{Error, ValidationError};
use localbill::ports::{Line, StoredDoc};

fn doc(path: &str, date: &str, name: &str, price: &str, link: &str) -> StoredDoc {
    StoredDoc {
        path: path.to_string(),
        content: format!(
            "---\ndate: \"{date}\"\nname: \"{name}\"\nunit_price: {price}\nprice_total: {price}\nlink: \"{link}\"\n---\n"
        ),
    }
}

fn docs() -> Vec<StoredDoc> {
    vec![
        doc("/d/a.md", "2024-03-01T10:00:00", "Mleko", "100", "http://x/1"),
        doc("/d/b.md", "2024-04-02T10:00:00", "Hleb", "50", "http://x/2"),
        doc("/d/c.md", "2024-03-20T10:00:00", "mleko 2", "120.5", "http://x/1"),
        doc("/d/d.yaml", "2024-03-21T10:00:00", "Mleko", "1", "http://x/1"),
    ]
}

#[test]
fn search_is_case_insensitive_and_newest_first() {
    let hits = search_by_name("MLEKO", docs());
    let files: Vec<&str> = hits.iter().map(|h| h.file.as_str()).collect();
    // Only `.md` files take part; the newest comes first.
    assert_eq!(files, ["c.md", "a.md"]);
    assert_eq!(hits[0].unit_price.as_deref(), Some("120.5"));
}

#[test]
fn duplicates_are_links_in_more_than_one_file() {
    let dups = find_duplicates(docs());
    assert_eq!(dups.len(), 1);
    assert_eq!(dups[0].link, "http://x/1");
    assert_eq!(dups[0].files, ["a.md", "c.md"]);
    let listing = duplicate_listing(&dups);
    assert_eq!(listing[0], "1 duplicate invoice URL(s) found:\n");
}

#[test]
fn monthly_groups_prices_by_month_in_order() {
    let args = ReportArgs { command: ReportCommand::Monthly { year: Some(2024), month: None } };
    let r = monthly(&args, &docs());
    let months: Vec<&str> = r.months.iter().map(|(m, _)| m.as_str()).collect();
    assert_eq!(months, ["2024-03", "2024-04"]);
    assert_eq!(r.months[0].1, ["100", "120.5"]);
    assert_eq!(r.count, 3);

    let only_april = ReportArgs { command: ReportCommand::Monthly { year: None, month: Some(4) } };
    assert_eq!(monthly(&only_april, &docs()).count, 1);
}

const SCHEMA: &str = "type: object\nrequired: [name]\nproperties:\n  name: {type: string}\n";

fn vargs(continue_on_error: bool, errors_only: bool) -> ValidateArgs {
    ValidateArgs { path: None, continue_on_error, errors_only }
}

#[test]
fn validation_stops_at_the_first_bad_file_unless_continuing() {
    let schema = compile_schema(SCHEMA).unwrap();
    let files = vec![
        StoredDoc { path: "/d/bad.md".into(), content: "---\ndate: x\n---\n".into() },
        StoredDoc { path: "/d/good.md".into(), content: "---\nname: ok\n---\n".into() },
    ];
    let stop = check_docs(&vargs(false, false), "/d", &files, &schema);
    assert!(matches!(&stop.result, Err(Error::Validation(errs)) if errs.len() == 1));
    assert!(!stop.lines.iter().any(|l| matches!(l, Line::Out(t) if t.contains("good.md"))));

    let all = check_docs(&vargs(true, false), "/d", &files, &schema);
    assert!(all.lines.iter().any(|l| matches!(l, Line::Out(t) if t == "ok  /d/good.md")));
    assert!(matches!(all.result, Err(Error::Validation(_))));
}

#[test]
fn errors_only_lists_just_the_failing_paths() {
    let checked = vec![
        ("/d/a.md".to_string(), Ok(Vec::new())),
        (
            "/d/b.md".to_string(),
            Ok(vec![ValidationError {
                path: "/d/b.md".into(),
                field: "".into(),
                message: "\"name\" is a required property".into(),
            }]),
        ),
    ];
    let r = report_validation(&vargs(false, true), "/d", checked);
    let outs: Vec<&str> = r
        .lines
        .iter()
        .filter_map(|l| match l {
            Line::Out(t) => Some(t.as_str()),
            Line::Status(_) => None,
        })
        .collect();
    assert_eq!(outs[0], "/d/b.md");
    assert!(r.result.is_err());
}

#[test]
fn a_clean_directory_validates() {
    let schema = compile_schema(SCHEMA).unwrap();
    let files = vec![StoredDoc { path: "/d/good.md".into(), content: "---\nname: ok\n---\n".into() }];
    let r = check_docs(&vargs(false, false), "/d", &files, &schema);
    assert!(r.result.is_ok());
}

#[test]
fn schema_that_is_not_yaml_is_a_yaml_error() {
    assert!(matches!(compile_schema("type: [object"), Err(Error::Yaml(_))));
    assert!(matches!(compile_schema("type: 12"), Err(Error::Config(m)) if m.starts_with("Invalid JSON Schema: ")));
}

#[test]
fn front_matter_that_is_not_yaml_is_reported() {
    let schema = compile_schema(SCHEMA).unwrap();
    let bad = StoredDoc { path: "/d/x.md".into(), content: "---\nname: [oops\n---\n".into() };
    assert!(matches!(validate_doc(&bad, &schema), Err(Error::Yaml(_))));
    let none = StoredDoc { path: "/d/y.md".into(), content: "no front matter".into() };
    let Err(Error::Parse(m)) = validate_doc(&none, &schema) else {
        panic!("a parse error");
    };
    assert_eq!(m, "/d/y.md: no YAML front-matter found");
}

#[test]
fn indented_block_lines_are_not_fields() {
    let content = "---\nname: \"Mleko\"\nnotes: |\n    name: fake\n---\n";
    let fields = extract_fields(content);
    let name = fields.iter().rev().find(|(k, _)| k == "name").map(|(_, v)| v.as_str());
    assert_eq!(name, Some("Mleko"));
}
