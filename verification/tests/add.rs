use localbill::commands::add::{
    build_from_json, entry_base, render_markdown, text_field, AddArgs, AddEvent, AddRequest, AddRun,
};
use localbill::error::Error;
use localbill::ports::Line;
use localbill::schema_form::scalar::FieldValue;

const SCHEMA: &str = "\
type: object
additionalProperties: false
required: [date, name, quantity]
properties:
  date: { type: string }
  name: { type: string, minLength: 1 }
  quantity: { type: number, minimum: 0 }
";

fn keys() -> Vec<String> {
    vec!["date".to_string(), "name".to_string(), "quantity".to_string()]
}

#[test]
fn render_markdown_wraps_yaml_in_front_matter() {
    let mut map = serde_yaml::Mapping::new();
    map.insert(
        serde_yaml::Value::String("name".into()),
        serde_yaml::Value::String("Test Item".into()),
    );
    let md = render_markdown(&serde_yaml::to_string(&map).unwrap());
    assert!(md.starts_with("---\n"));
    assert!(md.ends_with("---\n"));
    assert!(md.contains("name: Test Item"));
}

/// What the outside world answers while `add` runs.
struct Script {
    stdin: &'static str,
    answers: Option<Vec<(String, FieldValue)>>,
    taken: Vec<String>,
    sync_fails: bool,
}

impl Script {
    fn quiet() -> Script {
        Script { stdin: "", answers: None, taken: Vec::new(), sync_fails: false }
    }
}

/// What `add` did: its result, the files it wrote, what it showed.
struct Trace {
    result: Result<(), Error>,
    written: Vec<(String, String)>,
    shown: Vec<String>,
    saved: usize,
    read_stdin: bool,
    synced: bool,
}

fn add_args(json: Option<&str>) -> AddArgs {
    AddArgs { json: json.map(String::from), dry_run: false, no_sync: true }
}

fn run(args: AddArgs, mut script: Script) -> Trace {
    let mut trace = Trace {
        result: Ok(()),
        written: Vec::new(),
        shown: Vec::new(),
        saved: 0,
        read_stdin: false,
        synced: false,
    };
    let mut machine = AddRun::new(args);
    let mut step = machine.step(AddEvent::Begin);
    loop {
        for line in step.say {
            match line {
                Line::Out(s) | Line::Status(s) => trace.shown.push(s),
            }
        }
        if step.saved.is_some() {
            trace.saved += 1;
        }
        let event = match step.request {
            AddRequest::LoadSchema => AddEvent::Schema(Ok((SCHEMA.to_string(), keys()))),
            AddRequest::ReadStdin => {
                trace.read_stdin = true;
                AddEvent::Payload(Ok(script.stdin.to_string()))
            }
            AddRequest::RunForm => AddEvent::Answers(Ok(script.answers.take().unwrap())),
            AddRequest::FormYaml(fields) => {
                let mut map = serde_yaml::Mapping::new();
                for (k, v) in fields {
                    if let FieldValue::Text(t) = v {
                        map.insert(serde_yaml::Value::String(k), serde_yaml::Value::String(t));
                    }
                }
                AddEvent::Yaml(Ok(serde_yaml::to_string(&map).unwrap()))
            }
            AddRequest::ListNames => AddEvent::Names(script.taken.clone()),
            AddRequest::Write { filename, content } => {
                let path = format!("/mem/{filename}");
                trace.written.push((path.clone(), content));
                AddEvent::Written(Ok(path))
            }
            AddRequest::Sync => {
                trace.synced = true;
                AddEvent::Synced(if script.sync_fails {
                    Err(Error::Git("no remote".to_string()))
                } else {
                    Ok(())
                })
            }
            AddRequest::Finish(r) => {
                trace.result = r;
                return trace;
            }
        };
        step = machine.step(event);
    }
}

#[test]
fn valid_json_writes_file_in_schema_order() {
    // Keys deliberately out of schema order to prove they are re-ordered.
    let json = r#"{"quantity": 2, "name": "Milk", "date": "2026-06-05T10:00:00"}"#;
    let t = run(add_args(Some(json)), Script::quiet());
    assert!(t.result.is_ok());
    assert_eq!(t.written.len(), 1, "exactly one file written");
    assert_eq!(t.written[0].0, "/mem/20260605T100000-milk.md");

    let body = &t.written[0].1;
    let date_at = body.find("date:").unwrap();
    let name_at = body.find("name:").unwrap();
    let qty_at = body.find("quantity:").unwrap();
    assert!(date_at < name_at && name_at < qty_at, "fields in schema order");
}

#[test]
fn missing_required_field_returns_validation_error_and_writes_nothing() {
    let json = r#"{"name": "Milk", "quantity": 1}"#; // no `date`
    let t = run(add_args(Some(json)), Script::quiet());
    assert!(matches!(t.result, Err(Error::Validation(_))));
    assert!(t.written.is_empty(), "no file written");
    assert!(!t.shown.is_empty(), "each violation is shown");
}

#[test]
fn wrong_type_returns_validation_error() {
    let json = r#"{"date": "2026-06-05T10:00:00", "name": "Milk", "quantity": "lots"}"#;
    let t = run(add_args(Some(json)), Script::quiet());
    assert!(matches!(t.result, Err(Error::Validation(_))));
    assert!(t.written.is_empty());
}

#[test]
fn malformed_json_returns_json_error() {
    let t = run(add_args(Some("{not json")), Script::quiet());
    assert!(matches!(t.result, Err(Error::Json(_))));
    assert!(t.written.is_empty());
}

#[test]
fn non_object_json_returns_parse_error() {
    let t = run(add_args(Some("[1, 2, 3]")), Script::quiet());
    assert!(matches!(t.result, Err(Error::Parse(_))));
    assert!(t.written.is_empty());
}

#[test]
fn dry_run_valid_json_writes_nothing() {
    let json = r#"{"date": "2026-06-05T10:00:00", "name": "Milk", "quantity": 1}"#;
    let mut args = add_args(Some(json));
    args.dry_run = true;
    let t = run(args, Script::quiet());
    assert!(t.result.is_ok());
    assert!(t.written.is_empty(), "dry-run writes nothing");
    assert_eq!(t.shown[0], "\n# filename: 20260605T100000-milk.md");
    assert!(t.shown[1].starts_with("---\n") && t.shown[1].ends_with("---"));
}

#[test]
fn dash_reads_json_from_stdin() {
    let json = r#"{"date": "2026-06-05T10:00:00", "name": "Milk", "quantity": 1}"#;
    let script = Script { stdin: json, ..Script::quiet() };
    let t = run(add_args(Some("-")), script);
    assert!(t.result.is_ok());
    assert!(t.read_stdin);
    assert_eq!(t.written.len(), 1);
}

#[test]
fn form_answers_name_the_file_and_take_a_free_name() {
    let answers = vec![
        ("date".to_string(), FieldValue::Text("2026-06-05T10:00:00".to_string())),
        ("name".to_string(), FieldValue::Text("Oat Milk".to_string())),
    ];
    let script = Script {
        answers: Some(answers),
        taken: vec!["20260605T100000-oat-milk.md".to_string()],
        ..Script::quiet()
    };
    let t = run(add_args(None), script);
    assert!(t.result.is_ok());
    assert_eq!(t.written.len(), 1);
    assert_eq!(t.written[0].0, "/mem/20260605T100000-oat-milk-01.md");
    assert!(t.written[0].1.contains("name: Oat Milk"));
    assert_eq!(t.saved, 1, "the saved path is confirmed");
}

#[test]
fn add_syncs_unless_told_not_to() {
    let json = r#"{"date": "2026-06-05T10:00:00", "name": "Milk", "quantity": 1}"#;
    let mut args = add_args(Some(json));
    args.no_sync = false;
    let t = run(args, Script::quiet());
    assert!(t.result.is_ok());
    assert!(t.synced);
    let t = run(add_args(Some(json)), Script::quiet());
    assert!(!t.synced, "--no-sync skips the sync");
}

#[test]
fn failed_sync_after_add_is_only_a_warning() {
    let json = r#"{"date": "2026-06-05T10:00:00", "name": "Milk", "quantity": 1}"#;
    let mut args = add_args(Some(json));
    args.no_sync = false;
    let t = run(args, Script { sync_fails: true, ..Script::quiet() });
    assert!(t.result.is_ok(), "the entry was written");
    assert_eq!(t.written.len(), 1);
    assert!(t.shown.last().unwrap().starts_with("Warning: sync failed: "));
}

#[test]
fn entry_without_name_is_named_item() {
    let answers = vec![("date".to_string(), FieldValue::Text("2026-06-05".to_string()))];
    let t = run(add_args(None), Script { answers: Some(answers), ..Script::quiet() });
    assert!(t.result.is_ok());
    assert_eq!(t.written[0].0, "/mem/20260605-item.md");
}

#[test]
fn text_field_takes_the_first_text_value() {
    let fields = vec![
        ("date".to_string(), FieldValue::Integer(3)),
        ("name".to_string(), FieldValue::Text("Milk".to_string())),
    ];
    assert_eq!(text_field(&fields, "name").as_deref(), Some("Milk"));
    assert_eq!(text_field(&fields, "date"), None);
}

#[test]
fn build_from_json_keeps_schema_order() {
    let json = r#"{"quantity": 2, "name": "Milk", "date": "2026-06-05T10:00:00"}"#;
    let entry = build_from_json(json, &keys(), SCHEMA);
    assert!(entry.lines.is_empty());
    let fields = entry.result.unwrap();
    let names: Vec<&str> = fields.iter().map(|(k, _)| k.as_str()).collect();
    assert_eq!(names, ["date", "name", "quantity"]);
}

#[test]
fn entry_base_falls_back_for_missing_fields() {
    assert_eq!(entry_base(None, None), "unknown-item");
}
