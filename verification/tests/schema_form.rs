use localbill::schema_form::fields::{
    current_datetime_prefill, looks_like_datetime, looks_like_offset_expr, normalize_time,
    parse_bool, resolve_enum, to_datetime_format, validate_string_input,
};

fn texts(v: &[&str]) -> Vec<String> {
    v.iter().map(|s| s.to_string()).collect()
}

#[test]
fn offset_expr_recognises_valid() {
    assert!(looks_like_offset_expr("+1d -2h +30m"));
    assert!(looks_like_offset_expr("now +1d"));
    assert!(looks_like_offset_expr("-1s"));
}

#[test]
fn offset_expr_rejects_invalid() {
    assert!(!looks_like_offset_expr(""));
    assert!(!looks_like_offset_expr("2026-04-03"));
    assert!(!looks_like_offset_expr("foo +1d"));
}

#[test]
fn datetime_format_swaps_space_for_t() {
    assert_eq!(to_datetime_format("2024-01-01 00:00:00"), "2024-01-01T00:00:00");
}

#[test]
fn datetime_format_leaves_failure_string() {
    assert_eq!(to_datetime_format("unknown"), "unknown");
}

#[test]
fn prefill_is_a_valid_datetime() {
    // The fixed clock of the form's tests answers "2024-01-01 00:00:00".
    assert!(looks_like_datetime(&current_datetime_prefill("2024-01-01 00:00:00")));
}

#[test]
fn datetime_valid() {
    assert!(looks_like_datetime("2024-03-15T14:30:00"));
}

#[test]
fn datetime_with_fractional_seconds() {
    assert!(looks_like_datetime("2024-03-15T14:30:00.123"));
}

#[test]
fn datetime_too_short() {
    assert!(!looks_like_datetime("2024-03-15"));
}

#[test]
fn datetime_wrong_separator() {
    assert!(!looks_like_datetime("2024-03-15 14:30:00"));
}

#[test]
fn string_too_short() {
    let msg = validate_string_input("x", Some(3), None, None, None)
        .unwrap()
        .unwrap();
    assert!(msg.contains('3'));
}

#[test]
fn string_pattern_no_match() {
    let msg = validate_string_input("usd", None, Some("^[A-Z]{3}$"), None, None)
        .unwrap()
        .unwrap();
    assert!(msg.contains("pattern"));
}

#[test]
fn string_invalid_pattern_returns_err() {
    assert!(validate_string_input("x", None, Some("[bad"), None, None).is_err());
}

#[test]
fn string_enum_invalid() {
    let vals = texts(&["percentage", "fixed"]);
    let msg = validate_string_input("other", None, None, Some(&vals), None)
        .unwrap()
        .unwrap();
    assert!(msg.contains("percentage"));
}

#[test]
fn enum_numeric_resolves_in_range() {
    assert_eq!(resolve_enum("2", Some(&texts(&["a", "b", "c"]))), "b");
}

#[test]
fn enum_numeric_out_of_range_passes_through() {
    assert_eq!(resolve_enum("9", Some(&texts(&["a", "b"]))), "9");
    assert_eq!(resolve_enum("a", Some(&texts(&["a", "b"]))), "a");
}

#[test]
fn bool_parsing() {
    assert_eq!(parse_bool("Yes"), Some(true));
    assert_eq!(parse_bool("0"), Some(false));
    assert_eq!(parse_bool("maybe"), None);
}

#[test]
fn time_normalisation_pads_seconds() {
    assert_eq!(normalize_time("14:30"), "14:30:00");
    assert_eq!(normalize_time("14:30:15"), "14:30:15");
}

use localbill::schema_form::datetime::apply_offsets;
use localbill::schema_form::fields::{build_hint, validate_pattern, Styled};
use localbill::schema_form::form::{FieldSchema, Form, FormEvent, FormRequest, FormSchema};
use localbill::schema_form::scalar::{
    FieldValue, Pending, RangeVerdict, ScalarEvent, ScalarPrompt, ScalarRequest, ScalarSpec,
};

// ── apply_offsets ──────────────────────────────────────────────────────────

#[test]
fn offsets_plus_one_day() {
    assert_eq!(
        apply_offsets("2026-04-03T14:00:00", "+1d", "2000-01-01T00:00:00").unwrap(),
        "2026-04-04T14:00:00"
    );
}

#[test]
fn offsets_minus_two_hours() {
    assert_eq!(
        apply_offsets("2026-04-03T14:00:00", "-2h", "2000-01-01T00:00:00").unwrap(),
        "2026-04-03T12:00:00"
    );
}

#[test]
fn offsets_multiple_tokens_cross_boundaries() {
    assert_eq!(
        apply_offsets("2026-04-03T00:00:01", "+1d +1h -1s", "x").unwrap(),
        "2026-04-04T01:00:00"
    );
}

#[test]
fn offsets_now_resets_to_now_argument() {
    assert_eq!(
        apply_offsets("2000-01-01T00:00:00", "now", "2026-06-03T14:00:00").unwrap(),
        "2026-06-03T14:00:00"
    );
}

#[test]
fn offsets_now_then_shift() {
    assert_eq!(
        apply_offsets("2000-01-01T00:00:00", "now +1h", "2026-06-03T14:00:00").unwrap(),
        "2026-06-03T15:00:00"
    );
}

#[test]
fn offsets_invalid_unit_errors() {
    assert!(apply_offsets("2026-04-03T00:00:00", "+1y", "x").is_err());
}

#[test]
fn offsets_bad_number_errors() {
    assert!(apply_offsets("2026-04-03T00:00:00", "+xd", "x").is_err());
}

#[test]
fn offsets_unparsable_base_is_an_error() {
    assert!(apply_offsets("yesterday", "+1d", "x").is_err());
}

// ── validate_pattern ───────────────────────────────────────────────────────

#[test]
fn pattern_currency_valid() {
    assert!(validate_pattern("USD", "^[A-Z]{3}$").unwrap());
    assert!(validate_pattern("RSD", "^[A-Z]{3}$").unwrap());
}

#[test]
fn pattern_currency_lowercase_rejected() {
    assert!(!validate_pattern("usd", "^[A-Z]{3}$").unwrap());
}

#[test]
fn pattern_invalid_regex_returns_err() {
    assert!(validate_pattern("x", "[invalid").is_err());
}

// ── build_hint (bounds as they are displayed) ──────────────────────────────

#[test]
fn hint_empty_when_no_constraints_and_required() {
    assert_eq!(build_hint(None, None, None, None, None, true), "");
}

#[test]
fn hint_optional_when_not_required() {
    assert_eq!(build_hint(None, None, None, None, None, false), " (optional)");
}

#[test]
fn hint_includes_format() {
    assert_eq!(
        build_hint(Some("datetime"), None, None, None, None, true),
        " (format: datetime)"
    );
}

#[test]
fn hint_includes_min_max() {
    assert_eq!(
        build_hint(None, None, Some("0"), Some("100"), None, true),
        " (min: 0, max: 100)"
    );
}

#[test]
fn hint_includes_enum() {
    let vals = texts(&["percentage", "fixed"]);
    assert_eq!(
        build_hint(None, None, None, None, Some(&vals), true),
        " (one of: percentage | fixed)"
    );
}

// ── number / integer answers, through the scalar prompt ────────────────────

fn styled_text(s: &Styled) -> String {
    s.parts.iter().map(|(_, t)| t.as_str()).collect()
}

fn spec(kind: &str, minimum: Option<f64>, maximum: Option<f64>) -> ScalarSpec {
    ScalarSpec {
        kind: kind.to_string(),
        format: None,
        pattern: None,
        min_length: None,
        minimum: minimum.map(|m| m.to_string()),
        maximum: maximum.map(|m| m.to_string()),
        enum_vals: None,
    }
}

/// Compare a pending number with the bounds, as the terminal side does.
fn verdict(p: &Pending, minimum: Option<f64>, maximum: Option<f64>) -> RangeVerdict {
    let n = match p {
        Pending::Number(t) => t.parse::<f64>().unwrap(),
        Pending::Integer(i) => *i as f64,
    };
    RangeVerdict {
        below_minimum: minimum.is_some_and(|m| n < m),
        above_maximum: maximum.is_some_and(|m| n > m),
    }
}

/// Answer a required field once: its value, or the message it was refused with.
fn answer_once(
    kind: &str,
    input: &str,
    minimum: Option<f64>,
    maximum: Option<f64>,
) -> Result<FieldValue, String> {
    let mut p = ScalarPrompt::new(String::new(), "n".to_string(), true, spec(kind, minimum, maximum));
    let first = p.step(ScalarEvent::Begin);
    assert!(matches!(first.request, ScalarRequest::ReadLine(_)));
    let mut step = p.step(ScalarEvent::Line(Ok(input.to_string())));
    loop {
        match step.request {
            ScalarRequest::CheckRange(pending) => {
                step = p.step(ScalarEvent::Range(verdict(&pending, minimum, maximum)));
            }
            ScalarRequest::Finish(r) => return Ok(r.unwrap().unwrap()),
            ScalarRequest::ReadLine(_) => {
                return Err(step.say.iter().map(styled_text).collect::<Vec<_>>().join("\n"));
            }
        }
    }
}

#[test]
fn number_valid_no_constraints() {
    let FieldValue::Number(t) = answer_once("number", "2.5", None, None).unwrap() else {
        panic!("a number");
    };
    assert_eq!(t.parse::<f64>().unwrap(), 2.5);
}

#[test]
fn number_not_a_number() {
    assert!(answer_once("number", "abc", None, None).is_err());
}

#[test]
fn number_below_minimum() {
    assert!(answer_once("number", "-1", Some(0.0), None).is_err());
}

#[test]
fn number_above_maximum() {
    assert!(answer_once("number", "101", None, Some(100.0)).is_err());
}

#[test]
fn integer_rejects_fractional() {
    assert!(answer_once("integer", "2.5", None, None).is_err());
}

#[test]
fn integer_range_checked() {
    assert!(answer_once("integer", "5", Some(0.0), Some(3.0)).is_err());
    assert!(matches!(
        answer_once("integer", "2", Some(0.0), Some(3.0)).unwrap(),
        FieldValue::Integer(2)
    ));
}

#[test]
fn range_refusal_names_the_bound() {
    let msg = answer_once("number", "-1", Some(0.0), None).unwrap_err();
    assert_eq!(msg, "    ✗ Value must be >= 0");
}

// ── collect: the whole form ────────────────────────────────────────────────

fn field(kind: &str) -> FieldSchema {
    FieldSchema {
        kind: kind.to_string(),
        format: None,
        pattern: None,
        min_length: None,
        minimum: None,
        maximum: None,
        enum_vals: None,
        properties: None,
        required: Vec::new(),
        items: None,
    }
}

fn form(props: Vec<(&str, FieldSchema)>, required: &[&str]) -> FormSchema {
    FormSchema {
        properties: Some(props.into_iter().map(|(k, f)| (k.to_string(), f)).collect()),
        required: texts(required),
    }
}

/// Fill `schema` with `answers`; the clock reads "2024-01-01 00:00:00" and
/// every number is within its bounds.
fn run(schema: FormSchema, answers: Vec<&str>) -> Vec<(String, FieldValue)> {
    let mut answers = answers.into_iter();
    let mut f = Form::new(schema);
    let mut step = f.step(FormEvent::Begin);
    loop {
        let event = match step.request {
            FormRequest::ReadLine(_) => {
                FormEvent::Line(Ok(answers.next().unwrap_or("").to_string()))
            }
            FormRequest::Timestamp => FormEvent::Timestamp("2024-01-01 00:00:00".to_string()),
            FormRequest::CheckRange(_) => FormEvent::Range(RangeVerdict {
                below_minimum: false,
                above_maximum: false,
            }),
            FormRequest::Finish(r) => return r.unwrap(),
        };
        step = f.step(event);
    }
}

fn get<'a>(data: &'a [(String, FieldValue)], key: &str) -> Option<&'a FieldValue> {
    data.iter().find(|(k, _)| k == key).map(|(_, v)| v)
}

fn text_of(v: Option<&FieldValue>) -> &str {
    match v {
        Some(FieldValue::Text(t)) => t,
        other => panic!("expected text, got {other:?}"),
    }
}

fn datetime_field() -> FieldSchema {
    let mut f = field("string");
    f.format = Some("datetime".to_string());
    f
}

#[test]
fn collect_datetime_accept_prefill_and_string() {
    let mut name = field("string");
    name.min_length = Some(1);
    let data = run(
        form(vec![("date", datetime_field()), ("name", name)], &["date", "name"]),
        vec!["", "Coffee"],
    );
    assert_eq!(text_of(get(&data, "date")), "2024-01-01T00:00:00");
    assert_eq!(text_of(get(&data, "name")), "Coffee");
}

#[test]
fn collect_datetime_offset_expression() {
    let data = run(form(vec![("date", datetime_field())], &["date"]), vec!["+1d +2h"]);
    assert_eq!(text_of(get(&data, "date")), "2024-01-02T02:00:00");
}

#[test]
fn collect_enum_numeric_shortcut() {
    let mut kind = field("string");
    kind.enum_vals = Some(texts(&["percentage", "fixed"]));
    let data = run(form(vec![("kind", kind)], &["kind"]), vec!["2"]);
    assert_eq!(text_of(get(&data, "kind")), "fixed");
}

#[test]
fn collect_number_and_boolean_and_integer() {
    let mut qty = field("integer");
    qty.minimum = Some("0".to_string());
    let data = run(
        form(
            vec![("qty", qty), ("price", field("number")), ("paid", field("boolean"))],
            &["qty", "price", "paid"],
        ),
        vec!["3", "9.5", "yes"],
    );
    assert!(matches!(get(&data, "qty"), Some(FieldValue::Integer(3))));
    let Some(FieldValue::Number(price)) = get(&data, "price") else {
        panic!("a number");
    };
    assert_eq!(price.parse::<f64>().unwrap(), 9.5);
    assert!(matches!(get(&data, "paid"), Some(FieldValue::Bool(true))));
}

#[test]
fn collect_skips_empty_optional_scalar() {
    let mut name = field("string");
    name.min_length = Some(1);
    let data = run(
        form(vec![("name", name), ("notes", field("string"))], &["name"]),
        vec!["Item", ""],
    );
    assert!(get(&data, "name").is_some());
    assert!(get(&data, "notes").is_none());
}

#[test]
fn collect_object_array_recurses() {
    let mut item = field("object");
    item.properties = Some(vec![
        ("fee".to_string(), field("string")),
        ("amount".to_string(), field("number")),
    ]);
    item.required = texts(&["fee", "amount"]);
    let mut fees = field("array");
    fees.items = Some(Box::new(item));
    let data = run(form(vec![("fees", fees)], &[]), vec!["y", "service", "1.5", "n"]);
    let Some(FieldValue::List(entries)) = get(&data, "fees") else {
        panic!("a list");
    };
    assert_eq!(entries.len(), 1);
    let FieldValue::Fields(first) = &entries[0] else {
        panic!("an object");
    };
    assert_eq!(text_of(get(first, "fee")), "service");
    let Some(FieldValue::Number(amount)) = get(first, "amount") else {
        panic!("a number");
    };
    assert_eq!(amount.parse::<f64>().unwrap(), 1.5);
}

#[test]
fn collect_string_array_collects_until_empty() {
    let mut tags = field("array");
    tags.items = Some(Box::new(field("string")));
    let data = run(form(vec![("tags", tags)], &[]), vec!["a", "b", ""]);
    let Some(FieldValue::List(tags)) = get(&data, "tags") else {
        panic!("a list");
    };
    assert_eq!(tags.len(), 2);
    assert!(matches!(&tags[0], FieldValue::Text(t) if t == "a"));
}

#[test]
fn collect_answers_follow_schema_order_and_keep_arrays() {
    let mut tags = field("array");
    tags.items = Some(Box::new(field("string")));
    let data = run(
        form(
            vec![("b", field("string")), ("a", field("string")), ("tags", tags)],
            &["a"],
        ),
        // skip optional b, answer a, end the (empty) array at once
        vec!["", "x", ""],
    );
    let keys: Vec<&str> = data.iter().map(|(k, _)| k.as_str()).collect();
    assert_eq!(keys, ["a", "tags"]);
    assert!(matches!(get(&data, "tags"), Some(FieldValue::List(items)) if items.is_empty()));
}

#[test]
fn required_field_is_asked_again_until_answered() {
    let data = run(form(vec![("name", field("string"))], &["name"]), vec!["", "", "Milk"]);
    assert_eq!(text_of(get(&data, "name")), "Milk");
}

#[test]
fn schema_without_properties_is_refused() {
    let mut f = Form::new(FormSchema { properties: None, required: Vec::new() });
    let step = f.step(FormEvent::Begin);
    let FormRequest::Finish(Err(e)) = step.request else {
        panic!("a refusal");
    };
    assert_eq!(e.message(), "Parse error: Schema missing 'properties'");
}
