//! `validate`: check the YAML front-matter of transaction files against the
//! configured JSON Schema.
use vstd::prelude::*;

use crate::cli::ValidateArgs;
use crate::config::Config;
use crate::error::{error_text, validation_error_text, Error, ValidationError};
use crate::ports::{line_views, Line, StoredDoc};
use crate::text::{
    chars_of, decimal, find_from, find_from_exec, push_decimal, push_str, starts_with,
    starts_with_str, string_of,
};

verus! {

// ── Outside values ────────────────────────────────────────────────────────────

/// A parsed YAML document.
#[verifier::external_type_specification]
#[verifier::external_body]
pub struct ExYamlValue(serde_yaml::Value);

/// A JSON document.
#[verifier::external_type_specification]
#[verifier::external_body]
pub struct ExJsonValue(serde_json::Value);

/// Where a JSON value comes from: read from JSON text, converted from the
/// YAML value read from a text, or a member of another value.
pub enum JsonOrigin {
    Text(Seq<char>),
    Yaml(Seq<char>),
    Member(Box<JsonOrigin>, Seq<char>),
}

/// A YAML value, viewed as the text it was read from.
pub struct YamlValue {
    value: serde_yaml::Value,
    source: Ghost<Seq<char>>,
}

impl View for YamlValue {
    type V = Seq<char>;

    closed spec fn view(&self) -> Seq<char> {
        self.source@
    }
}

/// A JSON value, viewed as where it comes from. Reading the same text, or
/// taking the same member, gives the same value, so every question below
/// about a value is a question about its origin.
pub struct JsonValue {
    value: serde_json::Value,
    origin: Ghost<JsonOrigin>,
}

impl View for JsonValue {
    type V = JsonOrigin;

    closed spec fn view(&self) -> JsonOrigin {
        self.origin@
    }
}

impl JsonValue {
    /// The value itself, for rendering and conversion.
    pub fn value(&self) -> &serde_json::Value {
        &self.value
    }
}

/// Whether `serde_json::from_str` refuses `text` as JSON, with its message
/// (`None` when it reads a value).
pub uninterp spec fn json_refusal(text: Seq<char>) -> Option<Seq<char>>;

/// `serde_json::from_str` into a JSON value; the parser's message on failure.
#[verifier::external_body]
pub(crate) fn parse_json_value(text: &str) -> (r: Result<JsonValue, String>)
    ensures
        match json_refusal(text@) {
            None => r matches Ok(v) && v@ == JsonOrigin::Text(text@),
            Some(m) => r matches Err(e) && e@ == m,
        },
{
    match serde_json::from_str::<serde_json::Value>(text) {
        Ok(value) => Ok(JsonValue { value, origin: Ghost(JsonOrigin::Text(text@)) }),
        Err(e) => Err(e.to_string()),
    }
}

/// Whether the JSON value `v` is an object.
pub uninterp spec fn is_object(v: JsonOrigin) -> bool;

/// `Value::is_object`.
#[verifier::external_body]
pub(crate) fn json_is_object(v: &JsonValue) -> (b: bool)
    ensures
        b == is_object(v@),
{
    v.value.is_object()
}

/// Whether the JSON value `v` is an object with a member named `key`.
pub uninterp spec fn has_member(v: JsonOrigin, key: Seq<char>) -> bool;

/// `Value::get` of an object member, copied out.
#[verifier::external_body]
pub(crate) fn json_member(v: &JsonValue, key: &str) -> (r: Option<JsonValue>)
    ensures
        match r {
            Some(m) => has_member(v@, key@) && m@ == JsonOrigin::Member(Box::new(v@), key@),
            None => !has_member(v@, key@),
        },
{
    match v.value.get(key) {
        Some(m) => Some(
            JsonValue {
                value: m.clone(),
                origin: Ghost(JsonOrigin::Member(Box::new(v.origin@), key@)),
            },
        ),
        None => None,
    }
}

/// The text of the JSON value `v`, when it is a string.
pub uninterp spec fn json_text(v: JsonOrigin) -> Option<Seq<char>>;

/// `Value::as_str`, copied out.
#[verifier::external_body]
pub(crate) fn json_str(v: &JsonValue) -> (r: Option<String>)
    ensures
        match r {
            Some(t) => json_text(v@) == Some(t@),
            None => json_text(v@) is None,
        },
{
    v.value.as_str().map(|t| t.to_string())
}

/// Named JSON values as names beside their origins.
pub open spec fn fields_view(fields: Seq<(String, JsonValue)>) -> Seq<(Seq<char>, JsonOrigin)> {
    fields.map_values(|f: (String, JsonValue)| (f.0@, f.1@))
}

/// What `serde_yaml::to_string` writes for the YAML mapping of the named
/// JSON values `fields`, in order, or the serializer's message.
pub uninterp spec fn fields_yaml(fields: Seq<(Seq<char>, JsonOrigin)>) -> Result<
    Seq<char>,
    Seq<char>,
>;

/// `serde_yaml::to_string` of the mapping of `fields` (each value taken
/// over by `serde_yaml::to_value`), in order.
#[verifier::external_body]
pub(crate) fn yaml_of_fields(fields: &Vec<(String, JsonValue)>) -> (r: Result<String, String>)
    ensures
        match fields_yaml(fields_view(fields@)) {
            Ok(t) => r matches Ok(s) && s@ == t,
            Err(m) => r matches Err(e) && e@ == m,
        },
{
    let mut map = serde_yaml::Mapping::new();
    for (k, v) in fields.iter() {
        match serde_yaml::to_value(&v.value) {
            Ok(y) => map.insert(serde_yaml::Value::String(k.clone()), y),
            Err(e) => return Err(e.to_string()),
        };
    }
    serde_yaml::to_string(&map).map_err(|e| e.to_string())
}

/// The `jsonschema::Validator` itself. Verus cannot take the validator type,
/// whose parameter is bounded by a trait of its crate, so it is held opaquely.
#[verifier::external_body]
pub struct SchemaValidator {
    validator: jsonschema::Validator,
}

/// A compiled JSON Schema, viewed as the JSON value it was compiled from.
pub struct CompiledSchema {
    inner: SchemaValidator,
    schema: Ghost<JsonOrigin>,
}

impl View for CompiledSchema {
    type V = JsonOrigin;

    closed spec fn view(&self) -> JsonOrigin {
        self.schema@
    }
}

/// Whether `serde_yaml::from_str` refuses `text` as YAML, with its message
/// (`None` when it reads a value).
pub uninterp spec fn yaml_refusal(text: Seq<char>) -> Option<Seq<char>>;

/// `serde_yaml::from_str` into a YAML value; the parser's message on failure.
#[verifier::external_body]
fn parse_yaml_value(text: &str) -> (r: Result<YamlValue, String>)
    ensures
        match yaml_refusal(text@) {
            None => r matches Ok(v) && v@ == text@,
            Some(m) => r matches Err(e) && e@ == m,
        },
{
    match serde_yaml::from_str::<serde_yaml::Value>(text) {
        Ok(value) => Ok(YamlValue { value, source: Ghost(text@) }),
        Err(e) => Err(e.to_string()),
    }
}

/// Whether `serde_json::to_value` refuses the YAML value read from `yaml`
/// (one JSON cannot hold), with its message.
pub uninterp spec fn json_conversion_refusal(yaml: Seq<char>) -> Option<Seq<char>>;

/// `serde_json::to_value` of a YAML value; the serializer's message on failure.
#[verifier::external_body]
fn json_of_yaml(v: YamlValue) -> (r: Result<JsonValue, String>)
    ensures
        match json_conversion_refusal(v@) {
            None => r matches Ok(j) && j@ == JsonOrigin::Yaml(v@),
            Some(m) => r matches Err(e) && e@ == m,
        },
{
    let source = v.source;
    match serde_json::to_value(v.value) {
        Ok(value) => Ok(JsonValue { value, origin: Ghost(JsonOrigin::Yaml(source@)) }),
        Err(e) => Err(e.to_string()),
    }
}

/// Whether `jsonschema::validator_for` refuses the JSON value `schema` as a
/// JSON Schema, with its message.
pub uninterp spec fn schema_refusal(schema: JsonOrigin) -> Option<Seq<char>>;

/// `jsonschema::validator_for`; the compiler's message when the schema is not
/// a valid JSON Schema.
#[verifier::external_body]
fn compile_validator(schema: &JsonValue) -> (r: Result<CompiledSchema, String>)
    ensures
        match schema_refusal(schema@) {
            None => r matches Ok(c) && c@ == schema@,
            Some(m) => r matches Err(e) && e@ == m,
        },
{
    match jsonschema::validator_for(&schema.value) {
        Ok(validator) => Ok(
            CompiledSchema {
                inner: SchemaValidator { validator },
                schema: Ghost(schema.origin@),
            },
        ),
        Err(e) => Err(e.to_string()),
    }
}

/// The violations `Validator::iter_errors` reports for the JSON value
/// `instance` against the schema compiled from `schema`, in order, each as
/// (instance path, message).
pub uninterp spec fn violations(schema: JsonOrigin, instance: JsonOrigin) -> Seq<
    (Seq<char>, Seq<char>),
>;

pub open spec fn pairs_view(ps: Seq<(String, String)>) -> Seq<(Seq<char>, Seq<char>)> {
    ps.map_values(|p: (String, String)| (p.0@, p.1@))
}

/// `Validator::iter_errors`, each violation as (instance path, message).
#[verifier::external_body]
pub(crate) fn schema_violations(schema: &CompiledSchema, instance: &JsonValue) -> (r: Vec<
    (String, String),
>)
    ensures
        pairs_view(r@) == violations(schema@, instance@),
{
    schema.inner.validator.iter_errors(&instance.value).map(
        |e| (e.instance_path().to_string(), e.to_string()),
    ).collect()
}

/// Parse a YAML text into a JSON value. A YAML syntax error becomes
/// [`Error::Yaml`], a value JSON cannot hold [`Error::Json`].
pub fn yaml_to_json(yaml: &str) -> (r: Result<JsonValue, Error>)
    ensures
        match yaml_refusal(yaml@) {
            Some(m) => r matches Err(Error::Yaml(e)) && e@ == m,
            None => match json_conversion_refusal(yaml@) {
                Some(m) => r matches Err(Error::Json(e)) && e@ == m,
                None => r matches Ok(j) && j@ == JsonOrigin::Yaml(yaml@),
            },
        },
{
    match parse_yaml_value(yaml) {
        Err(m) => Err(Error::Yaml(m)),
        Ok(v) => match json_of_yaml(v) {
            Err(m) => Err(Error::Json(m)),
            Ok(j) => Ok(j),
        },
    }
}

/// What compiling the schema text `content` gives: the schema's origin, or
/// the text of the error.
pub open spec fn schema_outcome(content: Seq<char>) -> Result<JsonOrigin, Seq<char>> {
    match yaml_refusal(content) {
        Some(m) => Err("YAML parse error: "@ + m),
        None => match json_conversion_refusal(content) {
            Some(m) => Err("JSON parse error: "@ + m),
            None => match schema_refusal(JsonOrigin::Yaml(content)) {
                Some(m) => Err("Config error: "@ + ("Invalid JSON Schema: "@ + m)),
                None => Ok(JsonOrigin::Yaml(content)),
            },
        },
    }
}

/// Compile the schema text (YAML or JSON).
pub fn compile_schema(content: &str) -> (r: Result<CompiledSchema, Error>)
    ensures
        match schema_outcome(content@) {
            Ok(o) => r matches Ok(c) && c@ == o,
            Err(t) => r matches Err(e) && error_text(e) == t,
        },
        match yaml_refusal(content@) {
            Some(m) => r matches Err(Error::Yaml(e)) && e@ == m,
            None => match json_conversion_refusal(content@) {
                Some(m) => r matches Err(Error::Json(e)) && e@ == m,
                None => schema_refusal(JsonOrigin::Yaml(content@)) matches Some(m) ==> (
                r matches Err(Error::Config(e)) && e@ == "Invalid JSON Schema: "@ + m),
            },
        },
{
    let schema_json = match yaml_to_json(content) {
        Ok(j) => j,
        Err(e) => return Err(e),
    };
    match compile_validator(&schema_json) {
        Ok(v) => Ok(v),
        Err(m) => {
            let mut s = String::new();
            push_str(&mut s, "Invalid JSON Schema: ");
            push_str(&mut s, m.as_str());
            assert(s@ == "Invalid JSON Schema: "@ + m@);
            Err(Error::Config(s))
        },
    }
}

// ── Front matter ──────────────────────────────────────────────────────────────

/// The YAML block between the first pair of `---` delimiters: `text` must
/// begin with `---`; the block runs to the next `---` or to the end.
pub open spec fn front_block(text: Seq<char>) -> Option<Seq<char>> {
    if starts_with(text, "---"@) {
        Some(
            match find_from(text, "---"@, 3) {
                Some(j) => text.subrange(3, j),
                None => text.skip(3),
            },
        )
    } else {
        None
    }
}

/// [`front_block`] of `text`.
pub fn front_block_of(text: &str) -> (r: Option<String>)
    ensures
        match r {
            Some(b) => front_block(text@) == Some(b@),
            None => front_block(text@) is None,
        },
{
    proof {
        reveal_strlit("---");
    }
    if !starts_with_str(text, "---") {
        return None;
    }
    let v = chars_of(text);
    let sep = chars_of("---");
    match find_from_exec(&v, &sep, 3) {
        Some(j) => {
            proof {
                crate::text::lemma_find_from_facts(v@, sep@, 3);
            }
            Some(string_of(&v, 3, j))
        },
        None => {
            assert(v@.subrange(3, v@.len() as int) == v@.skip(3));
            Some(string_of(&v, 3, v.len()))
        },
    }
}

/// The front-matter of the document at `path`, or why there is none.
pub fn extract_front_matter(text: &str, path: &str) -> (r: Result<String, Error>)
    ensures
        match front_block(text@) {
            Some(b) => r matches Ok(s) && s@ == b,
            None => r matches Err(Error::Parse(m)) && m@ == path@
                + ": no YAML front-matter found"@,
        },
{
    match front_block_of(text) {
        Some(b) => Ok(b),
        None => {
            let mut m = String::new();
            push_str(&mut m, path);
            push_str(&mut m, ": no YAML front-matter found");
            Err(Error::Parse(m))
        },
    }
}

// ── Per-document check ────────────────────────────────────────────────────────

/// A violation of the document at `path`, as an error record.
pub open spec fn doc_violation(path: Seq<char>, v: (Seq<char>, Seq<char>)) -> (
    Seq<char>,
    Seq<char>,
    Seq<char>,
) {
    (path, v.0, v.1)
}

/// What checking the document at `path` with text `content` against the
/// schema compiled from `schema` gives: its violations, or its error's text
/// (no front-matter, front-matter that is not YAML, or YAML that JSON
/// cannot hold).
pub open spec fn doc_check(schema: JsonOrigin, path: Seq<char>, content: Seq<char>) -> Result<
    Seq<(Seq<char>, Seq<char>, Seq<char>)>,
    Seq<char>,
> {
    match front_block(content) {
        None => Err("Parse error: "@ + (path + ": no YAML front-matter found"@)),
        Some(b) => match yaml_refusal(b) {
            Some(m) => Err("YAML parse error: "@ + m),
            None => match json_conversion_refusal(b) {
                Some(m) => Err("JSON parse error: "@ + m),
                None => Ok(
                    violations(schema, JsonOrigin::Yaml(b)).map_values(
                        |v: (Seq<char>, Seq<char>)| doc_violation(path, v),
                    ),
                ),
            },
        },
    }
}

/// The schema violations of one document, each tagged with its path; an
/// error when its front-matter is missing or not YAML.
pub fn validate_doc(doc: &StoredDoc, validator: &CompiledSchema) -> (r: Result<
    Vec<ValidationError>,
    Error,
>)
    ensures
        check_view(r) == doc_check(validator@, doc.path@, doc.content@),
        front_block(doc.content@) is None ==> (r matches Err(Error::Parse(m)) && m@ == doc.path@
            + ": no YAML front-matter found"@),
        front_block(doc.content@) matches Some(b) ==> match yaml_refusal(b) {
            Some(m) => r matches Err(Error::Yaml(e)) && e@ == m,
            None => match json_conversion_refusal(b) {
                Some(m) => r matches Err(Error::Json(e)) && e@ == m,
                None => r is Ok,
            },
        },
{
    let yaml_text = match extract_front_matter(doc.content.as_str(), doc.path.as_str()) {
        Ok(t) => t,
        Err(e) => return Err(e),
    };
    let instance = match yaml_to_json(yaml_text.as_str()) {
        Ok(j) => j,
        Err(e) => return Err(e),
    };
    let found = schema_violations(validator, &instance);
    let ghost path = doc.path@;
    let mut errors: Vec<ValidationError> = Vec::new();
    let mut i: usize = 0;
    while i < found.len()
        invariant
            i <= found.len(),
            path == doc.path@,
            ves_view(errors@) == pairs_view(found@).take(i as int).map_values(
                |v: (Seq<char>, Seq<char>)| doc_violation(path, v),
            ),
        decreases found.len() - i,
    {
        let (field, message) = (found[i].0.clone(), found[i].1.clone());
        let ghost before = ves_view(errors@);
        errors.push(ValidationError { path: doc.path.clone(), field, message });
        proof {
            assert(ves_view(errors@) == before.push(ve_view(errors@[i as int])));
            assert(pairs_view(found@).take(i + 1) == pairs_view(found@).take(i as int).push(
                pairs_view(found@)[i as int],
            ));
        }
        i += 1;
    }
    assert(pairs_view(found@).take(found@.len() as int) == pairs_view(found@));
    Ok(errors)
}

/// Each document's path beside its check against the schema compiled from
/// `schema`.
pub open spec fn docs_checked(schema: JsonOrigin, docs: Seq<StoredDoc>) -> Seq<
    (Seq<char>, Result<Seq<(Seq<char>, Seq<char>, Seq<char>)>, Seq<char>>),
> {
    docs.map_values(|d: StoredDoc| (d.path@, doc_check(schema, d.path@, d.content@)))
}

// ── Reporting ─────────────────────────────────────────────────────────────────

pub open spec fn ve_view(e: ValidationError) -> (Seq<char>, Seq<char>, Seq<char>) {
    (e.path@, e.field@, e.message@)
}

pub open spec fn ves_view(es: Seq<ValidationError>) -> Seq<(Seq<char>, Seq<char>, Seq<char>)> {
    es.map_values(|e: ValidationError| ve_view(e))
}

pub open spec fn ve_text(v: (Seq<char>, Seq<char>, Seq<char>)) -> Seq<char> {
    validation_error_text(v.0, v.1, v.2)
}

/// A document's check as plain values: its violations, or its error's text.
pub open spec fn check_view(r: Result<Vec<ValidationError>, Error>) -> Result<
    Seq<(Seq<char>, Seq<char>, Seq<char>)>,
    Seq<char>,
> {
    match r {
        Ok(errs) => Ok(ves_view(errs@)),
        Err(e) => Err(error_text(e)),
    }
}

/// The lines one document's check adds and the violations it records.
pub open spec fn doc_step(
    path: Seq<char>,
    r: Result<Seq<(Seq<char>, Seq<char>, Seq<char>)>, Seq<char>>,
    errors_only: bool,
) -> (Seq<(bool, Seq<char>)>, Seq<(Seq<char>, Seq<char>, Seq<char>)>) {
    match r {
        Ok(errs) => if errs.len() == 0 {
            (if errors_only {
                seq![]
            } else {
                seq![(true, "ok  "@ + path)]
            }, seq![])
        } else {
            (if errors_only {
                seq![(true, path)]
            } else {
                errs.map_values(|e: (Seq<char>, Seq<char>, Seq<char>)| (false, ve_text(e)))
            }, errs)
        },
        Err(m) => {
            let ve = (path, "parse"@, m);
            (if errors_only {
                seq![(true, path)]
            } else {
                seq![(false, ve_text(ve))]
            }, seq![ve])
        },
    }
}

pub open spec fn checked_view(c: Seq<(String, Result<Vec<ValidationError>, Error>)>) -> Seq<
    (Seq<char>, Result<Seq<(Seq<char>, Seq<char>, Seq<char>)>, Seq<char>>),
> {
    c.map_values(|p: (String, Result<Vec<ValidationError>, Error>)| (p.0@, check_view(p.1)))
}

/// The lines and violations after the first `k` documents, and whether the
/// walk stopped at a failing document.
pub open spec fn walk(
    c: Seq<(Seq<char>, Result<Seq<(Seq<char>, Seq<char>, Seq<char>)>, Seq<char>>)>,
    errors_only: bool,
    cont: bool,
    k: int,
) -> (Seq<(bool, Seq<char>)>, Seq<(Seq<char>, Seq<char>, Seq<char>)>, bool)
    decreases k,
{
    if k <= 0 {
        (seq![], seq![], false)
    } else {
        let prev = walk(c, errors_only, cont, k - 1);
        if prev.2 {
            prev
        } else {
            let st = doc_step(c[k - 1].0, c[k - 1].1, errors_only);
            (prev.0 + st.0, prev.1 + st.1, st.1.len() > 0 && !cont)
        }
    }
}

/// What `validate` prints and returns for the checked documents of `target`.
pub open spec fn validation_report(
    c: Seq<(Seq<char>, Result<Seq<(Seq<char>, Seq<char>, Seq<char>)>, Seq<char>>)>,
    errors_only: bool,
    continue_on_error: bool,
    target: Seq<char>,
) -> (Seq<(bool, Seq<char>)>, Result<(), Seq<(Seq<char>, Seq<char>, Seq<char>)>>, bool) {
    if c.len() == 0 {
        (seq![(false, "No .md / .yaml files found in "@ + target + "."@)], Ok(()), true)
    } else {
        let w = walk(c, errors_only, continue_on_error || errors_only, c.len() as int);
        if w.2 {
            (w.0, Err(w.1), false)
        } else if w.1.len() == 0 {
            (w.0 + seq![(true, "\nAll "@ + decimal(c.len()) + " file(s) are valid."@)], Ok(()), false)
        } else {
            (
                w.0 + seq![
                    (
                        false,
                        "\n"@ + decimal(w.1.len()) + " error(s) found in "@ + decimal(c.len())
                            + " file(s)."@,
                    ),
                ],
                Err(w.1),
                false,
            )
        }
    }
}

/// The outcome of `validate`: the lines to show and the result.
#[derive(Debug)]
pub struct ValidateReport {
    pub lines: Vec<Line>,
    pub result: Result<(), Error>,
}

/// The path `validate` checks: the one given, else the transaction directory.
pub fn validate_target(args: &ValidateArgs, config: &Config) -> (t: String)
    ensures
        t@ == match args.path {
            Some(p) => p@,
            None => config.transaction_dir@,
        },
{
    match &args.path {
        Some(p) => p.clone(),
        None => config.transaction_dir.clone(),
    }
}

/// The error for a target that is neither a file nor a directory.
pub fn missing_target(target: &str) -> (e: Error)
    ensures
        e matches Error::Config(m) && m@ == "path does not exist: "@ + target@,
{
    let mut m = String::new();
    push_str(&mut m, "path does not exist: ");
    push_str(&mut m, target);
    Error::Config(m)
}

fn status_of_ve(e: &ValidationError) -> (l: Line)
    ensures
        l == Line::Status(l->Status_0) && l.text() == ve_text(ve_view(*e)),
{
    Line::Status(e.describe())
}

/// One status line per violation.
fn status_lines(errs: &Vec<ValidationError>) -> (r: Vec<Line>)
    ensures
        line_views(r@) == ves_view(errs@).map_values(
            |e: (Seq<char>, Seq<char>, Seq<char>)| (false, ve_text(e)),
        ),
{
    let mut r: Vec<Line> = Vec::new();
    let mut j: usize = 0;
    while j < errs.len()
        invariant
            j <= errs@.len(),
            line_views(r@) == ves_view(errs@).take(j as int).map_values(
                |e: (Seq<char>, Seq<char>, Seq<char>)| (false, ve_text(e)),
            ),
        decreases errs.len() - j,
    {
        let l = status_of_ve(&errs[j]);
        let ghost before = r@;
        r.push(l);
        assert(line_views(r@) == line_views(before).push((false, ve_text(ve_view(errs@[j as int])))));
        assert(ves_view(errs@).take(j + 1) == ves_view(errs@).take(j as int).push(
            ve_view(errs@[j as int]),
        ));
        j += 1;
    }
    assert(ves_view(errs@).take(errs@.len() as int) == ves_view(errs@));
    r
}

/// Once the walk stops, later documents change nothing.
proof fn lemma_walk_stays(
    c: Seq<(Seq<char>, Result<Seq<(Seq<char>, Seq<char>, Seq<char>)>, Seq<char>>)>,
    errors_only: bool,
    cont: bool,
    k: int,
    m: int,
)
    requires
        0 <= k <= m,
        walk(c, errors_only, cont, k).2,
    ensures
        walk(c, errors_only, cont, m) == walk(c, errors_only, cont, k),
    decreases m - k,
{
    if m > k {
        lemma_walk_stays(c, errors_only, cont, k, m - 1);
    }
}

/// Turn the per-document checks (path, violations or error) into what
/// `validate` shows and returns.
pub fn report_validation(
    args: &ValidateArgs,
    target: &str,
    checked: Vec<(String, Result<Vec<ValidationError>, Error>)>,
) -> (r: ValidateReport)
    ensures
        ({
            let rep = validation_report(
                checked_view(checked@),
                args.errors_only,
                args.continue_on_error,
                target@,
            );
            &&& line_views(r.lines@) == rep.0
            &&& rep.2 ==> (r.result matches Err(Error::Config(m)) && m@ == "no files to validate"@)
            &&& !rep.2 ==> match rep.1 {
                Ok(_) => r.result is Ok,
                Err(es) => r.result matches Err(Error::Validation(v)) && ves_view(v@) == es,
            }
        }),
{
    let ghost cv = checked_view(checked@);
    let n = checked.len();
    if n == 0 {
        let mut m = String::new();
        push_str(&mut m, "No .md / .yaml files found in ");
        push_str(&mut m, target);
        push_str(&mut m, ".");
        let mut lines: Vec<Line> = Vec::new();
        lines.push(Line::Status(m));
        assert(line_views(lines@) == seq![(false, m@)]);
        return ValidateReport { lines, result: Err(Error::Config("no files to validate".to_string())) };
    }
    let errors_only = args.errors_only;
    let cont = args.continue_on_error || errors_only;
    let mut lines: Vec<Line> = Vec::new();
    let mut all: Vec<ValidationError> = Vec::new();
    let mut pending = checked;
    let ghost orig = pending@;
    let mut i: usize = 0;
    // Consume the checks front to back; `rest` holds the unconsumed ones.
    let mut rest: Vec<(String, Result<Vec<ValidationError>, Error>)> = Vec::new();
    while pending.len() > 0
        invariant
            pending@.len() + rest@.len() == orig.len(),
            forall|k: int| 0 <= k < rest@.len() ==> #[trigger] rest@[k] == orig[orig.len() - 1 - k],
            forall|k: int| 0 <= k < pending@.len() ==> #[trigger] pending@[k] == orig[k],
        decreases pending.len(),
    {
        let last = pending.pop().unwrap();
        rest.push(last);
    }
    assert(rest@.len() == n);
    while i < n
        invariant
            i <= n == orig.len() == rest@.len() + i,
            orig == checked@,
            cv == checked_view(orig),
            errors_only == args.errors_only,
            cont == (args.continue_on_error || args.errors_only),
            forall|k: int| 0 <= k < rest@.len() ==> #[trigger] rest@[k] == orig[orig.len() - 1 - k],
            ({
                let w = walk(cv, errors_only, cont, i as int);
                &&& line_views(lines@) == w.0
                &&& ves_view(all@) == w.1
                &&& !w.2
            }),
        decreases n - i,
    {
        let (path, res) = rest.pop().unwrap();
        assert(cv[i as int] == (path@, check_view(res)));
        let ghost before_lines = lines@;
        let ghost before_all = all@;
        let ghost st = doc_step(path@, check_view(res), errors_only);
        match res {
            Ok(errs) => {
                if errs.len() == 0 {
                    if !errors_only {
                        let mut m = String::new();
                        push_str(&mut m, "ok  ");
                        push_str(&mut m, path.as_str());
                        lines.push(Line::Out(m));
                    }
                    assert(line_views(lines@) == line_views(before_lines) + st.0);
                    assert(ves_view(all@) == ves_view(before_all) + st.1);
                } else {
                    if errors_only {
                        lines.push(Line::Out(path.clone()));
                        assert(line_views(lines@) == line_views(before_lines) + st.0);
                    } else {
                        let mut more = status_lines(&errs);
                        lines.append(&mut more);
                        assert(line_views(lines@) == line_views(before_lines) + st.0);
                    }
                    let mut errs = errs;
                    let ghost ev = ves_view(errs@);
                    all.append(&mut errs);
                    assert(ves_view(all@) == ves_view(before_all) + ev);
                    if !cont {
                        proof {
                            assert(walk(cv, errors_only, cont, i + 1) == (
                                line_views(lines@),
                                ves_view(all@),
                                true,
                            ));
                            lemma_walk_stays(cv, errors_only, cont, i + 1, n as int);
                        }
                        return ValidateReport { lines, result: Err(Error::Validation(all)) };
                    }
                }
            },
            Err(e) => {
                let ve = ValidationError {
                    path: path.clone(),
                    field: "parse".to_string(),
                    message: e.message(),
                };
                if errors_only {
                    lines.push(Line::Out(path.clone()));
                } else {
                    lines.push(status_of_ve(&ve));
                }
                assert(line_views(lines@) == line_views(before_lines) + st.0);
                all.push(ve);
                assert(ves_view(all@) == ves_view(before_all) + st.1);
                if !cont {
                    proof {
                        assert(walk(cv, errors_only, cont, i + 1) == (
                            line_views(lines@),
                            ves_view(all@),
                            true,
                        ));
                        lemma_walk_stays(cv, errors_only, cont, i + 1, n as int);
                    }
                    return ValidateReport { lines, result: Err(Error::Validation(all)) };
                }
            },
        }
        i += 1;
    }
    if all.len() == 0 {
        let mut m = String::new();
        push_str(&mut m, "\nAll ");
        push_decimal(&mut m, n as u64);
        push_str(&mut m, " file(s) are valid.");
        lines.push(Line::Out(m));
        ValidateReport { lines, result: Ok(()) }
    } else {
        let mut m = String::new();
        push_str(&mut m, "\n");
        push_decimal(&mut m, all.len() as u64);
        push_str(&mut m, " error(s) found in ");
        push_decimal(&mut m, n as u64);
        push_str(&mut m, " file(s).");
        lines.push(Line::Status(m));
        ValidateReport { lines, result: Err(Error::Validation(all)) }
    }
}

/// Check every document against the compiled schema and report, as
/// `validate` does once its target's files are read.
pub fn check_docs(
    args: &ValidateArgs,
    target: &str,
    docs: &Vec<StoredDoc>,
    validator: &CompiledSchema,
) -> (r: ValidateReport)
    ensures
        ({
            let rep = validation_report(
                docs_checked(validator@, docs@),
                args.errors_only,
                args.continue_on_error,
                target@,
            );
            &&& line_views(r.lines@) == rep.0
            &&& rep.2 ==> (r.result matches Err(Error::Config(m)) && m@ == "no files to validate"@)
            &&& !rep.2 ==> match rep.1 {
                Ok(_) => r.result is Ok,
                Err(es) => r.result matches Err(Error::Validation(v)) && ves_view(v@) == es,
            }
        }),
{
    let ghost want = docs_checked(validator@, docs@);
    let mut checked: Vec<(String, Result<Vec<ValidationError>, Error>)> = Vec::new();
    let mut i: usize = 0;
    while i < docs.len()
        invariant
            i <= docs@.len(),
            want == docs_checked(validator@, docs@),
            checked_view(checked@) == want.take(i as int),
        decreases docs.len() - i,
    {
        let r = validate_doc(&docs[i], validator);
        let ghost before = checked_view(checked@);
        checked.push((docs[i].path.clone(), r));
        proof {
            assert(checked_view(checked@) == before.push(checked_view(checked@).last()));
            assert(want.take(i + 1) == want.take(i as int).push(want[i as int]));
        }
        i += 1;
    }
    assert(want.take(docs@.len() as int) == want);
    report_validation(args, target, checked)
}

} // verus!
