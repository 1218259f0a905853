//! `add`: a new entry from the configured schema, typed into the form or
//! given as a JSON object; named from its date and name, rendered as
//! Markdown front-matter. The whole command is [`AddRun`], a machine the
//! caller drives by performing each request it makes.
use vstd::prelude::*;

use crate::commands::validate::{
    compile_schema, has_member, is_object, json_is_object, json_member, json_refusal, pairs_view,
    parse_json_value, schema_outcome, schema_violations, ve_text, ve_view, ves_view, violations,
    fields_view, fields_yaml, json_str, json_text, yaml_of_fields, JsonOrigin, JsonValue,
};
use crate::error::{error_text, Error, ValidationError};
use crate::invoice::mapper::{compact_date, compacted, first_free, slug_of, slugify, unique_name};
use crate::ports::{line_views, Line, Style};
use crate::schema_form::fields::{painted, styled_view, Styled};
use crate::schema_form::scalar::FieldValue;
use crate::text::{push_str, str_eq, trim_end, trim_str, views};

verus! {

/// What `add` was asked to do.
#[derive(Debug)]
pub struct AddArgs {
    /// The entry as a JSON object, or `-` to read it from standard input.
    pub json: Option<String>,
    /// Print the entry; do not write it.
    pub dry_run: bool,
    /// Skip git sync after writing.
    pub no_sync: bool,
}

/// The result of reading an entry from JSON: the lines to show (one per
/// schema violation) and the fields in schema order.
pub struct JsonEntry {
    pub lines: Vec<Line>,
    pub result: Result<Vec<(String, JsonValue)>, Error>,
}

pub open spec fn entry_keys(fields: Seq<(String, JsonValue)>) -> Seq<Seq<char>> {
    fields.map_values(|f: (String, JsonValue)| f.0@)
}

/// The schema properties `keys` that the JSON value `o` has as members, in
/// schema order, each beside its member.
pub open spec fn present_members(o: JsonOrigin, keys: Seq<Seq<char>>) -> Seq<
    (Seq<char>, JsonOrigin),
>
    decreases keys.len(),
{
    if keys.len() == 0 {
        seq![]
    } else {
        let rest = present_members(o, keys.drop_last());
        if has_member(o, keys.last()) {
            rest.push((keys.last(), JsonOrigin::Member(Box::new(o), keys.last())))
        } else {
            rest
        }
    }
}

/// A violation of the JSON entry, as an error record tagged `<json>`.
pub open spec fn json_violation(v: (Seq<char>, Seq<char>)) -> (Seq<char>, Seq<char>, Seq<char>) {
    ("<json>"@, v.0, v.1)
}

/// What reading an entry from the JSON text `payload`, against the schema
/// text `schema` whose properties are `keys`, shows (`lines`) and gives
/// (`result`): the parser's message when the text is not JSON; a parse
/// error when it is not an object; the schema's own error; one line and one
/// `<json>` record per schema violation; else the members the object has,
/// in schema order.
pub open spec fn entry_fits(
    payload: Seq<char>,
    keys: Seq<Seq<char>>,
    schema: Seq<char>,
    lines: Seq<Line>,
    result: Result<Vec<(String, JsonValue)>, Error>,
) -> bool {
    let o = JsonOrigin::Text(payload);
    match json_refusal(payload) {
        Some(m) => lines.len() == 0 && (result matches Err(Error::Json(e)) && e@ == m),
        None => if !is_object(o) {
            lines.len() == 0 && (result matches Err(Error::Parse(e)) && e@
                == "expected a JSON object of field values"@)
        } else {
            match schema_outcome(schema) {
                Err(t) => lines.len() == 0 && (result matches Err(e) && error_text(e) == t),
                Ok(s) => {
                    let vs = violations(s, o);
                    if vs.len() > 0 {
                        &&& result matches Err(Error::Validation(errs))
                        &&& ves_view(errs@) == vs.map_values(
                            |v: (Seq<char>, Seq<char>)| json_violation(v),
                        )
                        &&& line_views(lines) == ves_view(errs@).map_values(
                            |e: (Seq<char>, Seq<char>, Seq<char>)| (false, ve_text(e)),
                        )
                    } else {
                        &&& lines.len() == 0
                        &&& result matches Ok(fields)
                        &&& fields_view(fields@) == present_members(o, keys)
                    }
                },
            }
        },
    }
}

/// `add` refuses a JSON object that breaks the schema: reading it ends in a
/// validation error with one record per violation, each shown, and the
/// entry has no fields to render or write.
pub proof fn lemma_invalid_entry_refused(
    payload: Seq<char>,
    keys: Seq<Seq<char>>,
    schema: Seq<char>,
    lines: Seq<Line>,
    result: Result<Vec<(String, JsonValue)>, Error>,
)
    requires
        entry_fits(payload, keys, schema, lines, result),
        json_refusal(payload) is None,
        is_object(JsonOrigin::Text(payload)),
        schema_outcome(schema) is Ok,
        violations(schema_outcome(schema)->Ok_0, JsonOrigin::Text(payload)).len() > 0,
    ensures
        result matches Err(Error::Validation(errs)) && errs@.len() == violations(
            schema_outcome(schema)->Ok_0,
            JsonOrigin::Text(payload),
        ).len() && lines.len() == errs@.len(),
        json_outcome(payload, keys, schema) is None,
{
    match result {
        Err(Error::Validation(errs)) => {
            assert(ves_view(errs@).len() == errs@.len());
            assert(line_views(lines).len() == lines.len());
        },
        _ => {},
    }
}

/// Build the entry from the JSON text `payload`, checked against the schema
/// (`schema_content`, whose properties are `keys`, in order). Violations are
/// each shown and end in [`Error::Validation`], tagged `<json>`; the fields
/// come out in schema order.
pub fn build_from_json(payload: &str, keys: &Vec<String>, schema_content: &str) -> (r: JsonEntry)
    ensures
        entry_fits(payload@, views(keys@), schema_content@, r.lines@, r.result),
{
    let instance = match parse_json_value(payload) {
        Ok(v) => v,
        Err(m) => return JsonEntry { lines: Vec::new(), result: Err(Error::Json(m)) },
    };
    if !json_is_object(&instance) {
        return JsonEntry {
            lines: Vec::new(),
            result: Err(Error::Parse("expected a JSON object of field values".to_string())),
        };
    }
    let validator = match compile_schema(schema_content) {
        Ok(v) => v,
        Err(e) => return JsonEntry { lines: Vec::new(), result: Err(e) },
    };
    let found = schema_violations(&validator, &instance);
    if found.len() > 0 {
        let mut errs: Vec<ValidationError> = Vec::new();
        let mut lines: Vec<Line> = Vec::new();
        let mut i: usize = 0;
        while i < found.len()
            invariant
                i <= found@.len(),
                ves_view(errs@) == pairs_view(found@).take(i as int).map_values(
                    |v: (Seq<char>, Seq<char>)| json_violation(v),
                ),
                line_views(lines@) == ves_view(errs@).map_values(
                    |e: (Seq<char>, Seq<char>, Seq<char>)| (false, ve_text(e)),
                ),
            decreases found.len() - i,
        {
            let e = ValidationError {
                path: "<json>".to_string(),
                field: found[i].0.clone(),
                message: found[i].1.clone(),
            };
            let ghost before_lines = line_views(lines@);
            let ghost before_errs = ves_view(errs@);
            lines.push(Line::Status(e.describe()));
            errs.push(e);
            proof {
                reveal_strlit("<json>");
                assert(ves_view(errs@) == before_errs.push(ve_view(errs@[i as int])));
                assert(pairs_view(found@).take(i + 1) == pairs_view(found@).take(i as int).push(
                    pairs_view(found@)[i as int],
                ));
                assert(line_views(lines@) == before_lines.push((false, ve_text(ve_view(errs@[i as int])))));
                assert(ves_view(errs@).map_values(
                    |e: (Seq<char>, Seq<char>, Seq<char>)| (false, ve_text(e)),
                ) == before_errs.map_values(
                    |e: (Seq<char>, Seq<char>, Seq<char>)| (false, ve_text(e)),
                ).push((false, ve_text(ve_view(errs@[i as int])))));
            }
            i += 1;
        }
        assert(pairs_view(found@).take(found@.len() as int) == pairs_view(found@));
        return JsonEntry { lines, result: Err(Error::Validation(errs)) };
    }
    let mut fields: Vec<(String, JsonValue)> = Vec::new();
    let ghost kv = views(keys@);
    let mut j: usize = 0;
    while j < keys.len()
        invariant
            j <= keys@.len(),
            kv == views(keys@),
            instance@ == JsonOrigin::Text(payload@),
            fields_view(fields@) == present_members(instance@, kv.take(j as int)),
        decreases keys.len() - j,
    {
        proof {
            assert(kv.take(j + 1).drop_last() == kv.take(j as int));
            assert(kv.take(j + 1).last() == keys@[j as int]@);
        }
        match json_member(&instance, keys[j].as_str()) {
            Some(v) => {
                let ghost before = fields_view(fields@);
                fields.push((keys[j].clone(), v));
                assert(fields_view(fields@) == before.push(fields_view(fields@).last()));
            },
            None => {},
        }
        j += 1;
    }
    assert(kv.take(keys@.len() as int) == kv);
    JsonEntry { lines: Vec::new(), result: Ok(fields) }
}

// ── Naming and rendering ──────────────────────────────────────────────────────

/// The file name stem for an entry: its compacted date (`unknown` when it
/// has none) and the slug of its name (`item` when it has none).
pub open spec fn entry_base_of(date: Option<Seq<char>>, name: Option<Seq<char>>) -> Seq<char> {
    compacted(
        match date {
            Some(d) => d,
            None => "unknown"@,
        },
    ) + "-"@ + slug_of(
        match name {
            Some(n) => n,
            None => "item"@,
        },
    )
}

pub fn entry_base(date: Option<&str>, name: Option<&str>) -> (r: String)
    ensures
        r@ == entry_base_of(
            match date {
                Some(d) => Some(d@),
                None => None,
            },
            match name {
                Some(n) => Some(n@),
                None => None,
            },
        ),
{
    let d = match date {
        Some(d) => d,
        None => "unknown",
    };
    let n = match name {
        Some(n) => n,
        None => "item",
    };
    let mut r = compact_date(d);
    push_str(&mut r, "-");
    let s = slugify(n);
    push_str(&mut r, s.as_str());
    r
}

/// The first text among `entries` (a field's name beside its value, when
/// that value is text) filed under `key`.
pub open spec fn first_text(entries: Seq<(Seq<char>, Option<Seq<char>>)>, key: Seq<char>) -> Option<
    Seq<char>,
>
    decreases entries.len(),
{
    if entries.len() == 0 {
        None
    } else if entries[0].0 == key && entries[0].1 is Some {
        entries[0].1
    } else {
        first_text(entries.drop_first(), key)
    }
}

pub open spec fn opt_view(o: Option<String>) -> Option<Seq<char>> {
    match o {
        Some(s) => Some(s@),
        None => None,
    }
}

pub open spec fn text_of_value(v: FieldValue) -> Option<Seq<char>> {
    match v {
        FieldValue::Text(t) => Some(t@),
        _ => None,
    }
}

/// The form's answers as names beside their text values.
pub open spec fn answer_texts(data: Seq<(String, FieldValue)>) -> Seq<(Seq<char>, Option<Seq<char>>)> {
    data.map_values(|f: (String, FieldValue)| (f.0@, text_of_value(f.1)))
}

/// The text value of the first field named `key`.
pub fn text_field(data: &Vec<(String, FieldValue)>, key: &str) -> (r: Option<String>)
    ensures
        opt_view(r) == first_text(answer_texts(data@), key@),
{
    let ghost all = answer_texts(data@);
    let mut i: usize = 0;
    assert(all.skip(0) == all);
    while i < data.len()
        invariant
            i <= data@.len(),
            all == answer_texts(data@),
            first_text(all, key@) == first_text(all.skip(i as int), key@),
        decreases data.len() - i,
    {
        proof {
            assert(all.skip(i as int).drop_first() == all.skip(i + 1));
            assert(all.skip(i as int)[0] == (data@[i as int].0@, text_of_value(data@[i as int].1)));
        }
        if str_eq(data[i].0.as_str(), key) {
            match &data[i].1 {
                FieldValue::Text(t) => {
                    return Some(t.clone());
                },
                _ => {},
            }
        }
        i += 1;
    }
    proof {
        assert(all.skip(i as int).len() == 0);
    }
    None
}

/// Named JSON values as names beside their texts.
pub open spec fn named_texts(fields: Seq<(Seq<char>, JsonOrigin)>) -> Seq<
    (Seq<char>, Option<Seq<char>>),
> {
    fields.map_values(|f: (Seq<char>, JsonOrigin)| (f.0, json_text(f.1)))
}

/// The text of the first JSON field named `key` whose value is text.
fn json_field_text(fields: &Vec<(String, JsonValue)>, key: &str) -> (r: Option<String>)
    ensures
        opt_view(r) == first_text(named_texts(fields_view(fields@)), key@),
{
    let ghost all = named_texts(fields_view(fields@));
    assert(all.skip(0) == all);
    let mut i: usize = 0;
    while i < fields.len()
        invariant
            i <= fields@.len(),
            all == named_texts(fields_view(fields@)),
            first_text(all, key@) == first_text(all.skip(i as int), key@),
        decreases fields.len() - i,
    {
        proof {
            assert(all.skip(i as int).drop_first() == all.skip(i + 1));
            assert(all.skip(i as int)[0] == all[i as int]);
        }
        if str_eq(fields[i].0.as_str(), key) {
            match json_str(&fields[i].1) {
                Some(t) => {
                    return Some(t);
                },
                None => {},
            }
        }
        i += 1;
    }
    proof {
        assert(all.skip(i as int).len() == 0);
    }
    None
}

/// The file name stem from an entry's date and name texts.
fn base_from(date: &Option<String>, name: &Option<String>) -> (r: String)
    ensures
        r@ == entry_base_of(opt_view(*date), opt_view(*name)),
{
    let d: Option<&str> = match date {
        Some(d) => Some(d.as_str()),
        None => None,
    };
    let n: Option<&str> = match name {
        Some(n) => Some(n.as_str()),
        None => None,
    };
    entry_base(d, n)
}

/// The Markdown file for an entry whose YAML text is `yaml`.
pub fn render_markdown(yaml: &str) -> (r: String)
    ensures
        r@ == "---\n"@ + yaml@ + "---\n"@,
{
    let mut r = String::new();
    push_str(&mut r, "---\n");
    push_str(&mut r, yaml);
    push_str(&mut r, "---\n");
    r
}

/// What a dry run shows: the file name it would use, then the Markdown.
pub fn dry_run_lines(base: &str, markdown: &str) -> (r: Vec<Line>)
    ensures
        line_views(r@) == seq![
            (false, "\n# filename: "@ + base@ + ".md"@),
            (true, trim_end(markdown@)),
        ],
{
    let mut head = String::new();
    push_str(&mut head, "\n# filename: ");
    push_str(&mut head, base);
    push_str(&mut head, ".md");
    let mut r: Vec<Line> = Vec::new();
    r.push(Line::Status(head));
    let body = trim_end_str(markdown);
    r.push(Line::Out(body));
    r
}

fn trim_end_str(s: &str) -> (r: String)
    ensures
        r@ == trim_end(s@),
{
    let v = crate::text::chars_of(s);
    let mut hi = v.len();
    assert(v@.take(hi as int) == v@);
    while hi > 0 && crate::text::is_whitespace(v[hi - 1])
        invariant
            hi <= v@.len(),
            v@ == s@,
            trim_end(s@) == trim_end(v@.take(hi as int)),
        decreases hi,
    {
        assert(v@.take(hi as int).drop_last() == v@.take(hi - 1));
        hi -= 1;
    }
    proof {
        if hi > 0 {
            assert(v@.take(hi as int).last() == v@[hi - 1]);
        }
    }
    crate::text::string_of(&v, 0, hi)
}

/// The confirmation after writing the entry to `path`.
pub fn saved_line(path: &str) -> (s: Styled)
    ensures
        styled_view(s) == seq![(Some(Style::Success), "Saved: "@ + path@)],
{
    let mut m = String::new();
    push_str(&mut m, "Saved: ");
    push_str(&mut m, path);
    painted(Style::Success, m)
}

/// The warning when the sync after `add` fails.
pub fn sync_warning(e: &Error) -> (l: Line)
    ensures
        !l.is_out() && l.text() == "Warning: sync failed: "@ + error_text(*e),
{
    let mut m = String::new();
    push_str(&mut m, "Warning: sync failed: ");
    let t = e.message();
    push_str(&mut m, t.as_str());
    Line::Status(m)
}

// ── The whole command ─────────────────────────────────────────────────────────

#[derive(Clone, Copy, Debug, PartialEq, Eq, Structural)]
pub enum AddPhase {
    Start,
    AwaitSchema,
    AwaitPayload,
    AwaitForm,
    AwaitFormYaml,
    AwaitNames,
    AwaitWrite,
    AwaitSync,
    Finished,
}

/// The answer to the last request.
pub enum AddEvent {
    Begin,
    /// The schema's text and its property names, in order.
    Schema(Result<(String, Vec<String>), Error>),
    /// The JSON text read from standard input.
    Payload(Result<String, Error>),
    /// What the form collected.
    Answers(Result<Vec<(String, FieldValue)>, Error>),
    /// The entry's fields as YAML text.
    Yaml(Result<String, Error>),
    /// The file names already in the transactions directory.
    Names(Vec<String>),
    /// Where the new file was written.
    Written(Result<String, Error>),
    Synced(Result<(), Error>),
}

/// The outside work `add` needs next.
pub enum AddRequest {
    LoadSchema,
    ReadStdin,
    /// Ask for the fields one by one.
    RunForm,
    /// Render the form's answers as YAML.
    FormYaml(Vec<(String, FieldValue)>),
    ListNames,
    /// Create `filename` in the transactions directory.
    Write { filename: String, content: String },
    Sync,
    Finish(Result<(), Error>),
}

/// One step: lines to show, a styled confirmation, then the request.
pub struct AddStep {
    pub say: Vec<Line>,
    pub saved: Option<Styled>,
    pub request: AddRequest,
}

impl AddStep {
    pub open spec fn quiet(self) -> bool {
        self.say@.len() == 0 && self.saved is None
    }
}

/// `add` from the schema to the written (and synced) file.
pub struct AddRun {
    pub json: Option<String>,
    pub dry_run: bool,
    pub no_sync: bool,
    pub phase: AddPhase,
    pub schema_content: String,
    /// The schema's property names, in order.
    pub keys: Vec<String>,
    /// The file name stem.
    pub base: String,
    pub markdown: String,
}

/// The fields of the entry read from the JSON text `payload`, when it is a
/// JSON object that meets the schema text `schema` (properties `keys`).
pub open spec fn json_outcome(payload: Seq<char>, keys: Seq<Seq<char>>, schema: Seq<char>) -> Option<
    Seq<(Seq<char>, JsonOrigin)>,
> {
    let o = JsonOrigin::Text(payload);
    if json_refusal(payload) is None && is_object(o) && schema_outcome(schema) is Ok
        && violations(schema_outcome(schema)->Ok_0, o).len() == 0 {
        Some(present_members(o, keys))
    } else {
        None
    }
}

/// The markdown file for YAML text `yaml`.
pub open spec fn markdown_of(yaml: Seq<char>) -> Seq<char> {
    "---\n"@ + yaml + "---\n"@
}

impl AddRun {
    pub open spec fn inv(&self) -> bool {
        &&& (self.phase == AddPhase::AwaitForm || self.phase == AddPhase::AwaitFormYaml)
            ==> self.json is None
        &&& self.phase == AddPhase::AwaitPayload ==> self.json is Some
        &&& (self.phase == AddPhase::AwaitNames || self.phase == AddPhase::AwaitWrite || self.phase
            == AddPhase::AwaitSync) ==> !self.dry_run
        &&& self.phase == AddPhase::AwaitSync ==> !self.no_sync
    }

    pub open spec fn accepts(&self, e: AddEvent) -> bool {
        match (self.phase, e) {
            (AddPhase::Start, AddEvent::Begin) => true,
            (AddPhase::AwaitSchema, AddEvent::Schema(_)) => true,
            (AddPhase::AwaitPayload, AddEvent::Payload(_)) => true,
            (AddPhase::AwaitForm, AddEvent::Answers(_)) => true,
            (AddPhase::AwaitFormYaml, AddEvent::Yaml(_)) => true,
            (AddPhase::AwaitNames, AddEvent::Names(_)) => true,
            (AddPhase::AwaitWrite, AddEvent::Written(_)) => true,
            (AddPhase::AwaitSync, AddEvent::Synced(_)) => true,
            _ => false,
        }
    }

    /// The step after reading the JSON text `payload` against the schema
    /// text `schema` with properties `keys`: end with the error, showing what
    /// [`build_from_json`] shows; or render the entry's fields as YAML and
    /// name it from their `date` and `name` texts.
    pub open spec fn json_step(
        self,
        dry_run: bool,
        keys: Seq<Seq<char>>,
        schema: Seq<char>,
        payload: Seq<char>,
        s: AddStep,
    ) -> bool {
        match json_outcome(payload, keys, schema) {
            None => {
                &&& self.phase == AddPhase::Finished
                &&& s.saved is None
                &&& s.request matches AddRequest::Finish(Err(e))
                &&& entry_fits(payload, keys, schema, s.say@, Err(e))
            },
            Some(fs) => match fields_yaml(fs) {
                Err(m) => {
                    &&& self.phase == AddPhase::Finished
                    &&& s.quiet()
                    &&& s.request matches AddRequest::Finish(Err(Error::Yaml(e)))
                    &&& e@ == m
                },
                Ok(y) => self.rendered(
                    dry_run,
                    entry_base_of(
                        first_text(named_texts(fs), "date"@),
                        first_text(named_texts(fs), "name"@),
                    ),
                    y,
                    s,
                ),
            },
        }
    }

    /// The step once the entry is YAML text `yaml` named `base`: a dry run
    /// shows the file name and the file and ends; otherwise look for a free
    /// name.
    pub open spec fn rendered(self, dry_run: bool, base: Seq<char>, yaml: Seq<char>, s: AddStep) -> bool {
        &&& self.base@ == base
        &&& self.markdown@ == markdown_of(yaml)
        &&& s.saved is None
        &&& if dry_run {
            &&& self.phase == AddPhase::Finished
            &&& line_views(s.say@) == seq![
                (false, "\n# filename: "@ + base + ".md"@),
                (true, trim_end(markdown_of(yaml))),
            ]
            &&& s.request matches AddRequest::Finish(Ok(_))
        } else {
            &&& self.phase == AddPhase::AwaitNames
            &&& s.say@.len() == 0
            &&& s.request is ListNames
        }
    }

    pub fn new(args: AddArgs) -> (m: AddRun)
        ensures
            m.json == args.json,
            m.dry_run == args.dry_run,
            m.no_sync == args.no_sync,
            m.phase == AddPhase::Start,
            m.inv(),
    {
        AddRun {
            json: args.json,
            dry_run: args.dry_run,
            no_sync: args.no_sync,
            phase: AddPhase::Start,
            schema_content: String::new(),
            keys: Vec::new(),
            base: String::new(),
            markdown: String::new(),
        }
    }

    fn ask(&mut self, phase: AddPhase, request: AddRequest) -> (s: AddStep)
        ensures
            *final(self) == (AddRun { phase, ..*old(self) }),
            s.quiet(),
            s.request == request,
    {
        self.phase = phase;
        AddStep { say: Vec::new(), saved: None, request }
    }

    fn fail(&mut self, e: Error) -> (s: AddStep)
        ensures
            *final(self) == (AddRun { phase: AddPhase::Finished, ..*old(self) }),
            s.quiet(),
            s.request == AddRequest::Finish(Err(e)),
    {
        self.ask(AddPhase::Finished, AddRequest::Finish(Err(e)))
    }

    fn from_payload(&mut self, payload: &str) -> (s: AddStep)
        ensures
            final(self).json == old(self).json,
            final(self).dry_run == old(self).dry_run,
            final(self).no_sync == old(self).no_sync,
            final(self).keys == old(self).keys,
            final(self).schema_content == old(self).schema_content,
            final(self).json_step(
                old(self).dry_run,
                views(old(self).keys@),
                old(self).schema_content@,
                payload@,
                s,
            ),
    {
        let entry = build_from_json(payload, &self.keys, self.schema_content.as_str());
        match entry.result {
            Ok(fields) => {
                let date = json_field_text(&fields, "date");
                let name = json_field_text(&fields, "name");
                let base = base_from(&date, &name);
                match yaml_of_fields(&fields) {
                    Ok(y) => self.render(base, y.as_str()),
                    Err(m) => self.fail(Error::Yaml(m)),
                }
            },
            Err(e) => {
                self.phase = AddPhase::Finished;
                AddStep { say: entry.lines, saved: None, request: AddRequest::Finish(Err(e)) }
            },
        }
    }

    fn render(&mut self, base: String, yaml: &str) -> (s: AddStep)
        ensures
            final(self).json == old(self).json,
            final(self).keys == old(self).keys,
            final(self).schema_content == old(self).schema_content,
            final(self).dry_run == old(self).dry_run,
            final(self).no_sync == old(self).no_sync,
            final(self).rendered(old(self).dry_run, base@, yaml@, s),
    {
        self.base = base;
        self.markdown = render_markdown(yaml);
        if self.dry_run {
            let say = dry_run_lines(self.base.as_str(), self.markdown.as_str());
            self.phase = AddPhase::Finished;
            AddStep { say, saved: None, request: AddRequest::Finish(Ok(())) }
        } else {
            self.ask(AddPhase::AwaitNames, AddRequest::ListNames)
        }
    }

    /// Advance by one answer.
    pub fn step(&mut self, event: AddEvent) -> (s: AddStep)
        requires
            old(self).inv(),
            old(self).accepts(event),
        ensures
            final(self).inv(),
            final(self).json == old(self).json,
            final(self).dry_run == old(self).dry_run,
            final(self).no_sync == old(self).no_sync,
            final(self).phase != AddPhase::Start,
            (s.request is Finish) == (final(self).phase == AddPhase::Finished),
            // A dry run never writes; `--no-sync` never syncs.
            s.request is Write ==> !old(self).dry_run,
            s.request is Sync ==> !old(self).dry_run && !old(self).no_sync,
            // The form runs only without JSON, stdin is read only for `-`.
            s.request is RunForm ==> old(self).json is None,
            s.request is ReadStdin ==> (old(self).json matches Some(src) && src@ == "-"@),
            match (old(self).phase, event) {
                (AddPhase::Start, AddEvent::Begin) => final(self).phase == AddPhase::AwaitSchema
                    && s.quiet() && s.request is LoadSchema,
                (AddPhase::AwaitSchema, AddEvent::Schema(r)) => match r {
                    Err(e) => final(self).phase == AddPhase::Finished && s.quiet() && s.request
                        == AddRequest::Finish(Err(e)),
                    Ok((content, keys)) => {
                        &&& final(self).schema_content == content
                        &&& final(self).keys == keys
                        &&& match old(self).json {
                            None => final(self).phase == AddPhase::AwaitForm && s.quiet()
                                && s.request is RunForm,
                            Some(src) => if src@ == "-"@ {
                                final(self).phase == AddPhase::AwaitPayload && s.quiet()
                                    && s.request is ReadStdin
                            } else {
                                final(self).json_step(
                                    old(self).dry_run,
                                    views(keys@),
                                    content@,
                                    src@,
                                    s,
                                )
                            },
                        }
                    },
                },
                (AddPhase::AwaitPayload, AddEvent::Payload(r)) => match r {
                    Err(e) => final(self).phase == AddPhase::Finished && s.quiet() && s.request
                        == AddRequest::Finish(Err(e)),
                    Ok(p) => final(self).json_step(
                        old(self).dry_run,
                        views(old(self).keys@),
                        old(self).schema_content@,
                        p@,
                        s,
                    ),
                },
                (AddPhase::AwaitForm, AddEvent::Answers(r)) => match r {
                    Err(e) => final(self).phase == AddPhase::Finished && s.quiet() && s.request
                        == AddRequest::Finish(Err(e)),
                    Ok(fields) => {
                        &&& final(self).phase == AddPhase::AwaitFormYaml
                        &&& final(self).base@ == entry_base_of(
                            first_text(answer_texts(fields@), "date"@),
                            first_text(answer_texts(fields@), "name"@),
                        )
                        &&& s.quiet()
                        &&& s.request == AddRequest::FormYaml(fields)
                    },
                },
                (AddPhase::AwaitFormYaml, AddEvent::Yaml(r)) => match r {
                    Err(e) => final(self).phase == AddPhase::Finished && s.quiet() && s.request
                        == AddRequest::Finish(Err(e)),
                    Ok(y) => final(self).rendered(old(self).dry_run, old(self).base@, y@, s),
                },
                (AddPhase::AwaitNames, AddEvent::Names(taken)) => {
                    &&& final(self).phase == AddPhase::AwaitWrite
                    &&& s.quiet()
                    &&& s.request matches AddRequest::Write { filename, content }
                    &&& first_free(old(self).base@, "md"@, taken@, filename@)
                    &&& content@ == old(self).markdown@
                },
                (AddPhase::AwaitWrite, AddEvent::Written(r)) => match r {
                    Err(e) => final(self).phase == AddPhase::Finished && s.quiet() && s.request
                        == AddRequest::Finish(Err(e)),
                    Ok(path) => {
                        &&& s.say@.len() == 0
                        &&& s.saved matches Some(st)
                        &&& styled_view(st) == seq![(Some(Style::Success), "Saved: "@ + path@)]
                        &&& if old(self).no_sync {
                            final(self).phase == AddPhase::Finished && s.request matches AddRequest::Finish(Ok(_))
                        } else {
                            final(self).phase == AddPhase::AwaitSync && s.request is Sync
                        }
                    },
                },
                (AddPhase::AwaitSync, AddEvent::Synced(r)) => {
                    &&& final(self).phase == AddPhase::Finished
                    &&& s.saved is None
                    &&& s.request matches AddRequest::Finish(Ok(_))
                    &&& match r {
                        Ok(_) => s.say@.len() == 0,
                        Err(e) => line_views(s.say@) == seq![
                            (false, "Warning: sync failed: "@ + error_text(e)),
                        ],
                    }
                },
                _ => false,
            },
    {
        match event {
            AddEvent::Begin => self.ask(AddPhase::AwaitSchema, AddRequest::LoadSchema),
            AddEvent::Schema(r) => match r {
                Err(e) => self.fail(e),
                Ok((content, keys)) => {
                    self.schema_content = content;
                    self.keys = keys;
                    let src: Option<String> = match &self.json {
                        Some(t) => Some(t.clone()),
                        None => None,
                    };
                    match src {
                        None => self.ask(AddPhase::AwaitForm, AddRequest::RunForm),
                        Some(t) => if str_eq(t.as_str(), "-") {
                            self.ask(AddPhase::AwaitPayload, AddRequest::ReadStdin)
                        } else {
                            self.from_payload(t.as_str())
                        },
                    }
                },
            },
            AddEvent::Payload(r) => match r {
                Err(e) => self.fail(e),
                Ok(p) => self.from_payload(p.as_str()),
            },
            AddEvent::Answers(r) => match r {
                Err(e) => self.fail(e),
                Ok(fields) => {
                    let date = text_field(&fields, "date");
                    let name = text_field(&fields, "name");
                    self.base = base_from(&date, &name);
                    self.ask(AddPhase::AwaitFormYaml, AddRequest::FormYaml(fields))
                },
            },
            AddEvent::Yaml(r) => match r {
                Err(e) => self.fail(e),
                Ok(y) => {
                    let base = self.base.clone();
                    self.render(base, y.as_str())
                },
            },
            AddEvent::Names(taken) => {
                let filename = unique_name(self.base.as_str(), "md", &taken);
                let content = self.markdown.clone();
                self.ask(AddPhase::AwaitWrite, AddRequest::Write { filename, content })
            },
            AddEvent::Written(r) => match r {
                Err(e) => self.fail(e),
                Ok(path) => {
                    let saved = saved_line(path.as_str());
                    if self.no_sync {
                        self.phase = AddPhase::Finished;
                        AddStep { say: Vec::new(), saved: Some(saved), request: AddRequest::Finish(Ok(())) }
                    } else {
                        self.phase = AddPhase::AwaitSync;
                        AddStep { say: Vec::new(), saved: Some(saved), request: AddRequest::Sync }
                    }
                },
            },
            AddEvent::Synced(r) => {
                let mut say: Vec<Line> = Vec::new();
                match r {
                    Ok(()) => {},
                    Err(e) => {
                        say.push(sync_warning(&e));
                    },
                }
                self.phase = AddPhase::Finished;
                AddStep { say, saved: None, request: AddRequest::Finish(Ok(())) }
            },
        }
    }
}

} // verus!
