//! The whole form: walk `properties` in order and collect each field,
//! recursing into objects and arrays.
use vstd::prelude::*;

use crate::error::Error;
use crate::ports::Style;
use crate::schema_form::datetime::{
    styled_views, DatetimePhase, DatetimePrompt, PromptEvent, PromptRequest,
};
use crate::schema_form::fields::{
    contains_text, name_line, painted, resolved_enum, styled_view, Styled,
};
use crate::schema_form::scalar::{
    answer_of, enum_view, scalar_fits, Answer, FieldValue, Pending, RangeVerdict, ScalarEvent,
    ScalarPhase, ScalarPrompt, ScalarRequest, ScalarSpec,
};
use crate::text::{decimal, push_decimal, push_str, str_eq, to_lowercase, views};

verus! {

/// One property's schema.
#[derive(Debug)]
pub struct FieldSchema {
    /// The `type` (`string` when absent).
    pub kind: String,
    pub format: Option<String>,
    pub pattern: Option<String>,
    pub min_length: Option<u64>,
    /// The bounds as they are displayed.
    pub minimum: Option<String>,
    pub maximum: Option<String>,
    pub enum_vals: Option<Vec<String>>,
    /// An object's properties, in order.
    pub properties: Option<Vec<(String, FieldSchema)>>,
    /// The names an object requires.
    pub required: Vec<String>,
    /// An array's item schema.
    pub items: Option<Box<FieldSchema>>,
}

/// The form's schema: its top-level properties and required names.
#[derive(Debug)]
pub struct FormSchema {
    pub properties: Option<Vec<(String, FieldSchema)>>,
    pub required: Vec<String>,
}

/// A level of the walk.
#[derive(Debug)]
pub enum Frame {
    /// Properties still to ask, front first: the top level (`top`), an
    /// object field stored under `key`, or one item of an object array.
    Fields {
        key: Option<String>,
        top: bool,
        /// The dotted name of the object or array holding these fields.
        path: String,
        total: usize,
        asked: usize,
        entries: Vec<(String, FieldSchema)>,
        required: Vec<String>,
        acc: Vec<(String, FieldValue)>,
    },
    /// An array field collecting items; `item_fields` for arrays of objects.
    List {
        list_key: String,
        name: String,
        item_fields: Option<(Vec<(String, FieldSchema)>, Vec<String>)>,
        items: Vec<FieldValue>,
    },
}

/// The prompt currently waiting for an answer.
#[derive(Debug)]
pub enum Active {
    Idle,
    Scalar { key: String, prompt: ScalarPrompt },
    Datetime { key: String, clock: DatetimePrompt },
    /// A yes/no: add another item to the object array on top.
    MoreItems,
    /// The next line of the string array on top.
    NextItem,
}

#[derive(Clone, Copy, Debug, PartialEq, Eq, Structural)]
pub enum FormPhase {
    Start,
    Running,
    Finished,
}

#[derive(Debug)]
pub enum FormEvent {
    Begin,
    Line(Result<String, Error>),
    Timestamp(String),
    Range(RangeVerdict),
}

#[derive(Debug)]
pub enum FormRequest {
    ReadLine(Styled),
    Timestamp,
    CheckRange(Pending),
    /// The collected fields, in order.
    Finish(Result<Vec<(String, FieldValue)>, Error>),
}

#[derive(Debug)]
pub struct FormStep {
    pub say: Vec<Styled>,
    pub request: FormRequest,
}

/// Whether the walk goes on (with the lines so far) or stops at a request.
#[derive(Debug)]
pub enum Walk {
    Go(Vec<Styled>),
    Stop(FormStep),
}

/// One run of the form.
#[derive(Debug)]
pub struct Form {
    pub schema: FormSchema,
    pub frames: Vec<Frame>,
    pub active: Active,
    pub phase: FormPhase,
}


fn copy_texts(v: &Vec<String>) -> (r: Vec<String>)
    ensures
        views(r@) == views(v@),
{
    let mut r: Vec<String> = Vec::new();
    let mut i: usize = 0;
    while i < v.len()
        invariant
            i <= v@.len(),
            views(r@) == views(v@).take(i as int),
        decreases v.len() - i,
    {
        r.push(v[i].clone());
        proof {
            assert(views(v@).take(i + 1) == views(v@).take(i as int).push(v@[i as int]@));
        }
        i += 1;
    }
    assert(views(v@).take(v@.len() as int) == views(v@));
    r
}

fn copy_opt(o: &Option<String>) -> (r: Option<String>)
    ensures
        r == *o,
{
    match o {
        Some(s) => Some(s.clone()),
        None => None,
    }
}

/// A copy of a schema, for walking it once more.
fn copy_field(f: &FieldSchema) -> (r: FieldSchema)
    ensures
        r.kind == f.kind,
        r.format == f.format,
    decreases f,
{
    let properties = match &f.properties {
        Some(ps) => Some(copy_fields(ps)),
        None => None,
    };
    let items = match &f.items {
        Some(b) => Some(Box::new(copy_field(&**b))),
        None => None,
    };
    FieldSchema {
        kind: f.kind.clone(),
        format: copy_opt(&f.format),
        pattern: copy_opt(&f.pattern),
        min_length: f.min_length,
        minimum: copy_opt(&f.minimum),
        maximum: copy_opt(&f.maximum),
        enum_vals: match &f.enum_vals {
            Some(v) => Some(copy_texts(v)),
            None => None,
        },
        properties,
        required: copy_texts(&f.required),
        items,
    }
}

fn copy_fields(ps: &Vec<(String, FieldSchema)>) -> (r: Vec<(String, FieldSchema)>)
    ensures
        r@.len() == ps@.len(),
        forall|i: int|
            0 <= i < ps@.len() ==> #[trigger] r@[i].0 == ps@[i].0 && r@[i].1.kind == ps@[i].1.kind
                && r@[i].1.format == ps@[i].1.format,
    decreases ps,
{
    let mut r: Vec<(String, FieldSchema)> = Vec::new();
    let mut i: usize = 0;
    while i < ps.len()
        invariant
            i <= ps@.len(),
            r@.len() == i,
            forall|j: int|
                0 <= j < i ==> #[trigger] r@[j].0 == ps@[j].0 && r@[j].1.kind == ps@[j].1.kind
                    && r@[j].1.format == ps@[j].1.format,
        decreases ps.len() - i,
    {
        proof {
            assert(decreases_to!(ps => ps@));
            assert(decreases_to!(ps@ => ps@[i as int]));
        }
        r.push((ps[i].0.clone(), copy_field(&ps[i].1)));
        i += 1;
    }
    r
}

// ── What the answers must agree with ───────────────────────────────────────

/// Whether the form always gives `f` a value: it is required, or an array
/// or object (always kept, possibly empty), or a datetime (always filled).
pub open spec fn must_answer(f: FieldSchema, required: bool) -> bool {
    ||| required
    ||| f.kind@ == "array"@
    ||| f.kind@ == "object"@
    ||| (f.format matches Some(fm) && fm@ == "datetime"@)
}

/// Whether `f` is asked as a datetime.
pub open spec fn is_datetime(f: FieldSchema) -> bool {
    f.format matches Some(fm) && fm@ == "datetime"@
}

/// How the form stores a field of type `kind` (asked as a datetime when
/// `datetime`): an array as a list, an object as fields, a datetime as
/// text, any other field as [`scalar_fits`] says.
pub open spec fn value_fits(kind: Seq<char>, datetime: bool, v: FieldValue) -> bool {
    if kind == "array"@ {
        v is List
    } else if kind == "object"@ {
        v is Fields
    } else if datetime {
        v is Text
    } else {
        scalar_fits(kind, v)
    }
}

proof fn lemma_kinds_differ()
    ensures
        "array"@ != "object"@,
{
    reveal_strlit("array");
    reveal_strlit("object");
    assert("array"@[0] != "object"@[0]);
}

/// Each property's name, whether it must be answered, its type, and
/// whether it is asked as a datetime.
pub open spec fn outline_of(es: Seq<(String, FieldSchema)>, required: Seq<Seq<char>>) -> Seq<
    (Seq<char>, bool, Seq<char>, bool),
> {
    es.map_values(
        |e: (String, FieldSchema)|
            (e.0@, must_answer(e.1, required.contains(e.0@)), e.1.kind@, is_datetime(e.1)),
    )
}

/// The top-level properties of `schema`, as [`outline_of`] gives them.
pub open spec fn form_outline(schema: FormSchema) -> Seq<(Seq<char>, bool, Seq<char>, bool)> {
    match schema.properties {
        Some(ps) => outline_of(ps@, views(schema.required@)),
        None => seq![],
    }
}

/// `fields` are the properties of `o` in order, each stored as its type
/// says, some left out, none that must be answered.
pub open spec fn answered(
    fields: Seq<(Seq<char>, FieldValue)>,
    o: Seq<(Seq<char>, bool, Seq<char>, bool)>,
) -> bool
    decreases o.len(),
{
    if o.len() == 0 {
        fields.len() == 0
    } else {
        ||| (fields.len() > 0 && fields.last().0 == o.last().0 && value_fits(
            o.last().2,
            o.last().3,
            fields.last().1,
        ) && answered(fields.drop_last(), o.drop_last()))
        ||| (!o.last().1 && answered(fields, o.drop_last()))
    }
}

/// The collected fields as names beside values.
pub open spec fn entries_of(fields: Seq<(String, FieldValue)>) -> Seq<(Seq<char>, FieldValue)> {
    fields.map_values(|f: (String, FieldValue)| (f.0@, f.1))
}

/// Every property that must be answered is among `fields`, and each of
/// `fields` is a property, stored as that property's type says.
pub proof fn lemma_answered_covers(
    fields: Seq<(Seq<char>, FieldValue)>,
    o: Seq<(Seq<char>, bool, Seq<char>, bool)>,
)
    requires
        answered(fields, o),
    ensures
        forall|i: int|
            0 <= i < o.len() && (#[trigger] o[i]).1 ==> exists|j: int|
                0 <= j < fields.len() && fields[j].0 == o[i].0,
        forall|j: int|
            0 <= j < fields.len() ==> exists|i: int|
                0 <= i < o.len() && o[i].0 == (#[trigger] fields[j]).0 && value_fits(
                    o[i].2,
                    o[i].3,
                    fields[j].1,
                ),
        fields.len() <= o.len(),
    decreases o.len(),
{
    if o.len() > 0 {
        let ol = o.drop_last();
        if fields.len() > 0 && fields.last().0 == o.last().0 && value_fits(
            o.last().2,
            o.last().3,
            fields.last().1,
        ) && answered(fields.drop_last(), ol) {
            let kl = fields.drop_last();
            lemma_answered_covers(kl, ol);
            assert forall|i: int| 0 <= i < o.len() && (#[trigger] o[i]).1 implies exists|j: int|
                0 <= j < fields.len() && fields[j].0 == o[i].0 by {
                if i < o.len() - 1 {
                    assert(ol[i] == o[i]);
                    let j = choose|j: int| 0 <= j < kl.len() && kl[j].0 == ol[i].0;
                    assert(fields[j] == kl[j]);
                } else {
                    assert(fields[fields.len() - 1].0 == o[i].0);
                }
            }
            assert forall|j: int| 0 <= j < fields.len() implies exists|i: int|
                0 <= i < o.len() && o[i].0 == (#[trigger] fields[j]).0 && value_fits(
                    o[i].2,
                    o[i].3,
                    fields[j].1,
                ) by {
                if j < fields.len() - 1 {
                    assert(kl[j] == fields[j]);
                    let i = choose|i: int|
                        0 <= i < ol.len() && ol[i].0 == kl[j].0 && value_fits(
                            ol[i].2,
                            ol[i].3,
                            kl[j].1,
                        );
                    assert(o[i] == ol[i]);
                } else {
                    assert(o[o.len() - 1].0 == fields[j].0);
                }
            }
        } else {
            lemma_answered_covers(fields, ol);
            assert forall|i: int| 0 <= i < o.len() && (#[trigger] o[i]).1 implies exists|j: int|
                0 <= j < fields.len() && fields[j].0 == o[i].0 by {
                assert(ol[i] == o[i]);
            }
            assert forall|j: int| 0 <= j < fields.len() implies exists|i: int|
                0 <= i < o.len() && o[i].0 == (#[trigger] fields[j]).0 && value_fits(
                    o[i].2,
                    o[i].3,
                    fields[j].1,
                ) by {
                let i = choose|i: int|
                    0 <= i < ol.len() && ol[i].0 == fields[j].0 && value_fits(
                        ol[i].2,
                        ol[i].3,
                        fields[j].1,
                    );
                assert(o[i] == ol[i]);
            }
        }
    }
}

proof fn lemma_answered_take(
    fields: Seq<(Seq<char>, FieldValue)>,
    o: Seq<(Seq<char>, bool, Seq<char>, bool)>,
    n: int,
    f: (Seq<char>, FieldValue),
)
    requires
        0 <= n < o.len(),
        answered(fields, o.take(n)),
        o[n].0 == f.0,
    ensures
        value_fits(o[n].2, o[n].3, f.1) ==> answered(fields.push(f), o.take(n + 1)),
        !o[n].1 ==> answered(fields, o.take(n + 1)),
{
    assert(o.take(n + 1).drop_last() == o.take(n));
    assert(fields.push(f).drop_last() == fields);
}

/// The key a frame hands its value to its parent under.
pub open spec fn child_key(fr: Frame) -> Option<Seq<char>> {
    match fr {
        Frame::Fields { key, .. } => match key {
            Some(k) => Some(k@),
            None => None,
        },
        Frame::List { list_key, .. } => Some(list_key@),
    }
}

/// The field of the bottom frame waiting for its value: the one the frame
/// above it delivers, else the one being asked (`asking`).
pub open spec fn pending_of(s: Seq<Frame>, asking: Option<Seq<char>>) -> Option<Seq<char>> {
    if s.len() >= 2 {
        child_key(s[1])
    } else {
        asking
    }
}

/// The top-level fields frame agrees with `o`: the fields still to ask are
/// the rest of `o`, and the answers so far are those of the fields asked,
/// the pending one aside.
pub open spec fn bottom_ok(o: Seq<(Seq<char>, bool, Seq<char>, bool)>, fr: Frame, pending: Option<Seq<char>>) -> bool {
    match fr {
        Frame::Fields { key, entries, required, asked, acc, .. } => {
            &&& key is None
            &&& o.len() <= usize::MAX
            &&& asked <= o.len()
            &&& outline_of(entries@, views(required@)) == o.skip(asked as int)
            &&& match pending {
                None => answered(entries_of(acc@), o.take(asked as int)),
                Some(k) => asked >= 1 && o[asked - 1].0 == k && answered(
                    entries_of(acc@),
                    o.take(asked - 1),
                ),
            }
        },
        Frame::List { .. } => false,
    }
}

/// The value the frame `child` above the bottom will deliver fits the
/// bottom's pending field: a list for an array, fields for an object.
pub open spec fn child_fits(o: Seq<(Seq<char>, bool, Seq<char>, bool)>, bottom: Frame, child: Frame) -> bool {
    bottom matches Frame::Fields { asked, .. } && match child {
        Frame::List { .. } => o[asked - 1].2 == "array"@,
        Frame::Fields { .. } => o[asked - 1].2 == "object"@,
    }
}

pub open spec fn stack_answers(o: Seq<(Seq<char>, bool, Seq<char>, bool)>, s: Seq<Frame>, asking: Option<Seq<char>>) -> bool {
    s.len() > 0 ==> {
        &&& s.len() >= 2 ==> child_key(s[1]) is Some
        &&& s.len() >= 2 ==> child_fits(o, s[0], s[1])
        &&& bottom_ok(o, s[0], pending_of(s, asking))
    }
}

proof fn lemma_stack_answers_same(
    o: Seq<(Seq<char>, bool, Seq<char>, bool)>,
    s1: Seq<Frame>,
    a1: Option<Seq<char>>,
    s2: Seq<Frame>,
    a2: Option<Seq<char>>,
)
    requires
        stack_answers(o, s1, a1),
        s1.len() > 0,
        s2.len() > 0,
        s1[0] == s2[0],
        pending_of(s1, a1) == pending_of(s2, a2),
        s2.len() >= 2 ==> child_key(s2[1]) is Some,
        s2.len() >= 2 ==> s1.len() >= 2 && (s1[1] is List <==> s2[1] is List),
    ensures
        stack_answers(o, s2, a2),
{
}

pub open spec fn asking_key(a: Active) -> Option<Seq<char>> {
    match a {
        Active::Scalar { key, .. } => Some(key@),
        Active::Datetime { key, .. } => Some(key@),
        _ => None,
    }
}

/// The number of schema nodes in `f` (a measure for the walk).
pub open spec fn node_size(f: FieldSchema) -> nat
    decreases f,
{
    1 + match f.properties {
        Some(ps) => forest_size(ps@),
        None => 0nat,
    } + match f.items {
        Some(b) => node_size(*b),
        None => 0nat,
    }
}

pub open spec fn forest_size(s: Seq<(String, FieldSchema)>) -> nat
    decreases s,
{
    if s.len() == 0 {
        0
    } else {
        forest_size(s.drop_last()) + node_size(s.last().1)
    }
}

proof fn lemma_forest_concat(a: Seq<(String, FieldSchema)>, b: Seq<(String, FieldSchema)>)
    ensures
        forest_size(a + b) == forest_size(a) + forest_size(b),
    decreases b.len(),
{
    if b.len() == 0 {
        assert(a + b =~= a);
    } else {
        lemma_forest_concat(a, b.drop_last());
        assert((a + b).drop_last() =~= a + b.drop_last());
    }
}

proof fn lemma_forest_first(s: Seq<(String, FieldSchema)>)
    requires
        s.len() > 0,
    ensures
        forest_size(s) == node_size(s[0].1) + forest_size(s.drop_first()),
{
    let a = seq![s[0]];
    let b = s.drop_first();
    lemma_forest_concat(a, b);
    assert(a + b =~= s);
    assert(a.drop_last() =~= Seq::<(String, FieldSchema)>::empty());
    assert(forest_size(a) == forest_size(a.drop_last()) + node_size(a.last().1));
}

proof fn lemma_stack_ok_prefix(s: Seq<Frame>)
    requires
        stack_ok(s),
        s.len() > 0,
    ensures
        stack_ok(s.drop_last()),
{
    assert forall|i: int| 1 <= i < s.drop_last().len() && (#[trigger] s.drop_last()[i]) is List
        implies s.drop_last()[i - 1] is Fields by {
        assert(s.drop_last()[i] == s[i]);
        assert(s.drop_last()[i - 1] == s[i - 1]);
    }
}

proof fn lemma_stack_ok_push(s: Seq<Frame>, f: Frame)
    requires
        stack_ok(s),
        f is Fields,
    ensures
        stack_ok(s.push(f)),
{
    assert forall|i: int| 1 <= i < s.push(f).len() && (#[trigger] s.push(f)[i]) is List
        implies s.push(f)[i - 1] is Fields by {
        assert(s.push(f)[i] == s[i]);
        assert(s.push(f)[i - 1] == s[i - 1]);
    }
    if s.len() > 0 {
        assert(s.push(f)[0] == s[0]);
    }
}

proof fn lemma_stack_weight_push(s: Seq<Frame>, f: Frame)
    ensures
        stack_weight(s.push(f)) == stack_weight(s) + frame_weight(f),
{
    assert(s.push(f).drop_last() =~= s);
}

/// The top level is at the bottom of the stack, and every array sits on
/// the fields that hold it.
pub open spec fn stack_ok(s: Seq<Frame>) -> bool {
    &&& s.len() > 0 ==> s[0] is Fields
    &&& forall|i: int| 1 <= i < s.len() && (#[trigger] s[i]) is List ==> s[i - 1] is Fields
}

/// How much walking a frame has left.
pub open spec fn frame_weight(fr: Frame) -> nat {
    match fr {
        Frame::Fields { entries, .. } => 2 * forest_size(entries@) + 1,
        Frame::List { .. } => 1,
    }
}

pub open spec fn stack_weight(s: Seq<Frame>) -> nat
    decreases s.len(),
{
    if s.len() == 0 {
        0
    } else {
        stack_weight(s.drop_last()) + frame_weight(s.last())
    }
}

/// What the top level has collected so far: the bottom frame's answers.
pub open spec fn bottom_acc(s: Seq<Frame>) -> Seq<(Seq<char>, FieldValue)> {
    if s.len() > 0 {
        match s[0] {
            Frame::Fields { acc, .. } => entries_of(acc@),
            _ => seq![],
        }
    } else {
        seq![]
    }
}

/// `b` begins with `a`.
pub open spec fn extends(a: Seq<(Seq<char>, FieldValue)>, b: Seq<(Seq<char>, FieldValue)>) -> bool {
    a.len() <= b.len() && b.take(a.len() as int) == a
}

proof fn lemma_extends_refl(a: Seq<(Seq<char>, FieldValue)>)
    ensures
        extends(a, a),
{
    assert(a.take(a.len() as int) =~= a);
}

proof fn lemma_extends_trans(
    a: Seq<(Seq<char>, FieldValue)>,
    b: Seq<(Seq<char>, FieldValue)>,
    c: Seq<(Seq<char>, FieldValue)>,
)
    requires
        extends(a, b),
        extends(b, c),
    ensures
        extends(a, c),
{
    assert(c.take(a.len() as int) =~= c.take(b.len() as int).take(a.len() as int));
}

proof fn lemma_extends_last(
    b: Seq<(Seq<char>, FieldValue)>,
    x: (Seq<char>, FieldValue),
    c: Seq<(Seq<char>, FieldValue)>,
)
    requires
        extends(b.push(x), c),
    ensures
        c.len() > b.len(),
        c[b.len() as int] == x,
{
    assert(c.take(b.len() as int + 1)[b.len() as int] == c[b.len() as int]);
}

proof fn lemma_extends_push(a: Seq<(Seq<char>, FieldValue)>, x: (Seq<char>, FieldValue))
    ensures
        extends(a, a.push(x)),
{
    assert(a.push(x).take(a.len() as int) =~= a);
}

/// The top-level answers after a step: the finished form's fields, or what
/// the bottom frame holds.
pub open spec fn collected(f: Form, r: FormRequest) -> Seq<(Seq<char>, FieldValue)> {
    match r {
        FormRequest::Finish(Ok(fields)) => entries_of(fields@),
        _ => bottom_acc(f.frames@),
    }
}

/// A slot asked with a scalar prompt for type `kind`.
pub open spec fn scalar_slot(slot: (Seq<char>, bool, Seq<char>, bool), kind: Seq<char>) -> bool {
    slot.2 == kind && slot.2 != "array"@ && slot.2 != "object"@ && !slot.3
}

/// A slot asked with the datetime prompt.
pub open spec fn datetime_slot(slot: (Seq<char>, bool, Seq<char>, bool)) -> bool {
    slot.2 != "array"@ && slot.2 != "object"@ && slot.3
}

impl Form {
    /// Whether `e` answers what the form waits for.
    pub open spec fn accepts(&self, e: FormEvent) -> bool {
        match self.phase {
            FormPhase::Start => e is Begin,
            FormPhase::Finished => false,
            FormPhase::Running => match self.active {
                Active::Scalar { prompt, .. } => (prompt.phase == ScalarPhase::AwaitLine && e is Line)
                    || (prompt.phase == ScalarPhase::AwaitRange && e is Range),
                Active::Datetime { clock: prompt, .. } => (prompt.phase == DatetimePhase::AwaitTimestamp
                    && e is Timestamp) || ((prompt.phase == DatetimePhase::Plain || prompt.phase
                    == DatetimePhase::AwaitChoice || prompt.phase is AwaitComponent) && e is Line),
                Active::MoreItems => e is Line,
                Active::NextItem => e is Line,
                Active::Idle => false,
            },
        }
    }

    /// What holds between steps: the sub-prompts are consistent, and while
    /// running something is always waiting for an answer.
    pub open spec fn wf(&self) -> bool {
        &&& match self.active {
            Active::Scalar { prompt, .. } => prompt.wf() && prompt.phase != ScalarPhase::Start
                && prompt.phase != ScalarPhase::Finished,
            Active::Datetime { clock: prompt, .. } => prompt.wf() && prompt.phase != DatetimePhase::Start
                && prompt.phase != DatetimePhase::Finished,
            _ => true,
        }
        &&& self.phase == FormPhase::Running ==> !(self.active is Idle)
        &&& (self.active is MoreItems || self.active is NextItem) ==> (self.frames@.len() > 0
            && self.frames@.last() is List)
        &&& (self.active is Scalar || self.active is Datetime) ==> (self.frames@.len() > 0
            && self.frames@.last() is Fields)
        &&& stack_ok(self.frames@)
    }

    /// While the form runs, the top-level answers agree with the schema:
    /// the bottom frame holds what was answered of the fields asked so far,
    /// and a scalar being asked at the top level is required exactly when
    /// it must be answered.
    pub open spec fn answers_ok(&self) -> bool {
        let o = form_outline(self.schema);
        &&& self.phase == FormPhase::Start ==> self.frames@.len() == 0
        &&& self.phase == FormPhase::Running ==> {
            &&& self.frames@.len() > 0
            &&& stack_answers(o, self.frames@, asking_key(self.active))
            &&& self.frames@.len() == 1 ==> (self.active matches Active::Scalar { prompt, .. } ==> (
            self.frames@[0] matches Frame::Fields { asked, .. } && o[asked - 1].1 == prompt.required
                && scalar_slot(o[asked - 1], prompt.spec.kind@)))
            &&& self.frames@.len() == 1 ==> (self.active is Datetime ==> (
            self.frames@[0] matches Frame::Fields { asked, .. } && datetime_slot(o[asked - 1])))
        }
    }

    /// What holds once a step has been taken: the form is consistent, it
    /// waits on the request it made, and a completed form's answers agree
    /// with the schema.
    pub open spec fn step_done(&self, step: FormStep) -> bool {
        &&& self.wf()
        &&& self.answers_ok()
        &&& step.request is Finish <==> self.phase == FormPhase::Finished
        &&& !(step.request is Finish) ==> self.phase == FormPhase::Running
        &&& self.next_accepted(step.request)
        &&& step.request matches FormRequest::Finish(Ok(fields)) ==> answered(
            entries_of(fields@),
            form_outline(self.schema),
        )
    }

    pub fn new(schema: FormSchema) -> (m: Form)
        ensures
            m.phase == FormPhase::Start,
            m.schema == schema,
            m.wf(),
            m.answers_ok(),
    {
        Form { schema, frames: Vec::new(), active: Active::Idle, phase: FormPhase::Start }
    }

    fn finish(&mut self, say: Vec<Styled>, r: Result<Vec<(String, FieldValue)>, Error>) -> (step: FormStep)
        requires
            stack_ok(old(self).frames@),
        ensures
            final(self).next_accepted(step.request),
            final(self).phase == FormPhase::Finished,
            final(self).active is Idle,
            final(self).wf(),
            final(self).answers_ok(),
            final(self).schema == old(self).schema,
            final(self).frames == old(self).frames,
            step.say == say,
            step.request == FormRequest::Finish(r),
    {
        self.phase = FormPhase::Finished;
        self.active = Active::Idle;
        FormStep { say, request: FormRequest::Finish(r) }
    }

    /// Advance by one answer.
    pub fn step(&mut self, event: FormEvent) -> (step: FormStep)
        requires
            old(self).wf(),
            old(self).answers_ok(),
            old(self).accepts(event),
        ensures
            final(self).step_done(step),
            final(self).schema == old(self).schema,
            old(self).phase == FormPhase::Start ==> match old(self).schema.properties {
                None => step.say@.len() == 0 && (step.request matches FormRequest::Finish(
                    Err(Error::Parse(m)),
                ) && m@ == "Schema missing 'properties'"@),
                // Walking the schema never fails by itself.
                Some(_) => !(step.request matches FormRequest::Finish(Err(_))),
            },
            // The top-level answers only grow.
            old(self).phase == FormPhase::Running ==> extends(
                bottom_acc(old(self).frames@),
                collected(*final(self), step.request),
            ),
            // A top-level answer is stored as given: the typed text of a text
            // field, the prefill when Enter accepts it at the datetime menu.
            old(self).phase == FormPhase::Running && old(self).frames@.len() == 1 ==> {
                let b = bottom_acc(old(self).frames@);
                let c = collected(*final(self), step.request);
                match (old(self).active, event) {
                    (Active::Scalar { key, prompt }, FormEvent::Line(Ok(raw))) => {
                        let input = resolved_enum(raw@, enum_view(prompt.spec.enum_vals));
                        prompt.phase == ScalarPhase::AwaitLine && answer_of(
                            prompt.spec,
                            prompt.name@,
                            prompt.required,
                            input,
                        ) is Text ==> c.len() > b.len() && c[b.len() as int].0 == key@ && (c[b.len()
                            as int].1 matches FieldValue::Text(t) && t@ == input)
                    },
                    (Active::Datetime { key, clock }, FormEvent::Line(Ok(raw))) => (clock.phase
                        == DatetimePhase::AwaitChoice && raw@.len() == 0) ==> c.len() > b.len()
                        && c[b.len() as int] == (key@, FieldValue::Text(clock.prefill)),
                    _ => true,
                }
            },
    {
        proof {
            lemma_extends_refl(bottom_acc(self.frames@));
        }
        match event {
            FormEvent::Begin => {
                let props = match &self.schema.properties {
                    Some(ps) => copy_fields(ps),
                    None => {
                        return self.finish(
                            Vec::new(),
                            Err(Error::Parse("Schema missing 'properties'".to_string())),
                        );
                    },
                };
                let total = match &self.schema.properties {
                    Some(ps) => ps.len(),
                    None => 0,
                };
                let mut h = String::new();
                push_str(&mut h, "\n  📝 New entry  (");
                push_decimal(&mut h, total as u64);
                push_str(&mut h, " fields)\n");
                let mut say: Vec<Styled> = Vec::new();
                say.push(painted(Style::Header, h));
                let req = copy_texts(&self.schema.required);
                proof {
                    let o = form_outline(self.schema);
                    let ps = self.schema.properties->0;
                    assert(outline_of(props@, views(req@)) =~= o);
                    assert(o.skip(0) == o);
                    assert(o.take(0) =~= Seq::<(Seq<char>, bool, Seq<char>, bool)>::empty());
                    assert(entries_of(Seq::<(String, FieldValue)>::empty()) =~= Seq::<
                        (Seq<char>, FieldValue),
                    >::empty());
                }
                self.frames.push(
                    Frame::Fields {
                        key: None,
                        top: true,
                        path: String::new(),
                        total,
                        asked: 0,
                        entries: props,
                        required: req,
                        acc: Vec::new(),
                    },
                );
                self.phase = FormPhase::Running;
                let step = self.advance(say);
                step
            },
            FormEvent::Line(line) => {
                let mut active = Active::Idle;
                std::mem::swap(&mut active, &mut self.active);
                let ghost b0 = bottom_acc(self.frames@);
                let ghost single = self.frames@.len() == 1;
                match active {
                    Active::Scalar { key, mut prompt } => {
                        let ghost kv = key@;
                        let s = prompt.step(ScalarEvent::Line(line));
                        let ghost sr = s.request;
                        let st = self.after_scalar(key, prompt, s.say, s.request);
                        proof {
                            if single {
                                match sr {
                                    ScalarRequest::Finish(Ok(Some(v))) => {
                                        lemma_extends_last(b0, (kv, v), collected(*self, st.request));
                                    },
                                    _ => {},
                                }
                            }
                        }
                        st
                    },
                    Active::Datetime { key, clock: mut prompt } => {
                        let ghost kv = key@;
                        let s = prompt.step(PromptEvent::Line(line));
                        let ghost sr = s.request;
                        let st = self.after_datetime(key, prompt, s.say, s.request);
                        proof {
                            if single {
                                match sr {
                                    PromptRequest::Finish(Ok(v)) => {
                                        lemma_extends_last(
                                            b0,
                                            (kv, FieldValue::Text(v)),
                                            collected(*self, st.request),
                                        );
                                    },
                                    _ => {},
                                }
                            }
                        }
                        st
                    },
                    Active::MoreItems => match line {
                        Err(e) => self.finish(Vec::new(), Err(e)),
                        Ok(answer) => self.more_items(answer),
                    },
                    Active::NextItem => match line {
                        Err(e) => self.finish(Vec::new(), Err(e)),
                        Ok(item) => self.next_item(item),
                    },
                    Active::Idle => self.finish(Vec::new(), Err(Error::Parse(String::new()))),
                }
            },
            FormEvent::Timestamp(ts) => {
                let mut active = Active::Idle;
                std::mem::swap(&mut active, &mut self.active);
                match active {
                    Active::Datetime { key, clock: mut prompt } => {
                        let s = prompt.step(PromptEvent::Timestamp(ts));
                        self.after_datetime(key, prompt, s.say, s.request)
                    },
                    _ => self.finish(Vec::new(), Err(Error::Parse(String::new()))),
                }
            },
            FormEvent::Range(v) => {
                let mut active = Active::Idle;
                std::mem::swap(&mut active, &mut self.active);
                match active {
                    Active::Scalar { key, mut prompt } => {
                        let s = prompt.step(ScalarEvent::Range(v));
                        self.after_scalar(key, prompt, s.say, s.request)
                    },
                    _ => self.finish(Vec::new(), Err(Error::Parse(String::new()))),
                }
            },
        }
    }

    /// Ask whether to add another item to the object array on top.
    fn ask_more(&mut self, mut say: Vec<Styled>, name: &str, first: bool) -> (step: FormStep)
        requires
            old(self).frames@.len() > 1,
            old(self).frames@.last() is List,
            stack_ok(old(self).frames@),
            old(self).phase == FormPhase::Running,
            stack_answers(form_outline(old(self).schema), old(self).frames@, None),
        ensures
            final(self).step_done(step),
            final(self).schema == old(self).schema,
            final(self).phase == FormPhase::Running,
            final(self).frames == old(self).frames,
            final(self).active is MoreItems,
            step.request is ReadLine,
    {
        let mut q = String::new();
        if first {
            push_str(&mut q, "Add a ");
        } else {
            push_str(&mut q, "Add another ");
        }
        push_str(&mut q, name);
        push_str(&mut q, " entry? [y/N]: ");
        self.active = Active::MoreItems;
        FormStep { say, request: FormRequest::ReadLine(painted(Style::Prompt, q)) }
    }

    /// Ask for item `n` of the string array on top.
    fn ask_item(&mut self, say: Vec<Styled>, name: &str, n: usize) -> (step: FormStep)
        requires
            old(self).frames@.len() > 1,
            old(self).frames@.last() is List,
            stack_ok(old(self).frames@),
            old(self).phase == FormPhase::Running,
            stack_answers(form_outline(old(self).schema), old(self).frames@, None),
        ensures
            final(self).step_done(step),
            final(self).schema == old(self).schema,
            final(self).phase == FormPhase::Running,
            final(self).frames == old(self).frames,
            final(self).active is NextItem,
            step.request is ReadLine,
    {
        let mut q = String::new();
        push_str(&mut q, "  ");
        push_str(&mut q, name);
        push_str(&mut q, "[");
        push_decimal(&mut q, n as u64);
        push_str(&mut q, "]");
        if n == 0 {
            push_str(&mut q, " (or Enter to skip)");
        }
        push_str(&mut q, ": ");
        self.active = Active::NextItem;
        FormStep { say, request: FormRequest::ReadLine(painted(Style::Prompt, q)) }
    }

    /// Walk on from the top frame (a `Fields` frame) until something needs
    /// an answer, or the form is complete.
    fn advance(&mut self, say: Vec<Styled>) -> (step: FormStep)
        requires
            old(self).frames@.len() > 0,
            old(self).frames@.last() is Fields,
            stack_ok(old(self).frames@),
            old(self).phase == FormPhase::Running,
            stack_answers(form_outline(old(self).schema), old(self).frames@, None),
        ensures
            final(self).step_done(step),
            final(self).schema == old(self).schema,
            !(step.request matches FormRequest::Finish(Err(_))),
            extends(bottom_acc(old(self).frames@), collected(*final(self), step.request)),
    {
        let mut say = say;
        proof {
            lemma_extends_refl(bottom_acc(self.frames@));
        }
        loop
            invariant
                extends(bottom_acc(old(self).frames@), bottom_acc(self.frames@)),
                self.frames@.len() > 0,
                self.frames@.last() is Fields,
                stack_ok(self.frames@),
                self.phase == FormPhase::Running,
                self.schema == old(self).schema,
                stack_answers(form_outline(self.schema), self.frames@, None),
            decreases stack_weight(self.frames@),
        {
            let ghost before = self.frames@;
            let top = self.frames.pop().unwrap();
            proof {
                assert(before.drop_last() == self.frames@);
                assert(before == self.frames@.push(top));
                lemma_stack_weight_push(self.frames@, top);
                lemma_stack_ok_prefix(before);
            }
            let ghost bound = stack_weight(before);
            let ghost b_before = bottom_acc(before);
            let walked = self.walk_one(top, say, Ghost(bound));
            match walked {
                Walk::Go(more) => {
                    proof {
                        lemma_extends_trans(bottom_acc(old(self).frames@), b_before, bottom_acc(self.frames@));
                    }
                    say = more;
                },
                Walk::Stop(step) => {
                    proof {
                        lemma_extends_trans(
                            bottom_acc(old(self).frames@),
                            b_before,
                            collected(*self, step.request),
                        );
                    }
                    return step;
                },
            }
        }
    }

    /// One move of the walk from the frame `top`, just popped.
    fn walk_one(&mut self, top: Frame, say: Vec<Styled>, Ghost(bound): Ghost<nat>) -> (w: Walk)
        requires
            top is Fields,
            stack_ok(old(self).frames@),
            old(self).phase == FormPhase::Running,
            stack_weight(old(self).frames@) + frame_weight(top) == bound,
            stack_answers(form_outline(old(self).schema), old(self).frames@.push(top), None),
        ensures
            final(self).schema == old(self).schema,
            match w {
                Walk::Go(_) => {
                    &&& extends(bottom_acc(old(self).frames@.push(top)), bottom_acc(final(self).frames@))
                    &&& final(self).frames@.len() > 0
                    &&& final(self).frames@.last() is Fields
                    &&& stack_ok(final(self).frames@)
                    &&& final(self).phase == FormPhase::Running
                    &&& stack_weight(final(self).frames@) < bound
                    &&& stack_answers(form_outline(final(self).schema), final(self).frames@, None)
                },
                Walk::Stop(step) => final(self).step_done(step) && !(step.request matches FormRequest::Finish(
                    Err(_),
                )) && extends(bottom_acc(old(self).frames@.push(top)), collected(*final(self), step.request)),
            },
    {
        let ghost popped = top;
        match top {
                Frame::Fields { key, top, path, total, asked, mut entries, required, acc } => {
                    if entries.len() == 0 {
                        self.close_fields(key, acc, say, Ghost(bound), Ghost(popped))
                    } else {
                        let ghost all = entries@;
                        let (k, f) = entries.remove(0);
                        proof {
                            lemma_forest_first(all);
                            assert(all.drop_first() =~= entries@);
                        }
                        let mut prefix = String::new();
                        let mut name = String::new();
                        if top {
                            push_str(&mut prefix, "[");
                            push_decimal(&mut prefix, if (asked as u64) < u64::MAX { (asked as u64) + 1 } else { u64::MAX });
                            push_str(&mut prefix, "/");
                            push_decimal(&mut prefix, total as u64);
                            push_str(&mut prefix, "] ");
                            push_str(&mut name, k.as_str());
                        } else {
                            push_str(&mut prefix, "    ");
                            push_str(&mut name, path.as_str());
                            push_str(&mut name, ".");
                            push_str(&mut name, k.as_str());
                        }
                        let is_required = contains_text(&required, k.as_str());
                        let next_asked = if asked < usize::MAX {
                            asked + 1
                        } else {
                            asked
                        };
                        let parent = Frame::Fields {
                            key,
                            top,
                            path,
                            total,
                            asked: next_asked,
                            entries,
                            required,
                            acc,
                        };
                        proof {
                            let o = form_outline(self.schema);
                            let rq = views(required@);
                            assert(outline_of(all, rq)[0] == (
                                k@,
                                must_answer(f, rq.contains(k@)),
                                f.kind@,
                                is_datetime(f),
                            ));
                            if self.frames@.len() == 0 {
                                assert(self.frames@.push(popped) =~= seq![popped]);
                                assert(self.frames@.push(parent) =~= seq![parent]);
                                assert(outline_of(entries@, rq) =~= outline_of(all, rq).drop_first());
                                assert(o.skip(asked + 1) =~= o.skip(asked as int).drop_first());
                                assert(o.skip(asked as int)[0] == o[asked as int]);
                                assert(next_asked == asked + 1);
                            } else {
                                lemma_stack_answers_same(
                                    o,
                                    self.frames@.push(popped),
                                    None,
                                    self.frames@.push(parent),
                                    Some(k@),
                                );
                            }
                        }
                        self.open_field(parent, k, f, prefix, name, is_required, say, Ghost(bound))
                    }
                },
                Frame::List { .. } => {
                    proof {
                        assert(false);
                    }
                    Walk::Stop(self.finish(say, Err(Error::Parse(String::new()))))
                },
            }
    }

    /// The fields on top (already popped) are complete: hand their value to
    /// the level below.
    #[verifier::rlimit(100)]
    fn close_fields(
        &mut self,
        key: Option<String>,
        acc: Vec<(String, FieldValue)>,
        say: Vec<Styled>,
        Ghost(bound): Ghost<nat>,
        Ghost(popped): Ghost<Frame>,
    ) -> (w: Walk)
        requires
            stack_ok(old(self).frames@),
            old(self).phase == FormPhase::Running,
            stack_weight(old(self).frames@) < bound,
            popped matches Frame::Fields { key: pk, acc: pa, entries: pe, .. } && pk == key && pa
                == acc && pe@.len() == 0,
            stack_answers(form_outline(old(self).schema), old(self).frames@.push(popped), None),
        ensures
            final(self).schema == old(self).schema,
            match w {
                Walk::Go(_) => {
                    &&& extends(bottom_acc(old(self).frames@.push(popped)), bottom_acc(final(self).frames@))
                    &&& final(self).frames@.len() > 0
                    &&& final(self).frames@.last() is Fields
                    &&& stack_ok(final(self).frames@)
                    &&& final(self).phase == FormPhase::Running
                    &&& stack_weight(final(self).frames@) < bound
                    &&& stack_answers(form_outline(final(self).schema), final(self).frames@, None)
                },
                Walk::Stop(step) => final(self).step_done(step) && !(step.request matches FormRequest::Finish(
                    Err(_),
                )) && extends(bottom_acc(old(self).frames@.push(popped)), collected(*final(self), step.request)),
            },
    {
        if self.frames.len() == 0 {
            proof {
                let o = form_outline(self.schema);
                assert(self.frames@.push(popped) =~= seq![popped]);
                let asked = popped->asked;
                assert(outline_of(popped->entries@, views(popped->required@)).len() == 0);
                assert(o.take(asked as int) =~= o);
                assert(bottom_acc(old(self).frames@.push(popped)) == entries_of(acc@));
                lemma_extends_refl(entries_of(acc@));
            }
            return Walk::Stop(self.finish(say, Ok(acc)));
        }
        let ghost child_acc = acc@;
        let value = FieldValue::Fields(acc);
        let ghost gv = value;
        let ghost rest = self.frames@;
        let parent = self.frames.pop().unwrap();
        proof {
            assert(rest == self.frames@.push(parent));
            lemma_stack_ok_prefix(rest);
            lemma_stack_weight_push(self.frames@, parent);
        }
        match parent {
            Frame::Fields { key: pk, top, path, total, asked, entries, required, mut acc } => {
                let ghost acc_before = acc@;
                match key {
                    Some(k) => acc.push((k, value)),
                    None => {},
                }
                let back = Frame::Fields { key: pk, top, path, total, asked, entries, required, acc };
                proof {
                    lemma_stack_weight_push(self.frames@, back);
                    lemma_stack_ok_push(self.frames@, back);
                    let o = form_outline(self.schema);
                    if self.frames@.len() == 0 {
                        assert(rest.push(popped) =~= seq![parent, popped]);
                        assert(self.frames@.push(back) =~= seq![back]);
                        let k = key->0;
                        lemma_kinds_differ();
                        assert(child_fits(o, rest.push(popped)[0], rest.push(popped)[1]));
                        assert(o[asked - 1].2 == "object"@);
                        assert(value_fits(o[asked - 1].2, o[asked - 1].3, gv));
                        assert(entries_of(acc@) =~= entries_of(acc_before).push((k@, gv)));
                        lemma_answered_take(entries_of(acc_before), o, asked - 1, (k@, gv));
                        assert(answered(entries_of(acc@), o.take(asked as int)));
                        assert(bottom_acc(old(self).frames@.push(popped)) == entries_of(acc_before));
                        lemma_extends_push(entries_of(acc_before), (k@, gv));
                    } else {
                        assert(rest.push(popped)[0] == self.frames@.push(back)[0]);
                        if self.frames@.len() == 1 {
                            assert(rest.push(popped)[1] == parent);
                            assert(self.frames@.push(back)[1] == back);
                        } else {
                            assert(rest.push(popped)[1] == self.frames@.push(back)[1]);
                        }
                        lemma_stack_answers_same(o, rest.push(popped), None, self.frames@.push(back), None);
                        assert(bottom_acc(old(self).frames@.push(popped)) == bottom_acc(self.frames@.push(back)));
                        lemma_extends_refl(bottom_acc(self.frames@.push(back)));
                    }
                }
                self.frames.push(back);
                Walk::Go(say)
            },
            Frame::List { list_key: lk, name, item_fields, mut items } => {
                items.push(value);
                let back = Frame::List { list_key: lk, name: name.clone(), item_fields, items };
                self.frames.push(back);
                proof {
                    assert(self.frames@ == rest.drop_last().push(back));
                    assert(rest.last() is List);
                    assert(rest.len() >= 2);
                    assert forall|i: int| 1 <= i < self.frames@.len() && (#[trigger] self.frames@[i]) is List
                        implies self.frames@[i - 1] is Fields by {
                        assert(self.frames@[i - 1] == rest[i - 1]);
                        if i < self.frames@.len() - 1 {
                            assert(self.frames@[i] == rest[i]);
                        }
                    }
                    assert(self.frames@[0] == rest[0]);
                    let o = form_outline(self.schema);
                    assert(rest.push(popped)[0] == self.frames@[0]);
                    if self.frames@.len() == 2 {
                        assert(rest.push(popped)[1] == parent);
                    } else {
                        assert(rest.push(popped)[1] == self.frames@[1]);
                    }
                    lemma_stack_answers_same(o, rest.push(popped), None, self.frames@, None);
                    assert(bottom_acc(old(self).frames@.push(popped)) == bottom_acc(self.frames@));
                    lemma_extends_refl(bottom_acc(self.frames@));
                }
                Walk::Stop(self.ask_more(say, name.as_str(), false))
            },
        }
    }

    /// Start on the field `key` (schema `f`); `parent` is the fields frame it
    /// was taken from, to go back on the stack.
    #[verifier::rlimit(100)]
    fn open_field(
        &mut self,
        parent: Frame,
        k: String,
        f: FieldSchema,
        prefix: String,
        name: String,
        is_required: bool,
        say: Vec<Styled>,
        Ghost(bound): Ghost<nat>,
    ) -> (w: Walk)
        requires
            stack_ok(old(self).frames@),
            parent is Fields,
            old(self).phase == FormPhase::Running,
            stack_weight(old(self).frames@) + frame_weight(parent) + 2 * node_size(f) == bound,
            stack_answers(form_outline(old(self).schema), old(self).frames@.push(parent), Some(k@)),
            old(self).frames@.len() == 0 ==> (parent matches Frame::Fields { asked, .. } && form_outline(
                old(self).schema,
            )[asked - 1] == (k@, must_answer(f, is_required), f.kind@, is_datetime(f))),
        ensures
            final(self).schema == old(self).schema,
            match w {
                Walk::Go(_) => {
                    &&& extends(bottom_acc(old(self).frames@.push(parent)), bottom_acc(final(self).frames@))
                    &&& final(self).frames@.len() > 0
                    &&& final(self).frames@.last() is Fields
                    &&& stack_ok(final(self).frames@)
                    &&& final(self).phase == FormPhase::Running
                    &&& stack_weight(final(self).frames@) < bound
                    &&& stack_answers(form_outline(final(self).schema), final(self).frames@, None)
                },
                Walk::Stop(step) => final(self).step_done(step) && !(step.request matches FormRequest::Finish(
                    Err(_),
                )) && extends(bottom_acc(old(self).frames@.push(parent)), collected(*final(self), step.request)),
            },
    {
        let mut say = say;
        proof {
            lemma_stack_ok_push(self.frames@, parent);
            lemma_stack_weight_push(self.frames@, parent);
        }
        let ghost base = self.frames@;
        self.frames.push(parent);
        let ghost b0 = bottom_acc(self.frames@);
        proof {
            lemma_extends_refl(b0);
        }
        if str_eq(f.kind.as_str(), "array") {
            say.push(name_line(prefix.as_str(), name.as_str(), false));
            let object_items = match &f.items {
                Some(it) => str_eq(it.kind.as_str(), "object"),
                None => false,
            };
            let ghost with_parent = self.frames@;
            if object_items {
                let fields = match f.items {
                    Some(it) => {
                        let it = *it;
                        let props = match it.properties {
                            Some(ps) => ps,
                            None => Vec::new(),
                        };
                        (props, it.required)
                    },
                    None => (Vec::new(), Vec::new()),
                };
                self.frames.push(
                    Frame::List { list_key: k, name: name.clone(), item_fields: Some(fields), items: Vec::new() },
                );
                proof {
                    assert forall|i: int| 1 <= i < self.frames@.len() && (#[trigger] self.frames@[i]) is List
                        implies self.frames@[i - 1] is Fields by {
                        if i < self.frames@.len() - 1 {
                            assert(self.frames@[i] == with_parent[i]);
                        }
                        assert(self.frames@[i - 1] == with_parent[i - 1]);
                    }
                    assert(self.frames@[0] == with_parent[0]);
                    assert(bottom_acc(self.frames@) == b0);
                }
                return Walk::Stop(self.ask_more(say, name.as_str(), true));
            } else {
                let mut h = String::new();
                push_str(&mut h, "  ");
                push_str(&mut h, name.as_str());
                push_str(&mut h, ": enter items one per line; empty line to finish.");
                say.push(painted(Style::Hint, h));
                self.frames.push(Frame::List { list_key: k, name: name.clone(), item_fields: None, items: Vec::new() });
                proof {
                    assert forall|i: int| 1 <= i < self.frames@.len() && (#[trigger] self.frames@[i]) is List
                        implies self.frames@[i - 1] is Fields by {
                        if i < self.frames@.len() - 1 {
                            assert(self.frames@[i] == with_parent[i]);
                        }
                        assert(self.frames@[i - 1] == with_parent[i - 1]);
                    }
                    assert(self.frames@[0] == with_parent[0]);
                    assert(bottom_acc(self.frames@) == b0);
                }
                return Walk::Stop(self.ask_item(say, name.as_str(), 0));
            }
        }
        if str_eq(f.kind.as_str(), "object") {
            say.push(name_line(prefix.as_str(), name.as_str(), false));
            let child = match f.properties {
                Some(ps) => ps,
                None => Vec::new(),
            };
            let n = child.len();
            let frame = Frame::Fields {
                key: Some(k),
                top: false,
                path: name,
                total: n,
                asked: 0,
                entries: child,
                required: f.required,
                acc: Vec::new(),
            };
            proof {
                lemma_stack_ok_push(self.frames@, frame);
                lemma_stack_weight_push(self.frames@, frame);
            }
            let ghost with_parent = self.frames@;
            self.frames.push(frame);
            proof {
                assert(self.frames@[0] == with_parent[0]);
                assert(bottom_acc(self.frames@) == b0);
            }
            return Walk::Go(say);
        }
        let is_datetime = match &f.format {
            Some(fm) => str_eq(fm.as_str(), "datetime"),
            None => false,
        };
        if is_datetime {
            say.push(name_line(prefix.as_str(), name.as_str(), is_required));
            let mut prompt = DatetimePrompt::new();
            let st = prompt.step(PromptEvent::Begin);
            self.active = Active::Datetime { key: k, clock: prompt };
            let mut more = st.say;
            say.append(&mut more);
            return Walk::Stop(FormStep { say, request: FormRequest::Timestamp });
        }
        let spec = ScalarSpec {
            kind: f.kind,
            format: f.format,
            pattern: f.pattern,
            min_length: f.min_length,
            minimum: f.minimum,
            maximum: f.maximum,
            enum_vals: f.enum_vals,
        };
        let mut prompt = ScalarPrompt::new(prefix, name, is_required, spec);
        let st = prompt.step(ScalarEvent::Begin);
        let mut more = st.say;
        say.append(&mut more);
        match st.request {
            ScalarRequest::ReadLine(q) => {
                self.active = Active::Scalar { key: k, prompt };
                Walk::Stop(FormStep { say, request: FormRequest::ReadLine(q) })
            },
            _ => {
                proof {
                    assert(false);
                }
                Walk::Stop(self.finish(say, Err(Error::Parse(String::new()))))
            },
        }
    }

    /// Store `value` under `key` in the fields on top.
    fn store(&mut self, key: String, value: FieldValue)
        requires
            old(self).frames@.len() > 0,
            old(self).frames@.last() is Fields,
            stack_ok(old(self).frames@),
            stack_answers(form_outline(old(self).schema), old(self).frames@, Some(key@)),
            old(self).frames@.len() == 1 ==> (old(self).frames@[0] matches Frame::Fields { asked, .. }
                && value_fits(
                form_outline(old(self).schema)[asked - 1].2,
                form_outline(old(self).schema)[asked - 1].3,
                value,
            )),
        ensures
            final(self).frames@.len() == old(self).frames@.len(),
            final(self).frames@.last() is Fields,
            stack_ok(final(self).frames@),
            final(self).phase == old(self).phase,
            final(self).active == old(self).active,
            final(self).schema == old(self).schema,
            stack_answers(form_outline(final(self).schema), final(self).frames@, None),
            final(self).frames@.len() == 1 ==> bottom_acc(final(self).frames@) == bottom_acc(
                old(self).frames@,
            ).push((key@, value)),
            final(self).frames@.len() > 1 ==> bottom_acc(final(self).frames@) == bottom_acc(
                old(self).frames@,
            ),
    {
        let ghost before = self.frames@;
        let top = self.frames.pop().unwrap();
        match top {
            Frame::Fields { key: k, top, path, total, asked, entries, required, mut acc } => {
                let ghost acc_before = acc@;
                let ghost kv = key@;
                let ghost gv = value;
                acc.push((key, value));
                self.frames.push(Frame::Fields { key: k, top, path, total, asked, entries, required, acc });
                proof {
                    let o = form_outline(self.schema);
                    if before.len() == 1 {
                        assert(entries_of(acc@) =~= entries_of(acc_before).push((kv, gv)));
                        lemma_answered_take(entries_of(acc_before), o, asked - 1, (kv, gv));
                        assert(self.frames@ =~= seq![self.frames@[0]]);
                    } else {
                        assert(before[0] == self.frames@[0]);
                        if before.len() == 2 {
                            assert(child_key(before[1]) == child_key(self.frames@[1]));
                        } else {
                            assert(before[1] == self.frames@[1]);
                        }
                        lemma_stack_answers_same(o, before, Some(kv), self.frames@, None);
                    }
                    assert(self.frames@.drop_last() == before.drop_last());
                    assert forall|i: int| 1 <= i < self.frames@.len() && (#[trigger] self.frames@[i]) is List
                        implies self.frames@[i - 1] is Fields by {
                        if i < self.frames@.len() - 1 {
                            assert(self.frames@[i] == before[i]);
                            assert(self.frames@[i - 1] == before[i - 1]);
                        }
                    }
                    if self.frames@.len() > 1 {
                        assert(self.frames@[0] == before[0]);
                    }
                }
            },
            Frame::List { .. } => {
                proof {
                    assert(false);
                }
            },
        }
    }

    fn after_scalar(
        &mut self,
        key: String,
        prompt: ScalarPrompt,
        say: Vec<Styled>,
        request: ScalarRequest,
    ) -> (step: FormStep)
        requires
            old(self).frames@.len() > 0,
            old(self).frames@.last() is Fields,
            stack_ok(old(self).frames@),
            old(self).phase == FormPhase::Running,
            prompt.wf(),
            request is Finish <==> prompt.phase == ScalarPhase::Finished,
            request is ReadLine ==> prompt.phase == ScalarPhase::AwaitLine,
            request is CheckRange ==> prompt.phase == ScalarPhase::AwaitRange,
            prompt.phase != ScalarPhase::Start,
            stack_answers(form_outline(old(self).schema), old(self).frames@, Some(key@)),
            old(self).frames@.len() == 1 ==> (old(self).frames@[0] matches Frame::Fields { asked, .. }
                && form_outline(old(self).schema)[asked - 1].1 == prompt.required && scalar_slot(
                form_outline(old(self).schema)[asked - 1],
                prompt.spec.kind@,
            )),
            request matches ScalarRequest::Finish(Ok(None)) ==> !prompt.required,
            request matches ScalarRequest::Finish(Ok(Some(v))) ==> scalar_fits(prompt.spec.kind@, v),
        ensures
            final(self).step_done(step),
            final(self).schema == old(self).schema,
            extends(bottom_acc(old(self).frames@), collected(*final(self), step.request)),
            old(self).frames@.len() == 1 ==> (request matches ScalarRequest::Finish(Ok(Some(v)))
                ==> extends(
                bottom_acc(old(self).frames@).push((key@, v)),
                collected(*final(self), step.request),
            )),
    {
        let ghost b0 = bottom_acc(self.frames@);
        proof {
            lemma_extends_refl(b0);
        }
        match request {
            ScalarRequest::ReadLine(q) => {
                self.active = Active::Scalar { key, prompt };
                FormStep { say, request: FormRequest::ReadLine(q) }
            },
            ScalarRequest::CheckRange(p) => {
                self.active = Active::Scalar { key, prompt };
                FormStep { say, request: FormRequest::CheckRange(p) }
            },
            ScalarRequest::Finish(Err(e)) => self.finish(say, Err(e)),
            ScalarRequest::Finish(Ok(v)) => {
                match v {
                    Some(value) => {
                        let ghost kv = key@;
                        let ghost gv = value;
                        let single = self.frames.len() == 1;
                        self.store(key, value);
                        let ghost b1 = bottom_acc(self.frames@);
                        let st = self.advance(say);
                        proof {
                            let c = collected(*self, st.request);
                            if single {
                                lemma_extends_push(b0, (kv, gv));
                                lemma_extends_trans(b0, b1, c);
                            }
                        }
                        return st;
                    },
                    None => {
                        proof {
                            let o = form_outline(self.schema);
                            if self.frames@.len() == 1 {
                                let fr = self.frames@[0];
                                lemma_answered_take(
                                    entries_of(fr->acc@),
                                    o,
                                    fr->asked - 1,
                                    (key@, FieldValue::Bool(false)),
                                );
                            }
                        }
                    },
                }
                self.advance(say)
            },
        }
    }

    fn after_datetime(
        &mut self,
        key: String,
        prompt: DatetimePrompt,
        say: Vec<Styled>,
        request: PromptRequest,
    ) -> (step: FormStep)
        requires
            old(self).frames@.len() > 0,
            old(self).frames@.last() is Fields,
            stack_ok(old(self).frames@),
            old(self).phase == FormPhase::Running,
            prompt.wf(),
            request is Finish <==> prompt.phase == DatetimePhase::Finished,
            request is Timestamp ==> prompt.phase == DatetimePhase::AwaitTimestamp,
            request is ReadLine ==> (prompt.phase == DatetimePhase::Plain || prompt.phase
                == DatetimePhase::AwaitChoice || prompt.phase is AwaitComponent),
            prompt.phase != DatetimePhase::Start,
            stack_answers(form_outline(old(self).schema), old(self).frames@, Some(key@)),
            old(self).frames@.len() == 1 ==> (old(self).frames@[0] matches Frame::Fields { asked, .. }
                && datetime_slot(form_outline(old(self).schema)[asked - 1])),
        ensures
            final(self).step_done(step),
            final(self).schema == old(self).schema,
            extends(bottom_acc(old(self).frames@), collected(*final(self), step.request)),
            old(self).frames@.len() == 1 ==> (request matches PromptRequest::Finish(Ok(v)) ==> extends(
                bottom_acc(old(self).frames@).push((key@, FieldValue::Text(v))),
                collected(*final(self), step.request),
            )),
    {
        let ghost b0 = bottom_acc(self.frames@);
        proof {
            lemma_extends_refl(b0);
        }
        match request {
            PromptRequest::ReadLine(q) => {
                self.active = Active::Datetime { key, clock: prompt };
                FormStep { say, request: FormRequest::ReadLine(q) }
            },
            PromptRequest::Timestamp => {
                self.active = Active::Datetime { key, clock: prompt };
                FormStep { say, request: FormRequest::Timestamp }
            },
            PromptRequest::Finish(Err(e)) => self.finish(say, Err(e)),
            PromptRequest::Finish(Ok(v)) => {
                let mut say = say;
                let mut m = String::new();
                push_str(&mut m, "    ✓ ");
                push_str(&mut m, v.as_str());
                say.push(painted(Style::Success, m));
                let ghost kv = key@;
                let ghost gv = FieldValue::Text(v);
                let single = self.frames.len() == 1;
                self.store(key, FieldValue::Text(v));
                let ghost b1 = bottom_acc(self.frames@);
                let st = self.advance(say);
                proof {
                    let c = collected(*self, st.request);
                    if single {
                        lemma_extends_push(b0, (kv, gv));
                        lemma_extends_trans(b0, b1, c);
                    }
                }
                st
            },
        }
    }

    /// The array on top is complete: store it in the fields below and walk on.
    #[verifier::rlimit(100)]
    fn close_list(&mut self, say: Vec<Styled>) -> (step: FormStep)
        requires
            old(self).frames@.len() > 1,
            old(self).frames@.last() is List,
            stack_ok(old(self).frames@),
            old(self).phase == FormPhase::Running,
            stack_answers(form_outline(old(self).schema), old(self).frames@, None),
        ensures
            final(self).step_done(step),
            final(self).schema == old(self).schema,
            extends(bottom_acc(old(self).frames@), collected(*final(self), step.request)),
    {
        let ghost before = self.frames@;
        let top = self.frames.pop().unwrap();
        proof {
            assert(self.frames@ == before.drop_last());
            assert(before[before.len() - 1] is List);
            assert(self.frames@.last() == before[before.len() - 2]);
            assert forall|i: int| 1 <= i < self.frames@.len() && (#[trigger] self.frames@[i]) is List
                implies self.frames@[i - 1] is Fields by {
                assert(self.frames@[i] == before[i]);
                assert(self.frames@[i - 1] == before[i - 1]);
            }
        }
        match top {
            Frame::List { list_key: key, items, .. } => {
                let ghost b0 = bottom_acc(before);
                let ghost kv = key@;
                let ghost gv = FieldValue::List(items);
                assert(bottom_acc(self.frames@) == b0);
                let ghost single = self.frames@.len() == 1;
                self.store(key, FieldValue::List(items));
                let ghost b1 = bottom_acc(self.frames@);
                let st = self.advance(say);
                proof {
                    if single {
                        lemma_extends_push(b0, (kv, gv));
                    } else {
                        lemma_extends_refl(b0);
                    }
                    lemma_extends_trans(b0, b1, collected(*self, st.request));
                }
                st
            },
            Frame::Fields { .. } => {
                proof {
                    assert(false);
                }
                self.finish(say, Err(Error::Parse(String::new())))
            },
        }
    }

    /// The answer to "Add another entry?".
    fn more_items(&mut self, answer: String) -> (step: FormStep)
        requires
            old(self).frames@.len() > 1,
            old(self).frames@.last() is List,
            stack_ok(old(self).frames@),
            old(self).phase == FormPhase::Running,
            stack_answers(form_outline(old(self).schema), old(self).frames@, None),
        ensures
            final(self).step_done(step),
            final(self).schema == old(self).schema,
            extends(bottom_acc(old(self).frames@), collected(*final(self), step.request)),
    {
        let l = to_lowercase(answer.as_str());
        if !(str_eq(l.as_str(), "y") || str_eq(l.as_str(), "yes")) {
            return self.close_list(Vec::new());
        }
        let ghost before = self.frames@;
        let fresh = match &self.frames[self.frames.len() - 1] {
            Frame::List { name, item_fields, .. } => {
                let (props, req) = match item_fields {
                    Some((p, r)) => (copy_fields(p), copy_texts(r)),
                    None => (Vec::new(), Vec::new()),
                };
                let n = props.len();
                Frame::Fields {
                    key: None,
                    top: false,
                    path: name.clone(),
                    total: n,
                    asked: 0,
                    entries: props,
                    required: req,
                    acc: Vec::new(),
                }
            },
            Frame::Fields { .. } => {
                proof {
                    assert(false);
                }
                return self.finish(Vec::new(), Err(Error::Parse(String::new())));
            },
        };
        self.frames.push(fresh);
        proof {
            assert forall|i: int| 1 <= i < self.frames@.len() && (#[trigger] self.frames@[i]) is List
                implies self.frames@[i - 1] is Fields by {
                assert(self.frames@[i] == before[i]);
                assert(self.frames@[i - 1] == before[i - 1]);
            }
            assert(self.frames@[0] == before[0]);
        }
        self.advance(Vec::new())
    }

    /// The next line of a string array: empty ends it.
    #[verifier::rlimit(100)]
    fn next_item(&mut self, item: String) -> (step: FormStep)
        requires
            old(self).frames@.len() > 1,
            old(self).frames@.last() is List,
            stack_ok(old(self).frames@),
            old(self).phase == FormPhase::Running,
            stack_answers(form_outline(old(self).schema), old(self).frames@, None),
        ensures
            final(self).step_done(step),
            final(self).schema == old(self).schema,
            extends(bottom_acc(old(self).frames@), collected(*final(self), step.request)),
    {
        if str_eq(item.as_str(), "") {
            return self.close_list(Vec::new());
        }
        let ghost before = self.frames@;
        let top = self.frames.pop().unwrap();
        match top {
            Frame::List { list_key: key, name, item_fields, mut items } => {
                items.push(FieldValue::Text(item));
                let n = items.len();
                self.frames.push(Frame::List { list_key: key, name: name.clone(), item_fields, items });
                proof {
                    assert(self.frames@.drop_last() == before.drop_last());
                    assert forall|i: int| 1 <= i < self.frames@.len() && (#[trigger] self.frames@[i]) is List
                        implies self.frames@[i - 1] is Fields by {
                        if i < self.frames@.len() - 1 {
                            assert(self.frames@[i] == before[i]);
                        }
                        assert(self.frames@[i - 1] == before[i - 1]);
                    }
                    assert(self.frames@[0] == before[0]);
                }
                proof {
                    assert(bottom_acc(self.frames@) == bottom_acc(before));
                    lemma_extends_refl(bottom_acc(before));
                }
                self.ask_item(Vec::new(), name.as_str(), n)
            },
            Frame::Fields { .. } => {
                proof {
                    assert(false);
                }
                self.finish(Vec::new(), Err(Error::Parse(String::new())))
            },
        }
    }

    /// The request can be answered: the form accepts every answer of its kind.
    pub open spec fn next_accepted(&self, r: FormRequest) -> bool {
        &&& r is ReadLine ==> forall|l: Result<String, Error>| #[trigger] self.accepts(FormEvent::Line(l))
        &&& r is Timestamp ==> forall|t: String| #[trigger] self.accepts(FormEvent::Timestamp(t))
        &&& r is CheckRange ==> forall|v: RangeVerdict| #[trigger] self.accepts(FormEvent::Range(v))
    }
}

} // verus!
