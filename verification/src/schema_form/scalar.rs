//! One scalar field (string, number, integer, boolean): ask until the answer
//! is valid, or until an optional field is skipped.
use vstd::prelude::*;

use crate::error::Error;
use crate::ports::Style;
use crate::schema_form::datetime::{failure, hint, styled_views};
use crate::schema_form::fields::{
    build_hint, bool_answer, field_prompt, field_prompt_view, hint_items, hint_text, opt_seq,
    painted, parse_bool, resolve_enum, resolved_enum, string_check, styled_view,
    validate_string_input, Styled,
};
use crate::text::{
    decimal, float_text, is_float_text, parse_i64, push_decimal, push_str, signed_text, str_eq,
    views,
};

verus! {

/// A collected answer.
#[derive(Debug)]
pub enum FieldValue {
    Text(String),
    /// A number, as typed (it parses as a floating-point number).
    Number(String),
    Integer(i64),
    Bool(bool),
    List(Vec<FieldValue>),
    /// Fields in the order they were asked.
    Fields(Vec<(String, FieldValue)>),
}

/// What a scalar field allows.
#[derive(Debug)]
pub struct ScalarSpec {
    /// The schema `type` (`string` when absent).
    pub kind: String,
    pub format: Option<String>,
    pub pattern: Option<String>,
    pub min_length: Option<u64>,
    /// The bounds as they are displayed.
    pub minimum: Option<String>,
    pub maximum: Option<String>,
    pub enum_vals: Option<Vec<String>>,
}

/// How a number compares with the field's bounds.
#[derive(Debug)]
pub struct RangeVerdict {
    /// There is a minimum and the number is below it.
    pub below_minimum: bool,
    /// There is a maximum and the number is above it.
    pub above_maximum: bool,
}

/// A number waiting for its range check.
#[derive(Debug)]
pub enum Pending {
    Number(String),
    Integer(i64),
}

#[derive(Clone, Copy, Debug, PartialEq, Eq, Structural)]
pub enum ScalarPhase {
    Start,
    AwaitLine,
    AwaitRange,
    Finished,
}

#[derive(Debug)]
pub enum ScalarEvent {
    Begin,
    Line(Result<String, Error>),
    Range(RangeVerdict),
}

#[derive(Debug)]
pub enum ScalarRequest {
    ReadLine(Styled),
    /// Compare this number with the field's bounds.
    CheckRange(Pending),
    /// The value, or `None` for a skipped optional field.
    Finish(Result<Option<FieldValue>, Error>),
}

#[derive(Debug)]
pub struct ScalarStep {
    pub say: Vec<Styled>,
    pub request: ScalarRequest,
}

/// One scalar field being asked.
#[derive(Debug)]
pub struct ScalarPrompt {
    pub prefix: String,
    pub name: String,
    pub required: bool,
    pub spec: ScalarSpec,
    pub hint: String,
    pub phase: ScalarPhase,
    pub pending: Option<Pending>,
}

pub open spec fn enum_view(e: Option<Vec<String>>) -> Option<Seq<Seq<char>>> {
    match e {
        Some(v) => Some(views(v@)),
        None => None,
    }
}

pub open spec fn sopt(o: Option<String>) -> Option<Seq<char>> {
    match o {
        Some(s) => Some(s@),
        None => None,
    }
}

/// The field's hint.
pub open spec fn field_hint(spec: ScalarSpec, required: bool) -> Seq<char> {
    hint_text(
        hint_items(
            sopt(spec.format),
            sopt(spec.pattern),
            sopt(spec.minimum),
            sopt(spec.maximum),
            enum_view(spec.enum_vals),
            required,
        ),
    )
}

/// The numbered options of an enum field.
pub open spec fn option_lines(vals: Option<Seq<Seq<char>>>) -> Seq<Seq<(Option<Style>, Seq<char>)>> {
    match vals {
        Some(vs) => Seq::new(vs.len(), |i: int| hint("    "@ + decimal((i + 1) as nat) + ". "@ + vs[i])),
        None => seq![],
    }
}

/// What an answer leads to.
pub enum Answer {
    /// Skip the optional field.
    Skip,
    /// Ask again after showing this message.
    Retry(Seq<char>),
    /// Accept the answer as text.
    Text,
    Bool(bool),
    /// A number, to be checked against the bounds.
    Number,
    /// A whole number, to be checked against the bounds.
    Integer(int),
    /// The schema itself is broken.
    Fail(Seq<char>),
}

/// The value a scalar field of type `kind` is stored as: a number, a whole
/// number, a yes/no, or else text.
pub open spec fn scalar_fits(kind: Seq<char>, v: FieldValue) -> bool {
    if kind == "number"@ {
        v is Number
    } else if kind == "integer"@ {
        v is Integer
    } else if kind == "boolean"@ {
        v is Bool
    } else {
        v is Text
    }
}

impl ScalarSpec {
    pub open spec fn has_bounds(self) -> bool {
        self.minimum is Some || self.maximum is Some
    }
}

/// The outcome of the (enum-resolved) answer `input`.
pub open spec fn answer_of(spec: ScalarSpec, name: Seq<char>, required: bool, input: Seq<char>) -> Answer {
    if input.len() == 0 {
        if required {
            Answer::Retry("    ✗ '"@ + name + "' is required"@)
        } else {
            Answer::Skip
        }
    } else if spec.kind@ == "number"@ {
        if !float_text(input) {
            Answer::Retry("    ✗ Please enter a valid number."@)
        } else {
            Answer::Number
        }
    } else if spec.kind@ == "integer"@ {
        match signed_text(input) {
            Some(n) => if i64::MIN <= n <= i64::MAX {
                Answer::Integer(n)
            } else {
                Answer::Retry("    ✗ Please enter a whole number."@)
            },
            None => Answer::Retry("    ✗ Please enter a whole number."@),
        }
    } else if spec.kind@ == "boolean"@ {
        match bool_answer(input) {
            Some(b) => Answer::Bool(b),
            None => Answer::Retry("    ✗ enter y/n"@),
        }
    } else {
        match string_check(input, spec.min_length, sopt(spec.pattern), enum_view(spec.enum_vals), sopt(spec.format)) {
            Err(m) => Answer::Fail(m),
            Ok(Some(m)) => Answer::Retry("    ✗ "@ + m),
            Ok(None) => Answer::Text,
        }
    }
}

impl ScalarPrompt {
    pub open spec fn accepts(&self, e: ScalarEvent) -> bool {
        match (self.phase, e) {
            (ScalarPhase::Start, ScalarEvent::Begin) => true,
            (ScalarPhase::AwaitLine, ScalarEvent::Line(_)) => true,
            (ScalarPhase::AwaitRange, ScalarEvent::Range(_)) => true,
            _ => false,
        }
    }

    pub open spec fn wf(&self) -> bool {
        &&& self.hint@ == field_hint(self.spec, self.required)
        &&& (self.phase == ScalarPhase::AwaitRange <==> self.pending is Some)
        &&& (self.pending matches Some(Pending::Integer(_)) ==> self.spec.kind@ == "integer"@)
        &&& (self.pending matches Some(Pending::Number(_)) ==> self.spec.kind@ == "number"@)
    }

    /// The prompt each read shows.
    pub open spec fn prompt_view(&self) -> Seq<(Option<Style>, Seq<char>)> {
        field_prompt_view(self.prefix@, self.name@, self.required, self.hint@)
    }

    /// The field `name` with the given constraints.
    pub fn new(prefix: String, name: String, required: bool, spec: ScalarSpec) -> (m: ScalarPrompt)
        ensures
            m.phase == ScalarPhase::Start,
            m.prefix == prefix,
            m.name == name,
            m.required == required,
            m.spec == spec,
            m.wf(),
    {
        let hint = build_hint(
            match &spec.format {
                Some(f) => Some(f.as_str()),
                None => None,
            },
            match &spec.pattern {
                Some(p) => Some(p.as_str()),
                None => None,
            },
            match &spec.minimum {
                Some(m) => Some(m.as_str()),
                None => None,
            },
            match &spec.maximum {
                Some(m) => Some(m.as_str()),
                None => None,
            },
            match &spec.enum_vals {
                Some(v) => Some(v),
                None => None,
            },
            required,
        );
        ScalarPrompt { prefix, name, required, spec, hint, phase: ScalarPhase::Start, pending: None }
    }

    fn ask(&mut self, say: Vec<Styled>) -> (step: ScalarStep)
        requires
            old(self).wf(),
            old(self).phase != ScalarPhase::AwaitRange,
        ensures
            final(self).wf(),
            final(self).phase == ScalarPhase::AwaitLine,
            final(self).prefix == old(self).prefix,
            final(self).name == old(self).name,
            final(self).required == old(self).required,
            final(self).spec == old(self).spec,
            final(self).hint == old(self).hint,
            step.say == say,
            step.request matches ScalarRequest::ReadLine(q) && styled_view(q) == old(self).prompt_view(),
    {
        self.phase = ScalarPhase::AwaitLine;
        let q = field_prompt(self.prefix.as_str(), self.name.as_str(), self.required, self.hint.as_str());
        ScalarStep { say, request: ScalarRequest::ReadLine(q) }
    }

    fn retry(&mut self, msg: String) -> (step: ScalarStep)
        requires
            old(self).wf(),
            old(self).phase != ScalarPhase::AwaitRange,
        ensures
            final(self).wf(),
            final(self).phase == ScalarPhase::AwaitLine,
            final(self).prefix == old(self).prefix,
            final(self).name == old(self).name,
            final(self).required == old(self).required,
            final(self).spec == old(self).spec,
            styled_views(step.say@) == seq![failure(msg@)],
            step.request matches ScalarRequest::ReadLine(q) && styled_view(q) == old(self).prompt_view(),
    {
        let mut say: Vec<Styled> = Vec::new();
        say.push(painted(Style::Error, msg));
        self.ask(say)
    }

    fn finish(&mut self, r: Result<Option<FieldValue>, Error>) -> (step: ScalarStep)
        requires
            old(self).hint@ == field_hint(old(self).spec, old(self).required),
        ensures
            final(self).wf(),
            final(self).phase == ScalarPhase::Finished,
            final(self).pending is None,
            final(self).prefix == old(self).prefix,
            final(self).name == old(self).name,
            final(self).required == old(self).required,
            final(self).spec == old(self).spec,
            final(self).hint == old(self).hint,
            step.say@.len() == 0,
            step.request == ScalarRequest::Finish(r),
    {
        self.phase = ScalarPhase::Finished;
        self.pending = None;
        ScalarStep { say: Vec::new(), request: ScalarRequest::Finish(r) }
    }

    /// Advance by one answer.
    pub fn step(&mut self, event: ScalarEvent) -> (step: ScalarStep)
        requires
            old(self).wf(),
            old(self).accepts(event),
        ensures
            final(self).wf(),
            final(self).prefix == old(self).prefix,
            final(self).name == old(self).name,
            final(self).required == old(self).required,
            final(self).spec == old(self).spec,
            step.request is Finish <==> final(self).phase == ScalarPhase::Finished,
            step.request is ReadLine ==> final(self).phase == ScalarPhase::AwaitLine,
            step.request is CheckRange ==> final(self).phase == ScalarPhase::AwaitRange,
            // A required field is never skipped.
            step.request matches ScalarRequest::Finish(Ok(None)) ==> !old(self).required,
            step.request matches ScalarRequest::Finish(Ok(Some(v))) ==> scalar_fits(
                old(self).spec.kind@,
                v,
            ),
            match (old(self).phase, event) {
                (ScalarPhase::Start, ScalarEvent::Begin) => {
                    &&& final(self).phase == ScalarPhase::AwaitLine
                    &&& styled_views(step.say@) == option_lines(enum_view(old(self).spec.enum_vals))
                    &&& step.request matches ScalarRequest::ReadLine(q) && styled_view(q)
                        == old(self).prompt_view()
                },
                (ScalarPhase::AwaitLine, ScalarEvent::Line(Err(e))) => step.request
                    == ScalarRequest::Finish(Err(e)),
                (ScalarPhase::AwaitLine, ScalarEvent::Line(Ok(raw))) => {
                    let input = resolved_enum(raw@, enum_view(old(self).spec.enum_vals));
                    match answer_of(old(self).spec, old(self).name@, old(self).required, input) {
                        Answer::Skip => step.request == ScalarRequest::Finish(Ok(None)),
                        Answer::Retry(m) => {
                            &&& final(self).phase == ScalarPhase::AwaitLine
                            &&& styled_views(step.say@) == seq![failure(m)]
                            &&& step.request matches ScalarRequest::ReadLine(q) && styled_view(q)
                                == old(self).prompt_view()
                        },
                        Answer::Bool(b) => step.request
                            == ScalarRequest::Finish(Ok(Some(FieldValue::Bool(b)))),
                        Answer::Text => step.request matches ScalarRequest::Finish(
                            Ok(Some(FieldValue::Text(t))),
                        ) && t@ == input,
                        Answer::Integer(n) => if old(self).spec.has_bounds() {
                            &&& final(self).phase == ScalarPhase::AwaitRange
                            &&& step.request matches ScalarRequest::CheckRange(Pending::Integer(k))
                                && k == n
                        } else {
                            step.request matches ScalarRequest::Finish(
                                Ok(Some(FieldValue::Integer(k))),
                            ) && k == n
                        },
                        Answer::Number => if old(self).spec.has_bounds() {
                            &&& final(self).phase == ScalarPhase::AwaitRange
                            &&& step.request matches ScalarRequest::CheckRange(Pending::Number(t))
                                && t@ == input
                        } else {
                            step.request matches ScalarRequest::Finish(
                                Ok(Some(FieldValue::Number(t))),
                            ) && t@ == input
                        },
                        Answer::Fail(m) => step.request matches ScalarRequest::Finish(
                            Err(Error::Parse(t)),
                        ) && t@ == m,
                    }
                },
                (ScalarPhase::AwaitRange, ScalarEvent::Range(v)) => if v.below_minimum
                    && old(self).spec.minimum is Some {
                    &&& final(self).phase == ScalarPhase::AwaitLine
                    &&& styled_views(step.say@) == seq![
                        failure("    ✗ Value must be >= "@ + old(self).spec.minimum->0@),
                    ]
                } else if v.above_maximum && old(self).spec.maximum is Some {
                    &&& final(self).phase == ScalarPhase::AwaitLine
                    &&& styled_views(step.say@) == seq![
                        failure("    ✗ Value must be <= "@ + old(self).spec.maximum->0@),
                    ]
                } else {
                    match old(self).pending {
                        Some(Pending::Integer(n)) => step.request == ScalarRequest::Finish(
                            Ok(Some(FieldValue::Integer(n))),
                        ),
                        Some(Pending::Number(t)) => step.request matches ScalarRequest::Finish(
                            Ok(Some(FieldValue::Number(u))),
                        ) && u@ == t@,
                        None => false,
                    }
                },
                _ => false,
            },
    {
        proof {
            reveal_strlit("number");
            reveal_strlit("integer");
            reveal_strlit("boolean");
        }
        match event {
            ScalarEvent::Begin => {
                let mut say: Vec<Styled> = Vec::new();
                match &self.spec.enum_vals {
                    Some(vals) => {
                        let ghost vs = views(vals@);
                        let mut i: usize = 0;
                        while i < vals.len()
                            invariant
                                i <= vals@.len(),
                                vs == views(vals@),
                                styled_views(say@) == Seq::new(
                                    i as nat,
                                    |k: int| hint("    "@ + decimal((k + 1) as nat) + ". "@ + vs[k]),
                                ),
                            decreases vals.len() - i,
                        {
                            let mut m = String::new();
                            push_str(&mut m, "    ");
                            push_decimal(&mut m, (i as u64) + 1);
                            push_str(&mut m, ". ");
                            push_str(&mut m, vals[i].as_str());
                            let ghost before = styled_views(say@);
                            say.push(painted(Style::Hint, m));
                            proof {
                                assert(styled_views(say@) == before.push(hint(m@)));
                                assert(Seq::new(
                                    (i + 1) as nat,
                                    |k: int| hint("    "@ + decimal((k + 1) as nat) + ". "@ + vs[k]),
                                ) == Seq::new(
                                    i as nat,
                                    |k: int| hint("    "@ + decimal((k + 1) as nat) + ". "@ + vs[k]),
                                ).push(hint("    "@ + decimal((i + 1) as nat) + ". "@ + vs[i as int])));
                            }
                            i += 1;
                        }
                    },
                    None => {},
                }
                self.ask(say)
            },
            ScalarEvent::Line(Err(e)) => self.finish(Err(e)),
            ScalarEvent::Line(Ok(raw)) => {
                let input = resolve_enum(
                    raw.as_str(),
                    match &self.spec.enum_vals {
                        Some(v) => Some(v),
                        None => None,
                    },
                );
                self.answer(input)
            },
            ScalarEvent::Range(v) => {
                if v.below_minimum && self.spec.minimum.is_some() {
                    let mut m = String::new();
                    push_str(&mut m, "    ✗ Value must be >= ");
                    match &self.spec.minimum {
                        Some(b) => push_str(&mut m, b.as_str()),
                        None => {},
                    }
                    self.phase = ScalarPhase::AwaitLine;
                    self.pending = None;
                    return self.retry(m);
                }
                if v.above_maximum && self.spec.maximum.is_some() {
                    let mut m = String::new();
                    push_str(&mut m, "    ✗ Value must be <= ");
                    match &self.spec.maximum {
                        Some(b) => push_str(&mut m, b.as_str()),
                        None => {},
                    }
                    self.phase = ScalarPhase::AwaitLine;
                    self.pending = None;
                    return self.retry(m);
                }
                let p = self.pending.take();
                assert(p == old(self).pending);
                match p {
                    Some(Pending::Integer(n)) => {
                        assert(old(self).spec.kind@ == "integer"@);
                        assert(scalar_fits(old(self).spec.kind@, FieldValue::Integer(n)));
                        self.finish(Ok(Some(FieldValue::Integer(n))))
                    },
                    Some(Pending::Number(t)) => self.finish(Ok(Some(FieldValue::Number(t)))),
                    None => self.finish(Err(Error::Parse(String::new()))),
                }
            },
        }
    }

    fn answer(&mut self, input: String) -> (step: ScalarStep)
        requires
            old(self).wf(),
            old(self).phase == ScalarPhase::AwaitLine,
        ensures
            final(self).wf(),
            final(self).prefix == old(self).prefix,
            final(self).name == old(self).name,
            final(self).required == old(self).required,
            final(self).spec == old(self).spec,
            step.request is Finish <==> final(self).phase == ScalarPhase::Finished,
            step.request is ReadLine ==> final(self).phase == ScalarPhase::AwaitLine,
            step.request is CheckRange ==> final(self).phase == ScalarPhase::AwaitRange,
            step.request matches ScalarRequest::Finish(Ok(None)) ==> !old(self).required,
            step.request matches ScalarRequest::Finish(Ok(Some(v))) ==> scalar_fits(
                old(self).spec.kind@,
                v,
            ),
            match answer_of(old(self).spec, old(self).name@, old(self).required, input@) {
                Answer::Skip => step.request == ScalarRequest::Finish(Ok(None)),
                Answer::Retry(m) => {
                    &&& final(self).phase == ScalarPhase::AwaitLine
                    &&& styled_views(step.say@) == seq![failure(m)]
                    &&& step.request matches ScalarRequest::ReadLine(q) && styled_view(q)
                        == old(self).prompt_view()
                },
                Answer::Bool(b) => step.request == ScalarRequest::Finish(
                    Ok(Some(FieldValue::Bool(b))),
                ),
                Answer::Text => step.request matches ScalarRequest::Finish(
                    Ok(Some(FieldValue::Text(t))),
                ) && t@ == input@,
                Answer::Integer(n) => if old(self).spec.has_bounds() {
                    &&& final(self).phase == ScalarPhase::AwaitRange
                    &&& step.request matches ScalarRequest::CheckRange(Pending::Integer(k)) && k == n
                } else {
                    step.request matches ScalarRequest::Finish(Ok(Some(FieldValue::Integer(k))))
                        && k == n
                },
                Answer::Number => if old(self).spec.has_bounds() {
                    &&& final(self).phase == ScalarPhase::AwaitRange
                    &&& step.request matches ScalarRequest::CheckRange(Pending::Number(t)) && t@
                        == input@
                } else {
                    step.request matches ScalarRequest::Finish(Ok(Some(FieldValue::Number(t))))
                        && t@ == input@
                },
                Answer::Fail(m) => step.request matches ScalarRequest::Finish(Err(Error::Parse(t)))
                    && t@ == m,
            },
    {
        proof {
            reveal_strlit("");
        }
        if str_eq(input.as_str(), "") {
            if self.required {
                let mut m = String::new();
                push_str(&mut m, "    ✗ '");
                push_str(&mut m, self.name.as_str());
                push_str(&mut m, "' is required");
                return self.retry(m);
            }
            return self.finish(Ok(None));
        }
        proof {
            if input@.len() == 0 {
                assert(input@ =~= ""@);
            }
        }
        let bounded = self.spec.minimum.is_some() || self.spec.maximum.is_some();
        if str_eq(self.spec.kind.as_str(), "number") {
            if !is_float_text(input.as_str()) {
                return self.retry("    ✗ Please enter a valid number.".to_string());
            }
            if bounded {
                self.phase = ScalarPhase::AwaitRange;
                self.pending = Some(Pending::Number(input.clone()));
                return ScalarStep { say: Vec::new(), request: ScalarRequest::CheckRange(Pending::Number(input)) };
            }
            return self.finish(Ok(Some(FieldValue::Number(input))));
        }
        if str_eq(self.spec.kind.as_str(), "integer") {
            match parse_i64(input.as_str()) {
                None => {
                    return self.retry("    ✗ Please enter a whole number.".to_string());
                },
                Some(n) => {
                    if bounded {
                        self.phase = ScalarPhase::AwaitRange;
                        self.pending = Some(Pending::Integer(n));
                        return ScalarStep {
                            say: Vec::new(),
                            request: ScalarRequest::CheckRange(Pending::Integer(n)),
                        };
                    }
                    return self.finish(Ok(Some(FieldValue::Integer(n))));
                },
            }
        }
        if str_eq(self.spec.kind.as_str(), "boolean") {
            return match parse_bool(input.as_str()) {
                Some(b) => self.finish(Ok(Some(FieldValue::Bool(b)))),
                None => self.retry("    ✗ enter y/n".to_string()),
            };
        }
        let checked = validate_string_input(
            input.as_str(),
            self.spec.min_length,
            match &self.spec.pattern {
                Some(p) => Some(p.as_str()),
                None => None,
            },
            match &self.spec.enum_vals {
                Some(v) => Some(v),
                None => None,
            },
            match &self.spec.format {
                Some(f) => Some(f.as_str()),
                None => None,
            },
        );
        match checked {
            Err(e) => self.finish(Err(e)),
            Ok(Some(msg)) => {
                let mut m = String::new();
                push_str(&mut m, "    ✗ ");
                push_str(&mut m, msg.as_str());
                self.retry(m)
            },
            Ok(None) => self.finish(Ok(Some(FieldValue::Text(input)))),
        }
    }
}

} // verus!
