//! The library's error type.
use vstd::prelude::*;

use crate::text::{decimal, push_decimal, push_str};

verus! {

/// What went wrong. Errors that come from outside work (I/O, HTTP, JSON,
/// YAML) carry the outside error's message.
#[derive(Debug)]
pub enum Error {
    Io(String),
    Http(String),
    Json(String),
    Yaml(String),
    Parse(String),
    Config(String),
    Validation(Vec<ValidationError>),
    Git(String),
}

/// One schema violation in one file.
#[derive(Debug)]
pub struct ValidationError {
    pub path: String,
    pub field: String,
    pub message: String,
}

pub open spec fn validation_error_text(path: Seq<char>, field: Seq<char>, message: Seq<char>) -> Seq<
    char,
> {
    path + " → "@ + field + ": "@ + message
}

impl ValidationError {
    /// `"{path} → {field}: {message}"`.
    pub fn describe(&self) -> (s: String)
        ensures
            s@ == validation_error_text(self.path@, self.field@, self.message@),
    {
        let mut s = String::new();
        push_str(&mut s, self.path.as_str());
        push_str(&mut s, " → ");
        push_str(&mut s, self.field.as_str());
        push_str(&mut s, ": ");
        push_str(&mut s, self.message.as_str());
        s
    }
}

/// The text an error is shown as.
pub open spec fn error_text(e: Error) -> Seq<char> {
    match e {
        Error::Io(m) => "IO error: "@ + m@,
        Error::Http(m) => "HTTP error: "@ + m@,
        Error::Json(m) => "JSON parse error: "@ + m@,
        Error::Yaml(m) => "YAML parse error: "@ + m@,
        Error::Parse(m) => "Parse error: "@ + m@,
        Error::Config(m) => "Config error: "@ + m@,
        Error::Validation(errs) => decimal(errs@.len()) + " validation error(s)"@,
        Error::Git(m) => "Git error: "@ + m@,
    }
}

impl Error {
    /// The text this error is shown as.
    pub fn message(&self) -> (s: String)
        ensures
            s@ == error_text(*self),
    {
        let mut s = String::new();
        match self {
            Error::Io(m) => {
                push_str(&mut s, "IO error: ");
                push_str(&mut s, m.as_str());
            },
            Error::Http(m) => {
                push_str(&mut s, "HTTP error: ");
                push_str(&mut s, m.as_str());
            },
            Error::Json(m) => {
                push_str(&mut s, "JSON parse error: ");
                push_str(&mut s, m.as_str());
            },
            Error::Yaml(m) => {
                push_str(&mut s, "YAML parse error: ");
                push_str(&mut s, m.as_str());
            },
            Error::Parse(m) => {
                push_str(&mut s, "Parse error: ");
                push_str(&mut s, m.as_str());
            },
            Error::Config(m) => {
                push_str(&mut s, "Config error: ");
                push_str(&mut s, m.as_str());
            },
            Error::Validation(errs) => {
                push_decimal(&mut s, errs.len() as u64);
                push_str(&mut s, " validation error(s)");
            },
            Error::Git(m) => {
                push_str(&mut s, "Git error: ");
                push_str(&mut s, m.as_str());
            },
        }
        proof {
            reveal_strlit("IO error: ");
            reveal_strlit("HTTP error: ");
        }
        s
    }
}

} // verus!
