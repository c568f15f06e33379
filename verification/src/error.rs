//! Validation errors.
use vstd::prelude::*;

use crate::json::{JsonValue, JsonView};
use crate::text::{copy_string, push_char, push_str, string_of, views};

verus! {

/// A single validation error produced when a JSON instance fails to satisfy
/// a keyword constraint.
#[derive(Debug)]
pub struct ValidationError {
    /// Human-readable error message.
    pub message: String,
    /// The keyword that triggered the error (e.g. `"type"`, `"minimum"`).
    pub keyword: Option<String>,
    /// Location of the error within the instance.
    pub instance_path: Vec<String>,
    /// Location of the error within the schema.
    pub schema_path: Vec<String>,
    /// The fragment of the instance that caused the error (if available).
    pub instance: Option<JsonValue>,
}

/// The content of a validation error.
pub struct ErrorView {
    pub message: Seq<char>,
    pub keyword: Option<Seq<char>>,
    pub instance_path: Seq<Seq<char>>,
    pub schema_path: Seq<Seq<char>>,
    pub instance: Option<JsonView>,
}

/// The view of an optional string.
pub open spec fn opt_view(s: Option<String>) -> Option<Seq<char>> {
    match s {
        Some(x) => Some(x@),
        None => None,
    }
}

/// The view of an optional value.
pub open spec fn opt_json_view(v: Option<JsonValue>) -> Option<JsonView> {
    match v {
        Some(x) => Some(x@),
        None => None,
    }
}

impl View for ValidationError {
    type V = ErrorView;

    open spec fn view(&self) -> ErrorView {
        ErrorView {
            message: self.message@,
            keyword: opt_view(self.keyword),
            instance_path: views(self.instance_path@),
            schema_path: views(self.schema_path@),
            instance: opt_json_view(self.instance),
        }
    }
}

/// The views of a sequence of errors.
pub open spec fn errs_view(v: Seq<ValidationError>) -> Seq<ErrorView> {
    v.map_values(|e: ValidationError| e@)
}

/// An error that carries only a message.
pub open spec fn plain_error(message: Seq<char>) -> ErrorView {
    ErrorView {
        message,
        keyword: None,
        instance_path: Seq::empty(),
        schema_path: Seq::empty(),
        instance: None,
    }
}

/// An error raised by keyword `kw` on `inst`.
pub open spec fn keyword_error(message: Seq<char>, kw: Seq<char>, inst: JsonView) -> ErrorView {
    ErrorView {
        message,
        keyword: Some(kw),
        instance_path: Seq::empty(),
        schema_path: Seq::empty(),
        instance: Some(inst),
    }
}

/// The text of an error: its message, preceded by its instance path
/// written as `/seg/seg: ` when the path is not empty.
pub open spec fn display_text(e: ErrorView) -> Seq<char> {
    if e.instance_path.len() == 0 {
        e.message
    } else {
        slash_path(e.instance_path, e.instance_path.len()) + seq![':', ' '] + e.message
    }
}

/// The first `n` segments, each preceded by `/`.
pub open spec fn slash_path(p: Seq<Seq<char>>, n: nat) -> Seq<char>
    decreases n,
{
    if n == 0 || n > p.len() {
        Seq::empty()
    } else {
        slash_path(p, (n - 1) as nat) + seq!['/'] + p[n - 1]
    }
}

/// `errs_view` of a pushed sequence.
pub proof fn lemma_errs_push(v: Seq<ValidationError>, e: ValidationError)
    ensures
        errs_view(v.push(e)) == errs_view(v).push(e@),
{
    assert(errs_view(v.push(e)) =~= errs_view(v).push(e@));
}

/// `views` of a pushed sequence.
pub proof fn lemma_views_push(v: Seq<String>, s: String)
    ensures
        views(v.push(s)) == views(v).push(s@),
{
    assert(views(v.push(s)) =~= views(v).push(s@));
}

impl Clone for ValidationError {
    fn clone(&self) -> (r: ValidationError)
        ensures
            r@ == self@,
    {
        ValidationError {
            message: copy_string(&self.message),
            keyword: match &self.keyword {
                Some(k) => Some(copy_string(k)),
                None => None,
            },
            instance_path: crate::text::copy_strings(&self.instance_path),
            schema_path: crate::text::copy_strings(&self.schema_path),
            instance: match &self.instance {
                Some(v) => Some(v.deep_copy()),
                None => None,
            },
        }
    }
}

impl ValidationError {
    /// A new error with just a message.
    pub fn new(message: &str) -> (r: ValidationError)
        ensures
            r@ == plain_error(message@),
    {
        let r = ValidationError {
            message: string_of(message),
            keyword: None,
            instance_path: Vec::new(),
            schema_path: Vec::new(),
            instance: None,
        };
        assert(r@.instance_path =~= Seq::<Seq<char>>::empty());
        assert(r@.schema_path =~= Seq::<Seq<char>>::empty());
        r
    }

    /// Sets the keyword name.
    pub fn with_keyword(self, kw: &str) -> (r: ValidationError)
        ensures
            r@ == (ErrorView { keyword: Some(kw@), ..self@ }),
    {
        let mut r = self;
        r.keyword = Some(string_of(kw));
        r
    }

    /// Sets the instance value.
    pub fn with_instance(self, inst: JsonValue) -> (r: ValidationError)
        ensures
            r@ == (ErrorView { instance: Some(inst@), ..self@ }),
    {
        let mut r = self;
        r.instance = Some(inst);
        r
    }

    /// The text of the error (see `display_text`).
    pub fn to_display_string(&self) -> (r: String)
        ensures
            r@ == display_text(self@),
    {
        if self.instance_path.len() == 0 {
            return copy_string(&self.message);
        }
        let ghost p = self@.instance_path;
        let mut out = String::new();
        let mut i: usize = 0;
        while i < self.instance_path.len()
            invariant
                i <= self.instance_path.len(),
                p == views(self.instance_path@),
                p.len() == self.instance_path@.len(),
                out@ == slash_path(p, i as nat),
            decreases self.instance_path.len() - i,
        {
            push_char(&mut out, '/');
            push_str(&mut out, self.instance_path[i].as_str());
            assert(p[i as int] == self.instance_path@[i as int]@);
            i += 1;
        }
        push_char(&mut out, ':');
        push_char(&mut out, ' ');
        push_str(&mut out, self.message.as_str());
        out
    }
}

/// An error raised by keyword `kw` on `inst`, with the given message.
pub fn keyword_error_exec(message: String, kw: &str, inst: &JsonValue) -> (r: ValidationError)
    ensures
        r@ == keyword_error(message@, kw@, inst@),
{
    let r = ValidationError {
        message,
        keyword: Some(string_of(kw)),
        instance_path: Vec::new(),
        schema_path: Vec::new(),
        instance: Some(inst.deep_copy()),
    };
    assert(r@.instance_path =~= Seq::<Seq<char>>::empty());
    assert(r@.schema_path =~= Seq::<Seq<char>>::empty());
    r
}

} // verus!
