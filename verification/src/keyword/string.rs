//! The string keywords: `minLength`, `maxLength` and `pattern`.
use vstd::prelude::*;

use crate::error::{errs_view, keyword_error, keyword_error_exec, ErrorView, ValidationError};
use crate::json::{JsonValue, JsonView};
use crate::number::JsonNumber;
use crate::pattern::{regex_compiles, regex_is_match, regex_search};
use crate::text::{dec, push_str, string_of, u128_to_string};
use crate::keyword::Keyword;
use crate::validator::{has_type, Env, ValidationContext};

verus! {

broadcast use vstd::string::group_string_axioms;

/// `minLength`: a string must have at least that many characters.
pub open spec fn min_length_errors(env: Env, kv: JsonView, inst: JsonView) -> Seq<ErrorView> {
    match (kv, inst) {
        (JsonView::Number(n), JsonView::Str(s)) => match n.as_u64_spec() {
            Some(m) => if has_type(env, inst, "string"@) && s.len() < m {
                seq![
                    keyword_error(
                        "'"@ + s + "' is shorter than minimum length of "@ + dec(m),
                        "minLength"@,
                        inst,
                    ),
                ]
            } else {
                Seq::empty()
            },
            None => Seq::empty(),
        },
        _ => Seq::empty(),
    }
}

/// `maxLength`: a string must have at most that many characters.
pub open spec fn max_length_errors(env: Env, kv: JsonView, inst: JsonView) -> Seq<ErrorView> {
    match (kv, inst) {
        (JsonView::Number(n), JsonView::Str(s)) => match n.as_u64_spec() {
            Some(m) => if has_type(env, inst, "string"@) && s.len() > m {
                seq![
                    keyword_error(
                        "'"@ + s + "' is longer than maximum length of "@ + dec(m),
                        "maxLength"@,
                        inst,
                    ),
                ]
            } else {
                Seq::empty()
            },
            None => Seq::empty(),
        },
        _ => Seq::empty(),
    }
}

/// `pattern`: a string must match the regular expression; a pattern that
/// does not compile accepts everything.
pub open spec fn pattern_errors(env: Env, kv: JsonView, inst: JsonView) -> Seq<ErrorView> {
    match (kv, inst) {
        (JsonView::Str(p), JsonView::Str(s)) => if has_type(env, inst, "string"@) && regex_compiles(p)
            && !regex_is_match(p, s) {
            seq![keyword_error("'"@ + s + "' does not match pattern '"@ + p + "'"@, "pattern"@, inst)]
        } else {
            Seq::empty()
        },
        _ => Seq::empty(),
    }
}

/// The one error `'{s}'{text}{n}` of keyword `kw`.
fn length_error(s: &String, text: &str, n: u64, kw: &str, instance: &JsonValue) -> (r: Vec<ValidationError>)
    ensures
        errs_view(r@) == seq![keyword_error("'"@ + s@ + text@ + dec(n as nat), kw@, instance@)],
{
    let mut msg = string_of("'");
    push_str(&mut msg, s.as_str());
    push_str(&mut msg, text);
    let d = u128_to_string(n as u128);
    push_str(&mut msg, d.as_str());
    let mut r: Vec<ValidationError> = Vec::new();
    r.push(keyword_error_exec(msg, kw, instance));
    assert(errs_view(r@) =~= seq![keyword_error("'"@ + s@ + text@ + dec(n as nat), kw@, instance@)]);
    r
}

/// The `minLength` keyword.
pub struct MinLengthKeyword;

impl Keyword for MinLengthKeyword {
    /// The keyword's name.
    fn name(&self) -> (r: &'static str)
        ensures
            r@ == "minLength"@,
    {
        "minLength"
    }

    /// The errors of `instance` against `"minLength": min_len`.
    fn validate(
        &self,
        ctx: &ValidationContext,
        min_len: &JsonValue,
        instance: &JsonValue,
        schema: &JsonValue,
    ) -> (r: Vec<ValidationError>)
        ensures
            errs_view(r@) == min_length_errors(ctx.env(), min_len@, instance@),
    {
        if !ctx.is_type(instance, "string") {
            return Vec::new();
        }
        match (min_len, instance) {
            (JsonValue::Number(n), JsonValue::String(s)) => match n.as_u64() {
                Some(m) => {
                    let count = s.as_str().unicode_len();
                    if (count as u64) < m {
                        length_error(s, "' is shorter than minimum length of ", m, "minLength", instance)
                    } else {
                        Vec::new()
                    }
                },
                None => Vec::new(),
            },
            _ => Vec::new(),
        }
    }
}

/// The `maxLength` keyword.
pub struct MaxLengthKeyword;

impl Keyword for MaxLengthKeyword {
    /// The keyword's name.
    fn name(&self) -> (r: &'static str)
        ensures
            r@ == "maxLength"@,
    {
        "maxLength"
    }

    /// The errors of `instance` against `"maxLength": max_len`.
    fn validate(
        &self,
        ctx: &ValidationContext,
        max_len: &JsonValue,
        instance: &JsonValue,
        schema: &JsonValue,
    ) -> (r: Vec<ValidationError>)
        ensures
            errs_view(r@) == max_length_errors(ctx.env(), max_len@, instance@),
    {
        if !ctx.is_type(instance, "string") {
            return Vec::new();
        }
        match (max_len, instance) {
            (JsonValue::Number(n), JsonValue::String(s)) => match n.as_u64() {
                Some(m) => {
                    let count = s.as_str().unicode_len();
                    if (count as u64) > m {
                        length_error(s, "' is longer than maximum length of ", m, "maxLength", instance)
                    } else {
                        Vec::new()
                    }
                },
                None => Vec::new(),
            },
            _ => Vec::new(),
        }
    }
}

/// The `pattern` keyword.
pub struct PatternKeyword;

impl Keyword for PatternKeyword {
    /// The keyword's name.
    fn name(&self) -> (r: &'static str)
        ensures
            r@ == "pattern"@,
    {
        "pattern"
    }

    /// The errors of `instance` against `"pattern": pattern`.
    fn validate(
        &self,
        ctx: &ValidationContext,
        pattern: &JsonValue,
        instance: &JsonValue,
        schema: &JsonValue,
    ) -> (r: Vec<ValidationError>)
        ensures
            errs_view(r@) == pattern_errors(ctx.env(), pattern@, instance@),
    {
        if !ctx.is_type(instance, "string") {
            return Vec::new();
        }
        match (pattern, instance) {
            (JsonValue::String(p), JsonValue::String(s)) => match regex_search(p.as_str(), s.as_str()) {
                Some(true) => Vec::new(),
                Some(false) => {
                    let mut msg = string_of("'");
                    push_str(&mut msg, s.as_str());
                    push_str(&mut msg, "' does not match pattern '");
                    push_str(&mut msg, p.as_str());
                    push_str(&mut msg, "'");
                    let mut r: Vec<ValidationError> = Vec::new();
                    r.push(keyword_error_exec(msg, "pattern", instance));
                    assert(errs_view(r@) =~= pattern_errors(ctx.env(), pattern@, instance@));
                    r
                },
                None => Vec::new(),
            },
            _ => Vec::new(),
        }
    }
}


/// `minLength` and `maxLength` with a bound `m` (a non-negative integer), on
/// a string as the type checker sees it, count the string's characters
/// (Unicode scalar values), not the bytes of its UTF-8 encoding: `maxLength`
/// reports one error exactly when the string has more than `m` characters,
/// so a string of exactly `m` characters is accepted whatever its byte
/// length; `minLength` reports one error exactly when it has fewer than `m`.
pub proof fn law_string_length_bounds(env: Env, n: JsonNumber, s: Seq<char>)
    requires
        has_type(env, JsonView::Str(s), "string"@),
        n.as_u64_spec() is Some,
    ensures
        max_length_errors(env, JsonView::Number(n), JsonView::Str(s)).len() == (if s.len()
            > n.as_u64_spec().unwrap() {
            1int
        } else {
            0int
        }),
        min_length_errors(env, JsonView::Number(n), JsonView::Str(s)).len() == (if s.len()
            < n.as_u64_spec().unwrap() {
            1int
        } else {
            0int
        }),
        ({
            let errs = max_length_errors(env, JsonView::Number(n), JsonView::Str(s));
            errs.len() == 1 ==> errs[0] == keyword_error(
                "'"@ + s + "' is longer than maximum length of "@ + dec(n.as_u64_spec().unwrap()),
                "maxLength"@,
                JsonView::Str(s),
            )
        }),
        ({
            let errs = min_length_errors(env, JsonView::Number(n), JsonView::Str(s));
            errs.len() == 1 ==> errs[0] == keyword_error(
                "'"@ + s + "' is shorter than minimum length of "@ + dec(n.as_u64_spec().unwrap()),
                "minLength"@,
                JsonView::Str(s),
            )
        }),
{
}


/// `pattern` on a string (as the type checker sees it): one error exactly
/// when the pattern compiles and does not match the string anywhere; a
/// pattern that does not compile reports nothing.
pub proof fn law_pattern(env: Env, p: Seq<char>, s: Seq<char>)
    requires
        has_type(env, JsonView::Str(s), "string"@),
    ensures
        pattern_errors(env, JsonView::Str(p), JsonView::Str(s)).len() == (if regex_compiles(p) && !regex_is_match(
            p,
            s,
        ) {
            1int
        } else {
            0int
        }),
        ({
            let errs = pattern_errors(env, JsonView::Str(p), JsonView::Str(s));
            errs.len() == 1 ==> errs[0] == keyword_error(
                "'"@ + s + "' does not match pattern '"@ + p + "'"@,
                "pattern"@,
                JsonView::Str(s),
            )
        }),
{
}

} // verus!
