//! The `format` keyword.
use vstd::prelude::*;

use crate::error::{errs_view, keyword_error, keyword_error_exec, ErrorView, ValidationError};
use crate::json::{JsonValue, JsonView};
use crate::number::{parse_uint_chars, parse_uint_spec};
use crate::pattern::{regex_compiles, regex_is_match, regex_matches, regex_valid};
use crate::text::{find_char, find_char_from, lemma_find_char, push_str, str_eq, string_of, to_chars};
use crate::keyword::Keyword;
use crate::validator::{has_type, Env, ValidationContext};

verus! {

broadcast use vstd::string::group_string_axioms;

pub const DATE_PATTERN: &'static str = "^\\d{4}-\\d{2}-\\d{2}$";

pub const TIME_PATTERN: &'static str = "^\\d{2}:\\d{2}:\\d{2}(\\.\\d+)?(Z|[+-]\\d{2}:\\d{2})?$";

pub const DATE_TIME_PATTERN: &'static str = "^\\d{4}-\\d{2}-\\d{2}T\\d{2}:\\d{2}:\\d{2}(\\.\\d+)?(Z|[+-]\\d{2}:\\d{2})$";

pub const EMAIL_PATTERN: &'static str = "^[^@\\s]+@[^@\\s]+\\.[^@\\s]+$";

pub const HOSTNAME_PATTERN: &'static str = "^[a-zA-Z0-9]([a-zA-Z0-9\\-]{0,61}[a-zA-Z0-9])?(\\.[a-zA-Z0-9]([a-zA-Z0-9\\-]{0,61}[a-zA-Z0-9])?)*$";

pub const IPV4_PATTERN: &'static str = "^(\\d{1,3})\\.(\\d{1,3})\\.(\\d{1,3})\\.(\\d{1,3})$";

pub const IPV6_PATTERN: &'static str = "^([0-9a-fA-F]{0,4}:){2,7}[0-9a-fA-F]{0,4}$";

pub const URI_PATTERN: &'static str = "^[a-zA-Z][a-zA-Z0-9+\\-.]*://[^\\s]*$";

pub const UUID_PATTERN: &'static str = "^[0-9a-fA-F]{8}-[0-9a-fA-F]{4}-[0-9a-fA-F]{4}-[0-9a-fA-F]{4}-[0-9a-fA-F]{12}$";

pub const JSON_POINTER_PATTERN: &'static str = "^(/([^/~]|~[01])*)*$";

/// Whether the pattern compiles and matches the text.
pub open spec fn re_match(pattern: Seq<char>, text: Seq<char>) -> bool {
    regex_compiles(pattern) && regex_is_match(pattern, text)
}

/// Every `.`-separated part of `s` reads as a `u8`.
pub open spec fn octets_ok(s: Seq<char>) -> bool
    decreases s.len(),
{
    match find_char(s, '.') {
        Some(k) => {
            proof {
                lemma_find_char(s, '.');
            }
            parse_uint_spec(s.take(k as int), 255) is Some && octets_ok(s.skip(k as int + 1))
        },
        None => parse_uint_spec(s, 255) is Some,
    }
}

/// Whether `value` is valid for the format named `format`; unknown formats
/// accept everything.
pub open spec fn format_ok(format: Seq<char>, value: Seq<char>) -> bool {
    if format == "date"@ {
        re_match(DATE_PATTERN@, value)
    } else if format == "time"@ {
        re_match(TIME_PATTERN@, value)
    } else if format == "date-time"@ {
        re_match(DATE_TIME_PATTERN@, value)
    } else if format == "email"@ || format == "idn-email"@ {
        re_match(EMAIL_PATTERN@, value)
    } else if format == "hostname"@ {
        re_match(HOSTNAME_PATTERN@, value) && (vstd::utf8::encode_utf8(value).len() as usize) <= 253
    } else if format == "idn-hostname"@ {
        true
    } else if format == "ipv4"@ {
        re_match(IPV4_PATTERN@, value) && octets_ok(value)
    } else if format == "ipv6"@ {
        re_match(IPV6_PATTERN@, value)
    } else if format == "uri"@ || format == "iri"@ {
        re_match(URI_PATTERN@, value)
    } else if format == "uri-reference"@ || format == "iri-reference"@ {
        true
    } else if format == "uri-template"@ {
        value.contains('{')
    } else if format == "uuid"@ {
        re_match(UUID_PATTERN@, value)
    } else if format == "json-pointer"@ {
        re_match(JSON_POINTER_PATTERN@, value) || value.len() == 0
    } else if format == "relative-json-pointer"@ {
        match find_char(value, '#') {
            Some(k) => {
                &&& parse_uint_spec(value.take(k as int), u32::MAX as nat) is Some
                &&& (value.skip(k as int + 1).len() == 0 || re_match(JSON_POINTER_PATTERN@, value.skip(k as int + 1)))
            },
            None => false,
        }
    } else if format == "duration"@ {
        value.len() > 0 && value[0] == 'P' && (value.contains('T') || value.contains('Y') || value.contains('M')
            || value.contains('D'))
    } else if format == "regex"@ {
        regex_compiles(value)
    } else {
        true
    }
}

/// The regular expression that decides the format named `format`, and the
/// text it is matched against: the value itself, or for
/// `relative-json-pointer` what follows the first `#`.
pub open spec fn format_probe(format: Seq<char>, value: Seq<char>) -> Option<(Seq<char>, Seq<char>)> {
    if format == "date"@ {
        Some((DATE_PATTERN@, value))
    } else if format == "time"@ {
        Some((TIME_PATTERN@, value))
    } else if format == "date-time"@ {
        Some((DATE_TIME_PATTERN@, value))
    } else if format == "email"@ || format == "idn-email"@ {
        Some((EMAIL_PATTERN@, value))
    } else if format == "hostname"@ {
        Some((HOSTNAME_PATTERN@, value))
    } else if format == "idn-hostname"@ {
        None
    } else if format == "ipv4"@ {
        Some((IPV4_PATTERN@, value))
    } else if format == "ipv6"@ {
        Some((IPV6_PATTERN@, value))
    } else if format == "uri"@ || format == "iri"@ {
        Some((URI_PATTERN@, value))
    } else if format == "uri-reference"@ || format == "iri-reference"@ {
        None
    } else if format == "uri-template"@ {
        None
    } else if format == "uuid"@ {
        Some((UUID_PATTERN@, value))
    } else if format == "json-pointer"@ {
        Some((JSON_POINTER_PATTERN@, value))
    } else if format == "relative-json-pointer"@ {
        match find_char(value, '#') {
            Some(k) => Some((JSON_POINTER_PATTERN@, value.skip(k as int + 1))),
            None => Some((JSON_POINTER_PATTERN@, value)),
        }
    } else {
        None
    }
}

/// What the regular-expression library answers for the format: whether the
/// probe's pattern compiles and matches its text; for `regex`, whether the
/// value compiles; `false` when the format asks nothing of it.
pub open spec fn format_outcome(format: Seq<char>, value: Seq<char>) -> bool {
    match format_probe(format, value) {
        Some((p, t)) => re_match(p, t),
        None => if format == "regex"@ {
            regex_compiles(value)
        } else {
            false
        },
    }
}

/// Whether `value` is valid for the format named `format`, given
/// `outcome`, what the regular-expression library answered for it (see
/// `format_outcome`).
pub open spec fn format_verdict(format: Seq<char>, value: Seq<char>, outcome: bool) -> bool {
    if format == "date"@ || format == "time"@ || format == "date-time"@ || format == "email"@
        || format == "idn-email"@ {
        outcome
    } else if format == "hostname"@ {
        outcome && (vstd::utf8::encode_utf8(value).len() as usize) <= 253
    } else if format == "idn-hostname"@ {
        true
    } else if format == "ipv4"@ {
        outcome && octets_ok(value)
    } else if format == "ipv6"@ || format == "uri"@ || format == "iri"@ {
        outcome
    } else if format == "uri-reference"@ || format == "iri-reference"@ {
        true
    } else if format == "uri-template"@ {
        value.contains('{')
    } else if format == "uuid"@ {
        outcome
    } else if format == "json-pointer"@ {
        outcome || value.len() == 0
    } else if format == "relative-json-pointer"@ {
        match find_char(value, '#') {
            Some(k) => {
                &&& parse_uint_spec(value.take(k as int), u32::MAX as nat) is Some
                &&& (value.skip(k as int + 1).len() == 0 || outcome)
            },
            None => false,
        }
    } else if format == "duration"@ {
        value.len() > 0 && value[0] == 'P' && (value.contains('T') || value.contains('Y') || value.contains('M')
            || value.contains('D'))
    } else if format == "regex"@ {
        outcome
    } else {
        true
    }
}

/// A format's verdict is the decision taken on what the regular-expression
/// library answers for it.
pub proof fn law_format_verdict_on_outcome(format: Seq<char>, value: Seq<char>)
    ensures
        format_ok(format, value) == format_verdict(format, value, format_outcome(format, value)),
{
}

/// Whether `cs` holds the character `c`.
fn has_char(cs: &Vec<char>, c: char) -> (r: bool)
    ensures
        r == cs@.contains(c),
{
    let mut i: usize = 0;
    while i < cs.len()
        invariant
            i <= cs.len(),
            forall|j: int| 0 <= j < i ==> cs@[j] != c,
        decreases cs.len() - i,
    {
        if cs[i] == c {
            assert(cs@[i as int] == c);
            return true;
        }
        i += 1;
    }
    false
}

/// `octets_ok(cs[from..])`.
fn octets_ok_exec(cs: &Vec<char>, from: usize) -> (r: bool)
    requires
        from <= cs.len(),
    ensures
        r == octets_ok(cs@.skip(from as int)),
{
    let mut start = from;
    loop
        invariant
            from <= start <= cs.len(),
            octets_ok(cs@.skip(from as int)) == octets_ok(cs@.skip(start as int)),
        decreases cs.len() - start,
    {
        let ghost rest = cs@.skip(start as int);
        match find_char_from(cs, start, '.') {
            Some(k) => {
                assert(rest.take(k - start) == cs@.subrange(start as int, k as int));
                assert(rest.skip(k - start + 1) == cs@.skip(k + 1));
                if parse_uint_chars(cs, start, k, 255).is_none() {
                    return false;
                }
                start = k + 1;
            },
            None => {
                assert(rest == cs@.subrange(start as int, cs.len() as int));
                return parse_uint_chars(cs, start, cs.len(), 255).is_some();
            },
        }
    }
}

/// The pattern and text of `format_probe`.
fn format_probe_exec(format: &str, value: &str) -> (r: Option<(&'static str, String)>)
    ensures
        r matches Some((p, t)) ==> format_probe(format@, value@) == Some((p@, t@)),
        r is None ==> format_probe(format@, value@) is None,
{
    if str_eq(format, "date") {
        Some((DATE_PATTERN, string_of(value)))
    } else if str_eq(format, "time") {
        Some((TIME_PATTERN, string_of(value)))
    } else if str_eq(format, "date-time") {
        Some((DATE_TIME_PATTERN, string_of(value)))
    } else if str_eq(format, "email") || str_eq(format, "idn-email") {
        Some((EMAIL_PATTERN, string_of(value)))
    } else if str_eq(format, "hostname") {
        Some((HOSTNAME_PATTERN, string_of(value)))
    } else if str_eq(format, "idn-hostname") {
        None
    } else if str_eq(format, "ipv4") {
        Some((IPV4_PATTERN, string_of(value)))
    } else if str_eq(format, "ipv6") {
        Some((IPV6_PATTERN, string_of(value)))
    } else if str_eq(format, "uri") || str_eq(format, "iri") {
        Some((URI_PATTERN, string_of(value)))
    } else if str_eq(format, "uri-reference") || str_eq(format, "iri-reference") {
        None
    } else if str_eq(format, "uri-template") {
        None
    } else if str_eq(format, "uuid") {
        Some((UUID_PATTERN, string_of(value)))
    } else if str_eq(format, "json-pointer") {
        Some((JSON_POINTER_PATTERN, string_of(value)))
    } else if str_eq(format, "relative-json-pointer") {
        let cs = to_chars(value);
        assert(cs@.skip(0) == cs@);
        match find_char_from(&cs, 0, '#') {
            Some(k) => {
                let rest = crate::text::string_from_chars(&cs, k + 1, cs.len());
                assert(cs@.skip(k as int + 1) == cs@.subrange(k + 1, cs.len() as int));
                Some((JSON_POINTER_PATTERN, rest))
            },
            None => Some((JSON_POINTER_PATTERN, string_of(value))),
        }
    } else {
        None
    }
}

/// Decides the format named `format` for `value`, given `outcome`, what the
/// regular-expression library answered (see `format_verdict`).
pub fn format_verdict_exec(format: &str, value: &str, outcome: bool) -> (r: bool)
    ensures
        r == format_verdict(format@, value@, outcome),
{
    if str_eq(format, "date") || str_eq(format, "time") || str_eq(format, "date-time") || str_eq(format, "email")
        || str_eq(format, "idn-email") {
        outcome
    } else if str_eq(format, "hostname") {
        outcome && value.len() <= 253
    } else if str_eq(format, "idn-hostname") {
        true
    } else if str_eq(format, "ipv4") {
        if outcome {
            let cs = to_chars(value);
            assert(cs@.skip(0) == cs@);
            octets_ok_exec(&cs, 0)
        } else {
            false
        }
    } else if str_eq(format, "ipv6") || str_eq(format, "uri") || str_eq(format, "iri") {
        outcome
    } else if str_eq(format, "uri-reference") || str_eq(format, "iri-reference") {
        true
    } else if str_eq(format, "uri-template") {
        let cs = to_chars(value);
        has_char(&cs, '{')
    } else if str_eq(format, "uuid") {
        outcome
    } else if str_eq(format, "json-pointer") {
        outcome || value.is_empty()
    } else if str_eq(format, "relative-json-pointer") {
        let cs = to_chars(value);
        match find_char_from(&cs, 0, '#') {
            Some(k) => {
                assert(cs@.skip(0) == cs@);
                assert(cs@.take(k as int) == cs@.subrange(0, k as int));
                if parse_uint_chars(&cs, 0, k, 4294967295).is_none() {
                    return false;
                }
                assert(cs@.skip(k as int + 1).len() == cs.len() - (k + 1));
                k + 1 == cs.len() || outcome
            },
            None => {
                assert(cs@.skip(0) == cs@);
                false
            },
        }
    } else if str_eq(format, "duration") {
        let cs = to_chars(value);
        cs.len() > 0 && cs[0] == 'P' && (has_char(&cs, 'T') || has_char(&cs, 'Y') || has_char(&cs, 'M')
            || has_char(&cs, 'D'))
    } else if str_eq(format, "regex") {
        outcome
    } else {
        true
    }
}

/// Checks `value` against the format named `format`: asks the
/// regular-expression library what the format needs of it, then decides.
pub fn validate_format_value(format: &str, value: &str) -> (r: bool)
    ensures
        r == format_ok(format@, value@),
{
    let outcome = match format_probe_exec(format, value) {
        Some((p, t)) => regex_matches(p, t.as_str()),
        None => if str_eq(format, "regex") {
            regex_valid(value)
        } else {
            false
        },
    };
    assert(outcome == format_outcome(format@, value@));
    format_verdict_exec(format, value, outcome)
}

/// `format`: a string must be valid for the named format.
pub open spec fn format_errors(env: Env, kv: JsonView, inst: JsonView) -> Seq<ErrorView> {
    match (kv, inst) {
        (JsonView::Str(f), JsonView::Str(v)) => if has_type(env, inst, "string"@) && !format_ok(f, v) {
            seq![keyword_error("'"@ + v + "' is not a valid '"@ + f + "'"@, "format"@, inst)]
        } else {
            Seq::empty()
        },
        _ => Seq::empty(),
    }
}

/// The `format` keyword.
pub struct FormatKeyword;

impl Keyword for FormatKeyword {
    /// The keyword's name.
    fn name(&self) -> (r: &'static str)
        ensures
            r@ == "format"@,
    {
        "format"
    }

    /// The errors of `instance` against `"format": format`.
    fn validate(
        &self,
        ctx: &ValidationContext,
        format: &JsonValue,
        instance: &JsonValue,
        schema: &JsonValue,
    ) -> (r: Vec<ValidationError>)
        ensures
            errs_view(r@) == format_errors(ctx.env(), format@, instance@),
    {
        if !ctx.is_type(instance, "string") {
            return Vec::new();
        }
        match (format, instance) {
            (JsonValue::String(f), JsonValue::String(v)) => if validate_format_value(f.as_str(), v.as_str()) {
                Vec::new()
            } else {
                let mut msg = string_of("'");
                push_str(&mut msg, v.as_str());
                push_str(&mut msg, "' is not a valid '");
                push_str(&mut msg, f.as_str());
                push_str(&mut msg, "'");
                let mut r: Vec<ValidationError> = Vec::new();
                r.push(keyword_error_exec(msg, "format", instance));
                assert(errs_view(r@) =~= format_errors(ctx.env(), format@, instance@));
                r
            },
            _ => Vec::new(),
        }
    }
}

} // verus!
