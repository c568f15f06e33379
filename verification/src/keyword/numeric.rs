//! The numeric keywords: `minimum`, `maximum`, `exclusiveMinimum`,
//! `exclusiveMaximum` and `multipleOf`.
use vstd::prelude::*;

use crate::error::{errs_view, keyword_error, keyword_error_exec, ErrorView, ValidationError};
use crate::json::{JsonValue, JsonView};
use crate::number::{abs, lemma_pow10_pos, pow10, JsonNumber};
use crate::text::push_str;
use crate::keyword::Keyword;
use crate::validator::{has_type, Env, ValidationContext};

verus! {

broadcast use vstd::string::group_string_axioms;

/// `minimum`: a number must not be less than the bound.
pub open spec fn minimum_errors(env: Env, kv: JsonView, inst: JsonView) -> Seq<ErrorView> {
    match (kv, inst) {
        (JsonView::Number(m), JsonView::Number(v)) => if has_type(env, inst, "number"@) && v.lt_spec(m) {
            seq![keyword_error(v.plain_text() + " is less than the minimum of "@ + m.plain_text(), "minimum"@, inst)]
        } else {
            Seq::empty()
        },
        _ => Seq::empty(),
    }
}

/// `maximum`: a number must not be greater than the bound.
pub open spec fn maximum_errors(env: Env, kv: JsonView, inst: JsonView) -> Seq<ErrorView> {
    match (kv, inst) {
        (JsonView::Number(m), JsonView::Number(v)) => if has_type(env, inst, "number"@) && m.lt_spec(v) {
            seq![keyword_error(v.plain_text() + " is greater than the maximum of "@ + m.plain_text(), "maximum"@, inst)]
        } else {
            Seq::empty()
        },
        _ => Seq::empty(),
    }
}

/// `exclusiveMinimum`: a number must be greater than the bound.
pub open spec fn exclusive_minimum_errors(env: Env, kv: JsonView, inst: JsonView) -> Seq<ErrorView> {
    match (kv, inst) {
        (JsonView::Number(m), JsonView::Number(v)) => if has_type(env, inst, "number"@) && !m.lt_spec(v) {
            seq![
                keyword_error(
                    v.plain_text() + " is not greater than exclusive minimum of "@ + m.plain_text(),
                    "exclusiveMinimum"@,
                    inst,
                ),
            ]
        } else {
            Seq::empty()
        },
        _ => Seq::empty(),
    }
}

/// `exclusiveMaximum`: a number must be less than the bound.
pub open spec fn exclusive_maximum_errors(env: Env, kv: JsonView, inst: JsonView) -> Seq<ErrorView> {
    match (kv, inst) {
        (JsonView::Number(m), JsonView::Number(v)) => if has_type(env, inst, "number"@) && !v.lt_spec(m) {
            seq![
                keyword_error(
                    v.plain_text() + " is not less than exclusive maximum of "@ + m.plain_text(),
                    "exclusiveMaximum"@,
                    inst,
                ),
            ]
        } else {
            Seq::empty()
        },
        _ => Seq::empty(),
    }
}

/// `multipleOf`: a number divided by a non-zero divisor must be an
/// integer; a zero divisor accepts everything.
pub open spec fn multiple_of_errors(env: Env, kv: JsonView, inst: JsonView) -> Seq<ErrorView> {
    match (kv, inst) {
        (JsonView::Number(d), JsonView::Number(v)) => if has_type(env, inst, "number"@) && d.mant() != 0
            && !v.is_multiple_of_spec(d) {
            seq![keyword_error(v.plain_text() + " is not a multiple of "@ + d.plain_text(), "multipleOf"@, inst)]
        } else {
            Seq::empty()
        },
        _ => Seq::empty(),
    }
}

/// The one error `"{value}{text}{bound}"` of keyword `kw`.
fn bound_error(v: &JsonNumber, text: &str, m: &JsonNumber, kw: &str, instance: &JsonValue) -> (r: Vec<ValidationError>)
    ensures
        errs_view(r@) == seq![keyword_error(v.plain_text() + text@ + m.plain_text(), kw@, instance@)],
{
    let mut msg = v.plain_text_exec();
    push_str(&mut msg, text);
    let b = m.plain_text_exec();
    push_str(&mut msg, b.as_str());
    let mut r: Vec<ValidationError> = Vec::new();
    r.push(keyword_error_exec(msg, kw, instance));
    assert(errs_view(r@) =~= seq![keyword_error(v.plain_text() + text@ + m.plain_text(), kw@, instance@)]);
    r
}

/// The `minimum` keyword.
pub struct MinimumKeyword;

impl Keyword for MinimumKeyword {
    /// The keyword's name.
    fn name(&self) -> (r: &'static str)
        ensures
            r@ == "minimum"@,
    {
        "minimum"
    }

    /// The errors of `instance` against `"minimum": minimum`.
    fn validate(
        &self,
        ctx: &ValidationContext,
        minimum: &JsonValue,
        instance: &JsonValue,
        schema: &JsonValue,
    ) -> (r: Vec<ValidationError>)
        ensures
            errs_view(r@) == minimum_errors(ctx.env(), minimum@, instance@),
    {
        if !ctx.is_type(instance, "number") {
            return Vec::new();
        }
        match (minimum, instance) {
            (JsonValue::Number(m), JsonValue::Number(v)) => if v.lt(m) {
                bound_error(v, " is less than the minimum of ", m, "minimum", instance)
            } else {
                Vec::new()
            },
            _ => Vec::new(),
        }
    }
}

/// The `maximum` keyword.
pub struct MaximumKeyword;

impl Keyword for MaximumKeyword {
    /// The keyword's name.
    fn name(&self) -> (r: &'static str)
        ensures
            r@ == "maximum"@,
    {
        "maximum"
    }

    /// The errors of `instance` against `"maximum": maximum`.
    fn validate(
        &self,
        ctx: &ValidationContext,
        maximum: &JsonValue,
        instance: &JsonValue,
        schema: &JsonValue,
    ) -> (r: Vec<ValidationError>)
        ensures
            errs_view(r@) == maximum_errors(ctx.env(), maximum@, instance@),
    {
        if !ctx.is_type(instance, "number") {
            return Vec::new();
        }
        match (maximum, instance) {
            (JsonValue::Number(m), JsonValue::Number(v)) => if m.lt(v) {
                bound_error(v, " is greater than the maximum of ", m, "maximum", instance)
            } else {
                Vec::new()
            },
            _ => Vec::new(),
        }
    }
}

/// The `exclusiveMinimum` keyword.
pub struct ExclusiveMinimumKeyword;

impl Keyword for ExclusiveMinimumKeyword {
    /// The keyword's name.
    fn name(&self) -> (r: &'static str)
        ensures
            r@ == "exclusiveMinimum"@,
    {
        "exclusiveMinimum"
    }

    /// The errors of `instance` against `"exclusiveMinimum": minimum`.
    fn validate(
        &self,
        ctx: &ValidationContext,
        minimum: &JsonValue,
        instance: &JsonValue,
        schema: &JsonValue,
    ) -> (r: Vec<ValidationError>)
        ensures
            errs_view(r@) == exclusive_minimum_errors(ctx.env(), minimum@, instance@),
    {
        if !ctx.is_type(instance, "number") {
            return Vec::new();
        }
        match (minimum, instance) {
            (JsonValue::Number(m), JsonValue::Number(v)) => if !m.lt(v) {
                bound_error(v, " is not greater than exclusive minimum of ", m, "exclusiveMinimum", instance)
            } else {
                Vec::new()
            },
            _ => Vec::new(),
        }
    }
}

/// The `exclusiveMaximum` keyword.
pub struct ExclusiveMaximumKeyword;

impl Keyword for ExclusiveMaximumKeyword {
    /// The keyword's name.
    fn name(&self) -> (r: &'static str)
        ensures
            r@ == "exclusiveMaximum"@,
    {
        "exclusiveMaximum"
    }

    /// The errors of `instance` against `"exclusiveMaximum": maximum`.
    fn validate(
        &self,
        ctx: &ValidationContext,
        maximum: &JsonValue,
        instance: &JsonValue,
        schema: &JsonValue,
    ) -> (r: Vec<ValidationError>)
        ensures
            errs_view(r@) == exclusive_maximum_errors(ctx.env(), maximum@, instance@),
    {
        if !ctx.is_type(instance, "number") {
            return Vec::new();
        }
        match (maximum, instance) {
            (JsonValue::Number(m), JsonValue::Number(v)) => if !v.lt(m) {
                bound_error(v, " is not less than exclusive maximum of ", m, "exclusiveMaximum", instance)
            } else {
                Vec::new()
            },
            _ => Vec::new(),
        }
    }
}

/// The `multipleOf` keyword.
pub struct MultipleOfKeyword;

impl Keyword for MultipleOfKeyword {
    /// The keyword's name.
    fn name(&self) -> (r: &'static str)
        ensures
            r@ == "multipleOf"@,
    {
        "multipleOf"
    }

    /// The errors of `instance` against `"multipleOf": multiple`.
    fn validate(
        &self,
        ctx: &ValidationContext,
        multiple: &JsonValue,
        instance: &JsonValue,
        schema: &JsonValue,
    ) -> (r: Vec<ValidationError>)
        ensures
            errs_view(r@) == multiple_of_errors(ctx.env(), multiple@, instance@),
    {
        if !ctx.is_type(instance, "number") {
            return Vec::new();
        }
        match (multiple, instance) {
            (JsonValue::Number(d), JsonValue::Number(v)) => if !d.is_zero() && !v.is_multiple_of(d) {
                bound_error(v, " is not a multiple of ", d, "multipleOf", instance)
            } else {
                Vec::new()
            },
            _ => Vec::new(),
        }
    }
}


/// `v / d` is an integer: `v` is `q` times `d` for some integer `q`.  With
/// `v = a / 10^p` and `d = b / 10^r`, that is `a * 10^r == q * (b * 10^p)`.
pub open spec fn integer_quotient(v: JsonNumber, d: JsonNumber) -> bool {
    exists|q: int| v.mant() * pow10(d.exp10()) == #[trigger] times(q, d.mant() * pow10(v.exp10()))
}

/// `q * y`.
pub open spec fn times(q: int, y: int) -> int {
    q * y
}

/// Divisibility of integers: `|x|` is a multiple of `|y|` exactly when `x`
/// is an integer multiple of `y`.
proof fn lemma_divides(x: int, y: int)
    requires
        y != 0,
    ensures
        abs(x) % abs(y) == 0 <==> exists|q: int| x == #[trigger] times(q, y),
{
    let a = abs(x) as int;
    let b = abs(y) as int;
    if a % b == 0 {
        vstd::arithmetic::div_mod::lemma_fundamental_div_mod(a, b);
        let k = a / b;
        assert(a == b * k);
        let q = if (x >= 0) == (y > 0) { k } else { -k };
        assert(x == times(q, y)) by (nonlinear_arith)
            requires
                a == b * k,
                a == (if x < 0 { -x } else { x }),
                b == (if y < 0 { -y } else { y }),
                q == (if (x >= 0) == (y > 0) { k } else { -k }),
                y != 0;
    }
    if exists|q: int| x == #[trigger] times(q, y) {
        let q = choose|q: int| x == #[trigger] times(q, y);
        let aq = abs(q) as int;
        assert(a == aq * b) by (nonlinear_arith)
            requires
                x == times(q, y),
                a == (if x < 0 { -x } else { x }),
                b == (if y < 0 { -y } else { y }),
                aq == (if q < 0 { -q } else { q });
        vstd::arithmetic::div_mod::lemma_mod_multiples_basic(aq, b);
    }
}

/// `multipleOf` with a divisor `d` other than zero, on a number as the type
/// checker sees it: one error exactly when `v / d` is not an integer, and
/// none when it is (whether `d` is a multiple of `v` plays no part); with a
/// divisor of zero there is no error.
pub proof fn law_multiple_of(env: Env, d: JsonNumber, v: JsonNumber)
    requires
        has_type(env, JsonView::Number(v), "number"@),
    ensures
        d.mant() == 0 ==> multiple_of_errors(env, JsonView::Number(d), JsonView::Number(v)).len() == 0,
        d.mant() != 0 ==> multiple_of_errors(env, JsonView::Number(d), JsonView::Number(v)).len() == (if integer_quotient(
            v,
            d,
        ) {
            0int
        } else {
            1int
        }),
        ({
            let errs = multiple_of_errors(env, JsonView::Number(d), JsonView::Number(v));
            errs.len() == 1 ==> errs[0] == keyword_error(
                v.plain_text() + " is not a multiple of "@ + d.plain_text(),
                "multipleOf"@,
                JsonView::Number(v),
            )
        }),
{
    if d.mant() != 0 {
        lemma_pow10_pos(v.exp10());
        assert(d.scaled_to(v) != 0) by (nonlinear_arith)
            requires
                d.scaled_to(v) == d.mant() * crate::number::pow10(v.exp10()),
                d.mant() != 0,
                crate::number::pow10(v.exp10()) >= 1;
        lemma_divides(v.scaled_to(d), d.scaled_to(v));
    }
}


/// The numeric bounds, with `v = a / 10^p` the instance and `m = b / 10^r`
/// the bound, compared as rational numbers (`v < m` exactly when
/// `a * 10^r < b * 10^p`), on a number as the type checker sees it: each
/// keyword reports one error exactly when the bound is broken, and none
/// otherwise; a value equal to the bound satisfies `minimum` and `maximum`
/// and breaks `exclusiveMinimum` and `exclusiveMaximum`.
pub proof fn law_numeric_bounds(env: Env, m: JsonNumber, v: JsonNumber)
    requires
        has_type(env, JsonView::Number(v), "number"@),
    ensures
        minimum_errors(env, JsonView::Number(m), JsonView::Number(v)).len() == (if v.mant() * pow10(m.exp10())
            < m.mant() * pow10(v.exp10()) {
            1int
        } else {
            0int
        }),
        maximum_errors(env, JsonView::Number(m), JsonView::Number(v)).len() == (if m.mant() * pow10(v.exp10())
            < v.mant() * pow10(m.exp10()) {
            1int
        } else {
            0int
        }),
        exclusive_minimum_errors(env, JsonView::Number(m), JsonView::Number(v)).len() == (if v.mant() * pow10(
            m.exp10(),
        ) <= m.mant() * pow10(v.exp10()) {
            1int
        } else {
            0int
        }),
        exclusive_maximum_errors(env, JsonView::Number(m), JsonView::Number(v)).len() == (if m.mant() * pow10(
            v.exp10(),
        ) <= v.mant() * pow10(m.exp10()) {
            1int
        } else {
            0int
        }),
        ({
            let errs = minimum_errors(env, JsonView::Number(m), JsonView::Number(v));
            errs.len() == 1 ==> errs[0] == keyword_error(
                v.plain_text() + " is less than the minimum of "@ + m.plain_text(),
                "minimum"@,
                JsonView::Number(v),
            )
        }),
        ({
            let errs = maximum_errors(env, JsonView::Number(m), JsonView::Number(v));
            errs.len() == 1 ==> errs[0] == keyword_error(
                v.plain_text() + " is greater than the maximum of "@ + m.plain_text(),
                "maximum"@,
                JsonView::Number(v),
            )
        }),
        ({
            let errs = exclusive_minimum_errors(env, JsonView::Number(m), JsonView::Number(v));
            errs.len() == 1 ==> errs[0] == keyword_error(
                v.plain_text() + " is not greater than exclusive minimum of "@ + m.plain_text(),
                "exclusiveMinimum"@,
                JsonView::Number(v),
            )
        }),
        ({
            let errs = exclusive_maximum_errors(env, JsonView::Number(m), JsonView::Number(v));
            errs.len() == 1 ==> errs[0] == keyword_error(
                v.plain_text() + " is not less than exclusive maximum of "@ + m.plain_text(),
                "exclusiveMaximum"@,
                JsonView::Number(v),
            )
        }),
{
}

} // verus!
