//! The `type`, `enum` and `const` keywords.
use vstd::prelude::*;

use crate::error::{errs_view, keyword_error, keyword_error_exec, ErrorView, ValidationError};
use crate::instance::{deep_equal, deep_equal_spec, law_deep_equal_needs_equal_members, law_deep_equal_reflexive, unique_keys};
use crate::json::lookup;
use crate::json::{lemma_value_children, render, JsonValue, JsonView};
use crate::keyword::{ensure_string_list, string_list};
use crate::text::{join, join_strings, push_str, views};
use crate::keyword::Keyword;
use crate::validator::{has_type, Env, ValidationContext};

verus! {

broadcast use vstd::string::group_string_axioms;

/// Whether `inst` has one of the types named in `names`.
pub open spec fn has_one_type(env: Env, inst: JsonView, names: Seq<Seq<char>>) -> bool {
    exists|i: int| 0 <= i < names.len() && has_type(env, inst, #[trigger] names[i])
}

/// `type`: the instance must have one of the listed types.
pub open spec fn type_errors(env: Env, kv: JsonView, inst: JsonView) -> Seq<ErrorView> {
    let names = string_list(kv);
    if names.len() == 0 || has_one_type(env, inst, names) {
        Seq::empty()
    } else {
        seq![keyword_error(render(inst) + " is not of type "@ + join(names, ", "@), "type"@, inst)]
    }
}

/// Whether one of `xs` equals `inst`.
pub open spec fn one_equals(xs: Seq<JsonView>, inst: JsonView) -> bool {
    exists|i: int| 0 <= i < xs.len() && deep_equal_spec(#[trigger] xs[i], inst)
}

/// `enum`: the instance must equal one of the listed values.
pub open spec fn enum_errors(kv: JsonView, inst: JsonView) -> Seq<ErrorView> {
    match kv {
        JsonView::Array(xs) => if one_equals(xs, inst) {
            Seq::empty()
        } else {
            seq![keyword_error(render(inst) + " is not one of the allowed values"@, "enum"@, inst)]
        },
        _ => Seq::empty(),
    }
}

/// `const`: the instance must equal the value.
pub open spec fn const_errors(kv: JsonView, inst: JsonView) -> Seq<ErrorView> {
    if deep_equal_spec(kv, inst) {
        Seq::empty()
    } else {
        seq![keyword_error(render(inst) + " does not equal const value "@ + render(kv), "const"@, inst)]
    }
}

/// `const` accepts its own value, and `enum` accepts each of its values,
/// when no object inside the value repeats a key.
pub proof fn law_const_and_enum_accept_their_values(kv: JsonView, xs: Seq<JsonView>, i: int)
    requires
        unique_keys(kv),
        0 <= i < xs.len(),
        unique_keys(xs[i]),
    ensures
        const_errors(kv, kv) == Seq::<ErrorView>::empty(),
        enum_errors(JsonView::Array(xs), xs[i]) == Seq::<ErrorView>::empty(),
{
    law_deep_equal_reflexive(kv);
    law_deep_equal_reflexive(xs[i]);
}

/// `const` reports one error exactly when the instance is not deep-equal
/// to the value, and none when it is; in particular an object instance
/// that holds a key of the value's object under a value that is not
/// deep-equal to the value's is refused, whatever its other members.
pub proof fn law_const_compares_deeply(kv: JsonView, inst: JsonView, k: Seq<char>)
    ensures
        const_errors(kv, inst).len() == (if deep_equal_spec(kv, inst) {
            0int
        } else {
            1int
        }),
        kv matches JsonView::Object(xs) ==> inst matches JsonView::Object(ys) ==> lookup(xs, k) is Some
            ==> lookup(ys, k) is Some ==> !deep_equal_spec(lookup(xs, k).unwrap(), lookup(ys, k).unwrap())
            ==> const_errors(kv, inst).len() == 1,
        const_errors(kv, inst).len() == 1 ==> const_errors(kv, inst)[0] == keyword_error(
            render(inst) + " does not equal const value "@ + render(kv),
            "const"@,
            inst,
        ),
{
    if let (JsonView::Object(xs), JsonView::Object(ys)) = (kv, inst) {
        if lookup(xs, k) is Some && lookup(ys, k) is Some && !deep_equal_spec(
            lookup(xs, k).unwrap(),
            lookup(ys, k).unwrap(),
        ) {
            law_deep_equal_needs_equal_members(xs, ys, k);
        }
    }
}

/// The `type` keyword.
pub struct TypeKeyword;

impl Keyword for TypeKeyword {
    /// The keyword's name.
    fn name(&self) -> (r: &'static str)
        ensures
            r@ == "type"@,
    {
        "type"
    }

    /// The errors of `instance` against `"type": types`.
    fn validate(
        &self,
        ctx: &ValidationContext,
        types: &JsonValue,
        instance: &JsonValue,
        schema: &JsonValue,
    ) -> (r: Vec<ValidationError>)
        ensures
            errs_view(r@) == type_errors(ctx.env(), types@, instance@),
    {
        let names = ensure_string_list(types);
        let ghost ns = views(names@);
        if names.len() == 0 {
            return Vec::new();
        }
        let mut i: usize = 0;
        while i < names.len()
            invariant
                i <= names.len(),
                ns == views(names@),
                ns == string_list(types@),
                forall|j: int| 0 <= j < i ==> !has_type(ctx.env(), instance@, #[trigger] ns[j]),
            decreases names.len() - i,
        {
            if ctx.is_type(instance, names[i].as_str()) {
                assert(has_type(ctx.env(), instance@, ns[i as int]));
                return Vec::new();
            }
            i += 1;
        }
        let mut m = instance.to_json_string();
        push_str(&mut m, " is not of type ");
        let list = join_strings(&names, ", ");
        push_str(&mut m, list.as_str());
        let mut r: Vec<ValidationError> = Vec::new();
        r.push(keyword_error_exec(m, "type", instance));
        assert(errs_view(r@) =~= type_errors(ctx.env(), types@, instance@));
        r
    }
}

/// The `enum` keyword.
pub struct EnumKeyword;

impl Keyword for EnumKeyword {
    /// The keyword's name.
    fn name(&self) -> (r: &'static str)
        ensures
            r@ == "enum"@,
    {
        "enum"
    }

    /// The errors of `instance` against `"enum": values`.
    fn validate(
        &self,
        ctx: &ValidationContext,
        values: &JsonValue,
        instance: &JsonValue,
        schema: &JsonValue,
    ) -> (r: Vec<ValidationError>)
        ensures
            errs_view(r@) == enum_errors(values@, instance@),
    {
        proof {
            lemma_value_children(*values);
        }
        match values {
            JsonValue::Array(xs) => {
                let mut i: usize = 0;
                while i < xs.len()
                    invariant
                        i <= xs.len(),
                        *values == JsonValue::Array(*xs),
                        values@ == JsonView::Array(crate::json::items_view(xs@)),
                        crate::json::items_view(xs@).len() == xs@.len(),
                        forall|j: int| 0 <= j < xs@.len() ==> (#[trigger] crate::json::items_view(xs@)[j]) == xs@[j]@,
                        forall|j: int| 0 <= j < i ==> !deep_equal_spec(#[trigger] xs@[j]@, instance@),
                    decreases xs.len() - i,
                {
                    if deep_equal(&xs[i], instance) {
                        assert(deep_equal_spec(crate::json::items_view(xs@)[i as int], instance@));
                        let r: Vec<ValidationError> = Vec::new();
                        assert(errs_view(r@) =~= Seq::<ErrorView>::empty());
                        return r;
                    }
                    i += 1;
                }
                let mut m = instance.to_json_string();
                push_str(&mut m, " is not one of the allowed values");
                let mut r: Vec<ValidationError> = Vec::new();
                r.push(keyword_error_exec(m, "enum", instance));
                proof {
                    let vs = crate::json::items_view(xs@);
                    assert forall|j: int| 0 <= j < vs.len() implies !deep_equal_spec(#[trigger] vs[j], instance@) by {
                        assert(vs[j] == xs@[j]@);
                    }
                }
                assert(errs_view(r@) =~= enum_errors(values@, instance@));
                r
            },
            _ => Vec::new(),
        }
    }
}

/// The `const` keyword.
pub struct ConstKeyword;

impl Keyword for ConstKeyword {
    /// The keyword's name.
    fn name(&self) -> (r: &'static str)
        ensures
            r@ == "const"@,
    {
        "const"
    }

    /// The errors of `instance` against `"const": expected`.
    fn validate(
        &self,
        ctx: &ValidationContext,
        expected: &JsonValue,
        instance: &JsonValue,
        schema: &JsonValue,
    ) -> (r: Vec<ValidationError>)
        ensures
            errs_view(r@) == const_errors(expected@, instance@),
    {
        if deep_equal(expected, instance) {
            return Vec::new();
        }
        let mut m = instance.to_json_string();
        push_str(&mut m, " does not equal const value ");
        let e = expected.to_json_string();
        push_str(&mut m, e.as_str());
        let mut r: Vec<ValidationError> = Vec::new();
        r.push(keyword_error_exec(m, "const", instance));
        assert(errs_view(r@) =~= const_errors(expected@, instance@));
        r
    }
}


/// `type` reports one error exactly when the value names at least one type
/// and the instance has none of the named types; `enum` reports one error
/// exactly when no listed value is deep-equal to the instance.
pub proof fn law_type_and_enum(env: Env, kv: JsonView, xs: Seq<JsonView>, inst: JsonView)
    ensures
        type_errors(env, kv, inst).len() == (if string_list(kv).len() > 0 && forall|i: int|
            0 <= i < string_list(kv).len() ==> !has_type(env, inst, #[trigger] string_list(kv)[i]) {
            1int
        } else {
            0int
        }),
        enum_errors(JsonView::Array(xs), inst).len() == (if forall|i: int|
            0 <= i < xs.len() ==> !deep_equal_spec(#[trigger] xs[i], inst) {
            1int
        } else {
            0int
        }),
        type_errors(env, kv, inst).len() == 1 ==> type_errors(env, kv, inst)[0] == keyword_error(
            render(inst) + " is not of type "@ + join(string_list(kv), ", "@),
            "type"@,
            inst,
        ),
        enum_errors(JsonView::Array(xs), inst).len() == 1 ==> enum_errors(JsonView::Array(xs), inst)[0]
            == keyword_error(render(inst) + " is not one of the allowed values"@, "enum"@, inst),
{
}

} // verus!
