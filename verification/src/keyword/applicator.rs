//! The applicator keywords: `allOf`, `anyOf`, `oneOf`, `not`, `if`,
//! `then` and `else`.
use vstd::prelude::*;

use crate::error::{errs_view, keyword_error, keyword_error_exec, ErrorView, ValidationError};
use crate::json::{get_key, lemma_children_size, lemma_get_key_size, lemma_value_children, items_view, size, JsonValue, JsonView};
use crate::text::{dec, push_str, string_of, usize_to_string};
use crate::keyword::Keyword;
use crate::validator::{append_spath_prefixed, errors_of, fuel, kmeasure, prefix_spath, Env, Scope, ValidationContext};

verus! {

broadcast use vstd::string::group_string_axioms;

/// `allOf`: the instance is valid against every schema of the list.
pub open spec fn all_of_errors(env: Env, sc: Scope, kv: JsonView, inst: JsonView, schema: JsonView) -> Seq<ErrorView>
    decreases size(inst), fuel(env, sc), kmeasure(kv, schema), 2nat, 0nat,
{
    match kv {
        JsonView::Array(ss) => all_of_from(env, sc, kv, inst, schema, ss.len()),
        _ => Seq::empty(),
    }
}

/// The `allOf` errors of the first `n` schemas.
pub open spec fn all_of_from(env: Env, sc: Scope, kv: JsonView, inst: JsonView, schema: JsonView, n: nat) -> Seq<ErrorView>
    decreases size(inst), fuel(env, sc), kmeasure(kv, schema), 1nat, n,
{
    match kv {
        JsonView::Array(ss) => if n == 0 || n > ss.len() {
            Seq::empty()
        } else {
            proof {
                lemma_children_size(kv);
            }
            let i = (n - 1) as nat;
            all_of_from(env, sc, kv, inst, schema, i) + prefix_spath(errors_of(env, sc, inst, ss[i as int]), dec(i))
        },
        _ => Seq::empty(),
    }
}

/// The number of the first `n` schemas of the list that the instance is
/// valid against.
pub open spec fn valid_count(env: Env, sc: Scope, kv: JsonView, inst: JsonView, schema: JsonView, n: nat) -> nat
    decreases size(inst), fuel(env, sc), kmeasure(kv, schema), 1nat, n,
{
    match kv {
        JsonView::Array(ss) => if n == 0 || n > ss.len() {
            0
        } else {
            proof {
                lemma_children_size(kv);
            }
            valid_count(env, sc, kv, inst, schema, (n - 1) as nat) + if errors_of(env, sc, inst, ss[n - 1]).len()
                == 0 {
                1nat
            } else {
                0nat
            }
        },
        _ => 0,
    }
}

/// `anyOf`: the instance is valid against at least one schema of the list.
pub open spec fn any_of_errors(env: Env, sc: Scope, kv: JsonView, inst: JsonView, schema: JsonView) -> Seq<ErrorView>
    decreases size(inst), fuel(env, sc), kmeasure(kv, schema), 2nat, 0nat,
{
    match kv {
        JsonView::Array(ss) => if valid_count(env, sc, kv, inst, schema, ss.len()) > 0 {
            Seq::empty()
        } else {
            seq![keyword_error("instance does not match any of the schemas in anyOf"@, "anyOf"@, inst)]
        },
        _ => Seq::empty(),
    }
}

/// `oneOf`: the instance is valid against exactly one schema of the list.
pub open spec fn one_of_errors(env: Env, sc: Scope, kv: JsonView, inst: JsonView, schema: JsonView) -> Seq<ErrorView>
    decreases size(inst), fuel(env, sc), kmeasure(kv, schema), 2nat, 0nat,
{
    match kv {
        JsonView::Array(ss) => {
            let count = valid_count(env, sc, kv, inst, schema, ss.len());
            if count == 0 {
                seq![keyword_error("instance does not match any schema in oneOf"@, "oneOf"@, inst)]
            } else if count == 1 {
                Seq::empty()
            } else {
                seq![
                    keyword_error(
                        "instance matches "@ + dec(count) + " schemas in oneOf (exactly 1 required)"@,
                        "oneOf"@,
                        inst,
                    ),
                ]
            }
        },
        _ => Seq::empty(),
    }
}

/// `not`: the instance is not valid against the schema.
pub open spec fn not_errors(env: Env, sc: Scope, kv: JsonView, inst: JsonView, schema: JsonView) -> Seq<ErrorView>
    decreases size(inst), fuel(env, sc), kmeasure(kv, schema), 2nat, 0nat,
{
    if errors_of(env, sc, inst, kv).len() == 0 {
        seq![keyword_error("instance should not be valid against `not` schema"@, "not"@, inst)]
    } else {
        Seq::empty()
    }
}

/// `if` reports nothing by itself; `then` and `else` read it.
pub open spec fn if_errors() -> Seq<ErrorView> {
    Seq::empty()
}

/// `then`: when the instance is valid against the `if` schema, the errors
/// of the `then` schema.
pub open spec fn then_errors(env: Env, sc: Scope, kv: JsonView, inst: JsonView, schema: JsonView) -> Seq<ErrorView>
    decreases size(inst), fuel(env, sc), kmeasure(kv, schema), 2nat, 0nat,
{
    match get_key(schema, "if"@) {
        Some(cond) => {
            proof {
                lemma_get_key_size(schema, "if"@);
            }
            if errors_of(env, sc, inst, cond).len() == 0 {
                errors_of(env, sc, inst, kv)
            } else {
                Seq::empty()
            }
        },
        None => Seq::empty(),
    }
}

/// `else`: when the instance is not valid against the `if` schema, the
/// errors of the `else` schema.
pub open spec fn else_errors(env: Env, sc: Scope, kv: JsonView, inst: JsonView, schema: JsonView) -> Seq<ErrorView>
    decreases size(inst), fuel(env, sc), kmeasure(kv, schema), 2nat, 0nat,
{
    match get_key(schema, "if"@) {
        Some(cond) => {
            proof {
                lemma_get_key_size(schema, "if"@);
            }
            if errors_of(env, sc, inst, cond).len() == 0 {
                Seq::empty()
            } else {
                errors_of(env, sc, inst, kv)
            }
        },
        None => Seq::empty(),
    }
}

/// `prefix_spath` keeps the number of errors.
proof fn lemma_prefix_len(es: Seq<ErrorView>, seg: Seq<char>)
    ensures
        prefix_spath(es, seg).len() == es.len(),
{
}

/// The `allOf` errors of the first `n` schemas are empty exactly when the
/// instance is valid against each of them.
proof fn lemma_all_of_from(env: Env, sc: Scope, kv: JsonView, inst: JsonView, schema: JsonView, n: nat)
    requires
        kv matches JsonView::Array(ss) && n <= ss.len(),
    ensures
        kv matches JsonView::Array(ss) ==> (all_of_from(env, sc, kv, inst, schema, n).len() == 0 <==> forall|i: int|
            0 <= i < n ==> #[trigger] errors_of(env, sc, inst, ss[i]).len() == 0),
    decreases n,
{
    if let JsonView::Array(ss) = kv {
        if n > 0 {
            lemma_all_of_from(env, sc, kv, inst, schema, (n - 1) as nat);
            lemma_prefix_len(errors_of(env, sc, inst, ss[n - 1]), dec((n - 1) as nat));
        }
    }
}

/// `allOf` reports no error exactly when the instance is valid against
/// every schema of the list.
pub proof fn law_all_of(env: Env, sc: Scope, kv: JsonView, inst: JsonView, schema: JsonView)
    requires
        kv is Array,
    ensures
        kv matches JsonView::Array(ss) ==> (all_of_errors(env, sc, kv, inst, schema).len() == 0 <==> forall|i: int|
            0 <= i < ss.len() ==> #[trigger] errors_of(env, sc, inst, ss[i]).len() == 0),
{
    if let JsonView::Array(ss) = kv {
        lemma_all_of_from(env, sc, kv, inst, schema, ss.len());
    }
}

/// The number of `true` values among the first `n`.
pub open spec fn count_true(bs: Seq<bool>, n: nat) -> nat
    decreases n,
{
    if n == 0 || n > bs.len() {
        0
    } else {
        count_true(bs, (n - 1) as nat) + if bs[n - 1] {
            1nat
        } else {
            0nat
        }
    }
}

/// Which schemas of the list `ss` the instance is valid against.
pub open spec fn valid_flags(env: Env, sc: Scope, inst: JsonView, ss: Seq<JsonView>) -> Seq<bool> {
    Seq::new(ss.len(), |i: int| errors_of(env, sc, inst, ss[i]).len() == 0)
}

/// `valid_count` counts the flags.
proof fn lemma_valid_count_flags(env: Env, sc: Scope, kv: JsonView, inst: JsonView, schema: JsonView, n: nat)
    requires
        kv matches JsonView::Array(ss) && n <= ss.len(),
    ensures
        kv matches JsonView::Array(ss) ==> valid_count(env, sc, kv, inst, schema, n) == count_true(
            valid_flags(env, sc, inst, ss),
            n,
        ),
    decreases n,
{
    if let JsonView::Array(ss) = kv {
        if n > 0 {
            lemma_valid_count_flags(env, sc, kv, inst, schema, (n - 1) as nat);
        }
    }
}

/// No flag is set exactly when the count is zero.
proof fn lemma_count_zero(bs: Seq<bool>, n: nat)
    requires
        n <= bs.len(),
    ensures
        count_true(bs, n) == 0 <==> forall|i: int| 0 <= i < n ==> !#[trigger] bs[i],
    decreases n,
{
    if n > 0 {
        lemma_count_zero(bs, (n - 1) as nat);
    }
}

/// Flag `i` is the only one set among the first `n`.
spec fn sole_flag(bs: Seq<bool>, n: nat, i: int) -> bool {
    0 <= i < n && bs[i] && forall|j: int| 0 <= j < n && j != i ==> !#[trigger] bs[j]
}

/// Exactly one flag is set exactly when the count is one.
proof fn lemma_count_one(bs: Seq<bool>, n: nat)
    requires
        n <= bs.len(),
    ensures
        count_true(bs, n) == 1 <==> one_flag(bs, n),
    decreases n,
{
    if n > 0 {
        let m = (n - 1) as nat;
        lemma_count_one(bs, m);
        lemma_count_zero(bs, m);
        if count_true(bs, n) == 1 {
            if bs[m as int] {
                assert(sole_flag(bs, n, m as int));
            } else {
                assert(one_flag(bs, m));
                let i = choose|i: int| 0 <= i < m && bs[i] && forall|j: int| 0 <= j < m && j != i ==> !#[trigger] bs[j];
                assert(sole_flag(bs, n, i));
            }
        }
        if one_flag(bs, n) {
            let i = choose|i: int| 0 <= i < n && bs[i] && forall|j: int| 0 <= j < n && j != i ==> !#[trigger] bs[j];
            assert(sole_flag(bs, n, i));
            if i == m {
                assert(forall|j: int| 0 <= j < m ==> !#[trigger] bs[j]);
            } else {
                assert(!bs[m as int]);
                assert(sole_flag(bs, m, i));
            }
        }
    }
}

/// `anyOf` reports no error exactly when the instance is valid against at
/// least one schema of the list.
pub proof fn law_any_of(env: Env, sc: Scope, kv: JsonView, inst: JsonView, schema: JsonView)
    requires
        kv is Array,
    ensures
        kv matches JsonView::Array(ss) ==> (any_of_errors(env, sc, kv, inst, schema).len() == 0 <==> exists|i: int|
            0 <= i < ss.len() && #[trigger] errors_of(env, sc, inst, ss[i]).len() == 0),
{
    if let JsonView::Array(ss) = kv {
        let bs = valid_flags(env, sc, inst, ss);
        lemma_valid_count_flags(env, sc, kv, inst, schema, ss.len());
        lemma_count_zero(bs, ss.len());
        if exists|i: int| 0 <= i < ss.len() && #[trigger] errors_of(env, sc, inst, ss[i]).len() == 0 {
            let i = choose|i: int| 0 <= i < ss.len() && #[trigger] errors_of(env, sc, inst, ss[i]).len() == 0;
            assert(bs[i]);
        }
        if count_true(bs, ss.len()) != 0 {
            let i = choose|i: int| 0 <= i < ss.len() && #[trigger] bs[i];
            assert(errors_of(env, sc, inst, ss[i]).len() == 0);
        }
    }
}

/// `oneOf` reports no error exactly when one schema of the list is valid.
proof fn lemma_one_of_count(env: Env, sc: Scope, kv: JsonView, inst: JsonView, schema: JsonView)
    requires
        kv is Array,
    ensures
        kv matches JsonView::Array(ss) ==> (one_of_errors(env, sc, kv, inst, schema).len() == 0 <==> valid_count(
            env,
            sc,
            kv,
            inst,
            schema,
            ss.len(),
        ) == 1),
{
}

/// Exactly one of the first `n` flags is set.
pub open spec fn one_flag(bs: Seq<bool>, n: nat) -> bool {
    exists|i: int| 0 <= i < n && bs[i] && forall|j: int| 0 <= j < n && j != i ==> !#[trigger] bs[j]
}

/// The instance is valid against exactly one schema of the list `ss`.
pub open spec fn exactly_one_valid(env: Env, sc: Scope, inst: JsonView, ss: Seq<JsonView>) -> bool {
    exists|i: int|
        0 <= i < ss.len() && errors_of(env, sc, inst, ss[i]).len() == 0 && forall|j: int|
            0 <= j < ss.len() && j != i ==> #[trigger] errors_of(env, sc, inst, ss[j]).len() > 0
}

/// Exactly one flag is set exactly when exactly one schema is valid.
proof fn lemma_one_flag(env: Env, sc: Scope, inst: JsonView, ss: Seq<JsonView>)
    ensures
        one_flag(valid_flags(env, sc, inst, ss), ss.len()) <==> exactly_one_valid(env, sc, inst, ss),
{
    let n = ss.len();
    let bs = valid_flags(env, sc, inst, ss);
    if one_flag(bs, n) {
        let i = choose|i: int| 0 <= i < n && bs[i] && forall|j: int| 0 <= j < n && j != i ==> !#[trigger] bs[j];
        assert forall|j: int| 0 <= j < n && j != i implies #[trigger] errors_of(env, sc, inst, ss[j]).len() > 0 by {
            assert(!bs[j]);
        }
        assert(errors_of(env, sc, inst, ss[i]).len() == 0);
    }
    if exactly_one_valid(env, sc, inst, ss) {
        let i = choose|i: int|
            0 <= i < n && errors_of(env, sc, inst, ss[i]).len() == 0 && forall|j: int|
                0 <= j < n && j != i ==> #[trigger] errors_of(env, sc, inst, ss[j]).len() > 0;
        assert forall|j: int| 0 <= j < n && j != i implies !#[trigger] bs[j] by {
            assert(errors_of(env, sc, inst, ss[j]).len() > 0);
        }
        assert(bs[i]);
    }
}

/// `oneOf` reports no error exactly when the instance is valid against
/// exactly one schema of the list.
pub proof fn law_one_of(env: Env, sc: Scope, kv: JsonView, inst: JsonView, schema: JsonView)
    requires
        kv is Array,
    ensures
        kv matches JsonView::Array(ss) ==> (one_of_errors(env, sc, kv, inst, schema).len() == 0
            <==> exactly_one_valid(env, sc, inst, ss)),
{
    if let JsonView::Array(ss) = kv {
        let n = ss.len();
        let bs = valid_flags(env, sc, inst, ss);
        let c = valid_count(env, sc, kv, inst, schema, n);
        assert(one_of_errors(env, sc, kv, inst, schema).len() == 0 <==> c == 1) by {
            lemma_one_of_count(env, sc, kv, inst, schema);
        }
        assert(c == count_true(bs, n)) by {
            lemma_valid_count_flags(env, sc, kv, inst, schema, n);
        }
        assert(count_true(bs, n) == 1 <==> one_flag(bs, n)) by {
            lemma_count_one(bs, n);
        }
        assert(one_flag(bs, n) <==> exactly_one_valid(env, sc, inst, ss)) by {
            lemma_one_flag(env, sc, inst, ss);
        }
    }
}

/// `not` reports no error exactly when the instance is not valid against
/// its schema.
pub proof fn law_not(env: Env, sc: Scope, kv: JsonView, inst: JsonView, schema: JsonView)
    ensures
        not_errors(env, sc, kv, inst, schema).len() == 0 <==> errors_of(env, sc, inst, kv).len() > 0,
{
}

/// `then` applies its schema exactly when an `if` schema is present and
/// the instance is valid against it; `else` exactly when it is present and
/// the instance is not.
pub proof fn law_if_then_else(env: Env, sc: Scope, kv: JsonView, inst: JsonView, schema: JsonView, cond: JsonView)
    requires
        get_key(schema, "if"@) == Some(cond),
    ensures
        then_errors(env, sc, kv, inst, schema) == if errors_of(env, sc, inst, cond).len() == 0 {
            errors_of(env, sc, inst, kv)
        } else {
            Seq::<ErrorView>::empty()
        },
        else_errors(env, sc, kv, inst, schema) == if errors_of(env, sc, inst, cond).len() == 0 {
            Seq::<ErrorView>::empty()
        } else {
            errors_of(env, sc, inst, kv)
        },
{
}

/// `valid_count` does not decrease as more schemas are counted.
pub proof fn lemma_valid_count_mono(env: Env, sc: Scope, kv: JsonView, inst: JsonView, schema: JsonView, i: nat, n: nat)
    requires
        i <= n,
        kv matches JsonView::Array(ss) && n <= ss.len(),
    ensures
        valid_count(env, sc, kv, inst, schema, i) <= valid_count(env, sc, kv, inst, schema, n),
    decreases n,
{
    if i < n {
        lemma_valid_count_mono(env, sc, kv, inst, schema, i, (n - 1) as nat);
    }
}

/// The number of schemas of the list that `instance` is valid against.
fn count_valid(ctx: &ValidationContext, subschemas: &JsonValue, instance: &JsonValue, schema: &JsonValue, ss: &Vec<JsonValue>) -> (r: usize)
    requires
        ctx.wf(),
        *subschemas == JsonValue::Array(*ss),
    ensures
        r == valid_count(ctx.env(), ctx.scope(), subschemas@, instance@, schema@, ss@.len()),
    decreases size(instance@), fuel(ctx.env(), ctx.scope()), kmeasure(subschemas@, schema@), 1nat, 0nat,
{
    proof {
        lemma_value_children(*subschemas);
    }
    let ghost sv = items_view(ss@);
    let mut count: usize = 0;
    let mut i: usize = 0;
    while i < ss.len()
        invariant
            i <= ss.len(),
            count <= i,
            ctx.wf(),
            *subschemas == JsonValue::Array(*ss),
            subschemas@ == JsonView::Array(sv),
            sv == items_view(ss@),
            sv.len() == ss@.len(),
            forall|q: int| 0 <= q < ss@.len() ==> (#[trigger] sv[q]) == ss@[q]@,
            forall|q: int| 0 <= q < ss@.len() ==> size(#[trigger] ss@[q]@) < size(subschemas@),
            count == valid_count(ctx.env(), ctx.scope(), subschemas@, instance@, schema@, i as nat),
        decreases ss.len() - i,
    {
        assert(sv[i as int] == ss@[i as int]@);
        let found = ctx.iter_errors(instance, &ss[i]);
        if found.len() == 0 {
            count += 1;
        }
        i += 1;
    }
    count
}

/// The `allOf` keyword.
pub struct AllOfKeyword;

impl Keyword for AllOfKeyword {
    /// The keyword's name.
    fn name(&self) -> (r: &'static str)
        ensures
            r@ == "allOf"@,
    {
        "allOf"
    }

    /// The errors of `instance` against `"allOf": subschemas`.
    fn validate(
        &self,
        ctx: &ValidationContext,
        subschemas: &JsonValue,
        instance: &JsonValue,
        schema: &JsonValue,
    ) -> (r: Vec<ValidationError>)
        ensures
            errs_view(r@) == all_of_errors(ctx.env(), ctx.scope(), subschemas@, instance@, schema@),
        decreases size(instance@), fuel(ctx.env(), ctx.scope()), kmeasure(subschemas@, schema@), 2nat, 0nat,
    {
        let mut errors: Vec<ValidationError> = Vec::new();
        assert(errs_view(errors@) =~= Seq::<ErrorView>::empty());
        proof {
            lemma_value_children(*subschemas);
        }
        match subschemas {
            JsonValue::Array(ss) => {
                let ghost sv = items_view(ss@);
                let mut i: usize = 0;
                while i < ss.len()
                    invariant
                        i <= ss.len(),
                        ctx.wf(),
                        *subschemas == JsonValue::Array(*ss),
                        subschemas@ == JsonView::Array(sv),
                        sv == items_view(ss@),
                        sv.len() == ss@.len(),
                        forall|q: int| 0 <= q < ss@.len() ==> (#[trigger] sv[q]) == ss@[q]@,
                        forall|q: int| 0 <= q < ss@.len() ==> size(#[trigger] ss@[q]@) < size(subschemas@),
                        errs_view(errors@) == all_of_from(
                            ctx.env(),
                            ctx.scope(),
                            subschemas@,
                            instance@,
                            schema@,
                            i as nat,
                        ),
                    decreases ss.len() - i,
                {
                    assert(sv[i as int] == ss@[i as int]@);
                    let found = ctx.iter_errors(instance, &ss[i]);
                    let idx = usize_to_string(i);
                    append_spath_prefixed(&mut errors, found, idx.as_str());
                    i += 1;
                }
                errors
            },
            _ => errors,
        }
    }
}

/// The `anyOf` keyword.
pub struct AnyOfKeyword;

impl Keyword for AnyOfKeyword {
    /// The keyword's name.
    fn name(&self) -> (r: &'static str)
        ensures
            r@ == "anyOf"@,
    {
        "anyOf"
    }

    /// The errors of `instance` against `"anyOf": subschemas`.
    fn validate(
        &self,
        ctx: &ValidationContext,
        subschemas: &JsonValue,
        instance: &JsonValue,
        schema: &JsonValue,
    ) -> (r: Vec<ValidationError>)
        ensures
            errs_view(r@) == any_of_errors(ctx.env(), ctx.scope(), subschemas@, instance@, schema@),
        decreases size(instance@), fuel(ctx.env(), ctx.scope()), kmeasure(subschemas@, schema@), 2nat, 0nat,
    {
        let mut errors: Vec<ValidationError> = Vec::new();
        assert(errs_view(errors@) =~= Seq::<ErrorView>::empty());
        proof {
            lemma_value_children(*subschemas);
        }
        match subschemas {
            JsonValue::Array(ss) => {
                let ghost sv = items_view(ss@);
                let mut i: usize = 0;
                while i < ss.len()
                    invariant
                        i <= ss.len(),
                        ctx.wf(),
                        *subschemas == JsonValue::Array(*ss),
                        subschemas@ == JsonView::Array(sv),
                        sv == items_view(ss@),
                        sv.len() == ss@.len(),
                        forall|q: int| 0 <= q < ss@.len() ==> (#[trigger] sv[q]) == ss@[q]@,
                        forall|q: int| 0 <= q < ss@.len() ==> size(#[trigger] ss@[q]@) < size(subschemas@),
                        valid_count(ctx.env(), ctx.scope(), subschemas@, instance@, schema@, i as nat) == 0,
                        errs_view(errors@) == Seq::<ErrorView>::empty(),
                    decreases ss.len() - i,
                {
                    assert(sv[i as int] == ss@[i as int]@);
                    let found = ctx.iter_errors(instance, &ss[i]);
                    if found.len() == 0 {
                        proof {
                            assert(valid_count(ctx.env(), ctx.scope(), subschemas@, instance@, schema@, (i + 1) as nat) == 1);
                            lemma_valid_count_mono(
                                ctx.env(),
                                ctx.scope(),
                                subschemas@,
                                instance@,
                                schema@,
                                (i + 1) as nat,
                                sv.len(),
                            );
                        }
                        return errors;
                    }
                    i += 1;
                }
                errors.push(
                    keyword_error_exec(
                        string_of("instance does not match any of the schemas in anyOf"),
                        "anyOf",
                        instance,
                    ),
                );
                assert(errs_view(errors@) =~= any_of_errors(ctx.env(), ctx.scope(), subschemas@, instance@, schema@));
                errors
            },
            _ => errors,
        }
    }
}

/// The `oneOf` keyword.
pub struct OneOfKeyword;

impl Keyword for OneOfKeyword {
    /// The keyword's name.
    fn name(&self) -> (r: &'static str)
        ensures
            r@ == "oneOf"@,
    {
        "oneOf"
    }

    /// The errors of `instance` against `"oneOf": subschemas`.
    fn validate(
        &self,
        ctx: &ValidationContext,
        subschemas: &JsonValue,
        instance: &JsonValue,
        schema: &JsonValue,
    ) -> (r: Vec<ValidationError>)
        ensures
            errs_view(r@) == one_of_errors(ctx.env(), ctx.scope(), subschemas@, instance@, schema@),
        decreases size(instance@), fuel(ctx.env(), ctx.scope()), kmeasure(subschemas@, schema@), 2nat, 0nat,
    {
        let mut errors: Vec<ValidationError> = Vec::new();
        assert(errs_view(errors@) =~= Seq::<ErrorView>::empty());
        proof {
            lemma_value_children(*subschemas);
        }
        match subschemas {
            JsonValue::Array(ss) => {
                let count = count_valid(ctx, subschemas, instance, schema, ss);
                if count == 1 {
                    return errors;
                }
                let msg = if count == 0 {
                    string_of("instance does not match any schema in oneOf")
                } else {
                    let mut m = string_of("instance matches ");
                    let c = usize_to_string(count);
                    push_str(&mut m, c.as_str());
                    push_str(&mut m, " schemas in oneOf (exactly 1 required)");
                    m
                };
                errors.push(keyword_error_exec(msg, "oneOf", instance));
                assert(errs_view(errors@) =~= one_of_errors(ctx.env(), ctx.scope(), subschemas@, instance@, schema@));
                errors
            },
            _ => errors,
        }
    }
}

/// The `not` keyword.
pub struct NotKeyword;

impl Keyword for NotKeyword {
    /// The keyword's name.
    fn name(&self) -> (r: &'static str)
        ensures
            r@ == "not"@,
    {
        "not"
    }

    /// The errors of `instance` against `"not": sub_schema`.
    fn validate(
        &self,
        ctx: &ValidationContext,
        sub_schema: &JsonValue,
        instance: &JsonValue,
        schema: &JsonValue,
    ) -> (r: Vec<ValidationError>)
        ensures
            errs_view(r@) == not_errors(ctx.env(), ctx.scope(), sub_schema@, instance@, schema@),
        decreases size(instance@), fuel(ctx.env(), ctx.scope()), kmeasure(sub_schema@, schema@), 2nat, 0nat,
    {
        let mut errors: Vec<ValidationError> = Vec::new();
        assert(errs_view(errors@) =~= Seq::<ErrorView>::empty());
        let found = ctx.iter_errors(instance, sub_schema);
        if found.len() == 0 {
            errors.push(
                keyword_error_exec(string_of("instance should not be valid against `not` schema"), "not", instance),
            );
            assert(errs_view(errors@) =~= not_errors(ctx.env(), ctx.scope(), sub_schema@, instance@, schema@));
        }
        errors
    }
}

/// The `if` keyword.
pub struct IfKeyword;

impl Keyword for IfKeyword {
    /// The keyword's name.
    fn name(&self) -> (r: &'static str)
        ensures
            r@ == "if"@,
    {
        "if"
    }

    /// `if` reports nothing by itself.
    fn validate(
        &self,
        ctx: &ValidationContext,
        sub_schema: &JsonValue,
        instance: &JsonValue,
        schema: &JsonValue,
    ) -> (r: Vec<ValidationError>)
        ensures
            errs_view(r@) == if_errors(),
    {
        let errors: Vec<ValidationError> = Vec::new();
        assert(errs_view(errors@) =~= Seq::<ErrorView>::empty());
        errors
    }
}

/// The `then` keyword.
pub struct ThenKeyword;

impl Keyword for ThenKeyword {
    /// The keyword's name.
    fn name(&self) -> (r: &'static str)
        ensures
            r@ == "then"@,
    {
        "then"
    }

    /// The errors of `instance` against `"then": then_schema`.
    fn validate(
        &self,
        ctx: &ValidationContext,
        then_schema: &JsonValue,
        instance: &JsonValue,
        schema: &JsonValue,
    ) -> (r: Vec<ValidationError>)
        ensures
            errs_view(r@) == then_errors(ctx.env(), ctx.scope(), then_schema@, instance@, schema@),
        decreases size(instance@), fuel(ctx.env(), ctx.scope()), kmeasure(then_schema@, schema@), 2nat, 0nat,
    {
        let errors: Vec<ValidationError> = Vec::new();
        assert(errs_view(errors@) =~= Seq::<ErrorView>::empty());
        match schema.get("if") {
            Some(cond) => {
                let passed = ctx.iter_errors(instance, cond).len() == 0;
                if !passed {
                    return errors;
                }
                ctx.iter_errors(instance, then_schema)
            },
            None => errors,
        }
    }
}

/// The `else` keyword.
pub struct ElseKeyword;

impl Keyword for ElseKeyword {
    /// The keyword's name.
    fn name(&self) -> (r: &'static str)
        ensures
            r@ == "else"@,
    {
        "else"
    }

    /// The errors of `instance` against `"else": else_schema`.
    fn validate(
        &self,
        ctx: &ValidationContext,
        else_schema: &JsonValue,
        instance: &JsonValue,
        schema: &JsonValue,
    ) -> (r: Vec<ValidationError>)
        ensures
            errs_view(r@) == else_errors(ctx.env(), ctx.scope(), else_schema@, instance@, schema@),
        decreases size(instance@), fuel(ctx.env(), ctx.scope()), kmeasure(else_schema@, schema@), 2nat, 0nat,
    {
        let errors: Vec<ValidationError> = Vec::new();
        assert(errs_view(errors@) =~= Seq::<ErrorView>::empty());
        match schema.get("if") {
            Some(cond) => {
                let passed = ctx.iter_errors(instance, cond).len() == 0;
                if passed {
                    return errors;
                }
                ctx.iter_errors(instance, else_schema)
            },
            None => errors,
        }
    }
}

} // verus!
