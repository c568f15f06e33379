//! The array keywords: `items`, `prefixItems`, `minItems`, `maxItems`,
//! `uniqueItems`, `contains`, `minContains` and `maxContains`.
use vstd::prelude::*;

use crate::error::{errs_view, keyword_error, keyword_error_exec, ErrorView, ValidationError};
use crate::json::{get_key, json_eq, json_equal, lemma_children_size, lemma_get_key_size, lemma_value_children, items_view, render, size, JsonValue, JsonView};
use crate::keyword::count_error;
use crate::number::JsonNumber;
use crate::text::{dec, push_str, string_of, u128_to_string, usize_to_string};
use crate::keyword::Keyword;
use crate::validator::{
    append_errors, append_spath_prefixed, child_scope, errors_of, fuel, has_type, kmeasure, prefix_spath, Env, Scope,
    ValidationContext,
};

verus! {

broadcast use vstd::string::group_string_axioms;

/// The number of `prefixItems` schemas of `schema`.
pub open spec fn prefix_len(schema: JsonView) -> nat {
    match get_key(schema, "prefixItems"@) {
        Some(JsonView::Array(a)) => a.len(),
        _ => 0,
    }
}

/// `items`: the items after the `prefixItems` are refused (`false`) or
/// each valid against the schema.
pub open spec fn items_errors(env: Env, sc: Scope, kv: JsonView, inst: JsonView, schema: JsonView) -> Seq<ErrorView>
    decreases size(inst), fuel(env, sc), kmeasure(kv, schema), 2nat, 0nat,
{
    match inst {
        JsonView::Array(arr) => if !has_type(env, inst, "array"@) || arr.len() <= prefix_len(schema) {
            Seq::empty()
        } else if kv == JsonView::Bool(false) {
            let p = prefix_len(schema);
            seq![
                keyword_error(
                    "Expected at most "@ + dec(p) + " items, but found "@ + dec(arr.len()) + " ("@ + dec(
                        (arr.len() - p) as nat,
                    ) + " extra)"@,
                    "items"@,
                    inst,
                ),
            ]
        } else {
            items_from(env, sc, kv, inst, schema, arr.len())
        },
        _ => Seq::empty(),
    }
}

/// The `items` errors of the items before index `n`.
pub open spec fn items_from(env: Env, sc: Scope, kv: JsonView, inst: JsonView, schema: JsonView, n: nat) -> Seq<ErrorView>
    decreases size(inst), fuel(env, sc), kmeasure(kv, schema), 1nat, n,
{
    match inst {
        JsonView::Array(arr) => if n <= prefix_len(schema) || n > arr.len() {
            Seq::empty()
        } else {
            proof {
                lemma_children_size(inst);
            }
            items_from(env, sc, kv, inst, schema, (n - 1) as nat) + errors_of(
                env,
                child_scope(sc, dec((n - 1) as nat)),
                arr[n - 1],
                kv,
            )
        },
        _ => Seq::empty(),
    }
}

/// `prefixItems`: each item is valid against the schema at its index.
pub open spec fn prefix_items_errors(env: Env, sc: Scope, kv: JsonView, inst: JsonView, schema: JsonView) -> Seq<ErrorView>
    decreases size(inst), fuel(env, sc), kmeasure(kv, schema), 2nat, 0nat,
{
    match (kv, inst) {
        (JsonView::Array(ss), JsonView::Array(arr)) => if has_type(env, inst, "array"@) {
            prefix_from(env, sc, kv, inst, schema, ss.len())
        } else {
            Seq::empty()
        },
        _ => Seq::empty(),
    }
}

/// The `prefixItems` errors of the first `n` schemas.
pub open spec fn prefix_from(env: Env, sc: Scope, kv: JsonView, inst: JsonView, schema: JsonView, n: nat) -> Seq<ErrorView>
    decreases size(inst), fuel(env, sc), kmeasure(kv, schema), 1nat, n,
{
    match (kv, inst) {
        (JsonView::Array(ss), JsonView::Array(arr)) => if n == 0 || n > ss.len() {
            Seq::empty()
        } else {
            proof {
                lemma_children_size(inst);
            }
            let i = (n - 1) as nat;
            prefix_from(env, sc, kv, inst, schema, i) + if i < arr.len() {
                prefix_spath(errors_of(env, child_scope(sc, dec(i)), arr[i as int], ss[i as int]), dec(i))
            } else {
                Seq::empty()
            }
        },
        _ => Seq::empty(),
    }
}

/// `minItems`: an array has at least that many items.
pub open spec fn min_items_errors(env: Env, kv: JsonView, inst: JsonView) -> Seq<ErrorView> {
    match (kv, inst) {
        (JsonView::Number(n), JsonView::Array(arr)) => match n.as_u64_spec() {
            Some(m) => if has_type(env, inst, "array"@) && arr.len() < m {
                seq![
                    keyword_error(
                        "array has "@ + dec(arr.len()) + " items, but minimum is "@ + dec(m),
                        "minItems"@,
                        inst,
                    ),
                ]
            } else {
                Seq::empty()
            },
            None => Seq::empty(),
        },
        _ => Seq::empty(),
    }
}

/// `maxItems`: an array has at most that many items.
pub open spec fn max_items_errors(env: Env, kv: JsonView, inst: JsonView) -> Seq<ErrorView> {
    match (kv, inst) {
        (JsonView::Number(n), JsonView::Array(arr)) => match n.as_u64_spec() {
            Some(m) => if has_type(env, inst, "array"@) && arr.len() > m {
                seq![
                    keyword_error(
                        "array has "@ + dec(arr.len()) + " items, but maximum is "@ + dec(m),
                        "maxItems"@,
                        inst,
                    ),
                ]
            } else {
                Seq::empty()
            },
            None => Seq::empty(),
        },
        _ => Seq::empty(),
    }
}

/// Whether item `j` equals one of the items before it.
pub open spec fn equals_earlier(arr: Seq<JsonView>, j: int) -> bool {
    exists|i: int| 0 <= i < j && json_eq(#[trigger] arr[i], arr[j])
}

/// The index of the first item, among the first `n`, that equals an
/// earlier item.
pub open spec fn first_duplicate(arr: Seq<JsonView>, n: nat) -> Option<nat>
    decreases n,
{
    if n == 0 || n > arr.len() {
        None
    } else {
        match first_duplicate(arr, (n - 1) as nat) {
            Some(j) => Some(j),
            None => if equals_earlier(arr, n - 1) {
                Some((n - 1) as nat)
            } else {
                None
            },
        }
    }
}

/// `uniqueItems: true`: no item of an array equals an earlier one.
pub open spec fn unique_items_errors(env: Env, kv: JsonView, inst: JsonView) -> Seq<ErrorView> {
    match inst {
        JsonView::Array(arr) => if kv == JsonView::Bool(true) && has_type(env, inst, "array"@) {
            match first_duplicate(arr, arr.len()) {
                Some(j) => seq![
                    keyword_error("array contains duplicate value: "@ + render(arr[j as int]), "uniqueItems"@, inst),
                ],
                None => Seq::empty(),
            }
        } else {
            Seq::empty()
        },
        _ => Seq::empty(),
    }
}

/// The number of the first `n` items that are valid against `sub`.
pub open spec fn match_count(env: Env, sc: Scope, sub: JsonView, inst: JsonView, n: nat) -> nat
    decreases size(inst), fuel(env, sc), size(sub) + 1, 1nat, n,
{
    match inst {
        JsonView::Array(arr) => if n == 0 || n > arr.len() {
            0
        } else {
            proof {
                lemma_children_size(inst);
            }
            match_count(env, sc, sub, inst, (n - 1) as nat) + if errors_of(
                env,
                child_scope(sc, dec((n - 1) as nat)),
                arr[n - 1],
                sub,
            ).len() == 0 {
                1nat
            } else {
                0nat
            }
        },
        _ => 0,
    }
}

/// The `minContains` of `schema`, read as a count; 1 when it is absent or
/// not a whole non-negative number.
pub open spec fn min_contains(schema: JsonView) -> nat {
    match get_key(schema, "minContains"@) {
        Some(JsonView::Number(n)) => match n.count_value() {
            Some(c) => c,
            None => 1,
        },
        _ => 1,
    }
}

/// `contains`: at least `minContains` (1 by default) items are valid
/// against the schema.
pub open spec fn contains_errors(env: Env, sc: Scope, kv: JsonView, inst: JsonView, schema: JsonView) -> Seq<ErrorView>
    decreases size(inst), fuel(env, sc), kmeasure(kv, schema), 2nat, 0nat,
{
    match inst {
        JsonView::Array(arr) => {
            let need = min_contains(schema);
            let found = match_count(env, sc, kv, inst, arr.len());
            if !has_type(env, inst, "array"@) || need == 0 || found >= need {
                Seq::empty()
            } else {
                seq![
                    keyword_error(
                        "array does not contain enough elements matching the schema (found "@ + dec(found)
                            + ", required at least "@ + dec(need) + ")"@,
                        "contains"@,
                        inst,
                    ),
                ]
            }
        },
        _ => Seq::empty(),
    }
}

/// The indices below `n` of the items of `arr` that `sub` accepts, each
/// checked at its own index (as `descend` checks it).
pub open spec fn accepted_indices(env: Env, sc: Scope, sub: JsonView, arr: Seq<JsonView>, n: nat) -> Set<int> {
    Set::new(
        |j: int| 0 <= j < n && errors_of(env, child_scope(sc, dec(j as nat)), arr[j], sub).len() == 0,
    )
}

/// `match_count` counts the accepted items.
pub proof fn lemma_match_count_accepted(env: Env, sc: Scope, sub: JsonView, arr: Seq<JsonView>, n: nat)
    requires
        n <= arr.len(),
    ensures
        accepted_indices(env, sc, sub, arr, n).finite(),
        match_count(env, sc, sub, JsonView::Array(arr), n) == accepted_indices(env, sc, sub, arr, n).len(),
    decreases n,
{
    if n == 0 {
        assert(accepted_indices(env, sc, sub, arr, 0) =~= Set::<int>::empty());
    } else {
        let m = (n - 1) as nat;
        lemma_match_count_accepted(env, sc, sub, arr, m);
        let prev = accepted_indices(env, sc, sub, arr, m);
        if errors_of(env, child_scope(sc, dec(m)), arr[m as int], sub).len() == 0 {
            assert(accepted_indices(env, sc, sub, arr, n) =~= prev.insert(m as int));
            assert(!prev.contains(m as int));
        } else {
            assert(accepted_indices(env, sc, sub, arr, n) =~= prev);
        }
    }
}

/// `minContains`: when the schema has `contains`, the value is a count (a
/// whole number, not negative) and the instance is an array (as the type
/// checker sees it), there is one error, of keyword `minContains` and
/// carrying the instance, exactly when fewer items than the count are
/// accepted by `contains`; in every other case there is none.
pub proof fn law_min_contains(env: Env, sc: Scope, kv: JsonView, inst: JsonView, schema: JsonView)
    ensures
        ({
            let errs = min_contains_errors(env, sc, kv, inst, schema);
            if get_key(schema, "contains"@) is Some && kv is Number && kv->Number_0.count_value() is Some
                && inst is Array && has_type(env, inst, "array"@) {
                let c = get_key(schema, "contains"@).unwrap();
                let bound = kv->Number_0.count_value().unwrap();
                let arr = inst->Array_0;
                &&& errs.len() == (if accepted_indices(env, sc, c, arr, arr.len()).len() < bound {
                    1int
                } else {
                    0int
                })
                &&& errs.len() == 1 ==> errs[0].keyword == Some("minContains"@) && errs[0].instance == Some(inst)
            } else {
                errs == Seq::<ErrorView>::empty()
            }
        }),
{
    if let (Some(c), JsonView::Array(arr)) = (get_key(schema, "contains"@), inst) {
        lemma_match_count_accepted(env, sc, c, arr, arr.len());
    }
}

/// `minContains`: with a `contains` schema, at least that many items are
/// valid against it.
pub open spec fn min_contains_errors(env: Env, sc: Scope, kv: JsonView, inst: JsonView, schema: JsonView) -> Seq<ErrorView>
    decreases size(inst), fuel(env, sc), kmeasure(kv, schema), 2nat, 0nat,
{
    match (get_key(schema, "contains"@), kv, inst) {
        (Some(c), JsonView::Number(n), JsonView::Array(arr)) => match n.count_value() {
            Some(m) => {
                proof {
                    lemma_get_key_size(schema, "contains"@);
                }
                let found = match_count(env, sc, c, inst, arr.len());
                if has_type(env, inst, "array"@) && found < m {
                    seq![
                        keyword_error(
                            "array contains "@ + dec(found) + " matching element(s), but minimum is "@ + dec(m),
                            "minContains"@,
                            inst,
                        ),
                    ]
                } else {
                    Seq::empty()
                }
            },
            None => Seq::empty(),
        },
        _ => Seq::empty(),
    }
}

/// `maxContains`: with a `contains` schema, at most that many items are
/// valid against it.
pub open spec fn max_contains_errors(env: Env, sc: Scope, kv: JsonView, inst: JsonView, schema: JsonView) -> Seq<ErrorView>
    decreases size(inst), fuel(env, sc), kmeasure(kv, schema), 2nat, 0nat,
{
    match (get_key(schema, "contains"@), kv, inst) {
        (Some(c), JsonView::Number(n), JsonView::Array(arr)) => match n.count_value() {
            Some(m) => {
                proof {
                    lemma_get_key_size(schema, "contains"@);
                }
                let found = match_count(env, sc, c, inst, arr.len());
                if has_type(env, inst, "array"@) && found > m {
                    seq![
                        keyword_error(
                            "array contains "@ + dec(found) + " matching element(s), but maximum is "@ + dec(m),
                            "maxContains"@,
                            inst,
                        ),
                    ]
                } else {
                    Seq::empty()
                }
            },
            None => Seq::empty(),
        },
        _ => Seq::empty(),
    }
}

/// No item among the first `n` equals an earlier one exactly when
/// `first_duplicate` finds none.
proof fn lemma_first_duplicate(arr: Seq<JsonView>, n: nat)
    requires
        n <= arr.len(),
    ensures
        first_duplicate(arr, n) is None <==> forall|i: int, j: int| 0 <= i < j < n ==> !json_eq(#[trigger] arr[i], #[trigger] arr[j]),
    decreases n,
{
    if n > 0 {
        lemma_first_duplicate(arr, (n - 1) as nat);
        if first_duplicate(arr, n) is None {
            assert forall|i: int, j: int| 0 <= i < j < n implies !json_eq(#[trigger] arr[i], #[trigger] arr[j]) by {
                if j == n - 1 {
                    assert(!equals_earlier(arr, j));
                }
            }
        } else if first_duplicate(arr, (n - 1) as nat) is None {
            let i = choose|i: int| 0 <= i < n - 1 && json_eq(#[trigger] arr[i], arr[n - 1]);
            assert(json_eq(arr[i], arr[n - 1]));
        }
    }
}

/// `uniqueItems: true` accepts an array exactly when no two of its items
/// are equal.
pub proof fn law_unique_items(env: Env, arr: Seq<JsonView>)
    requires
        has_type(env, JsonView::Array(arr), "array"@),
    ensures
        unique_items_errors(env, JsonView::Bool(true), JsonView::Array(arr)).len() == 0 <==> forall|i: int, j: int|
            0 <= i < j < arr.len() ==> !json_eq(#[trigger] arr[i], #[trigger] arr[j]),
{
    lemma_first_duplicate(arr, arr.len());
}

/// The `items` errors of the items before index `n` are empty exactly when
/// each of those items after the `prefixItems` is valid.
proof fn lemma_items_from(env: Env, sc: Scope, kv: JsonView, inst: JsonView, schema: JsonView, n: nat)
    requires
        inst matches JsonView::Array(arr) && n <= arr.len(),
    ensures
        inst matches JsonView::Array(arr) ==> (items_from(env, sc, kv, inst, schema, n).len() == 0 <==> forall|i: int|
            prefix_len(schema) <= i < n ==> #[trigger] errors_of(env, child_scope(sc, dec(i as nat)), arr[i], kv).len()
                == 0),
    decreases n,
{
    if let JsonView::Array(arr) = inst {
        if n > prefix_len(schema) {
            lemma_items_from(env, sc, kv, inst, schema, (n - 1) as nat);
            let k: int = n - 1;
            let last = errors_of(env, child_scope(sc, dec(k as nat)), arr[k], kv);
            assert(items_from(env, sc, kv, inst, schema, n) == items_from(env, sc, kv, inst, schema, (n - 1) as nat)
                + last);
            if items_from(env, sc, kv, inst, schema, n).len() == 0 {
                assert(last.len() == 0);
            }
        }
    }
}

/// `items` with a schema (not `false`) accepts an array exactly when every
/// item after the `prefixItems` is valid against it.
pub proof fn law_items(env: Env, sc: Scope, kv: JsonView, arr: Seq<JsonView>, schema: JsonView)
    requires
        kv != JsonView::Bool(false),
        has_type(env, JsonView::Array(arr), "array"@),
    ensures
        items_errors(env, sc, kv, JsonView::Array(arr), schema).len() == 0 <==> forall|i: int|
            prefix_len(schema) <= i < arr.len() ==> #[trigger] errors_of(env, child_scope(sc, dec(i as nat)), arr[i], kv).len()
                == 0,
{
    lemma_items_from(env, sc, kv, JsonView::Array(arr), schema, arr.len());
}

/// The number of `prefixItems` schemas of `schema` (see `prefix_len`).
fn prefix_len_exec(schema: &JsonValue) -> (r: usize)
    ensures
        r == prefix_len(schema@),
{
    match schema.get("prefixItems") {
        Some(x) => {
            proof {
                lemma_value_children(*x);
            }
            match x {
                JsonValue::Array(a) => a.len(),
                _ => 0,
            }
        },
        None => 0,
    }
}

/// The number of items of `arr` valid against `sub` (see `match_count`).
fn count_matches(ctx: &ValidationContext, sub: &JsonValue, instance: &JsonValue, arr: &Vec<JsonValue>) -> (r: usize)
    requires
        ctx.wf(),
        *instance == JsonValue::Array(*arr),
    ensures
        r == match_count(ctx.env(), ctx.scope(), sub@, instance@, arr@.len()),
    decreases size(instance@), fuel(ctx.env(), ctx.scope()), size(sub@) + 1, 1nat, 0nat,
{
    proof {
        lemma_value_children(*instance);
    }
    let ghost av = items_view(arr@);
    let mut count: usize = 0;
    let mut i: usize = 0;
    while i < arr.len()
        invariant
            i <= arr.len(),
            count <= i,
            ctx.wf(),
            *instance == JsonValue::Array(*arr),
            instance@ == JsonView::Array(av),
            av == items_view(arr@),
            av.len() == arr@.len(),
            forall|q: int| 0 <= q < arr@.len() ==> (#[trigger] av[q]) == arr@[q]@,
            forall|q: int| 0 <= q < arr@.len() ==> size(#[trigger] arr@[q]@) < size(instance@),
            count == match_count(ctx.env(), ctx.scope(), sub@, instance@, i as nat),
        decreases arr.len() - i,
    {
        let idx = usize_to_string(i);
        assert(av[i as int] == arr@[i as int]@);
        let found = ctx.descend(&arr[i], sub, idx.as_str());
        if found.len() == 0 {
            count += 1;
        }
        i += 1;
    }
    count
}

/// The `items` keyword.
pub struct ItemsKeyword;

impl Keyword for ItemsKeyword {
    /// The keyword's name.
    fn name(&self) -> (r: &'static str)
        ensures
            r@ == "items"@,
    {
        "items"
    }

    /// The errors of `instance` against `"items": items`.
    fn validate(
        &self,
        ctx: &ValidationContext,
        items: &JsonValue,
        instance: &JsonValue,
        schema: &JsonValue,
    ) -> (r: Vec<ValidationError>)
        ensures
            errs_view(r@) == items_errors(ctx.env(), ctx.scope(), items@, instance@, schema@),
        decreases size(instance@), fuel(ctx.env(), ctx.scope()), kmeasure(items@, schema@), 2nat, 0nat,
    {
        let mut errors: Vec<ValidationError> = Vec::new();
        assert(errs_view(errors@) =~= Seq::<ErrorView>::empty());
        if !ctx.is_type(instance, "array") {
            return errors;
        }
        proof {
            lemma_value_children(*instance);
        }
        match instance {
            JsonValue::Array(arr) => {
                let ghost av = items_view(arr@);
                let p = prefix_len_exec(schema);
                let total = arr.len();
                if total <= p {
                    return errors;
                }
                if items.is_false() {
                    let mut msg = string_of("Expected at most ");
                    let a = usize_to_string(p);
                    push_str(&mut msg, a.as_str());
                    push_str(&mut msg, " items, but found ");
                    let b = usize_to_string(total);
                    push_str(&mut msg, b.as_str());
                    push_str(&mut msg, " (");
                    let c = usize_to_string(total - p);
                    push_str(&mut msg, c.as_str());
                    push_str(&mut msg, " extra)");
                    errors.push(keyword_error_exec(msg, "items", instance));
                    assert(errs_view(errors@) =~= items_errors(ctx.env(), ctx.scope(), items@, instance@, schema@));
                    return errors;
                }
                let mut i: usize = p;
                while i < total
                    invariant
                        p <= i <= total,
                        total == arr.len(),
                        p == prefix_len(schema@),
                        ctx.wf(),
                        *instance == JsonValue::Array(*arr),
                        instance@ == JsonView::Array(av),
                        av == items_view(arr@),
                        av.len() == arr@.len(),
                        forall|q: int| 0 <= q < arr@.len() ==> (#[trigger] av[q]) == arr@[q]@,
                        forall|q: int| 0 <= q < arr@.len() ==> size(#[trigger] arr@[q]@) < size(instance@),
                        errs_view(errors@) == items_from(ctx.env(), ctx.scope(), items@, instance@, schema@, i as nat),
                    decreases total - i,
                {
                    let idx = usize_to_string(i);
                    assert(av[i as int] == arr@[i as int]@);
                    let found = ctx.descend(&arr[i], items, idx.as_str());
                    append_errors(&mut errors, found);
                    i += 1;
                }
                errors
            },
            _ => errors,
        }
    }
}

/// The `prefixItems` keyword.
pub struct PrefixItemsKeyword;

impl Keyword for PrefixItemsKeyword {
    /// The keyword's name.
    fn name(&self) -> (r: &'static str)
        ensures
            r@ == "prefixItems"@,
    {
        "prefixItems"
    }

    /// The errors of `instance` against `"prefixItems": prefix_items`.
    fn validate(
        &self,
        ctx: &ValidationContext,
        prefix_items: &JsonValue,
        instance: &JsonValue,
        schema: &JsonValue,
    ) -> (r: Vec<ValidationError>)
        ensures
            errs_view(r@) == prefix_items_errors(ctx.env(), ctx.scope(), prefix_items@, instance@, schema@),
        decreases size(instance@), fuel(ctx.env(), ctx.scope()), kmeasure(prefix_items@, schema@), 2nat, 0nat,
    {
        let mut errors: Vec<ValidationError> = Vec::new();
        assert(errs_view(errors@) =~= Seq::<ErrorView>::empty());
        if !ctx.is_type(instance, "array") {
            return errors;
        }
        proof {
            lemma_value_children(*instance);
            lemma_value_children(*prefix_items);
        }
        match (prefix_items, instance) {
            (JsonValue::Array(ss), JsonValue::Array(arr)) => {
                let ghost av = items_view(arr@);
                let ghost sv = items_view(ss@);
                let mut i: usize = 0;
                while i < ss.len()
                    invariant
                        i <= ss.len(),
                        ctx.wf(),
                        *instance == JsonValue::Array(*arr),
                        *prefix_items == JsonValue::Array(*ss),
                        instance@ == JsonView::Array(av),
                        prefix_items@ == JsonView::Array(sv),
                        av == items_view(arr@),
                        sv == items_view(ss@),
                        av.len() == arr@.len(),
                        sv.len() == ss@.len(),
                        forall|q: int| 0 <= q < arr@.len() ==> (#[trigger] av[q]) == arr@[q]@,
                        forall|q: int| 0 <= q < ss@.len() ==> (#[trigger] sv[q]) == ss@[q]@,
                        forall|q: int| 0 <= q < arr@.len() ==> size(#[trigger] arr@[q]@) < size(instance@),
                        errs_view(errors@) == prefix_from(
                            ctx.env(),
                            ctx.scope(),
                            prefix_items@,
                            instance@,
                            schema@,
                            i as nat,
                        ),
                    decreases ss.len() - i,
                {
                    assert(sv[i as int] == ss@[i as int]@);
                    if i < arr.len() {
                        let idx = usize_to_string(i);
                        assert(av[i as int] == arr@[i as int]@);
                        let found = ctx.descend(&arr[i], &ss[i], idx.as_str());
                        append_spath_prefixed(&mut errors, found, idx.as_str());
                    } else {
                        assert(errs_view(errors@) =~= errs_view(errors@) + Seq::<ErrorView>::empty());
                    }
                    i += 1;
                }
                errors
            },
            _ => errors,
        }
    }
}

/// The `minItems` keyword.
pub struct MinItemsKeyword;

impl Keyword for MinItemsKeyword {
    /// The keyword's name.
    fn name(&self) -> (r: &'static str)
        ensures
            r@ == "minItems"@,
    {
        "minItems"
    }

    /// The errors of `instance` against `"minItems": min`.
    fn validate(
        &self,
        ctx: &ValidationContext,
        min: &JsonValue,
        instance: &JsonValue,
        schema: &JsonValue,
    ) -> (r: Vec<ValidationError>)
        ensures
            errs_view(r@) == min_items_errors(ctx.env(), min@, instance@),
    {
        if !ctx.is_type(instance, "array") {
            return Vec::new();
        }
        proof {
            lemma_value_children(*instance);
        }
        match (min, instance) {
            (JsonValue::Number(n), JsonValue::Array(arr)) => match n.as_u64() {
                Some(m) => if (arr.len() as u64) < m {
                    count_error("array has ", arr.len(), " items, but minimum is ", m, "minItems", instance)
                } else {
                    Vec::new()
                },
                None => Vec::new(),
            },
            _ => Vec::new(),
        }
    }
}

/// The `maxItems` keyword.
pub struct MaxItemsKeyword;

impl Keyword for MaxItemsKeyword {
    /// The keyword's name.
    fn name(&self) -> (r: &'static str)
        ensures
            r@ == "maxItems"@,
    {
        "maxItems"
    }

    /// The errors of `instance` against `"maxItems": max`.
    fn validate(
        &self,
        ctx: &ValidationContext,
        max: &JsonValue,
        instance: &JsonValue,
        schema: &JsonValue,
    ) -> (r: Vec<ValidationError>)
        ensures
            errs_view(r@) == max_items_errors(ctx.env(), max@, instance@),
    {
        if !ctx.is_type(instance, "array") {
            return Vec::new();
        }
        proof {
            lemma_value_children(*instance);
        }
        match (max, instance) {
            (JsonValue::Number(n), JsonValue::Array(arr)) => match n.as_u64() {
                Some(m) => if (arr.len() as u64) > m {
                    count_error("array has ", arr.len(), " items, but maximum is ", m, "maxItems", instance)
                } else {
                    Vec::new()
                },
                None => Vec::new(),
            },
            _ => Vec::new(),
        }
    }
}

/// The `uniqueItems` keyword.
pub struct UniqueItemsKeyword;

impl Keyword for UniqueItemsKeyword {
    /// The keyword's name.
    fn name(&self) -> (r: &'static str)
        ensures
            r@ == "uniqueItems"@,
    {
        "uniqueItems"
    }

    /// The errors of `instance` against `"uniqueItems": unique`.
    fn validate(
        &self,
        ctx: &ValidationContext,
        unique: &JsonValue,
        instance: &JsonValue,
        schema: &JsonValue,
    ) -> (r: Vec<ValidationError>)
        ensures
            errs_view(r@) == unique_items_errors(ctx.env(), unique@, instance@),
    {
        let mut errors: Vec<ValidationError> = Vec::new();
        assert(errs_view(errors@) =~= Seq::<ErrorView>::empty());
        if !unique.is_true() {
            return errors;
        }
        if !ctx.is_type(instance, "array") {
            return errors;
        }
        proof {
            lemma_value_children(*instance);
        }
        match instance {
            JsonValue::Array(arr) => {
                let ghost av = items_view(arr@);
                let mut j: usize = 0;
                while j < arr.len()
                    invariant
                        j <= arr.len(),
                        *instance == JsonValue::Array(*arr),
                        instance@ == JsonView::Array(av),
                        av == items_view(arr@),
                        av.len() == arr@.len(),
                        forall|q: int| 0 <= q < arr@.len() ==> (#[trigger] av[q]) == arr@[q]@,
                        first_duplicate(av, j as nat) is None,
                        errs_view(errors@) == Seq::<ErrorView>::empty(),
                        unique@ == JsonView::Bool(true),
                        has_type(ctx.env(), instance@, "array"@),
                    decreases arr.len() - j,
                {
                    let mut i: usize = 0;
                    while i < j
                        invariant
                            i <= j < arr.len(),
                            *instance == JsonValue::Array(*arr),
                            instance@ == JsonView::Array(av),
                            first_duplicate(av, j as nat) is None,
                            errs_view(errors@) == Seq::<ErrorView>::empty(),
                            unique@ == JsonView::Bool(true),
                            has_type(ctx.env(), instance@, "array"@),
                            av == items_view(arr@),
                            av.len() == arr@.len(),
                            forall|q: int| 0 <= q < arr@.len() ==> (#[trigger] av[q]) == arr@[q]@,
                            forall|q: int| 0 <= q < i ==> !json_eq(#[trigger] av[q], av[j as int]),
                        decreases j - i,
                    {
                        if json_equal(&arr[i], &arr[j]) {
                            assert(json_eq(av[i as int], av[j as int]));
                            assert(equals_earlier(av, j as int));
                            assert(first_duplicate(av, (j + 1) as nat) == Some(j as nat));
                            let mut msg = string_of("array contains duplicate value: ");
                            let t = arr[j].to_json_string();
                            push_str(&mut msg, t.as_str());
                            errors.push(keyword_error_exec(msg, "uniqueItems", instance));
                            proof {
                                lemma_first_duplicate_stable(av, (j + 1) as nat, av.len());
                            }
                            assert(errs_view(errors@) =~= unique_items_errors(ctx.env(), unique@, instance@));
                            return errors;
                        }
                        i += 1;
                    }
                    assert(!equals_earlier(av, j as int));
                    j += 1;
                }
                errors
            },
            _ => errors,
        }
    }
}

/// Once a duplicate is found among the first `i` items, it stays the
/// first one.
pub proof fn lemma_first_duplicate_stable(arr: Seq<JsonView>, i: nat, n: nat)
    requires
        i <= n <= arr.len(),
        first_duplicate(arr, i) is Some,
    ensures
        first_duplicate(arr, n) == first_duplicate(arr, i),
    decreases n,
{
    if n > i {
        lemma_first_duplicate_stable(arr, i, (n - 1) as nat);
    }
}

/// The `contains` keyword.
pub struct ContainsKeyword;

impl Keyword for ContainsKeyword {
    /// The keyword's name.
    fn name(&self) -> (r: &'static str)
        ensures
            r@ == "contains"@,
    {
        "contains"
    }

    /// The errors of `instance` against `"contains": sub_schema`.
    fn validate(
        &self,
        ctx: &ValidationContext,
        sub_schema: &JsonValue,
        instance: &JsonValue,
        schema: &JsonValue,
    ) -> (r: Vec<ValidationError>)
        ensures
            errs_view(r@) == contains_errors(ctx.env(), ctx.scope(), sub_schema@, instance@, schema@),
        decreases size(instance@), fuel(ctx.env(), ctx.scope()), kmeasure(sub_schema@, schema@), 2nat, 0nat,
    {
        let mut errors: Vec<ValidationError> = Vec::new();
        assert(errs_view(errors@) =~= Seq::<ErrorView>::empty());
        if !ctx.is_type(instance, "array") {
            return errors;
        }
        proof {
            lemma_value_children(*instance);
        }
        match instance {
            JsonValue::Array(arr) => {
                let need: u64 = match schema.get("minContains") {
                    Some(JsonValue::Number(n)) => match n.count_value_exec() {
                        Some(c) => c,
                        None => 1,
                    },
                    _ => 1,
                };
                if need == 0 {
                    return errors;
                }
                let found = count_matches(ctx, sub_schema, instance, arr);
                if (found as u64) >= need {
                    return errors;
                }
                let mut msg = string_of("array does not contain enough elements matching the schema (found ");
                let a = usize_to_string(found);
                push_str(&mut msg, a.as_str());
                push_str(&mut msg, ", required at least ");
                let b = u128_to_string(need as u128);
                push_str(&mut msg, b.as_str());
                push_str(&mut msg, ")");
                errors.push(keyword_error_exec(msg, "contains", instance));
                assert(errs_view(errors@) =~= contains_errors(ctx.env(), ctx.scope(), sub_schema@, instance@, schema@));
                errors
            },
            _ => errors,
        }
    }
}

/// The `minContains` keyword.
pub struct MinContainsKeyword;

impl Keyword for MinContainsKeyword {
    /// The keyword's name.
    fn name(&self) -> (r: &'static str)
        ensures
            r@ == "minContains"@,
    {
        "minContains"
    }

    /// The errors of `instance` against `"minContains": min`.
    fn validate(
        &self,
        ctx: &ValidationContext,
        min: &JsonValue,
        instance: &JsonValue,
        schema: &JsonValue,
    ) -> (r: Vec<ValidationError>)
        ensures
            errs_view(r@) == min_contains_errors(ctx.env(), ctx.scope(), min@, instance@, schema@),
        decreases size(instance@), fuel(ctx.env(), ctx.scope()), kmeasure(min@, schema@), 2nat, 0nat,
    {
        match schema.get("contains") {
            None => Vec::new(),
            Some(c) => {
                if !ctx.is_type(instance, "array") {
                    return Vec::new();
                }
                proof {
                    lemma_value_children(*instance);
                }
                match (min, instance) {
                    (JsonValue::Number(n), JsonValue::Array(arr)) => match n.count_value_exec() {
                        Some(m) => {
                            let found = count_matches(ctx, c, instance, arr);
                            if (found as u64) < m {
                                count_error(
                                    "array contains ",
                                    found,
                                    " matching element(s), but minimum is ",
                                    m,
                                    "minContains",
                                    instance,
                                )
                            } else {
                                Vec::new()
                            }
                        },
                        None => Vec::new(),
                    },
                    _ => Vec::new(),
                }
            },
        }
    }
}

/// The `maxContains` keyword.
pub struct MaxContainsKeyword;

impl Keyword for MaxContainsKeyword {
    /// The keyword's name.
    fn name(&self) -> (r: &'static str)
        ensures
            r@ == "maxContains"@,
    {
        "maxContains"
    }

    /// The errors of `instance` against `"maxContains": max`.
    fn validate(
        &self,
        ctx: &ValidationContext,
        max: &JsonValue,
        instance: &JsonValue,
        schema: &JsonValue,
    ) -> (r: Vec<ValidationError>)
        ensures
            errs_view(r@) == max_contains_errors(ctx.env(), ctx.scope(), max@, instance@, schema@),
        decreases size(instance@), fuel(ctx.env(), ctx.scope()), kmeasure(max@, schema@), 2nat, 0nat,
    {
        match schema.get("contains") {
            None => Vec::new(),
            Some(c) => {
                if !ctx.is_type(instance, "array") {
                    return Vec::new();
                }
                proof {
                    lemma_value_children(*instance);
                }
                match (max, instance) {
                    (JsonValue::Number(n), JsonValue::Array(arr)) => match n.count_value_exec() {
                        Some(m) => {
                            let found = count_matches(ctx, c, instance, arr);
                            if (found as u64) > m {
                                count_error(
                                    "array contains ",
                                    found,
                                    " matching element(s), but maximum is ",
                                    m,
                                    "maxContains",
                                    instance,
                                )
                            } else {
                                Vec::new()
                            }
                        },
                        None => Vec::new(),
                    },
                    _ => Vec::new(),
                }
            },
        }
    }
}


/// `minItems` and `maxItems` with a bound `m` (a non-negative integer), on
/// an array as the type checker sees it: `maxItems` reports one error
/// exactly when the array has more than `m` items, so an array of exactly
/// `m` items is accepted; `minItems` reports one error exactly when it has
/// fewer than `m`; neither reports more than one.
pub proof fn law_item_count_bounds(env: Env, n: JsonNumber, arr: Seq<JsonView>)
    requires
        has_type(env, JsonView::Array(arr), "array"@),
        n.as_u64_spec() is Some,
    ensures
        max_items_errors(env, JsonView::Number(n), JsonView::Array(arr)).len() == (if arr.len()
            > n.as_u64_spec().unwrap() {
            1int
        } else {
            0int
        }),
        min_items_errors(env, JsonView::Number(n), JsonView::Array(arr)).len() == (if arr.len()
            < n.as_u64_spec().unwrap() {
            1int
        } else {
            0int
        }),
        ({
            let errs = max_items_errors(env, JsonView::Number(n), JsonView::Array(arr));
            errs.len() == 1 ==> errs[0] == keyword_error(
                "array has "@ + dec(arr.len()) + " items, but maximum is "@ + dec(n.as_u64_spec().unwrap()),
                "maxItems"@,
                JsonView::Array(arr),
            )
        }),
        ({
            let errs = min_items_errors(env, JsonView::Number(n), JsonView::Array(arr));
            errs.len() == 1 ==> errs[0] == keyword_error(
                "array has "@ + dec(arr.len()) + " items, but minimum is "@ + dec(n.as_u64_spec().unwrap()),
                "minItems"@,
                JsonView::Array(arr),
            )
        }),
{
}


/// `contains` and `maxContains` on an array (as the type checker sees it),
/// with `found` the number of items that the `contains` schema accepts:
/// `contains` reports one error exactly when fewer than `need` items are
/// accepted, `need` being `minContains` when it is a count and 1 otherwise
/// (so `minContains: 0` accepts every array); `maxContains` with a count
/// `m` reports one error exactly when more than `m` items are accepted.
pub proof fn law_contains_counts(env: Env, sc: Scope, kv: JsonView, arr: Seq<JsonView>, schema: JsonView)
    requires
        has_type(env, JsonView::Array(arr), "array"@),
    ensures
        ({
            let found = accepted_indices(env, sc, kv, arr, arr.len()).len();
            let need = match get_key(schema, "minContains"@) {
                Some(JsonView::Number(n)) => match n.count_value() {
                    Some(c) => c,
                    None => 1,
                },
                _ => 1,
            };
            contains_errors(env, sc, kv, JsonView::Array(arr), schema).len() == (if found < need {
                1int
            } else {
                0int
            })
        }),
        ({
            let errs = max_contains_errors(env, sc, kv, JsonView::Array(arr), schema);
            if get_key(schema, "contains"@) is Some && kv is Number && kv->Number_0.count_value() is Some {
                let c = get_key(schema, "contains"@).unwrap();
                let m = kv->Number_0.count_value().unwrap();
                errs.len() == (if accepted_indices(env, sc, c, arr, arr.len()).len() > m {
                    1int
                } else {
                    0int
                })
            } else {
                errs.len() == 0
            }
        }),
{
    lemma_match_count_accepted(env, sc, kv, arr, arr.len());
    if let Some(c) = get_key(schema, "contains"@) {
        lemma_match_count_accepted(env, sc, c, arr, arr.len());
    }
}


proof fn lemma_first_duplicate_is_first(arr: Seq<JsonView>, n: nat)
    requires
        n <= arr.len(),
    ensures
        first_duplicate(arr, n) matches Some(j) ==> {
            &&& j < n
            &&& exists|i: int| 0 <= i < j && json_eq(#[trigger] arr[i], arr[j as int])
            &&& forall|a: int, b: int| 0 <= a < b < j ==> !json_eq(#[trigger] arr[a], #[trigger] arr[b])
        },
    decreases n,
{
    if n > 0 {
        let m = (n - 1) as nat;
        lemma_first_duplicate_is_first(arr, m);
        lemma_first_duplicate(arr, m);
    }
}

/// `uniqueItems: true` on an array (as the type checker sees it) reports
/// at most one error; it reports one exactly when two items are deep-equal,
/// and that error names the first item, by position, that equals an earlier
/// one.
pub proof fn law_unique_items_names_first_repeat(env: Env, arr: Seq<JsonView>)
    requires
        has_type(env, JsonView::Array(arr), "array"@),
    ensures
        ({
            let errs = unique_items_errors(env, JsonView::Bool(true), JsonView::Array(arr));
            &&& errs.len() <= 1
            &&& errs.len() == 1 <==> exists|a: int, b: int|
                0 <= a < b < arr.len() && json_eq(#[trigger] arr[a], #[trigger] arr[b])
            &&& errs.len() == 1 ==> exists|j: int|
                0 <= j < arr.len() && errs[0] == keyword_error(
                    "array contains duplicate value: "@ + render(arr[j]),
                    "uniqueItems"@,
                    JsonView::Array(arr),
                ) && (exists|i: int| 0 <= i < j && json_eq(#[trigger] arr[i], arr[j])) && forall|a: int, b: int|
                    0 <= a < b < j ==> !json_eq(#[trigger] arr[a], #[trigger] arr[b])
        }),
{
    lemma_first_duplicate(arr, arr.len());
    lemma_first_duplicate_is_first(arr, arr.len());
}

proof fn lemma_prefix_from(env: Env, sc: Scope, kv: JsonView, inst: JsonView, schema: JsonView, n: nat)
    requires
        kv matches JsonView::Array(ss) && n <= ss.len(),
        inst is Array,
    ensures
        kv matches JsonView::Array(ss) ==> inst matches JsonView::Array(arr) ==> (prefix_from(
            env,
            sc,
            kv,
            inst,
            schema,
            n,
        ).len() == 0 <==> forall|i: int|
            0 <= i < n && i < arr.len() ==> errors_of(env, child_scope(sc, dec(i as nat)), #[trigger] arr[i], ss[i]).len()
                == 0),
    decreases n,
{
    if n > 0 {
        lemma_prefix_from(env, sc, kv, inst, schema, (n - 1) as nat);
    }
}

/// `prefixItems` on an array (as the type checker sees it): no error
/// exactly when each item that has a schema at its position is valid
/// against that schema (items beyond the list, and schemas beyond the
/// array, play no part).
pub proof fn law_prefix_items(env: Env, sc: Scope, ss: Seq<JsonView>, arr: Seq<JsonView>, schema: JsonView)
    requires
        has_type(env, JsonView::Array(arr), "array"@),
    ensures
        prefix_items_errors(env, sc, JsonView::Array(ss), JsonView::Array(arr), schema).len() == 0 <==> forall|i: int|
            0 <= i < ss.len() && i < arr.len() ==> errors_of(env, child_scope(sc, dec(i as nat)), #[trigger] arr[i], ss[i]).len()
                == 0,
{
    lemma_prefix_from(env, sc, JsonView::Array(ss), JsonView::Array(arr), schema, ss.len());
}

} // verus!
