//! The object keywords: `properties`, `required`, `additionalProperties`,
//! `patternProperties`, `propertyNames`, `minProperties`, `maxProperties`,
//! `dependentRequired`, `dependentSchemas` and `dependencies`.
use vstd::prelude::*;

use crate::error::{errs_view, keyword_error, keyword_error_exec, ErrorView, ValidationError};
use crate::error::lemma_errs_push;
use crate::json::{
    find_key, find_member, get_key, items_view, lemma_children_size, lemma_get_key_size, lemma_size_pos,
    lemma_value_children, members_view, size, JsonValue, JsonView,
};
use crate::keyword::count_error;
use crate::pattern::{regex_compiles, regex_is_match, regex_matches};
use crate::text::{copy_string, dec, push_str, string_of};
use crate::keyword::Keyword;
use crate::validator::{
    append_errors, append_ipath_prefixed, append_spath_prefixed, child_scope, errors_of, fuel, has_type, kmeasure,
    prefix_ipath, prefix_spath, Env, Scope, ValidationContext,
};

verus! {

broadcast use vstd::string::group_string_axioms;

/// `properties`: each member of the instance named in the value is valid
/// against its schema.
pub open spec fn properties_errors(env: Env, sc: Scope, kv: JsonView, inst: JsonView, schema: JsonView) -> Seq<ErrorView>
    decreases size(inst), fuel(env, sc), kmeasure(kv, schema), 2nat, 0nat,
{
    match kv {
        JsonView::Object(ps) => if has_type(env, inst, "object"@) {
            properties_from(env, sc, kv, inst, schema, ps.len())
        } else {
            Seq::empty()
        },
        _ => Seq::empty(),
    }
}

/// The errors of the first `n` members of the `properties` value.
pub open spec fn properties_from(env: Env, sc: Scope, kv: JsonView, inst: JsonView, schema: JsonView, n: nat) -> Seq<ErrorView>
    decreases size(inst), fuel(env, sc), kmeasure(kv, schema), 1nat, n,
{
    match kv {
        JsonView::Object(ps) => if n == 0 || n > ps.len() {
            Seq::empty()
        } else {
            let name = ps[n - 1].0;
            proof {
                lemma_get_key_size(inst, name);
            }
            properties_from(env, sc, kv, inst, schema, (n - 1) as nat) + match get_key(inst, name) {
                Some(child) => prefix_spath(errors_of(env, child_scope(sc, name), child, ps[n - 1].1), name),
                None => Seq::empty(),
            }
        },
        _ => Seq::empty(),
    }
}

/// `required`: each listed name is a member of the instance.
pub open spec fn required_errors(env: Env, kv: JsonView, inst: JsonView) -> Seq<ErrorView> {
    match kv {
        JsonView::Array(xs) => if has_type(env, inst, "object"@) {
            required_from(xs, inst, xs.len())
        } else {
            Seq::empty()
        },
        _ => Seq::empty(),
    }
}

/// The errors of the first `n` names of a `required` list.
pub open spec fn required_from(xs: Seq<JsonView>, inst: JsonView, n: nat) -> Seq<ErrorView>
    decreases n,
{
    if n == 0 || n > xs.len() {
        Seq::empty()
    } else {
        required_from(xs, inst, (n - 1) as nat) + match xs[n - 1] {
            JsonView::Str(k) => if get_key(inst, k) is None {
                seq![keyword_error("'"@ + k + "' is a required property"@, "required"@, inst)]
            } else {
                Seq::empty()
            },
            _ => Seq::empty(),
        }
    }
}

/// Whether one of the patterns compiles and matches `key`.
pub open spec fn pattern_covers(pats: Seq<(Seq<char>, JsonView)>, key: Seq<char>) -> bool {
    exists|j: int| 0 <= j < pats.len() && regex_compiles(#[trigger] pats[j].0) && regex_is_match(pats[j].0, key)
}

/// Whether member `key` is covered by the `properties` or (through a
/// pattern that compiles and matches it) the `patternProperties` of `schema`.
pub open spec fn covered(schema: JsonView, key: Seq<char>) -> bool {
    let by_name = match get_key(schema, "properties"@) {
        Some(JsonView::Object(ps)) => find_key(ps, key) is Some,
        _ => false,
    };
    let by_pattern = match get_key(schema, "patternProperties"@) {
        Some(JsonView::Object(pats)) => pattern_covers(pats, key),
        _ => false,
    };
    by_name || by_pattern
}

/// `additionalProperties`: members that are not covered are refused
/// (`false`) or validated against the schema (an object).
pub open spec fn additional_properties_errors(
    env: Env,
    sc: Scope,
    kv: JsonView,
    inst: JsonView,
    schema: JsonView,
) -> Seq<ErrorView>
    decreases size(inst), fuel(env, sc), kmeasure(kv, schema), 2nat, 0nat,
{
    match inst {
        JsonView::Object(es) => if has_type(env, inst, "object"@) {
            additional_from(env, sc, kv, inst, schema, es.len())
        } else {
            Seq::empty()
        },
        _ => Seq::empty(),
    }
}

/// The `additionalProperties` errors of the first `n` members of the
/// instance.
pub open spec fn additional_from(env: Env, sc: Scope, kv: JsonView, inst: JsonView, schema: JsonView, n: nat) -> Seq<ErrorView>
    decreases size(inst), fuel(env, sc), kmeasure(kv, schema), 1nat, n,
{
    match inst {
        JsonView::Object(es) => if n == 0 || n > es.len() {
            Seq::empty()
        } else {
            let key = es[n - 1].0;
            proof {
                lemma_children_size(inst);
            }
            additional_from(env, sc, kv, inst, schema, (n - 1) as nat) + if covered(schema, key) {
                Seq::empty()
            } else if kv == JsonView::Bool(false) {
                seq![
                    keyword_error(
                        "Additional properties are not allowed ('"@ + key + "' was unexpected)"@,
                        "additionalProperties"@,
                        inst,
                    ),
                ]
            } else if kv is Object {
                errors_of(env, child_scope(sc, key), es[n - 1].1, kv)
            } else {
                Seq::empty()
            }
        },
        _ => Seq::empty(),
    }
}

/// `patternProperties`: each member whose name matches a pattern that
/// compiles is valid against that pattern's schema.
pub open spec fn pattern_properties_errors(
    env: Env,
    sc: Scope,
    kv: JsonView,
    inst: JsonView,
    schema: JsonView,
) -> Seq<ErrorView>
    decreases size(inst), fuel(env, sc), kmeasure(kv, schema), 2nat, 0nat,
{
    match (kv, inst) {
        (JsonView::Object(pats), JsonView::Object(es)) => if has_type(env, inst, "object"@) {
            pattern_from(env, sc, kv, inst, schema, pats.len())
        } else {
            Seq::empty()
        },
        _ => Seq::empty(),
    }
}

/// The errors of the first `n` patterns.
pub open spec fn pattern_from(env: Env, sc: Scope, kv: JsonView, inst: JsonView, schema: JsonView, n: nat) -> Seq<ErrorView>
    decreases size(inst), fuel(env, sc), kmeasure(kv, schema), 1nat, n,
{
    match (kv, inst) {
        (JsonView::Object(pats), JsonView::Object(es)) => if n == 0 || n > pats.len() {
            Seq::empty()
        } else {
            pattern_from(env, sc, kv, inst, schema, (n - 1) as nat) + if regex_compiles(pats[n - 1].0) {
                pattern_members(env, sc, kv, inst, schema, (n - 1) as nat, es.len())
            } else {
                Seq::empty()
            }
        },
        _ => Seq::empty(),
    }
}

/// The errors of pattern `i` on the first `m` members of the instance.
pub open spec fn pattern_members(
    env: Env,
    sc: Scope,
    kv: JsonView,
    inst: JsonView,
    schema: JsonView,
    i: nat,
    m: nat,
) -> Seq<ErrorView>
    decreases size(inst), fuel(env, sc), kmeasure(kv, schema), 0nat, m,
{
    match (kv, inst) {
        (JsonView::Object(pats), JsonView::Object(es)) => if m == 0 || m > es.len() || i >= pats.len() {
            Seq::empty()
        } else {
            let p = pats[i as int].0;
            let key = es[m - 1].0;
            proof {
                lemma_children_size(inst);
            }
            pattern_members(env, sc, kv, inst, schema, i, (m - 1) as nat) + if regex_is_match(p, key) {
                prefix_spath(errors_of(env, child_scope(sc, key), es[m - 1].1, pats[i as int].1), p)
            } else {
                Seq::empty()
            }
        },
        _ => Seq::empty(),
    }
}

/// `propertyNames`: each member name, as a string, is valid against the
/// schema.
pub open spec fn property_names_errors(env: Env, sc: Scope, kv: JsonView, inst: JsonView, schema: JsonView) -> Seq<ErrorView>
    decreases size(inst), fuel(env, sc), kmeasure(kv, schema), 2nat, 0nat,
{
    match inst {
        JsonView::Object(es) => if has_type(env, inst, "object"@) {
            names_from(env, sc, kv, inst, schema, es.len())
        } else {
            Seq::empty()
        },
        _ => Seq::empty(),
    }
}

/// The `propertyNames` errors of the first `n` member names.
pub open spec fn names_from(env: Env, sc: Scope, kv: JsonView, inst: JsonView, schema: JsonView, n: nat) -> Seq<ErrorView>
    decreases size(inst), fuel(env, sc), kmeasure(kv, schema), 1nat, n,
{
    match inst {
        JsonView::Object(es) => if n == 0 || n > es.len() {
            Seq::empty()
        } else {
            let key = es[n - 1].0;
            proof {
                lemma_children_size(inst);
                assert(size(es[n - 1].1) >= 1);
            }
            names_from(env, sc, kv, inst, schema, (n - 1) as nat) + prefix_ipath(
                errors_of(env, sc, JsonView::Str(key), kv),
                key,
            )
        },
        _ => Seq::empty(),
    }
}

/// `minProperties`: an object has at least that many members.
pub open spec fn min_properties_errors(env: Env, kv: JsonView, inst: JsonView) -> Seq<ErrorView> {
    match (kv, inst) {
        (JsonView::Number(n), JsonView::Object(es)) => match n.as_u64_spec() {
            Some(m) => if has_type(env, inst, "object"@) && es.len() < m {
                seq![
                    keyword_error(
                        "object has "@ + dec(es.len()) + " properties, but minimum is "@ + dec(m),
                        "minProperties"@,
                        inst,
                    ),
                ]
            } else {
                Seq::empty()
            },
            None => Seq::empty(),
        },
        _ => Seq::empty(),
    }
}

/// `maxProperties`: an object has at most that many members.
pub open spec fn max_properties_errors(env: Env, kv: JsonView, inst: JsonView) -> Seq<ErrorView> {
    match (kv, inst) {
        (JsonView::Number(n), JsonView::Object(es)) => match n.as_u64_spec() {
            Some(m) => if has_type(env, inst, "object"@) && es.len() > m {
                seq![
                    keyword_error(
                        "object has "@ + dec(es.len()) + " properties, but maximum is "@ + dec(m),
                        "maxProperties"@,
                        inst,
                    ),
                ]
            } else {
                Seq::empty()
            },
            None => Seq::empty(),
        },
        _ => Seq::empty(),
    }
}

/// The errors for the first `m` names of the list `req` that a present
/// member `prop` requires, reported by keyword `kw`.
pub open spec fn required_by(prop: Seq<char>, req: Seq<JsonView>, inst: JsonView, kw: Seq<char>, m: nat) -> Seq<ErrorView>
    decreases m,
{
    if m == 0 || m > req.len() {
        Seq::empty()
    } else {
        required_by(prop, req, inst, kw, (m - 1) as nat) + match req[m - 1] {
            JsonView::Str(k) => if get_key(inst, k) is None {
                seq![keyword_error("'"@ + prop + "' is present, so '"@ + k + "' is also required"@, kw, inst)]
            } else {
                Seq::empty()
            },
            _ => Seq::empty(),
        }
    }
}

/// `dependentRequired`: when a listed member is present, the names it
/// lists are members too.
pub open spec fn dependent_required_errors(env: Env, kv: JsonView, inst: JsonView) -> Seq<ErrorView> {
    match (kv, inst) {
        (JsonView::Object(ds), JsonView::Object(es)) => if has_type(env, inst, "object"@) {
            dependent_required_from(ds, inst, ds.len())
        } else {
            Seq::empty()
        },
        _ => Seq::empty(),
    }
}

/// The `dependentRequired` errors of the first `n` entries.
pub open spec fn dependent_required_from(ds: Seq<(Seq<char>, JsonView)>, inst: JsonView, n: nat) -> Seq<ErrorView>
    decreases n,
{
    if n == 0 || n > ds.len() {
        Seq::empty()
    } else {
        dependent_required_from(ds, inst, (n - 1) as nat) + if get_key(inst, ds[n - 1].0) is None {
            Seq::empty()
        } else {
            match ds[n - 1].1 {
                JsonView::Array(req) => required_by(ds[n - 1].0, req, inst, "dependentRequired"@, req.len()),
                _ => Seq::empty(),
            }
        }
    }
}

/// `dependentSchemas`: when a listed member is present, the instance is
/// valid against its schema.
pub open spec fn dependent_schemas_errors(env: Env, sc: Scope, kv: JsonView, inst: JsonView, schema: JsonView) -> Seq<ErrorView>
    decreases size(inst), fuel(env, sc), kmeasure(kv, schema), 2nat, 0nat,
{
    match (kv, inst) {
        (JsonView::Object(ds), JsonView::Object(es)) => if has_type(env, inst, "object"@) {
            dependent_schemas_from(env, sc, kv, inst, schema, ds.len())
        } else {
            Seq::empty()
        },
        _ => Seq::empty(),
    }
}

/// The `dependentSchemas` errors of the first `n` entries.
pub open spec fn dependent_schemas_from(
    env: Env,
    sc: Scope,
    kv: JsonView,
    inst: JsonView,
    schema: JsonView,
    n: nat,
) -> Seq<ErrorView>
    decreases size(inst), fuel(env, sc), kmeasure(kv, schema), 1nat, n,
{
    match kv {
        JsonView::Object(ds) => if n == 0 || n > ds.len() {
            Seq::empty()
        } else {
            proof {
                lemma_children_size(kv);
            }
            dependent_schemas_from(env, sc, kv, inst, schema, (n - 1) as nat) + if get_key(inst, ds[n - 1].0) is None {
                Seq::empty()
            } else {
                prefix_spath(errors_of(env, sc, inst, ds[n - 1].1), ds[n - 1].0)
            }
        },
        _ => Seq::empty(),
    }
}

/// `dependencies`: when a listed member is present, an array lists names
/// that must be members too, and anything else is a schema that the
/// instance must be valid against.
pub open spec fn dependencies_errors(env: Env, sc: Scope, kv: JsonView, inst: JsonView, schema: JsonView) -> Seq<ErrorView>
    decreases size(inst), fuel(env, sc), kmeasure(kv, schema), 2nat, 0nat,
{
    match (kv, inst) {
        (JsonView::Object(ds), JsonView::Object(es)) => if has_type(env, inst, "object"@) {
            dependencies_from(env, sc, kv, inst, schema, ds.len())
        } else {
            Seq::empty()
        },
        _ => Seq::empty(),
    }
}

/// The `dependencies` errors of the first `n` entries.
pub open spec fn dependencies_from(env: Env, sc: Scope, kv: JsonView, inst: JsonView, schema: JsonView, n: nat) -> Seq<ErrorView>
    decreases size(inst), fuel(env, sc), kmeasure(kv, schema), 1nat, n,
{
    match kv {
        JsonView::Object(ds) => if n == 0 || n > ds.len() {
            Seq::empty()
        } else {
            proof {
                lemma_children_size(kv);
            }
            let prop = ds[n - 1].0;
            dependencies_from(env, sc, kv, inst, schema, (n - 1) as nat) + if get_key(inst, prop) is None {
                Seq::empty()
            } else {
                match ds[n - 1].1 {
                    JsonView::Array(req) => required_by(prop, req, inst, "dependencies"@, req.len()),
                    _ => prefix_spath(errors_of(env, sc, inst, ds[n - 1].1), prop),
                }
            }
        },
        _ => Seq::empty(),
    }
}

/// The `required` errors of the first `n` names are empty exactly when
/// each of those names that is a string is a member of the instance.
proof fn lemma_required_from(xs: Seq<JsonView>, inst: JsonView, n: nat)
    requires
        n <= xs.len(),
    ensures
        required_from(xs, inst, n).len() == 0 <==> forall|i: int|
            0 <= i < n ==> (#[trigger] xs[i] matches JsonView::Str(k) ==> get_key(inst, k) is Some),
    decreases n,
{
    if n > 0 {
        lemma_required_from(xs, inst, (n - 1) as nat);
    }
}

/// `required` accepts an object exactly when every listed name is one of
/// its members.
pub proof fn law_required(env: Env, xs: Seq<JsonView>, inst: JsonView)
    requires
        has_type(env, inst, "object"@),
    ensures
        required_errors(env, JsonView::Array(xs), inst).len() == 0 <==> forall|i: int|
            0 <= i < xs.len() ==> (#[trigger] xs[i] matches JsonView::Str(k) ==> get_key(inst, k) is Some),
{
    lemma_required_from(xs, inst, xs.len());
}

/// The names that the value of a `dependentRequired` entry lists (nothing
/// when the value is not an array).
pub open spec fn dependency_names(v: JsonView) -> Seq<JsonView> {
    match v {
        JsonView::Array(req) => req,
        _ => Seq::empty(),
    }
}

/// The error that the present member `prop` reports, under keyword `kw`,
/// for the absent name `k`.
pub open spec fn also_required_error(prop: Seq<char>, k: Seq<char>, inst: JsonView, kw: Seq<char>) -> ErrorView {
    keyword_error("'"@ + prop + "' is present, so '"@ + k + "' is also required"@, kw, inst)
}

proof fn lemma_contains_concat<A>(a: Seq<A>, b: Seq<A>, x: A)
    ensures
        a.contains(x) ==> (a + b).contains(x),
        b.contains(x) ==> (a + b).contains(x),
{
    if a.contains(x) {
        let i = choose|i: int| 0 <= i < a.len() && a[i] == x;
        assert((a + b)[i] == x);
    }
    if b.contains(x) {
        let i = choose|i: int| 0 <= i < b.len() && b[i] == x;
        assert((a + b)[a.len() + i] == x);
    }
}

/// The errors for the first `m` names: none exactly when each of those
/// names that is a string is present, and one for each absent name.
proof fn lemma_required_by(prop: Seq<char>, req: Seq<JsonView>, inst: JsonView, kw: Seq<char>, m: nat)
    requires
        m <= req.len(),
    ensures
        required_by(prop, req, inst, kw, m).len() == 0 <==> forall|i: int|
            0 <= i < m ==> (#[trigger] req[i] matches JsonView::Str(k) ==> get_key(inst, k) is Some),
        forall|i: int|
            0 <= i < m ==> (#[trigger] req[i] matches JsonView::Str(k) ==> (get_key(inst, k) is None
                ==> required_by(prop, req, inst, kw, m).contains(also_required_error(prop, k, inst, kw)))),
    decreases m,
{
    if m > 0 {
        let n = (m - 1) as nat;
        lemma_required_by(prop, req, inst, kw, n);
        let prev = required_by(prop, req, inst, kw, n);
        let here = match req[n as int] {
            JsonView::Str(k) => if get_key(inst, k) is None {
                seq![also_required_error(prop, k, inst, kw)]
            } else {
                Seq::empty()
            },
            _ => Seq::empty(),
        };
        assert(required_by(prop, req, inst, kw, m) == prev + here);
        assert forall|i: int| 0 <= i < m implies (#[trigger] req[i] matches JsonView::Str(k) ==> (get_key(inst, k)
            is None ==> required_by(prop, req, inst, kw, m).contains(also_required_error(prop, k, inst, kw)))) by {
            if let JsonView::Str(k) = req[i] {
                if get_key(inst, k) is None {
                    let e = also_required_error(prop, k, inst, kw);
                    if i < n {
                        lemma_contains_concat(prev, here, e);
                    } else {
                        assert(here[0] == e);
                        lemma_contains_concat(prev, here, e);
                    }
                }
            }
        }
    }
}

/// The `dependentRequired` errors of the first `n` entries, as
/// `lemma_required_by` gives them for one list.
proof fn lemma_dependent_required_from(ds: Seq<(Seq<char>, JsonView)>, inst: JsonView, n: nat)
    requires
        n <= ds.len(),
    ensures
        dependent_required_from(ds, inst, n).len() == 0 <==> forall|j: int, i: int|
            0 <= j < n && get_key(inst, ds[j].0) is Some && 0 <= i < dependency_names(ds[j].1).len() ==> (
            #[trigger] dependency_names(ds[j].1)[i] matches JsonView::Str(k) ==> get_key(inst, k) is Some),
        forall|j: int, i: int|
            0 <= j < n && get_key(inst, ds[j].0) is Some && 0 <= i < dependency_names(ds[j].1).len() ==> (
            #[trigger] dependency_names(ds[j].1)[i] matches JsonView::Str(k) ==> (get_key(inst, k) is None
                ==> dependent_required_from(ds, inst, n).contains(
                also_required_error(ds[j].0, k, inst, "dependentRequired"@),
            ))),
    decreases n,
{
    if n > 0 {
        let m = (n - 1) as nat;
        lemma_dependent_required_from(ds, inst, m);
        let prev = dependent_required_from(ds, inst, m);
        let req = dependency_names(ds[m as int].1);
        lemma_required_by(ds[m as int].0, req, inst, "dependentRequired"@, req.len());
        let here = if get_key(inst, ds[m as int].0) is None {
            Seq::empty()
        } else {
            required_by(ds[m as int].0, req, inst, "dependentRequired"@, req.len())
        };
        assert(dependent_required_from(ds, inst, n) == prev + here);
        assert forall|j: int, i: int|
            0 <= j < n && get_key(inst, ds[j].0) is Some && 0 <= i < dependency_names(ds[j].1).len() implies (
            #[trigger] dependency_names(ds[j].1)[i] matches JsonView::Str(k) ==> (get_key(inst, k) is None
                ==> dependent_required_from(ds, inst, n).contains(
                also_required_error(ds[j].0, k, inst, "dependentRequired"@),
            ))) by {
            if let JsonView::Str(k) = dependency_names(ds[j].1)[i] {
                if get_key(inst, k) is None {
                    let e = also_required_error(ds[j].0, k, inst, "dependentRequired"@);
                    if j < m {
                        lemma_contains_concat(prev, here, e);
                    } else {
                        assert(req[i] == dependency_names(ds[j].1)[i]);
                        lemma_contains_concat(prev, here, e);
                    }
                }
            }
        }
        if dependent_required_from(ds, inst, n).len() != 0 {
            if prev.len() == 0 {
                assert(here.len() != 0);
                let i = choose|i: int|
                    0 <= i < req.len() && !(#[trigger] req[i] matches JsonView::Str(k) ==> get_key(inst, k) is Some);
                assert(dependency_names(ds[m as int].1)[i] == req[i]);
            }
        } else {
            assert forall|j: int, i: int|
                0 <= j < n && get_key(inst, ds[j].0) is Some && 0 <= i < dependency_names(ds[j].1).len() implies (
                #[trigger] dependency_names(ds[j].1)[i] matches JsonView::Str(k) ==> get_key(inst, k) is Some) by {
                if j == m {
                    assert(req[i] == dependency_names(ds[j].1)[i]);
                }
            }
        }
    }
}

/// `dependentRequired`: in an object (as the type checker sees it), for
/// each entry whose property is present, every name that it lists and that
/// is absent gets its own "is also required" error; and there is no error
/// exactly when every listed name of every present property is a member.
pub proof fn law_dependent_required(env: Env, ds: Seq<(Seq<char>, JsonView)>, inst: JsonView)
    requires
        inst is Object,
        has_type(env, inst, "object"@),
    ensures
        dependent_required_errors(env, JsonView::Object(ds), inst).len() == 0 <==> forall|j: int, i: int|
            0 <= j < ds.len() && get_key(inst, ds[j].0) is Some && 0 <= i < dependency_names(ds[j].1).len() ==> (
            #[trigger] dependency_names(ds[j].1)[i] matches JsonView::Str(k) ==> get_key(inst, k) is Some),
        forall|j: int, i: int|
            0 <= j < ds.len() && get_key(inst, ds[j].0) is Some && 0 <= i < dependency_names(ds[j].1).len() ==> (
            #[trigger] dependency_names(ds[j].1)[i] matches JsonView::Str(k) ==> (get_key(inst, k) is None
                ==> dependent_required_errors(env, JsonView::Object(ds), inst).contains(
                also_required_error(ds[j].0, k, inst, "dependentRequired"@),
            ))),
{
    lemma_dependent_required_from(ds, inst, ds.len());
}

/// The error that `required` reports for the absent name `k`.
pub open spec fn required_property_error(k: Seq<char>, inst: JsonView) -> ErrorView {
    keyword_error("'"@ + k + "' is a required property"@, "required"@, inst)
}

proof fn lemma_required_from_reports(xs: Seq<JsonView>, inst: JsonView, n: nat)
    requires
        n <= xs.len(),
    ensures
        forall|i: int|
            0 <= i < n ==> (#[trigger] xs[i] matches JsonView::Str(k) ==> (get_key(inst, k) is None
                ==> required_from(xs, inst, n).contains(required_property_error(k, inst)))),
        required_from(xs, inst, n).len() <= n,
    decreases n,
{
    if n > 0 {
        let m = (n - 1) as nat;
        lemma_required_from_reports(xs, inst, m);
        let prev = required_from(xs, inst, m);
        let here = match xs[m as int] {
            JsonView::Str(k) => if get_key(inst, k) is None {
                seq![required_property_error(k, inst)]
            } else {
                Seq::empty()
            },
            _ => Seq::empty(),
        };
        assert(required_from(xs, inst, n) == prev + here);
        assert forall|i: int| 0 <= i < n implies (#[trigger] xs[i] matches JsonView::Str(k) ==> (get_key(inst, k)
            is None ==> required_from(xs, inst, n).contains(required_property_error(k, inst)))) by {
            if let JsonView::Str(k) = xs[i] {
                if get_key(inst, k) is None {
                    let e = required_property_error(k, inst);
                    if i == m {
                        assert(here[0] == e);
                    }
                    lemma_contains_concat(prev, here, e);
                }
            }
        }
    }
}

/// `required` on an object (as the type checker sees it): every listed name
/// that is absent gets its own "is a required property" error, there are no
/// more errors than listed names, and none exactly when every listed name
/// is a member.
pub proof fn law_required_reports_each_missing(env: Env, xs: Seq<JsonView>, inst: JsonView)
    requires
        has_type(env, inst, "object"@),
    ensures
        forall|i: int|
            0 <= i < xs.len() ==> (#[trigger] xs[i] matches JsonView::Str(k) ==> (get_key(inst, k) is None
                ==> required_errors(env, JsonView::Array(xs), inst).contains(required_property_error(k, inst)))),
        required_errors(env, JsonView::Array(xs), inst).len() <= xs.len(),
        required_errors(env, JsonView::Array(xs), inst).len() == 0 <==> forall|i: int|
            0 <= i < xs.len() ==> (#[trigger] xs[i] matches JsonView::Str(k) ==> get_key(inst, k) is Some),
{
    lemma_required_from_reports(xs, inst, xs.len());
    lemma_required_from(xs, inst, xs.len());
}

proof fn lemma_pattern_members(env: Env, sc: Scope, kv: JsonView, inst: JsonView, schema: JsonView, i: nat, m: nat)
    requires
        kv matches JsonView::Object(pats) && i < pats.len(),
        inst matches JsonView::Object(es) && m <= es.len(),
    ensures
        kv matches JsonView::Object(pats) ==> inst matches JsonView::Object(es) ==> (pattern_members(
            env,
            sc,
            kv,
            inst,
            schema,
            i,
            m,
        ).len() == 0 <==> forall|q: int|
            0 <= q < m ==> regex_is_match(pats[i as int].0, #[trigger] es[q].0) ==> errors_of(
                env,
                child_scope(sc, es[q].0),
                es[q].1,
                pats[i as int].1,
            ).len() == 0),
    decreases m,
{
    if m > 0 {
        lemma_pattern_members(env, sc, kv, inst, schema, i, (m - 1) as nat);
    }
}

proof fn lemma_pattern_from(env: Env, sc: Scope, kv: JsonView, inst: JsonView, schema: JsonView, n: nat)
    requires
        kv matches JsonView::Object(pats) && n <= pats.len(),
        inst is Object,
    ensures
        kv matches JsonView::Object(pats) ==> inst matches JsonView::Object(es) ==> (pattern_from(
            env,
            sc,
            kv,
            inst,
            schema,
            n,
        ).len() == 0 <==> forall|i: int, q: int|
            0 <= i < n && 0 <= q < es.len() && regex_compiles(pats[i].0) && regex_is_match(
                #[trigger] pats[i].0,
                #[trigger] es[q].0,
            ) ==> errors_of(env, child_scope(sc, es[q].0), es[q].1, pats[i].1).len() == 0),
    decreases n,
{
    if let (JsonView::Object(pats), JsonView::Object(es)) = (kv, inst) {
        if n > 0 {
            let m = (n - 1) as nat;
            lemma_pattern_from(env, sc, kv, inst, schema, m);
            lemma_pattern_members(env, sc, kv, inst, schema, m, es.len());
        }
    }
}

/// `patternProperties` on an object (as the type checker sees it): no error
/// exactly when every member whose key a compiling pattern matches is valid
/// against that pattern's schema (each checked at its own key).
pub proof fn law_pattern_properties(env: Env, sc: Scope, pats: Seq<(Seq<char>, JsonView)>, es: Seq<(Seq<char>, JsonView)>, schema: JsonView)
    requires
        has_type(env, JsonView::Object(es), "object"@),
    ensures
        pattern_properties_errors(env, sc, JsonView::Object(pats), JsonView::Object(es), schema).len() == 0
            <==> forall|i: int, q: int|
            0 <= i < pats.len() && 0 <= q < es.len() && regex_compiles(pats[i].0) && regex_is_match(
                #[trigger] pats[i].0,
                #[trigger] es[q].0,
            ) ==> errors_of(env, child_scope(sc, es[q].0), es[q].1, pats[i].1).len() == 0,
{
    lemma_pattern_from(env, sc, JsonView::Object(pats), JsonView::Object(es), schema, pats.len());
}

proof fn lemma_names_from(env: Env, sc: Scope, kv: JsonView, inst: JsonView, schema: JsonView, n: nat)
    requires
        inst matches JsonView::Object(es) && n <= es.len(),
    ensures
        inst matches JsonView::Object(es) ==> (names_from(env, sc, kv, inst, schema, n).len() == 0 <==> forall|q: int|
            0 <= q < n ==> errors_of(env, sc, JsonView::Str(#[trigger] es[q].0), kv).len() == 0),
    decreases n,
{
    if n > 0 {
        lemma_names_from(env, sc, kv, inst, schema, (n - 1) as nat);
    }
}

/// `propertyNames` on an object (as the type checker sees it): no error
/// exactly when every key, as a string, is valid against the schema.
pub proof fn law_property_names(env: Env, sc: Scope, kv: JsonView, es: Seq<(Seq<char>, JsonView)>, schema: JsonView)
    requires
        has_type(env, JsonView::Object(es), "object"@),
    ensures
        property_names_errors(env, sc, kv, JsonView::Object(es), schema).len() == 0 <==> forall|q: int|
            0 <= q < es.len() ==> errors_of(env, sc, JsonView::Str(#[trigger] es[q].0), kv).len() == 0,
{
    lemma_names_from(env, sc, kv, JsonView::Object(es), schema, es.len());
}

proof fn lemma_dependent_schemas_from(env: Env, sc: Scope, kv: JsonView, inst: JsonView, schema: JsonView, n: nat)
    requires
        kv matches JsonView::Object(ds) && n <= ds.len(),
    ensures
        kv matches JsonView::Object(ds) ==> (dependent_schemas_from(env, sc, kv, inst, schema, n).len() == 0
            <==> forall|j: int|
            0 <= j < n && get_key(inst, #[trigger] ds[j].0) is Some ==> errors_of(env, sc, inst, ds[j].1).len() == 0),
    decreases n,
{
    if n > 0 {
        lemma_dependent_schemas_from(env, sc, kv, inst, schema, (n - 1) as nat);
    }
}

/// `dependentSchemas` on an object (as the type checker sees it): no error
/// exactly when the instance is valid against the schema of every entry
/// whose property it has.
pub proof fn law_dependent_schemas(env: Env, sc: Scope, ds: Seq<(Seq<char>, JsonView)>, inst: JsonView, schema: JsonView)
    requires
        inst is Object,
        has_type(env, inst, "object"@),
    ensures
        dependent_schemas_errors(env, sc, JsonView::Object(ds), inst, schema).len() == 0 <==> forall|j: int|
            0 <= j < ds.len() && get_key(inst, #[trigger] ds[j].0) is Some ==> errors_of(env, sc, inst, ds[j].1).len()
                == 0,
{
    lemma_dependent_schemas_from(env, sc, JsonView::Object(ds), inst, schema, ds.len());
}

/// What an entry `(prop, v)` of `dependencies` asks of an instance that has
/// `prop`: every listed name present when `v` is an array, else validity
/// against the schema `v`.
pub open spec fn dependency_met(env: Env, sc: Scope, inst: JsonView, v: JsonView) -> bool {
    match v {
        JsonView::Array(req) => forall|i: int|
            0 <= i < req.len() ==> (#[trigger] req[i] matches JsonView::Str(k) ==> get_key(inst, k) is Some),
        _ => errors_of(env, sc, inst, v).len() == 0,
    }
}

proof fn lemma_dependencies_from(env: Env, sc: Scope, kv: JsonView, inst: JsonView, schema: JsonView, n: nat)
    requires
        kv matches JsonView::Object(ds) && n <= ds.len(),
    ensures
        kv matches JsonView::Object(ds) ==> (dependencies_from(env, sc, kv, inst, schema, n).len() == 0 <==> forall|j: int|
            0 <= j < n && get_key(inst, #[trigger] ds[j].0) is Some ==> dependency_met(env, sc, inst, ds[j].1)),
        kv matches JsonView::Object(ds) ==> forall|j: int, i: int|
            0 <= j < n && get_key(inst, ds[j].0) is Some && 0 <= i < dependency_names(ds[j].1).len() ==> (
            #[trigger] dependency_names(ds[j].1)[i] matches JsonView::Str(k) ==> (get_key(inst, k) is None
                ==> dependencies_from(env, sc, kv, inst, schema, n).contains(
                also_required_error(ds[j].0, k, inst, "dependencies"@),
            ))),
    decreases n,
{
    if let JsonView::Object(ds) = kv {
        if n > 0 {
            let m = (n - 1) as nat;
            lemma_dependencies_from(env, sc, kv, inst, schema, m);
            let prev = dependencies_from(env, sc, kv, inst, schema, m);
            let prop = ds[m as int].0;
            let here = if get_key(inst, prop) is None {
                Seq::empty()
            } else {
                match ds[m as int].1 {
                    JsonView::Array(req) => required_by(prop, req, inst, "dependencies"@, req.len()),
                    _ => prefix_spath(errors_of(env, sc, inst, ds[m as int].1), prop),
                }
            };
            assert(dependencies_from(env, sc, kv, inst, schema, n) == prev + here);
            let req = dependency_names(ds[m as int].1);
            lemma_required_by(prop, req, inst, "dependencies"@, req.len());
            assert forall|j: int, i: int|
                0 <= j < n && get_key(inst, ds[j].0) is Some && 0 <= i < dependency_names(ds[j].1).len() implies (
                #[trigger] dependency_names(ds[j].1)[i] matches JsonView::Str(k) ==> (get_key(inst, k) is None
                    ==> dependencies_from(env, sc, kv, inst, schema, n).contains(
                    also_required_error(ds[j].0, k, inst, "dependencies"@),
                ))) by {
                if let JsonView::Str(k) = dependency_names(ds[j].1)[i] {
                    if get_key(inst, k) is None {
                        let e = also_required_error(ds[j].0, k, inst, "dependencies"@);
                        if j == m {
                            assert(req[i] == dependency_names(ds[j].1)[i]);
                        }
                        lemma_contains_concat(prev, here, e);
                    }
                }
            }
        }
    }
}

/// `dependencies` on an object (as the type checker sees it): no error
/// exactly when, for every entry whose property is present, every name it
/// lists is a member (array value) or the instance is valid against its
/// schema (any other value); and each listed name that is absent gets its
/// own "is also required" error.
pub proof fn law_dependencies(env: Env, sc: Scope, ds: Seq<(Seq<char>, JsonView)>, inst: JsonView, schema: JsonView)
    requires
        inst is Object,
        has_type(env, inst, "object"@),
    ensures
        dependencies_errors(env, sc, JsonView::Object(ds), inst, schema).len() == 0 <==> forall|j: int|
            0 <= j < ds.len() && get_key(inst, #[trigger] ds[j].0) is Some ==> dependency_met(env, sc, inst, ds[j].1),
        forall|j: int, i: int|
            0 <= j < ds.len() && get_key(inst, ds[j].0) is Some && 0 <= i < dependency_names(ds[j].1).len() ==> (
            #[trigger] dependency_names(ds[j].1)[i] matches JsonView::Str(k) ==> (get_key(inst, k) is None
                ==> dependencies_errors(env, sc, JsonView::Object(ds), inst, schema).contains(
                also_required_error(ds[j].0, k, inst, "dependencies"@),
            ))),
{
    lemma_dependencies_from(env, sc, JsonView::Object(ds), inst, schema, ds.len());
}

/// With `false`, the `additionalProperties` errors of the first `n`
/// members are empty exactly when each of them is covered.
proof fn lemma_additional_false(env: Env, sc: Scope, inst: JsonView, schema: JsonView, n: nat)
    requires
        inst matches JsonView::Object(es) && n <= es.len(),
    ensures
        inst matches JsonView::Object(es) ==> (additional_from(env, sc, JsonView::Bool(false), inst, schema, n).len()
            == 0 <==> forall|i: int| 0 <= i < n ==> #[trigger] covered(schema, es[i].0)),
    decreases n,
{
    if let JsonView::Object(es) = inst {
        if n > 0 {
            lemma_additional_false(env, sc, inst, schema, (n - 1) as nat);
        }
    }
}

/// `additionalProperties: false` accepts an object exactly when each of
/// its members is named by `properties` or matched by a pattern of
/// `patternProperties` that compiles.
pub proof fn law_additional_properties_false(env: Env, sc: Scope, es: Seq<(Seq<char>, JsonView)>, schema: JsonView)
    requires
        has_type(env, JsonView::Object(es), "object"@),
    ensures
        additional_properties_errors(env, sc, JsonView::Bool(false), JsonView::Object(es), schema).len() == 0 <==> forall|i: int|
            0 <= i < es.len() ==> #[trigger] covered(schema, es[i].0),
{
    lemma_additional_false(env, sc, JsonView::Object(es), schema, es.len());
}

/// The first `n` members of `es` that `schema` does not cover, in order.
pub open spec fn uncovered_members(schema: JsonView, es: Seq<(Seq<char>, JsonView)>, n: nat) -> Seq<(Seq<char>, JsonView)>
    decreases n,
{
    if n == 0 || n > es.len() {
        Seq::empty()
    } else {
        uncovered_members(schema, es, (n - 1) as nat) + if covered(schema, es[n - 1].0) {
            Seq::empty()
        } else {
            seq![es[n - 1]]
        }
    }
}

/// The error that `additionalProperties: false` reports for the key `key`.
pub open spec fn unexpected_key_error(key: Seq<char>, inst: JsonView) -> ErrorView {
    keyword_error("Additional properties are not allowed ('"@ + key + "' was unexpected)"@, "additionalProperties"@, inst)
}

/// The errors of each member of `ms` against `sub`, each at its own key,
/// one after another.
pub open spec fn member_errors(env: Env, sc: Scope, sub: JsonView, ms: Seq<(Seq<char>, JsonView)>) -> Seq<ErrorView>
    decreases ms.len(),
{
    if ms.len() == 0 {
        Seq::empty()
    } else {
        member_errors(env, sc, sub, ms.drop_last()) + errors_of(env, child_scope(sc, ms.last().0), ms.last().1, sub)
    }
}

proof fn lemma_additional_from_per_key(env: Env, sc: Scope, kv: JsonView, es: Seq<(Seq<char>, JsonView)>, schema: JsonView, n: nat)
    requires
        n <= es.len(),
    ensures
        kv == JsonView::Bool(false) ==> additional_from(env, sc, kv, JsonView::Object(es), schema, n)
            == uncovered_members(schema, es, n).map_values(
            |e: (Seq<char>, JsonView)| unexpected_key_error(e.0, JsonView::Object(es)),
        ),
        kv is Object ==> additional_from(env, sc, kv, JsonView::Object(es), schema, n) == member_errors(
            env,
            sc,
            kv,
            uncovered_members(schema, es, n),
        ),
        kv != JsonView::Bool(false) && !(kv is Object) ==> additional_from(env, sc, kv, JsonView::Object(es), schema, n)
            == Seq::<ErrorView>::empty(),
    decreases n,
{
    let inst = JsonView::Object(es);
    if n > 0 {
        let m = (n - 1) as nat;
        lemma_additional_from_per_key(env, sc, kv, es, schema, m);
        let u = uncovered_members(schema, es, m);
        let f = |e: (Seq<char>, JsonView)| unexpected_key_error(e.0, inst);
        if covered(schema, es[m as int].0) {
            assert(uncovered_members(schema, es, n) =~= u);
        } else {
            let x = es[m as int];
            assert(uncovered_members(schema, es, n) =~= u.push(x));
            assert(u.push(x).map_values(f) =~= u.map_values(f) + seq![f(x)]);
            assert(u.push(x).drop_last() =~= u);
        }
    } else {
        assert(uncovered_members(schema, es, 0).map_values(
            |e: (Seq<char>, JsonView)| unexpected_key_error(e.0, inst),
        ) =~= Seq::<ErrorView>::empty());
    }
}

/// `additionalProperties`, key by key: a value that is not an object gets
/// no error; in an object (that the type checker takes for one), each key
/// that neither `properties` nor a compiling pattern of `patternProperties`
/// covers gets, in key order, one "Additional properties are not allowed"
/// error when the value is `false`, and the errors of its member against
/// the value (what `descend` reports for that key) when the value is a
/// schema object; any other value reports nothing.
pub proof fn law_additional_properties_per_key(env: Env, sc: Scope, kv: JsonView, inst: JsonView, schema: JsonView)
    ensures
        !(inst is Object) ==> additional_properties_errors(env, sc, kv, inst, schema) == Seq::<ErrorView>::empty(),
        inst matches JsonView::Object(es) ==> has_type(env, inst, "object"@) ==> {
            let errs = additional_properties_errors(env, sc, kv, inst, schema);
            let u = uncovered_members(schema, es, es.len());
            &&& kv == JsonView::Bool(false) ==> errs == u.map_values(
                |e: (Seq<char>, JsonView)| unexpected_key_error(e.0, inst),
            )
            &&& kv is Object ==> errs == member_errors(env, sc, kv, u)
            &&& kv != JsonView::Bool(false) && !(kv is Object) ==> errs == Seq::<ErrorView>::empty()
        },
{
    if let JsonView::Object(es) = inst {
        lemma_additional_from_per_key(env, sc, kv, es, schema, es.len());
    }
}

/// The `properties` errors of the first `n` members are empty exactly
/// when each named member that the instance has is valid against its
/// schema.
proof fn lemma_properties_from(env: Env, sc: Scope, kv: JsonView, inst: JsonView, schema: JsonView, n: nat)
    requires
        kv matches JsonView::Object(ps) && n <= ps.len(),
    ensures
        kv matches JsonView::Object(ps) ==> (properties_from(env, sc, kv, inst, schema, n).len() == 0 <==> forall|i: int|
            0 <= i < n ==> (#[trigger] get_key(inst, ps[i].0) matches Some(child) ==> errors_of(
                env,
                child_scope(sc, ps[i].0),
                child,
                ps[i].1,
            ).len() == 0)),
    decreases n,
{
    if let JsonView::Object(ps) = kv {
        if n > 0 {
            lemma_properties_from(env, sc, kv, inst, schema, (n - 1) as nat);
        }
    }
}

/// `properties` accepts an object exactly when each member that it names
/// and the object has is valid against the member's schema.
pub proof fn law_properties(env: Env, sc: Scope, kv: JsonView, inst: JsonView, schema: JsonView)
    requires
        kv is Object,
        has_type(env, inst, "object"@),
    ensures
        kv matches JsonView::Object(ps) ==> (properties_errors(env, sc, kv, inst, schema).len() == 0 <==> forall|i: int|
            0 <= i < ps.len() ==> (#[trigger] get_key(inst, ps[i].0) matches Some(child) ==> errors_of(
                env,
                child_scope(sc, ps[i].0),
                child,
                ps[i].1,
            ).len() == 0)),
{
    if let JsonView::Object(ps) = kv {
        lemma_properties_from(env, sc, kv, inst, schema, ps.len());
    }
}

/// Whether `key` is covered by `schema` (see `covered`).
fn covered_exec(schema: &JsonValue, key: &String) -> (r: bool)
    ensures
        r == covered(schema@, key@),
{
    let by_name = match schema.get("properties") {
        Some(JsonValue::Object(ps)) => find_member(ps, key).is_some(),
        _ => false,
    };
    if by_name {
        return true;
    }
    match schema.get("patternProperties") {
        Some(pp) => {
            proof {
                lemma_value_children(*pp);
            }
            match pp {
                JsonValue::Object(pats) => {
                    let ghost pv = members_view(pats@);
                    let mut j: usize = 0;
                    while j < pats.len()
                        invariant
                            j <= pats.len(),
                            get_key(schema@, "patternProperties"@) == Some(pp@),
                            pp@ == JsonView::Object(pv),
                            pv == members_view(pats@),
                            pv.len() == pats@.len(),
                            forall|q: int| 0 <= q < pats@.len() ==> (#[trigger] pv[q]) == (pats@[q].0@, pats@[q].1@),
                            forall|q: int|
                                0 <= q < j ==> !(regex_compiles(#[trigger] pv[q].0) && regex_is_match(pv[q].0, key@)),
                        decreases pats.len() - j,
                    {
                        if regex_matches(pats[j].0.as_str(), key.as_str()) {
                            assert(pv[j as int] == (pats@[j as int].0@, pats@[j as int].1@));
                            assert(regex_compiles(pv[j as int].0) && regex_is_match(pv[j as int].0, key@));
                            assert(pattern_covers(pv, key@));
                            return true;
                        }
                        j += 1;
                    }
                    false
                },
                _ => false,
            }
        },
        None => false,
    }
}

/// Appends the errors of the first `m` names of `req` that the present
/// member `prop` requires (see `required_by`).
fn push_required_by(out: &mut Vec<ValidationError>, prop: &String, req: &Vec<JsonValue>, instance: &JsonValue, kw: &str)
    ensures
        errs_view(final(out)@) == errs_view(old(out)@) + required_by(prop@, items_view(req@), instance@, kw@, req@.len()),
{
    proof {
        crate::json::lemma_items_view(req@);
    }
    let ghost rv = items_view(req@);
    let ghost start = errs_view(out@);
    let mut m: usize = 0;
    assert(start =~= start + Seq::<ErrorView>::empty());
    while m < req.len()
        invariant
            m <= req.len(),
            rv == items_view(req@),
            rv.len() == req@.len(),
            forall|q: int| 0 <= q < req@.len() ==> (#[trigger] rv[q]) == req@[q]@,
            errs_view(out@) == start + required_by(prop@, rv, instance@, kw@, m as nat),
        decreases req.len() - m,
    {
        let ghost before = out@;
        assert(rv[m as int] == req@[m as int]@);
        match &req[m] {
            JsonValue::String(k) => {
                if !instance.contains_key(k.as_str()) {
                    let mut msg = string_of("'");
                    push_str(&mut msg, prop.as_str());
                    push_str(&mut msg, "' is present, so '");
                    push_str(&mut msg, k.as_str());
                    push_str(&mut msg, "' is also required");
                    let e = keyword_error_exec(msg, kw, instance);
                    out.push(e);
                    proof {
                        lemma_errs_push(before, e);
                    }
                } else {
                    assert(errs_view(out@) =~= errs_view(out@) + Seq::<ErrorView>::empty());
                }
            },
            _ => {
                assert(errs_view(out@) =~= errs_view(out@) + Seq::<ErrorView>::empty());
            },
        }
        m += 1;
    }
}

/// The `properties` keyword.
pub struct PropertiesKeyword;

impl Keyword for PropertiesKeyword {
    /// The keyword's name.
    fn name(&self) -> (r: &'static str)
        ensures
            r@ == "properties"@,
    {
        "properties"
    }

    /// The errors of `instance` against `"properties": properties`.
    fn validate(
        &self,
        ctx: &ValidationContext,
        properties: &JsonValue,
        instance: &JsonValue,
        schema: &JsonValue,
    ) -> (r: Vec<ValidationError>)
        ensures
            errs_view(r@) == properties_errors(ctx.env(), ctx.scope(), properties@, instance@, schema@),
        decreases size(instance@), fuel(ctx.env(), ctx.scope()), kmeasure(properties@, schema@), 2nat, 0nat,
    {
        let mut errors: Vec<ValidationError> = Vec::new();
        assert(errs_view(errors@) =~= Seq::<ErrorView>::empty());
        if !ctx.is_type(instance, "object") {
            return errors;
        }
        proof {
            lemma_value_children(*properties);
        }
        match properties {
            JsonValue::Object(ps) => {
                let ghost pv = members_view(ps@);
                let mut i: usize = 0;
                while i < ps.len()
                    invariant
                        i <= ps.len(),
                        ctx.wf(),
                        *properties == JsonValue::Object(*ps),
                        properties@ == JsonView::Object(pv),
                        pv == members_view(ps@),
                        pv.len() == ps@.len(),
                        forall|q: int| 0 <= q < ps@.len() ==> (#[trigger] pv[q]) == (ps@[q].0@, ps@[q].1@),
                        errs_view(errors@) == properties_from(
                            ctx.env(),
                            ctx.scope(),
                            properties@,
                            instance@,
                            schema@,
                            i as nat,
                        ),
                    decreases ps.len() - i,
                {
                    let name = &ps[i].0;
                    assert(pv[i as int] == (name@, ps@[i as int].1@));
                    match instance.get(name.as_str()) {
                        Some(child) => {
                            let found = ctx.descend(child, &ps[i].1, name.as_str());
                            append_spath_prefixed(&mut errors, found, name.as_str());
                        },
                        None => {
                            assert(errs_view(errors@) =~= errs_view(errors@) + Seq::<ErrorView>::empty());
                        },
                    }
                    i += 1;
                }
                errors
            },
            _ => errors,
        }
    }
}

/// The `required` keyword.
pub struct RequiredKeyword;

impl Keyword for RequiredKeyword {
    /// The keyword's name.
    fn name(&self) -> (r: &'static str)
        ensures
            r@ == "required"@,
    {
        "required"
    }

    /// The errors of `instance` against `"required": required`.
    fn validate(
        &self,
        ctx: &ValidationContext,
        required: &JsonValue,
        instance: &JsonValue,
        schema: &JsonValue,
    ) -> (r: Vec<ValidationError>)
        ensures
            errs_view(r@) == required_errors(ctx.env(), required@, instance@),
    {
        let mut errors: Vec<ValidationError> = Vec::new();
        assert(errs_view(errors@) =~= Seq::<ErrorView>::empty());
        if !ctx.is_type(instance, "object") {
            return errors;
        }
        proof {
            lemma_value_children(*required);
        }
        match required {
            JsonValue::Array(xs) => {
                let ghost xv = items_view(xs@);
                let mut i: usize = 0;
                while i < xs.len()
                    invariant
                        i <= xs.len(),
                        *required == JsonValue::Array(*xs),
                        required@ == JsonView::Array(xv),
                        xv == items_view(xs@),
                        xv.len() == xs@.len(),
                        forall|q: int| 0 <= q < xs@.len() ==> (#[trigger] xv[q]) == xs@[q]@,
                        errs_view(errors@) == required_from(xv, instance@, i as nat),
                    decreases xs.len() - i,
                {
                    let ghost before = errors@;
                    assert(xv[i as int] == xs@[i as int]@);
                    match &xs[i] {
                        JsonValue::String(k) => {
                            if instance.get(k.as_str()).is_none() {
                                let mut msg = string_of("'");
                                push_str(&mut msg, k.as_str());
                                push_str(&mut msg, "' is a required property");
                                let e = keyword_error_exec(msg, "required", instance);
                                errors.push(e);
                                proof {
                                    lemma_errs_push(before, e);
                                }
                            } else {
                                assert(errs_view(errors@) =~= errs_view(errors@) + Seq::<ErrorView>::empty());
                            }
                        },
                        _ => {
                            assert(errs_view(errors@) =~= errs_view(errors@) + Seq::<ErrorView>::empty());
                        },
                    }
                    i += 1;
                }
                errors
            },
            _ => errors,
        }
    }
}

/// The `additionalProperties` keyword.
pub struct AdditionalPropertiesKeyword;

impl Keyword for AdditionalPropertiesKeyword {
    /// The keyword's name.
    fn name(&self) -> (r: &'static str)
        ensures
            r@ == "additionalProperties"@,
    {
        "additionalProperties"
    }

    /// The errors of `instance` against `"additionalProperties": additional`.
    fn validate(
        &self,
        ctx: &ValidationContext,
        additional: &JsonValue,
        instance: &JsonValue,
        schema: &JsonValue,
    ) -> (r: Vec<ValidationError>)
        ensures
            errs_view(r@) == additional_properties_errors(ctx.env(), ctx.scope(), additional@, instance@, schema@),
        decreases size(instance@), fuel(ctx.env(), ctx.scope()), kmeasure(additional@, schema@), 2nat, 0nat,
    {
        let mut errors: Vec<ValidationError> = Vec::new();
        assert(errs_view(errors@) =~= Seq::<ErrorView>::empty());
        if !ctx.is_type(instance, "object") {
            return errors;
        }
        proof {
            lemma_value_children(*instance);
        }
        match instance {
            JsonValue::Object(es) => {
                let ghost ev = members_view(es@);
                let mut i: usize = 0;
                while i < es.len()
                    invariant
                        i <= es.len(),
                        ctx.wf(),
                        *instance == JsonValue::Object(*es),
                        instance@ == JsonView::Object(ev),
                        ev == members_view(es@),
                        ev.len() == es@.len(),
                        forall|q: int| 0 <= q < es@.len() ==> (#[trigger] ev[q]) == (es@[q].0@, es@[q].1@),
                        forall|q: int| 0 <= q < es@.len() ==> size(#[trigger] es@[q].1@) < size(instance@),
                        errs_view(errors@) == additional_from(
                            ctx.env(),
                            ctx.scope(),
                            additional@,
                            instance@,
                            schema@,
                            i as nat,
                        ),
                    decreases es.len() - i,
                {
                    let ghost before = errors@;
                    let key = &es[i].0;
                    assert(ev[i as int] == (key@, es@[i as int].1@));
                    if covered_exec(schema, key) {
                        assert(errs_view(errors@) =~= errs_view(errors@) + Seq::<ErrorView>::empty());
                    } else if additional.is_false() {
                        let mut msg = string_of("Additional properties are not allowed ('");
                        push_str(&mut msg, key.as_str());
                        push_str(&mut msg, "' was unexpected)");
                        let e = keyword_error_exec(msg, "additionalProperties", instance);
                        errors.push(e);
                        proof {
                            lemma_errs_push(before, e);
                        }
                    } else if additional.as_object().is_some() {
                        let found = ctx.descend(&es[i].1, additional, key.as_str());
                        append_errors(&mut errors, found);
                    } else {
                        assert(errs_view(errors@) =~= errs_view(errors@) + Seq::<ErrorView>::empty());
                    }
                    i += 1;
                }
                errors
            },
            _ => errors,
        }
    }
}

/// The `patternProperties` keyword.
pub struct PatternPropertiesKeyword;

impl Keyword for PatternPropertiesKeyword {
    /// The keyword's name.
    fn name(&self) -> (r: &'static str)
        ensures
            r@ == "patternProperties"@,
    {
        "patternProperties"
    }

    /// The errors of `instance` against `"patternProperties": pattern_props`.
    fn validate(
        &self,
        ctx: &ValidationContext,
        pattern_props: &JsonValue,
        instance: &JsonValue,
        schema: &JsonValue,
    ) -> (r: Vec<ValidationError>)
        ensures
            errs_view(r@) == pattern_properties_errors(ctx.env(), ctx.scope(), pattern_props@, instance@, schema@),
        decreases size(instance@), fuel(ctx.env(), ctx.scope()), kmeasure(pattern_props@, schema@), 2nat, 0nat,
    {
        let mut errors: Vec<ValidationError> = Vec::new();
        assert(errs_view(errors@) =~= Seq::<ErrorView>::empty());
        if !ctx.is_type(instance, "object") {
            return errors;
        }
        proof {
            lemma_value_children(*pattern_props);
            lemma_value_children(*instance);
        }
        match (pattern_props, instance) {
            (JsonValue::Object(pats), JsonValue::Object(es)) => {
                let ghost pv = members_view(pats@);
                let ghost ev = members_view(es@);
                let ghost env = ctx.env();
                let ghost sc = ctx.scope();
                let mut n: usize = 0;
                while n < pats.len()
                    invariant
                        n <= pats.len(),
                        ctx.wf(),
                        env == ctx.env(),
                        sc == ctx.scope(),
                        *pattern_props == JsonValue::Object(*pats),
                        *instance == JsonValue::Object(*es),
                        pattern_props@ == JsonView::Object(pv),
                        instance@ == JsonView::Object(ev),
                        pv == members_view(pats@),
                        ev == members_view(es@),
                        pv.len() == pats@.len(),
                        ev.len() == es@.len(),
                        forall|q: int| 0 <= q < pats@.len() ==> (#[trigger] pv[q]) == (pats@[q].0@, pats@[q].1@),
                        forall|q: int| 0 <= q < es@.len() ==> (#[trigger] ev[q]) == (es@[q].0@, es@[q].1@),
                        forall|q: int| 0 <= q < es@.len() ==> size(#[trigger] es@[q].1@) < size(instance@),
                        errs_view(errors@) == pattern_from(env, sc, pattern_props@, instance@, schema@, n as nat),
                    decreases pats.len() - n,
                {
                    let p = &pats[n].0;
                    assert(pv[n as int] == (p@, pats@[n as int].1@));
                    let ghost before_outer = errs_view(errors@);
                    if crate::pattern::regex_valid(p.as_str()) {
                        let mut m: usize = 0;
                        assert(before_outer =~= before_outer + Seq::<ErrorView>::empty());
                        while m < es.len()
                            invariant
                                m <= es.len(),
                                n < pats.len(),
                                regex_compiles(p@),
                                ctx.wf(),
                                env == ctx.env(),
                                sc == ctx.scope(),
                                *pattern_props == JsonValue::Object(*pats),
                                *instance == JsonValue::Object(*es),
                                pattern_props@ == JsonView::Object(pv),
                                instance@ == JsonView::Object(ev),
                                pv == members_view(pats@),
                                ev == members_view(es@),
                                pv.len() == pats@.len(),
                                ev.len() == es@.len(),
                                pv[n as int] == (p@, pats@[n as int].1@),
                                forall|q: int| 0 <= q < es@.len() ==> (#[trigger] ev[q]) == (es@[q].0@, es@[q].1@),
                                forall|q: int| 0 <= q < es@.len() ==> size(#[trigger] es@[q].1@) < size(instance@),
                                errs_view(errors@) == before_outer + pattern_members(
                                    env,
                                    sc,
                                    pattern_props@,
                                    instance@,
                                    schema@,
                                    n as nat,
                                    m as nat,
                                ),
                            decreases es.len() - m,
                        {
                            let key = &es[m].0;
                            assert(ev[m as int] == (key@, es@[m as int].1@));
                            let ghost mid = errs_view(errors@);
                            let ghost pm = pattern_members(env, sc, pattern_props@, instance@, schema@, n as nat, m as nat);
                            let ghost pm1 = pattern_members(
                                env,
                                sc,
                                pattern_props@,
                                instance@,
                                schema@,
                                n as nat,
                                (m + 1) as nat,
                            );
                            if regex_matches(p.as_str(), key.as_str()) {
                                let found = ctx.descend(&es[m].1, &pats[n].1, key.as_str());
                                let ghost x = prefix_spath(errs_view(found@), p@);
                                append_spath_prefixed(&mut errors, found, p.as_str());
                                proof {
                                    assert(pm1 == pm + x);
                                    assert(errs_view(errors@) =~= before_outer + pm1);
                                }
                            } else {
                                proof {
                                    assert(pm1 == pm + Seq::<ErrorView>::empty());
                                    assert(errs_view(errors@) =~= before_outer + pm1);
                                }
                            }
                            m += 1;
                        }
                    } else {
                        assert(errs_view(errors@) =~= errs_view(errors@) + Seq::<ErrorView>::empty());
                    }
                    proof {
                        let pf = pattern_from(env, sc, pattern_props@, instance@, schema@, n as nat);
                        let pf1 = pattern_from(env, sc, pattern_props@, instance@, schema@, (n + 1) as nat);
                        if regex_compiles(p@) {
                            assert(pf1 == pf + pattern_members(env, sc, pattern_props@, instance@, schema@, n as nat, ev.len()));
                        } else {
                            assert(pf1 == pf + Seq::<ErrorView>::empty());
                        }
                    }
                    n += 1;
                }
                errors
            },
            _ => errors,
        }
    }
}

/// The `propertyNames` keyword.
pub struct PropertyNamesKeyword;

impl Keyword for PropertyNamesKeyword {
    /// The keyword's name.
    fn name(&self) -> (r: &'static str)
        ensures
            r@ == "propertyNames"@,
    {
        "propertyNames"
    }

    /// The errors of `instance` against `"propertyNames": name_schema`.
    fn validate(
        &self,
        ctx: &ValidationContext,
        name_schema: &JsonValue,
        instance: &JsonValue,
        schema: &JsonValue,
    ) -> (r: Vec<ValidationError>)
        ensures
            errs_view(r@) == property_names_errors(ctx.env(), ctx.scope(), name_schema@, instance@, schema@),
        decreases size(instance@), fuel(ctx.env(), ctx.scope()), kmeasure(name_schema@, schema@), 2nat, 0nat,
    {
        let mut errors: Vec<ValidationError> = Vec::new();
        assert(errs_view(errors@) =~= Seq::<ErrorView>::empty());
        if !ctx.is_type(instance, "object") {
            return errors;
        }
        proof {
            lemma_value_children(*instance);
        }
        match instance {
            JsonValue::Object(es) => {
                let ghost ev = members_view(es@);
                let mut i: usize = 0;
                while i < es.len()
                    invariant
                        i <= es.len(),
                        ctx.wf(),
                        *instance == JsonValue::Object(*es),
                        instance@ == JsonView::Object(ev),
                        ev == members_view(es@),
                        ev.len() == es@.len(),
                        forall|q: int| 0 <= q < es@.len() ==> (#[trigger] ev[q]) == (es@[q].0@, es@[q].1@),
                        forall|q: int| 0 <= q < es@.len() ==> size(#[trigger] es@[q].1@) < size(instance@),
                        errs_view(errors@) == names_from(
                            ctx.env(),
                            ctx.scope(),
                            name_schema@,
                            instance@,
                            schema@,
                            i as nat,
                        ),
                    decreases es.len() - i,
                {
                    let key = &es[i].0;
                    assert(ev[i as int] == (key@, es@[i as int].1@));
                    proof {
                        lemma_size_pos(es@[i as int].1@);
                    }
                    let key_value = JsonValue::String(copy_string(key));
                    let found = ctx.iter_errors(&key_value, name_schema);
                    append_ipath_prefixed(&mut errors, found, key.as_str());
                    i += 1;
                }
                errors
            },
            _ => errors,
        }
    }
}

/// The `minProperties` keyword.
pub struct MinPropertiesKeyword;

impl Keyword for MinPropertiesKeyword {
    /// The keyword's name.
    fn name(&self) -> (r: &'static str)
        ensures
            r@ == "minProperties"@,
    {
        "minProperties"
    }

    /// The errors of `instance` against `"minProperties": min`.
    fn validate(
        &self,
        ctx: &ValidationContext,
        min: &JsonValue,
        instance: &JsonValue,
        schema: &JsonValue,
    ) -> (r: Vec<ValidationError>)
        ensures
            errs_view(r@) == min_properties_errors(ctx.env(), min@, instance@),
    {
        if !ctx.is_type(instance, "object") {
            return Vec::new();
        }
        proof {
            lemma_value_children(*instance);
        }
        match (min, instance) {
            (JsonValue::Number(n), JsonValue::Object(es)) => match n.as_u64() {
                Some(m) => if (es.len() as u64) < m {
                    count_error("object has ", es.len(), " properties, but minimum is ", m, "minProperties", instance)
                } else {
                    Vec::new()
                },
                None => Vec::new(),
            },
            _ => Vec::new(),
        }
    }
}

/// The `maxProperties` keyword.
pub struct MaxPropertiesKeyword;

impl Keyword for MaxPropertiesKeyword {
    /// The keyword's name.
    fn name(&self) -> (r: &'static str)
        ensures
            r@ == "maxProperties"@,
    {
        "maxProperties"
    }

    /// The errors of `instance` against `"maxProperties": max`.
    fn validate(
        &self,
        ctx: &ValidationContext,
        max: &JsonValue,
        instance: &JsonValue,
        schema: &JsonValue,
    ) -> (r: Vec<ValidationError>)
        ensures
            errs_view(r@) == max_properties_errors(ctx.env(), max@, instance@),
    {
        if !ctx.is_type(instance, "object") {
            return Vec::new();
        }
        proof {
            lemma_value_children(*instance);
        }
        match (max, instance) {
            (JsonValue::Number(n), JsonValue::Object(es)) => match n.as_u64() {
                Some(m) => if (es.len() as u64) > m {
                    count_error("object has ", es.len(), " properties, but maximum is ", m, "maxProperties", instance)
                } else {
                    Vec::new()
                },
                None => Vec::new(),
            },
            _ => Vec::new(),
        }
    }
}

/// The `dependentRequired` keyword.
pub struct DependentRequiredKeyword;

impl Keyword for DependentRequiredKeyword {
    /// The keyword's name.
    fn name(&self) -> (r: &'static str)
        ensures
            r@ == "dependentRequired"@,
    {
        "dependentRequired"
    }

    /// The errors of `instance` against `"dependentRequired": dependents`.
    fn validate(
        &self,
        ctx: &ValidationContext,
        dependents: &JsonValue,
        instance: &JsonValue,
        schema: &JsonValue,
    ) -> (r: Vec<ValidationError>)
        ensures
            errs_view(r@) == dependent_required_errors(ctx.env(), dependents@, instance@),
    {
        let mut errors: Vec<ValidationError> = Vec::new();
        assert(errs_view(errors@) =~= Seq::<ErrorView>::empty());
        if !ctx.is_type(instance, "object") {
            return errors;
        }
        proof {
            lemma_value_children(*dependents);
        }
        match (dependents, instance) {
            (JsonValue::Object(ds), JsonValue::Object(_)) => {
                let ghost dv = members_view(ds@);
                let mut i: usize = 0;
                while i < ds.len()
                    invariant
                        i <= ds.len(),
                        *dependents == JsonValue::Object(*ds),
                        dependents@ == JsonView::Object(dv),
                        instance@ is Object,
                        dv == members_view(ds@),
                        dv.len() == ds@.len(),
                        forall|q: int| 0 <= q < ds@.len() ==> (#[trigger] dv[q]) == (ds@[q].0@, ds@[q].1@),
                        errs_view(errors@) == dependent_required_from(dv, instance@, i as nat),
                    decreases ds.len() - i,
                {
                    let prop = &ds[i].0;
                    assert(dv[i as int] == (prop@, ds@[i as int].1@));
                    proof {
                        lemma_value_children(ds@[i as int].1);
                    }
                    if instance.contains_key(prop.as_str()) {
                        match &ds[i].1 {
                            JsonValue::Array(req) => {
                                push_required_by(&mut errors, prop, req, instance, "dependentRequired");
                            },
                            _ => {
                                assert(errs_view(errors@) =~= errs_view(errors@) + Seq::<ErrorView>::empty());
                            },
                        }
                    } else {
                        assert(errs_view(errors@) =~= errs_view(errors@) + Seq::<ErrorView>::empty());
                    }
                    i += 1;
                }
                errors
            },
            _ => errors,
        }
    }
}

/// The `dependentSchemas` keyword.
pub struct DependentSchemasKeyword;

impl Keyword for DependentSchemasKeyword {
    /// The keyword's name.
    fn name(&self) -> (r: &'static str)
        ensures
            r@ == "dependentSchemas"@,
    {
        "dependentSchemas"
    }

    /// The errors of `instance` against `"dependentSchemas": dependents`.
    fn validate(
        &self,
        ctx: &ValidationContext,
        dependents: &JsonValue,
        instance: &JsonValue,
        schema: &JsonValue,
    ) -> (r: Vec<ValidationError>)
        ensures
            errs_view(r@) == dependent_schemas_errors(ctx.env(), ctx.scope(), dependents@, instance@, schema@),
        decreases size(instance@), fuel(ctx.env(), ctx.scope()), kmeasure(dependents@, schema@), 2nat, 0nat,
    {
        let mut errors: Vec<ValidationError> = Vec::new();
        assert(errs_view(errors@) =~= Seq::<ErrorView>::empty());
        if !ctx.is_type(instance, "object") {
            return errors;
        }
        proof {
            lemma_value_children(*dependents);
        }
        match (dependents, instance) {
            (JsonValue::Object(ds), JsonValue::Object(_)) => {
                let ghost dv = members_view(ds@);
                let mut i: usize = 0;
                while i < ds.len()
                    invariant
                        i <= ds.len(),
                        ctx.wf(),
                        *dependents == JsonValue::Object(*ds),
                        dependents@ == JsonView::Object(dv),
                        instance@ is Object,
                        dv == members_view(ds@),
                        dv.len() == ds@.len(),
                        forall|q: int| 0 <= q < ds@.len() ==> (#[trigger] dv[q]) == (ds@[q].0@, ds@[q].1@),
                        forall|q: int| 0 <= q < ds@.len() ==> size(#[trigger] ds@[q].1@) < size(dependents@),
                        errs_view(errors@) == dependent_schemas_from(
                            ctx.env(),
                            ctx.scope(),
                            dependents@,
                            instance@,
                            schema@,
                            i as nat,
                        ),
                    decreases ds.len() - i,
                {
                    let prop = &ds[i].0;
                    assert(dv[i as int] == (prop@, ds@[i as int].1@));
                    if instance.contains_key(prop.as_str()) {
                        let found = ctx.iter_errors(instance, &ds[i].1);
                        append_spath_prefixed(&mut errors, found, prop.as_str());
                    } else {
                        assert(errs_view(errors@) =~= errs_view(errors@) + Seq::<ErrorView>::empty());
                    }
                    i += 1;
                }
                errors
            },
            _ => errors,
        }
    }
}

/// The `dependencies` keyword.
pub struct DependenciesKeyword;

impl Keyword for DependenciesKeyword {
    /// The keyword's name.
    fn name(&self) -> (r: &'static str)
        ensures
            r@ == "dependencies"@,
    {
        "dependencies"
    }

    /// The errors of `instance` against `"dependencies": dependents`.
    fn validate(
        &self,
        ctx: &ValidationContext,
        dependents: &JsonValue,
        instance: &JsonValue,
        schema: &JsonValue,
    ) -> (r: Vec<ValidationError>)
        ensures
            errs_view(r@) == dependencies_errors(ctx.env(), ctx.scope(), dependents@, instance@, schema@),
        decreases size(instance@), fuel(ctx.env(), ctx.scope()), kmeasure(dependents@, schema@), 2nat, 0nat,
    {
        let mut errors: Vec<ValidationError> = Vec::new();
        assert(errs_view(errors@) =~= Seq::<ErrorView>::empty());
        if !ctx.is_type(instance, "object") {
            return errors;
        }
        proof {
            lemma_value_children(*dependents);
        }
        match (dependents, instance) {
            (JsonValue::Object(ds), JsonValue::Object(_)) => {
                let ghost dv = members_view(ds@);
                let mut i: usize = 0;
                while i < ds.len()
                    invariant
                        i <= ds.len(),
                        ctx.wf(),
                        *dependents == JsonValue::Object(*ds),
                        dependents@ == JsonView::Object(dv),
                        instance@ is Object,
                        dv == members_view(ds@),
                        dv.len() == ds@.len(),
                        forall|q: int| 0 <= q < ds@.len() ==> (#[trigger] dv[q]) == (ds@[q].0@, ds@[q].1@),
                        forall|q: int| 0 <= q < ds@.len() ==> size(#[trigger] ds@[q].1@) < size(dependents@),
                        errs_view(errors@) == dependencies_from(
                            ctx.env(),
                            ctx.scope(),
                            dependents@,
                            instance@,
                            schema@,
                            i as nat,
                        ),
                    decreases ds.len() - i,
                {
                    let prop = &ds[i].0;
                    assert(dv[i as int] == (prop@, ds@[i as int].1@));
                    proof {
                        lemma_value_children(ds@[i as int].1);
                    }
                    if instance.contains_key(prop.as_str()) {
                        match &ds[i].1 {
                            JsonValue::Array(req) => {
                                push_required_by(&mut errors, prop, req, instance, "dependencies");
                            },
                            _ => {
                                let found = ctx.iter_errors(instance, &ds[i].1);
                                append_spath_prefixed(&mut errors, found, prop.as_str());
                            },
                        }
                    } else {
                        assert(errs_view(errors@) =~= errs_view(errors@) + Seq::<ErrorView>::empty());
                    }
                    i += 1;
                }
                errors
            },
            _ => errors,
        }
    }
}


/// `minProperties` and `maxProperties` with a bound `m` (a non-negative
/// integer), on an object as the type checker sees it: `maxProperties`
/// reports one error exactly when the object has more than `m` members, so
/// exactly `m` members are accepted; `minProperties` reports one error
/// exactly when it has fewer than `m`.
pub proof fn law_property_count_bounds(env: Env, n: crate::number::JsonNumber, es: Seq<(Seq<char>, JsonView)>)
    requires
        has_type(env, JsonView::Object(es), "object"@),
        n.as_u64_spec() is Some,
    ensures
        max_properties_errors(env, JsonView::Number(n), JsonView::Object(es)).len() == (if es.len()
            > n.as_u64_spec().unwrap() {
            1int
        } else {
            0int
        }),
        min_properties_errors(env, JsonView::Number(n), JsonView::Object(es)).len() == (if es.len()
            < n.as_u64_spec().unwrap() {
            1int
        } else {
            0int
        }),
        ({
            let errs = max_properties_errors(env, JsonView::Number(n), JsonView::Object(es));
            errs.len() == 1 ==> errs[0] == keyword_error(
                "object has "@ + dec(es.len()) + " properties, but maximum is "@ + dec(n.as_u64_spec().unwrap()),
                "maxProperties"@,
                JsonView::Object(es),
            )
        }),
        ({
            let errs = min_properties_errors(env, JsonView::Number(n), JsonView::Object(es));
            errs.len() == 1 ==> errs[0] == keyword_error(
                "object has "@ + dec(es.len()) + " properties, but minimum is "@ + dec(n.as_u64_spec().unwrap()),
                "minProperties"@,
                JsonView::Object(es),
            )
        }),
{
}

} // verus!
