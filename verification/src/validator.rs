//! The validation engine: walks a schema and an instance together and
//! collects the errors that the keywords report.
use vstd::prelude::*;

use crate::error::{errs_view, lemma_errs_push, lemma_views_push, plain_error, ErrorView, ValidationError};
use crate::instance::contains_string;
use crate::json::{get_key, lemma_children_size, lemma_value_children, lookup, members_view, size, JsonValue, JsonView};
use crate::keyword::applicator::{
    all_of_errors, any_of_errors, else_errors, if_errors, not_errors, one_of_errors, then_errors,
};
use crate::keyword::arrays::{
    contains_errors, items_errors, max_contains_errors, max_items_errors, min_contains_errors, min_items_errors,
    prefix_items_errors, unique_items_errors,
};
use crate::keyword::assertions::{const_errors, enum_errors, type_errors};
use crate::keyword::format::format_errors;
use crate::keyword::numeric::{
    exclusive_maximum_errors, exclusive_minimum_errors, maximum_errors, minimum_errors, multiple_of_errors,
};
use crate::keyword::objects::{
    additional_properties_errors, dependencies_errors, dependent_required_errors, dependent_schemas_errors,
    max_properties_errors, min_properties_errors, pattern_properties_errors, properties_errors,
    property_names_errors, required_errors,
};
use crate::keyword::string::{max_length_errors, min_length_errors, pattern_errors};
use crate::keyword::{Keyword, KeywordKind, KeywordRegistry};
use crate::refs::{find_by_id, find_by_id_spec, percent_decode, registry_resolve, resolve_anchor_spec, resolve_pointer_spec, resolve_fragment, resolve_fragment_chars, trim_leading, trim_leading_from, SchemaRegistry};
use crate::text::{copy_string, copy_strings, dec, find_char, find_char_from, push_str, str_eq, string_from_chars, string_of, to_chars, usize_to_string, views};
use crate::types::{is_type_spec, CompiledSchema, TypeChecker, TypeKind};

verus! {

broadcast use vstd::string::group_string_axioms;

/// What validation reads from its surroundings: the root schema, the
/// keyword and type registries, the documents for external references and
/// the bound on `$ref` chains.
pub struct Env {
    pub root: JsonView,
    pub keywords: Seq<(Seq<char>, KeywordKind)>,
    pub types: Seq<(Seq<char>, TypeKind)>,
    pub registry: Option<Seq<(Seq<char>, JsonView)>>,
    pub max_depth: nat,
}

/// Where validation stands: the instance and schema paths, and the `$ref`
/// strings being resolved on the current chain.
pub struct Scope {
    pub ipath: Seq<Seq<char>>,
    pub spath: Seq<Seq<char>>,
    pub visited: Seq<Seq<char>>,
}

/// How many more `$ref` steps the current chain may take.
pub open spec fn fuel(env: Env, sc: Scope) -> nat {
    if sc.visited.len() <= env.max_depth {
        (env.max_depth - sc.visited.len()) as nat
    } else {
        0
    }
}

/// The measure of a keyword value within its schema: the size of the
/// schema, and always more than the size of the value.
pub open spec fn kmeasure(kv: JsonView, schema: JsonView) -> nat {
    if size(kv) + 1 >= size(schema) {
        size(kv) + 1
    } else {
        size(schema)
    }
}

/// The scope for a child of the instance: the component is appended to the
/// instance path and the `$ref` chain starts afresh.
pub open spec fn child_scope(sc: Scope, comp: Seq<char>) -> Scope {
    Scope { ipath: sc.ipath.push(comp), spath: sc.spath, visited: Seq::empty() }
}

/// Whether `v` has the type named `name`.
pub open spec fn has_type(env: Env, v: JsonView, name: Seq<char>) -> bool {
    is_type_spec(env.types, v, name)
}

/// An error with the keyword `"$ref"` and the given message.
pub open spec fn ref_error(message: Seq<char>) -> ErrorView {
    ErrorView { keyword: Some("$ref"@), ..plain_error(message) }
}

/// The error of the `false` schema, located at the current instance path.
pub open spec fn false_schema_error(sc: Scope) -> ErrorView {
    ErrorView { instance_path: sc.ipath, ..plain_error("False schema does not allow anything"@) }
}

/// Prepends `seg` to the schema path of an error.
pub open spec fn spath_prefixed(e: ErrorView, seg: Seq<char>) -> ErrorView {
    ErrorView { schema_path: seq![seg] + e.schema_path, ..e }
}

/// Prepends `seg` to the schema path of each error.
pub open spec fn prefix_spath(es: Seq<ErrorView>, seg: Seq<char>) -> Seq<ErrorView> {
    es.map_values(|e: ErrorView| spath_prefixed(e, seg))
}

/// Prepends `seg` to the instance path of an error.
pub open spec fn ipath_prefixed(e: ErrorView, seg: Seq<char>) -> ErrorView {
    ErrorView { instance_path: seq![seg] + e.instance_path, ..e }
}

/// Prepends `seg` to the instance path of each error.
pub open spec fn prefix_ipath(es: Seq<ErrorView>, seg: Seq<char>) -> Seq<ErrorView> {
    es.map_values(|e: ErrorView| ipath_prefixed(e, seg))
}

/// An error reported by keyword `kw` as the engine records it: an empty
/// instance path becomes the current one, the schema path is prefixed by
/// the current schema path and `kw`, and a missing keyword becomes `kw`.
pub open spec fn fixed_error(sc: Scope, kw: Seq<char>, e: ErrorView) -> ErrorView {
    ErrorView {
        message: e.message,
        keyword: if e.keyword is None { Some(kw) } else { e.keyword },
        instance_path: if e.instance_path.len() == 0 { sc.ipath } else { e.instance_path },
        schema_path: sc.spath.push(kw) + e.schema_path,
        instance: e.instance,
    }
}

/// `fixed_error` on each error.
pub open spec fn fixed_errors(sc: Scope, kw: Seq<char>, es: Seq<ErrorView>) -> Seq<ErrorView> {
    es.map_values(|e: ErrorView| fixed_error(sc, kw, e))
}

/// The schema that a `$ref` string designates: the external registry is
/// asked first; then a fragment (`#...`) is resolved in the root schema;
/// then a URI with a fragment is looked up in the registry or by `$id` in
/// the root; finally a plain URI is looked up by `$id` in the root.
pub open spec fn resolve_ref_spec(env: Env, r: Seq<char>) -> Option<JsonView> {
    let from_registry = match env.registry {
        Some(reg) => registry_resolve(reg, env.root, r),
        None => None,
    };
    if from_registry is Some {
        from_registry
    } else if r.len() > 0 && r[0] == '#' {
        resolve_fragment(env.root, trim_leading(r, '#'))
    } else {
        let via_hash: Option<Option<JsonView>> = match find_char(r, '#') {
            Some(k) => {
                let uri = r.take(k as int);
                let frag = trim_leading(r.skip(k as int), '#');
                let doc = match env.registry {
                    Some(reg) => lookup(reg, uri),
                    None => None,
                };
                match doc {
                    Some(d) => Some(resolve_fragment(d, frag)),
                    None => match find_by_id_spec(env.root, uri) {
                        Some(d) => Some(resolve_fragment(d, frag)),
                        None => None,
                    },
                }
            },
            None => None,
        };
        match via_hash {
            Some(res) => res,
            None => find_by_id_spec(env.root, r),
        }
    }
}

/// What member `j` of the schema object contributes to the keyword errors:
/// nothing when its key is skipped or is not a registered keyword, else the
/// errors of that keyword as the engine records them.
pub open spec fn member_keyword_errors(
    env: Env,
    sc: Scope,
    inst: JsonView,
    es: Seq<(Seq<char>, JsonView)>,
    skip: Option<Seq<char>>,
    j: int,
) -> Seq<ErrorView> {
    let k = es[j].0;
    if skip == Some(k) {
        Seq::empty()
    } else {
        match lookup(env.keywords, k) {
            Some(kind) => fixed_errors(sc, k, apply_keyword(env, sc, kind, es[j].1, inst, JsonView::Object(es))),
            None => Seq::empty(),
        }
    }
}

/// Whether error `e` is located as collected keyword errors are: it has a
/// keyword; its instance path is the current one when it had none of its
/// own; and its schema path starts with the current schema path and the key
/// of a registered member of `es` that is not skipped.
pub open spec fn collected_located(
    env: Env,
    sc: Scope,
    es: Seq<(Seq<char>, JsonView)>,
    skip: Option<Seq<char>>,
    e: ErrorView,
) -> bool {
    &&& e.keyword is Some
    &&& e.instance_path.len() == 0 ==> sc.ipath.len() == 0
    &&& exists|j: int|
        0 <= j < es.len() && lookup(env.keywords, #[trigger] es[j].0) is Some && skip != Some(es[j].0)
            && e.schema_path.take(sc.spath.len() as int + 1) == sc.spath.push(es[j].0)
}

proof fn lemma_collect_from_members(
    env: Env,
    sc: Scope,
    inst: JsonView,
    es: Seq<(Seq<char>, JsonView)>,
    skip: Option<Seq<char>>,
    n: nat,
)
    requires
        n <= es.len(),
    ensures
        collect_from(env, sc, inst, JsonView::Object(es), skip, n) == Seq::new(
            n,
            |j: int| member_keyword_errors(env, sc, inst, es, skip, j),
        ).flatten_alt(),
        forall|i: int|
            0 <= i < collect_from(env, sc, inst, JsonView::Object(es), skip, n).len() ==> collected_located(
                env,
                sc,
                es,
                skip,
                #[trigger] collect_from(env, sc, inst, JsonView::Object(es), skip, n)[i],
            ),
    decreases n,
{
    let f = |j: int| member_keyword_errors(env, sc, inst, es, skip, j);
    if n == 0 {
        assert(Seq::new(0, f).flatten_alt() =~= Seq::<ErrorView>::empty());
    } else {
        let m = (n - 1) as nat;
        lemma_collect_from_members(env, sc, inst, es, skip, m);
        assert(Seq::new(n, f).drop_last() =~= Seq::new(m, f));
        let prev = collect_from(env, sc, inst, JsonView::Object(es), skip, m);
        let here = f(m as int);
        let all = collect_from(env, sc, inst, JsonView::Object(es), skip, n);
        assert(all == prev + here);
        assert forall|i: int| 0 <= i < all.len() implies collected_located(env, sc, es, skip, #[trigger] all[i]) by {
            if i < prev.len() {
                assert(all[i] == prev[i]);
            } else {
                let k = es[m as int].0;
                let kind = lookup(env.keywords, k).unwrap();
                let raw = apply_keyword(env, sc, kind, es[m as int].1, inst, JsonView::Object(es));
                let e = raw[i - prev.len()];
                assert(all[i] == here[i - prev.len()]);
                assert(here[i - prev.len()] == fixed_error(sc, k, e));
                assert((sc.spath.push(k) + e.schema_path).take(sc.spath.len() as int + 1) =~= sc.spath.push(k));
            }
        }
    }
}

/// Keyword-error collection: a schema that is not an object reports no
/// keyword errors; the errors of a schema object are those of its members,
/// in key order, each member contributing the errors of its keyword (none
/// when the key is skipped or not registered), each error changed as
/// `fixed_error` says: an empty instance path becomes the current one, the
/// schema path becomes the current one, the key and the error's own, and a
/// missing keyword becomes the key.  So each error carries a keyword, is
/// located at the current instance path when it had no path of its own, and
/// has a schema path that starts with the current schema path and the key of
/// the member that reported it.
pub proof fn law_keyword_collection(env: Env, sc: Scope, inst: JsonView, schema: JsonView, skip: Option<Seq<char>>)
    ensures
        !(schema is Object) ==> keyword_errors(env, sc, inst, schema, skip) == Seq::<ErrorView>::empty(),
        schema matches JsonView::Object(es) ==> keyword_errors(env, sc, inst, schema, skip) == Seq::new(
            es.len(),
            |j: int| member_keyword_errors(env, sc, inst, es, skip, j),
        ).flatten(),
        schema matches JsonView::Object(es) ==> forall|i: int|
            0 <= i < keyword_errors(env, sc, inst, schema, skip).len() ==> collected_located(
                env,
                sc,
                es,
                skip,
                #[trigger] keyword_errors(env, sc, inst, schema, skip)[i],
            ),
{
    if let JsonView::Object(es) = schema {
        lemma_collect_from_members(env, sc, inst, es, skip, es.len());
        Seq::new(es.len(), |j: int| member_keyword_errors(env, sc, inst, es, skip, j)).lemma_flatten_and_flatten_alt_are_equivalent();
    }
}

/// `$ref` routing when no external registry is given: `#` designates the
/// root schema, `#/...` the JSON Pointer (percent-decoded) in the root,
/// `#name` (a name not starting with `/` or `#`) the `$anchor` `name`, and a
/// reference without `#` the sub-schema of the root whose `$id` it is.
pub proof fn law_ref_routing(env: Env, r: Seq<char>)
    requires
        env.registry is None,
    ensures
        r == seq!['#'] ==> resolve_ref_spec(env, r) == Some(env.root),
        r.len() >= 2 && r[0] == '#' && r[1] == '/' ==> resolve_ref_spec(env, r) == resolve_pointer_spec(
            env.root,
            percent_decode(r.skip(1)),
        ),
        r.len() >= 2 && r[0] == '#' && r[1] != '/' && r[1] != '#' ==> resolve_ref_spec(env, r)
            == resolve_anchor_spec(env.root, r.skip(1)),
        !r.contains('#') ==> resolve_ref_spec(env, r) == find_by_id_spec(env.root, r),
{
    if r.len() >= 1 && r[0] == '#' {
        let t = r.skip(1);
        if t.len() > 0 {
            assert(t[0] == r[1]);
        }
        if t.len() == 0 || t[0] != '#' {
            assert(trim_leading(r, '#') == trim_leading(t, '#'));
            assert(trim_leading(t, '#') == t);
        }
    }
    crate::text::lemma_find_char(r, '#');
    if !r.contains('#') {
        if let Some(k) = find_char(r, '#') {
            assert(r[k as int] == '#');
        }
        if r.len() > 0 {
            assert(r[0] != '#');
        }
    }
}

/// All errors of `inst` against `schema`.
pub open spec fn errors_of(env: Env, sc: Scope, inst: JsonView, schema: JsonView) -> Seq<ErrorView>
    decreases size(inst), fuel(env, sc), size(schema), 6nat, 0nat,
{
    match schema {
        JsonView::Bool(b) => if b {
            Seq::empty()
        } else {
            seq![false_schema_error(sc)]
        },
        _ => match get_key(schema, "$ref"@) {
            Some(JsonView::Str(r)) => {
                if sc.visited.contains(r) {
                    Seq::empty()
                } else if sc.visited.len() >= env.max_depth {
                    seq![ref_error("$ref chain exceeds maximum depth of "@ + dec(env.max_depth))]
                } else {
                    let sc2 = Scope { visited: sc.visited.push(r), ..sc };
                    match resolve_ref_spec(env, r) {
                        Some(res) => errors_of(env, sc2, inst, res) + keyword_errors(
                            env,
                            sc2,
                            inst,
                            schema,
                            Some("$ref"@),
                        ),
                        None => seq![ref_error("Could not resolve $ref: "@ + r)],
                    }
                }
            },
            _ => keyword_errors(env, sc, inst, schema, None),
        },
    }
}

/// The errors of the keywords of `schema` (all but `skip`).
pub open spec fn keyword_errors(env: Env, sc: Scope, inst: JsonView, schema: JsonView, skip: Option<Seq<char>>) -> Seq<ErrorView>
    decreases size(inst), fuel(env, sc), size(schema), 5nat, 0nat,
{
    match schema {
        JsonView::Object(es) => collect_from(env, sc, inst, schema, skip, es.len()),
        _ => Seq::empty(),
    }
}

/// The errors of the keywords among the first `n` members of `schema`.
pub open spec fn collect_from(
    env: Env,
    sc: Scope,
    inst: JsonView,
    schema: JsonView,
    skip: Option<Seq<char>>,
    n: nat,
) -> Seq<ErrorView>
    decreases size(inst), fuel(env, sc), size(schema), 4nat, n,
{
    match schema {
        JsonView::Object(es) => if n == 0 || n > es.len() {
            Seq::empty()
        } else {
            proof {
                lemma_children_size(schema);
            }
            let prev = collect_from(env, sc, inst, schema, skip, (n - 1) as nat);
            let k = es[n - 1].0;
            let kv = es[n - 1].1;
            let here = if skip == Some(k) {
                Seq::empty()
            } else {
                match lookup(env.keywords, k) {
                    Some(kind) => fixed_errors(sc, k, apply_keyword(env, sc, kind, kv, inst, schema)),
                    None => Seq::empty(),
                }
            };
            prev + here
        },
        _ => Seq::empty(),
    }
}

/// The errors that keyword `kind`, with value `kv` in `schema`, reports.
pub open spec fn apply_keyword(
    env: Env,
    sc: Scope,
    kind: KeywordKind,
    kv: JsonView,
    inst: JsonView,
    schema: JsonView,
) -> Seq<ErrorView>
    decreases size(inst), fuel(env, sc), kmeasure(kv, schema), 3nat, 0nat,
{
    match kind {
        KeywordKind::Type => type_errors(env, kv, inst),
        KeywordKind::Enum => enum_errors(kv, inst),
        KeywordKind::Const => const_errors(kv, inst),
        KeywordKind::Minimum => minimum_errors(env, kv, inst),
        KeywordKind::Maximum => maximum_errors(env, kv, inst),
        KeywordKind::ExclusiveMinimum => exclusive_minimum_errors(env, kv, inst),
        KeywordKind::ExclusiveMaximum => exclusive_maximum_errors(env, kv, inst),
        KeywordKind::MultipleOf => multiple_of_errors(env, kv, inst),
        KeywordKind::MinLength => min_length_errors(env, kv, inst),
        KeywordKind::MaxLength => max_length_errors(env, kv, inst),
        KeywordKind::Pattern => pattern_errors(env, kv, inst),
        KeywordKind::Format => format_errors(env, kv, inst),
        KeywordKind::Properties => properties_errors(env, sc, kv, inst, schema),
        KeywordKind::Required => required_errors(env, kv, inst),
        KeywordKind::AdditionalProperties => additional_properties_errors(env, sc, kv, inst, schema),
        KeywordKind::PatternProperties => pattern_properties_errors(env, sc, kv, inst, schema),
        KeywordKind::PropertyNames => property_names_errors(env, sc, kv, inst, schema),
        KeywordKind::MinProperties => min_properties_errors(env, kv, inst),
        KeywordKind::MaxProperties => max_properties_errors(env, kv, inst),
        KeywordKind::DependentRequired => dependent_required_errors(env, kv, inst),
        KeywordKind::DependentSchemas => dependent_schemas_errors(env, sc, kv, inst, schema),
        KeywordKind::Dependencies => dependencies_errors(env, sc, kv, inst, schema),
        KeywordKind::Items => items_errors(env, sc, kv, inst, schema),
        KeywordKind::PrefixItems => prefix_items_errors(env, sc, kv, inst, schema),
        KeywordKind::MinItems => min_items_errors(env, kv, inst),
        KeywordKind::MaxItems => max_items_errors(env, kv, inst),
        KeywordKind::UniqueItems => unique_items_errors(env, kv, inst),
        KeywordKind::Contains => contains_errors(env, sc, kv, inst, schema),
        KeywordKind::MinContains => min_contains_errors(env, sc, kv, inst, schema),
        KeywordKind::MaxContains => max_contains_errors(env, sc, kv, inst, schema),
        KeywordKind::AllOf => all_of_errors(env, sc, kv, inst, schema),
        KeywordKind::AnyOf => any_of_errors(env, sc, kv, inst, schema),
        KeywordKind::OneOf => one_of_errors(env, sc, kv, inst, schema),
        KeywordKind::Not => not_errors(env, sc, kv, inst, schema),
        KeywordKind::If => if_errors(),
        KeywordKind::Then => then_errors(env, sc, kv, inst, schema),
        KeywordKind::Else => else_errors(env, sc, kv, inst, schema),
    }
}

/// The boolean schemas: `true` accepts every instance, and `false` refuses
/// every instance with the one error "False schema does not allow anything",
/// located at the current instance path.
pub proof fn law_boolean_schemas(env: Env, sc: Scope, inst: JsonView)
    ensures
        errors_of(env, sc, inst, JsonView::Bool(true)) == Seq::<ErrorView>::empty(),
        errors_of(env, sc, inst, JsonView::Bool(false)) == seq![
            ErrorView { instance_path: sc.ipath, ..plain_error("False schema does not allow anything"@) },
        ],
{
}

/// The keywords among the first `n` members of a schema object that holds
/// no known keyword report nothing.
proof fn lemma_unknown_members(env: Env, sc: Scope, inst: JsonView, schema: JsonView, skip: Option<Seq<char>>, n: nat)
    requires
        schema matches JsonView::Object(es) && forall|i: int|
            0 <= i < es.len() ==> lookup(env.keywords, #[trigger] es[i].0) is None,
    ensures
        collect_from(env, sc, inst, schema, skip, n) == Seq::<ErrorView>::empty(),
    decreases n,
{
    if let JsonView::Object(es) = schema {
        if n > 0 && n <= es.len() {
            lemma_unknown_members(env, sc, inst, schema, skip, (n - 1) as nat);
            assert(lookup(env.keywords, es[n - 1].0) is None);
            assert(collect_from(env, sc, inst, schema, skip, n) =~= Seq::<ErrorView>::empty());
        }
    }
}

/// Members that are not keywords of the registry are ignored: a schema
/// object with no known keyword and no `$ref` string accepts every
/// instance (the empty schema `{}` among them).
pub proof fn law_unknown_keywords_ignored(env: Env, sc: Scope, inst: JsonView, schema: JsonView)
    requires
        schema matches JsonView::Object(es) && forall|i: int|
            0 <= i < es.len() ==> lookup(env.keywords, #[trigger] es[i].0) is None,
        !(get_key(schema, "$ref"@) matches Some(JsonView::Str(_))),
    ensures
        errors_of(env, sc, inst, schema) == Seq::<ErrorView>::empty(),
{
    if let JsonView::Object(es) = schema {
        lemma_unknown_members(env, sc, inst, schema, None, es.len());
        assert(keyword_errors(env, sc, inst, schema, None) == collect_from(env, sc, inst, schema, None, es.len()));
    }
}

/// A `$ref` that is already being resolved on the current chain reports
/// nothing, so reference cycles end; a chain that has reached the bound
/// reports the one depth error.
pub proof fn law_ref_chain(env: Env, sc: Scope, inst: JsonView, schema: JsonView, r: Seq<char>)
    requires
        schema is Object,
        get_key(schema, "$ref"@) == Some(JsonView::Str(r)),
    ensures
        sc.visited.contains(r) ==> errors_of(env, sc, inst, schema) == Seq::<ErrorView>::empty(),
        !sc.visited.contains(r) && sc.visited.len() >= env.max_depth ==> errors_of(env, sc, inst, schema) == seq![
            ref_error("$ref chain exceeds maximum depth of "@ + dec(env.max_depth)),
        ],
{
}

/// `errs_view` distributes over concatenation.
pub proof fn lemma_errs_concat(a: Seq<ValidationError>, b: Seq<ValidationError>)
    ensures
        errs_view(a + b) == errs_view(a) + errs_view(b),
{
    assert(errs_view(a + b) =~= errs_view(a) + errs_view(b));
}

/// Moves the errors of `errs` to the end of `out`.
pub fn append_errors(out: &mut Vec<ValidationError>, errs: Vec<ValidationError>)
    ensures
        errs_view(final(out)@) == errs_view(old(out)@) + errs_view(errs@),
{
    let mut errs = errs;
    let ghost a = out@;
    let ghost b = errs@;
    out.append(&mut errs);
    proof {
        lemma_errs_concat(a, b);
    }
}

/// Moves the errors of `errs` to the end of `out`, each with `seg` in
/// front of its schema path.
pub fn append_spath_prefixed(out: &mut Vec<ValidationError>, errs: Vec<ValidationError>, seg: &str)
    ensures
        errs_view(final(out)@) == errs_view(old(out)@) + prefix_spath(errs_view(errs@), seg@),
{
    let ghost start = errs_view(out@);
    let ghost all = errs_view(errs@);
    let mut rest = errs;
    let ghost mut k: int = 0;
    while rest.len() > 0
        invariant
            0 <= k <= all.len(),
            errs_view(rest@) == all.skip(k),
            errs_view(out@) == start + prefix_spath(all.take(k), seg@),
        decreases rest.len(),
    {
        let ghost before_rest = rest@;
        let ghost before_out = out@;
        let e = rest.remove(0);
        let ValidationError { message, keyword, instance_path, schema_path, instance } = e;
        let mut sp: Vec<String> = Vec::new();
        sp.push(string_of(seg));
        let mut tail = schema_path;
        let ghost tv = tail@;
        sp.append(&mut tail);
        let ne = ValidationError { message, keyword, instance_path, schema_path: sp, instance };
        out.push(ne);
        proof {
            assert(errs_view(before_rest).len() == before_rest.len());
            assert(all.skip(k)[0] == all[k]);
            assert(errs_view(before_rest)[0] == all[k]);
            assert(views(sp@) =~= seq![seg@] + views(tv));
            assert(ne@ == spath_prefixed(all[k], seg@));
            lemma_errs_push(before_out, ne);
            assert(errs_view(rest@) =~= errs_view(before_rest).skip(1));
            assert(all.skip(k).skip(1) =~= all.skip(k + 1));
            assert(prefix_spath(all.take(k + 1), seg@) =~= prefix_spath(all.take(k), seg@).push(spath_prefixed(all[k], seg@)));
            k = k + 1;
        }
    }
    assert(all.take(k) =~= all);
}

/// Moves the errors of `errs` to the end of `out`, each with `seg` in
/// front of its instance path.
pub fn append_ipath_prefixed(out: &mut Vec<ValidationError>, errs: Vec<ValidationError>, seg: &str)
    ensures
        errs_view(final(out)@) == errs_view(old(out)@) + prefix_ipath(errs_view(errs@), seg@),
{
    let ghost start = errs_view(out@);
    let ghost all = errs_view(errs@);
    let mut rest = errs;
    let ghost mut k: int = 0;
    while rest.len() > 0
        invariant
            0 <= k <= all.len(),
            errs_view(rest@) == all.skip(k),
            errs_view(out@) == start + prefix_ipath(all.take(k), seg@),
        decreases rest.len(),
    {
        let ghost before_rest = rest@;
        let ghost before_out = out@;
        let e = rest.remove(0);
        let ValidationError { message, keyword, instance_path, schema_path, instance } = e;
        let mut ip: Vec<String> = Vec::new();
        ip.push(string_of(seg));
        let mut tail = instance_path;
        let ghost tv = tail@;
        ip.append(&mut tail);
        let ne = ValidationError { message, keyword, instance_path: ip, schema_path, instance };
        out.push(ne);
        proof {
            assert(errs_view(before_rest).len() == before_rest.len());
            assert(all.skip(k)[0] == all[k]);
            assert(errs_view(before_rest)[0] == all[k]);
            assert(views(ip@) =~= seq![seg@] + views(tv));
            assert(ne@ == ipath_prefixed(all[k], seg@));
            lemma_errs_push(before_out, ne);
            assert(errs_view(rest@) =~= errs_view(before_rest).skip(1));
            assert(all.skip(k).skip(1) =~= all.skip(k + 1));
            assert(prefix_ipath(all.take(k + 1), seg@) =~= prefix_ipath(all.take(k), seg@).push(ipath_prefixed(all[k], seg@)));
            k = k + 1;
        }
    }
    assert(all.take(k) =~= all);
}

/// The state of validation: the compiled schema and registries it reads,
/// where it stands in the instance and schema, and the `$ref` chain.
pub struct ValidationContext<'a> {
    pub compiled: &'a CompiledSchema,
    pub registry: &'a KeywordRegistry,
    pub type_checker: &'a TypeChecker,
    pub schema_registry: Option<&'a SchemaRegistry>,
    /// The current location in the instance.
    pub instance_path: Vec<String>,
    /// The current location in the schema.
    pub schema_path: Vec<String>,
    /// The patterns of the schema that compile.
    pub precompiled: &'a Vec<String>,
    /// The `$ref` strings being resolved on the current chain.
    pub visited_refs: Vec<String>,
    /// The bound on the length of a `$ref` chain.
    pub max_ref_depth: usize,
}

/// The view of an optional registry.
pub open spec fn registry_view(r: Option<&SchemaRegistry>) -> Option<Seq<(Seq<char>, JsonView)>> {
    match r {
        Some(x) => Some(x@),
        None => None,
    }
}

impl<'a> ValidationContext<'a> {
    /// What validation reads from its surroundings.
    pub open spec fn env(&self) -> Env {
        Env {
            root: self.compiled.raw@,
            keywords: self.registry@,
            types: self.type_checker@,
            registry: registry_view(self.schema_registry),
            max_depth: self.max_ref_depth as nat,
        }
    }

    /// Where validation stands.
    pub open spec fn scope(&self) -> Scope {
        Scope {
            ipath: views(self.instance_path@),
            spath: views(self.schema_path@),
            visited: views(self.visited_refs@),
        }
    }

    /// The `$ref` chain is within its bound.
    pub open spec fn wf(&self) -> bool {
        self.visited_refs@.len() <= self.max_ref_depth
    }

    /// A context at the root of the instance, with a `$ref` chain bound of 50.
    pub fn new(
        compiled: &'a CompiledSchema,
        registry: &'a KeywordRegistry,
        type_checker: &'a TypeChecker,
        schema_registry: Option<&'a SchemaRegistry>,
    ) -> (r: ValidationContext<'a>)
        ensures
            r.compiled == compiled,
            r.registry == registry,
            r.type_checker == type_checker,
            r.schema_registry == schema_registry,
            r.precompiled == &compiled.precompiled_patterns,
            r.scope() == (Scope { ipath: Seq::empty(), spath: Seq::empty(), visited: Seq::empty() }),
            r.max_ref_depth == 50,
            r.wf(),
    {
        let r = ValidationContext {
            compiled,
            registry,
            type_checker,
            schema_registry,
            instance_path: Vec::new(),
            schema_path: Vec::new(),
            precompiled: &compiled.precompiled_patterns,
            visited_refs: Vec::new(),
            max_ref_depth: 50,
        };
        assert(r.scope().ipath =~= Seq::<Seq<char>>::empty());
        assert(r.scope().spath =~= Seq::<Seq<char>>::empty());
        assert(r.scope().visited =~= Seq::<Seq<char>>::empty());
        r
    }

    /// Whether `instance` has the type named `tname`.
    pub fn is_type(&self, instance: &JsonValue, tname: &str) -> (r: bool)
        ensures
            r == has_type(self.env(), instance@, tname@),
    {
        self.type_checker.is_type(instance, tname)
    }

    /// The compiled pattern `pattern`, when the schema holds it and it
    /// compiles.
    pub fn get_compiled_pattern(&self, pattern: &str) -> (r: Option<&String>)
        ensures
            r matches Some(p) ==> p@ == pattern@ && views(self.precompiled@).contains(pattern@),
            r is None ==> !views(self.precompiled@).contains(pattern@),
    {
        let mut i: usize = 0;
        while i < self.precompiled.len()
            invariant
                i <= self.precompiled.len(),
                forall|j: int| 0 <= j < i ==> self.precompiled@[j]@ != pattern@,
            decreases self.precompiled.len() - i,
        {
            if str_eq(self.precompiled[i].as_str(), pattern) {
                assert(views(self.precompiled@)[i as int] == pattern@);
                return Some(&self.precompiled[i]);
            }
            i += 1;
        }
        proof {
            if views(self.precompiled@).contains(pattern@) {
                let j = choose|j: int| 0 <= j < views(self.precompiled@).len() && views(self.precompiled@)[j] == pattern@;
                assert(views(self.precompiled@)[j] == self.precompiled@[j]@);
            }
        }
        None
    }

    /// A copy of this context that follows the `$ref` string `r`.
    fn following(&self, r: &String) -> (c: ValidationContext<'a>)
        ensures
            c.env() == self.env(),
            c.scope() == (Scope { visited: self.scope().visited.push(r@), ..self.scope() }),
            c.precompiled == self.precompiled,
            c.visited_refs@.len() == self.visited_refs@.len() + 1,
            c.max_ref_depth == self.max_ref_depth,
    {
        let mut visited = copy_strings(&self.visited_refs);
        let ghost before = visited@;
        let rc = copy_string(r);
        visited.push(rc);
        proof {
            lemma_views_push(before, rc);
        }
        ValidationContext {
            compiled: self.compiled,
            registry: self.registry,
            type_checker: self.type_checker,
            schema_registry: self.schema_registry,
            instance_path: copy_strings(&self.instance_path),
            schema_path: copy_strings(&self.schema_path),
            precompiled: self.precompiled,
            visited_refs: visited,
            max_ref_depth: self.max_ref_depth,
        }
    }

    /// The errors of `instance`, a child of the current instance reached
    /// through `path_component`, against `schema`, with a fresh `$ref`
    /// chain.
    pub fn descend(&self, instance: &JsonValue, schema: &JsonValue, path_component: &str) -> (r: Vec<ValidationError>)
        ensures
            errs_view(r@) == errors_of(self.env(), child_scope(self.scope(), path_component@), instance@, schema@),
        decreases size(instance@), self.max_ref_depth as nat, size(schema@), 7nat, 0nat,
    {
        let mut p = copy_strings(&self.instance_path);
        let ghost before = p@;
        let comp = string_of(path_component);
        p.push(comp);
        proof {
            lemma_views_push(before, comp);
        }
        let child = ValidationContext {
            compiled: self.compiled,
            registry: self.registry,
            type_checker: self.type_checker,
            schema_registry: self.schema_registry,
            instance_path: p,
            schema_path: copy_strings(&self.schema_path),
            precompiled: self.precompiled,
            visited_refs: Vec::new(),
            max_ref_depth: self.max_ref_depth,
        };
        assert(child.scope().visited =~= Seq::<Seq<char>>::empty());
        assert(child.scope() == child_scope(self.scope(), path_component@));
        child.iter_errors(instance, schema)
    }

    /// All errors of `instance` against `schema` (empty when it is valid).
    pub fn iter_errors(&self, instance: &JsonValue, schema: &JsonValue) -> (r: Vec<ValidationError>)
        requires
            self.wf(),
        ensures
            errs_view(r@) == errors_of(self.env(), self.scope(), instance@, schema@),
        decreases size(instance@), fuel(self.env(), self.scope()), size(schema@), 6nat, 0nat,
    {
        if let JsonValue::Bool(b) = schema {
            if *b {
                let r: Vec<ValidationError> = Vec::new();
                assert(errs_view(r@) =~= Seq::<ErrorView>::empty());
                return r;
            } else {
                let mut r: Vec<ValidationError> = Vec::new();
                let mut e = ValidationError::new("False schema does not allow anything");
                e.instance_path = copy_strings(&self.instance_path);
                r.push(e);
                assert(errs_view(r@) =~= seq![false_schema_error(self.scope())]);
                return r;
            }
        }
        match schema.get("$ref") {
            Some(JsonValue::String(r)) => {
                if contains_string(&self.visited_refs, r) {
                    let out: Vec<ValidationError> = Vec::new();
                    assert(errs_view(out@) =~= Seq::<ErrorView>::empty());
                    return out;
                }
                if self.visited_refs.len() >= self.max_ref_depth {
                    let mut m = string_of("$ref chain exceeds maximum depth of ");
                    let d = usize_to_string(self.max_ref_depth);
                    push_str(&mut m, d.as_str());
                    let mut out: Vec<ValidationError> = Vec::new();
                    out.push(ValidationError::new(m.as_str()).with_keyword("$ref"));
                    assert(errs_view(out@) =~= seq![
                        ref_error("$ref chain exceeds maximum depth of "@ + dec(self.env().max_depth)),
                    ]);
                    return out;
                }
                let next = self.following(r);
                match self.resolve_ref(r.as_str()) {
                    Some(resolved) => {
                        let mut errors = next.iter_errors(instance, &resolved);
                        let rest = next.collect_keyword_errors(instance, schema, Some("$ref"));
                        append_errors(&mut errors, rest);
                        errors
                    },
                    None => {
                        let mut m = string_of("Could not resolve $ref: ");
                        push_str(&mut m, r.as_str());
                        let mut out: Vec<ValidationError> = Vec::new();
                        out.push(ValidationError::new(m.as_str()).with_keyword("$ref"));
                        assert(errs_view(out@) =~= seq![ref_error("Could not resolve $ref: "@ + r@)]);
                        out
                    },
                }
            },
            _ => self.collect_keyword_errors(instance, schema, None),
        }
    }

    /// The error `e` of keyword `kw` as the context records it (see
    /// `fixed_error`).
    fn fix_error(&self, e: ValidationError, kw: &String) -> (r: ValidationError)
        ensures
            r@ == fixed_error(self.scope(), kw@, e@),
    {
        let ValidationError { message, keyword, instance_path, schema_path, instance } = e;
        let ipath = if instance_path.len() == 0 {
            copy_strings(&self.instance_path)
        } else {
            instance_path
        };
        let mut sp = copy_strings(&self.schema_path);
        let ghost before = sp@;
        let k = copy_string(kw);
        sp.push(k);
        proof {
            lemma_views_push(before, k);
        }
        let ghost head = sp@;
        let mut tail = schema_path;
        let ghost tv = tail@;
        sp.append(&mut tail);
        let kw2 = match keyword {
            Some(x) => Some(x),
            None => Some(copy_string(kw)),
        };
        let r = ValidationError { message, keyword: kw2, instance_path: ipath, schema_path: sp, instance };
        proof {
            assert(views(head + tv) =~= views(head) + views(tv));
            if e@.instance_path.len() == 0 {
                assert(e.instance_path@.len() == 0);
            }
        }
        r
    }

    /// Moves the errors `errs` of keyword `kw` to the end of `out`, as the
    /// context records them.
    fn push_fixed(&self, out: &mut Vec<ValidationError>, errs: Vec<ValidationError>, kw: &String)
        ensures
            errs_view(final(out)@) == errs_view(old(out)@) + fixed_errors(self.scope(), kw@, errs_view(errs@)),
    {
        let ghost start = errs_view(out@);
        let ghost all = errs_view(errs@);
        let mut rest = errs;
        let ghost mut k: int = 0;
        while rest.len() > 0
            invariant
                0 <= k <= all.len(),
                errs_view(rest@) == all.skip(k),
                errs_view(out@) == start + fixed_errors(self.scope(), kw@, all.take(k)),
            decreases rest.len(),
        {
            let ghost before_rest = rest@;
            let ghost before_out = out@;
            let e = rest.remove(0);
            let ne = self.fix_error(e, kw);
            out.push(ne);
            proof {
                assert(errs_view(before_rest).len() == before_rest.len());
                assert(all.skip(k)[0] == all[k]);
                assert(errs_view(before_rest)[0] == all[k]);
                lemma_errs_push(before_out, ne);
                assert(errs_view(rest@) =~= errs_view(before_rest).skip(1));
                assert(all.skip(k).skip(1) =~= all.skip(k + 1));
                assert(fixed_errors(self.scope(), kw@, all.take(k + 1)) =~= fixed_errors(self.scope(), kw@, all.take(k)).push(
                    fixed_error(self.scope(), kw@, all[k]),
                ));
                k = k + 1;
            }
        }
        assert(all.take(k) =~= all);
    }

    /// The errors of the registered keywords of `schema`, but `skip`.
    fn collect_keyword_errors(&self, instance: &JsonValue, schema: &JsonValue, skip: Option<&str>) -> (r: Vec<
        ValidationError,
    >)
        requires
            self.wf(),
        ensures
            errs_view(r@) == keyword_errors(
                self.env(),
                self.scope(),
                instance@,
                schema@,
                match skip {
                    Some(k) => Some(k@),
                    None => None,
                },
            ),
        decreases size(instance@), fuel(self.env(), self.scope()), size(schema@), 5nat, 0nat,
    {
        let ghost skip_v = match skip {
            Some(k) => Some(k@),
            None => None,
        };
        let mut errors: Vec<ValidationError> = Vec::new();
        proof {
            lemma_value_children(*schema);
        }
        match schema {
            JsonValue::Object(es) => {
                let ghost ms = members_view(es@);
                let mut i: usize = 0;
                assert(errs_view(errors@) =~= Seq::<ErrorView>::empty());
                while i < es.len()
                    invariant
                        i <= es.len(),
                        self.wf(),
                        skip_v == match skip {
                            Some(k) => Some(k@),
                            None => None,
                        },
                        *schema == JsonValue::Object(*es),
                        schema@ == JsonView::Object(ms),
                        ms == members_view(es@),
                        ms.len() == es@.len(),
                        forall|j: int| 0 <= j < es@.len() ==> (#[trigger] ms[j]) == (es@[j].0@, es@[j].1@),
                        forall|j: int| 0 <= j < es@.len() ==> size(#[trigger] es@[j].1@) < size(schema@),
                        errs_view(errors@) == collect_from(self.env(), self.scope(), instance@, schema@, skip_v, i as nat),
                    decreases es.len() - i,
                {
                    let key = &es[i].0;
                    let skipped = match skip {
                        Some(k) => str_eq(k, key.as_str()),
                        None => false,
                    };
                    assert(ms[i as int] == (key@, es@[i as int].1@));
                    let ghost prev = collect_from(self.env(), self.scope(), instance@, schema@, skip_v, i as nat);
                    let ghost next = collect_from(self.env(), self.scope(), instance@, schema@, skip_v, (i + 1) as nat);
                    if !skipped {
                        assert(skip_v != Some(key@));
                        match self.registry.get(key.as_str()) {
                            Some(kind) => {
                                let found = kind.validate(self, &es[i].1, instance, schema);
                                let ghost x = fixed_errors(self.scope(), key@, errs_view(found@));
                                self.push_fixed(&mut errors, found, key);
                                assert(next == prev + x);
                            },
                            None => {
                                assert(next == prev + Seq::<ErrorView>::empty());
                                assert(errs_view(errors@) =~= errs_view(errors@) + Seq::<ErrorView>::empty());
                            },
                        }
                    } else {
                        assert(skip_v == Some(key@));
                        assert(next == prev + Seq::<ErrorView>::empty());
                        assert(errs_view(errors@) =~= errs_view(errors@) + Seq::<ErrorView>::empty());
                    }
                    i += 1;
                }
                errors
            },
            _ => {
                assert(errs_view(errors@) =~= Seq::<ErrorView>::empty());
                errors
            },
        }
    }

    /// Resolves a `$ref` string (see `resolve_ref_spec`).
    fn resolve_ref(&self, ref_val: &str) -> (r: Option<JsonValue>)
        ensures
            r matches Some(x) ==> resolve_ref_spec(self.env(), ref_val@) == Some(x@),
            r is None ==> resolve_ref_spec(self.env(), ref_val@) is None,
    {
        if let Some(reg) = self.schema_registry {
            if let Some(result) = reg.resolve(&self.compiled.raw, ref_val) {
                return Some(result);
            }
        }
        let cs = to_chars(ref_val);
        assert(cs@.skip(0) == cs@);
        if cs.len() > 0 && cs[0] == '#' {
            let f = trim_leading_from(&cs, 0, '#');
            return resolve_fragment_chars(&self.compiled.raw, &cs, f);
        }
        if let Some(k) = find_char_from(&cs, 0, '#') {
            assert(cs@.subrange(0, k as int) == cs@.take(k as int));
            if let Some(reg) = self.schema_registry {
                if let Some(doc) = reg.get_chars(&cs, 0, k) {
                    let f = trim_leading_from(&cs, k, '#');
                    return resolve_fragment_chars(doc, &cs, f);
                }
            }
            let uri = string_from_chars(&cs, 0, k);
            if let Some(doc) = find_by_id(&self.compiled.raw, uri.as_str()) {
                let f = trim_leading_from(&cs, k, '#');
                return resolve_fragment_chars(&doc, &cs, f);
            }
        }
        find_by_id(&self.compiled.raw, ref_val)
    }
}

} // verus!
