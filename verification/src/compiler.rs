//! The compiled validator: a schema bundled with the keyword and type
//! registries, reusable for many instances.
use vstd::prelude::*;

use crate::error::{errs_view, ErrorView, ValidationError};
use crate::instance::contains_string;
use crate::json::{
    entry_sizes, get_key, items_view, lemma_entry_size, lemma_item_size, lemma_value_children, members_view, size,
    sizes, JsonValue, JsonView,
};
use crate::keyword::{draft_entries, KeywordRegistry};
use crate::pattern::{regex_compiles, regex_valid};
use crate::refs::SchemaRegistry;
use crate::text::{copy_string, views};
use crate::types::{default_types, CompiledSchema, TypeChecker};
use crate::validator::{errors_of, Env, Scope, ValidationContext};

verus! {

broadcast use vstd::string::group_string_axioms;

/// The scope at the root of an instance.
pub open spec fn root_scope() -> Scope {
    Scope { ipath: Seq::empty(), spath: Seq::empty(), visited: Seq::empty() }
}

/// The pattern that the object `v` holds under `"pattern"`, when it is a
/// string that compiles.
pub open spec fn own_pattern(v: JsonView) -> Set<Seq<char>> {
    match get_key(v, "pattern"@) {
        Some(JsonView::Str(p)) => if regex_compiles(p) {
            set![p]
        } else {
            Set::empty()
        },
        _ => Set::empty(),
    }
}

/// The patterns (`"pattern"` values that compile) anywhere in `v`.
pub open spec fn pattern_set(v: JsonView) -> Set<Seq<char>>
    decreases size(v), 0nat, 0nat,
{
    match v {
        JsonView::Object(es) => own_pattern(v).union(member_patterns(es, es.len())),
        JsonView::Array(xs) => item_patterns(xs, xs.len()),
        _ => Set::empty(),
    }
}

/// The patterns in the values of the first `n` members.
pub open spec fn member_patterns(es: Seq<(Seq<char>, JsonView)>, n: nat) -> Set<Seq<char>>
    decreases entry_sizes(es), 1nat, n,
{
    if n == 0 || n > es.len() {
        Set::empty()
    } else {
        proof {
            lemma_entry_size(es, n - 1);
        }
        member_patterns(es, (n - 1) as nat).union(pattern_set(es[n - 1].1))
    }
}

/// The patterns in the first `n` items.
pub open spec fn item_patterns(xs: Seq<JsonView>, n: nat) -> Set<Seq<char>>
    decreases sizes(xs), 1nat, n,
{
    if n == 0 || n > xs.len() {
        Set::empty()
    } else {
        proof {
            lemma_item_size(xs, n - 1);
        }
        item_patterns(xs, (n - 1) as nat).union(pattern_set(xs[n - 1]))
    }
}

/// The distinct patterns of `schema` that compile.
pub fn compile_patterns(schema: &JsonValue) -> (r: Vec<String>)
    ensures
        views(r@).to_set() == pattern_set(schema@),
        views(r@).no_duplicates(),
{
    let mut patterns: Vec<String> = Vec::new();
    assert(views(patterns@).to_set() =~= Set::<Seq<char>>::empty());
    walk_and_collect_patterns(schema, &mut patterns);
    assert(views(patterns@).to_set() =~= pattern_set(schema@));
    patterns
}

/// Adds `p` to `patterns` unless it is there already.
fn add_pattern(patterns: &mut Vec<String>, p: &String)
    requires
        views(old(patterns)@).no_duplicates(),
    ensures
        views(final(patterns)@).no_duplicates(),
        views(final(patterns)@).to_set() == views(old(patterns)@).to_set().insert(p@),
{
    if contains_string(patterns, p) {
        assert(views(patterns@).to_set() =~= views(patterns@).to_set().insert(p@));
    } else {
        let ghost before = patterns@;
        let c = copy_string(p);
        patterns.push(c);
        proof {
            crate::error::lemma_views_push(before, c);
            let vb = views(before);
            let vp = views(patterns@);
            assert(vp == vb.push(p@));
            assert forall|x: Seq<char>| vp.contains(x) <==> vb.contains(x) || x == p@ by {
                if vb.contains(x) {
                    let k = choose|k: int| 0 <= k < vb.len() && vb[k] == x;
                    assert(vp[k] == x);
                }
                if x == p@ {
                    assert(vp[vb.len() as int] == x);
                }
                if vp.contains(x) {
                    let k = choose|k: int| 0 <= k < vp.len() && vp[k] == x;
                    if k < vb.len() {
                        assert(vb[k] == x);
                    }
                }
            }
            assert(views(patterns@).to_set() =~= views(before).to_set().insert(p@));
            assert forall|a: int, b: int| 0 <= a < b < views(patterns@).len() implies views(patterns@)[a] != views(
                patterns@,
            )[b] by {
                if b == views(before).len() {
                    assert(views(patterns@)[a] == views(before)[a]);
                    assert(views(before).contains(views(before)[a]));
                } else {
                    assert(views(patterns@)[a] == views(before)[a]);
                    assert(views(patterns@)[b] == views(before)[b]);
                }
            }
        }
    }
}

/// Adds the patterns of `node` to `patterns`.
fn walk_and_collect_patterns(node: &JsonValue, patterns: &mut Vec<String>)
    requires
        views(old(patterns)@).no_duplicates(),
    ensures
        views(final(patterns)@).no_duplicates(),
        views(final(patterns)@).to_set() == views(old(patterns)@).to_set().union(pattern_set(node@)),
    decreases size(node@),
{
    proof {
        lemma_value_children(*node);
    }
    let ghost start = views(patterns@).to_set();
    match node {
        JsonValue::Object(es) => {
            match node.get("pattern") {
                Some(JsonValue::String(p)) => {
                    if regex_valid(p.as_str()) {
                        add_pattern(patterns, p);
                    }
                },
                _ => {},
            }
            assert(views(patterns@).to_set() =~= start.union(own_pattern(node@)));
            let ghost ev = members_view(es@);
            let mut i: usize = 0;
            while i < es.len()
                invariant
                    i <= es.len(),
                    *node == JsonValue::Object(*es),
                    node@ == JsonView::Object(ev),
                    ev == members_view(es@),
                    ev.len() == es@.len(),
                    forall|q: int| 0 <= q < es@.len() ==> (#[trigger] ev[q]) == (es@[q].0@, es@[q].1@),
                    forall|q: int| 0 <= q < es@.len() ==> size(#[trigger] es@[q].1@) < size(node@),
                    views(patterns@).no_duplicates(),
                    views(patterns@).to_set() == start.union(own_pattern(node@)).union(member_patterns(ev, i as nat)),
                decreases es.len() - i,
            {
                assert(ev[i as int] == (es@[i as int].0@, es@[i as int].1@));
                walk_and_collect_patterns(&es[i].1, patterns);
                assert(views(patterns@).to_set() =~= start.union(own_pattern(node@)).union(
                    member_patterns(ev, (i + 1) as nat),
                ));
                i += 1;
            }
            assert(views(patterns@).to_set() =~= start.union(pattern_set(node@)));
        },
        JsonValue::Array(xs) => {
            let ghost xv = items_view(xs@);
            let mut i: usize = 0;
            assert(views(patterns@).to_set() =~= start.union(item_patterns(xv, 0)));
            while i < xs.len()
                invariant
                    i <= xs.len(),
                    *node == JsonValue::Array(*xs),
                    node@ == JsonView::Array(xv),
                    xv == items_view(xs@),
                    xv.len() == xs@.len(),
                    forall|q: int| 0 <= q < xs@.len() ==> (#[trigger] xv[q]) == xs@[q]@,
                    forall|q: int| 0 <= q < xs@.len() ==> size(#[trigger] xs@[q]@) < size(node@),
                    views(patterns@).no_duplicates(),
                    views(patterns@).to_set() == start.union(item_patterns(xv, i as nat)),
                decreases xs.len() - i,
            {
                assert(xv[i as int] == xs@[i as int]@);
                walk_and_collect_patterns(&xs[i], patterns);
                assert(views(patterns@).to_set() =~= start.union(item_patterns(xv, (i + 1) as nat)));
                i += 1;
            }
        },
        _ => {
            assert(views(patterns@).to_set() =~= start.union(pattern_set(node@)));
        },
    }
}

/// A compiled JSON Schema, reusable for many instances.
pub struct Validator {
    pub compiled: CompiledSchema,
    pub registry: KeywordRegistry,
    pub type_checker: TypeChecker,
    pub schema_registry: Option<SchemaRegistry>,
}

impl Clone for Validator {
    fn clone(&self) -> (r: Validator)
        ensures
            r.env() == self.env(),
            r.compiled.precompiled_patterns@ == self.compiled.precompiled_patterns@,
    {
        Validator {
            compiled: self.compiled.clone(),
            registry: self.registry.clone(),
            type_checker: self.type_checker.clone(),
            schema_registry: match &self.schema_registry {
                Some(reg) => Some(reg.clone()),
                None => None,
            },
        }
    }
}

impl Validator {
    /// What validation reads: the schema, the registries and a `$ref`
    /// chain bound of 50.
    pub open spec fn env(&self) -> Env {
        Env {
            root: self.compiled.raw@,
            keywords: self.registry@,
            types: self.type_checker@,
            registry: match self.schema_registry {
                Some(reg) => Some(reg@),
                None => None,
            },
            max_depth: 50,
        }
    }

    /// The errors of `instance` against the schema, from its root.
    pub open spec fn errors_spec(&self, instance: JsonView) -> Seq<ErrorView> {
        errors_of(self.env(), root_scope(), instance, self.compiled.raw@)
    }

    /// Compiles `schema` with the Draft 2020-12 keywords and the basic types.
    pub fn new(schema: JsonValue) -> (r: Validator)
        ensures
            r.compiled.raw@ == schema@,
            views(r.compiled.precompiled_patterns@).to_set() == pattern_set(schema@),
            views(r.compiled.precompiled_patterns@).no_duplicates(),
            r.registry@ == draft_entries(),
            r.type_checker@ == default_types(),
            r.schema_registry is None,
    {
        let precompiled_patterns = compile_patterns(&schema);
        let compiled = CompiledSchema::new(schema, precompiled_patterns);
        Validator {
            compiled,
            registry: KeywordRegistry::draft_2020_12(),
            type_checker: TypeChecker::default(),
            schema_registry: None,
        }
    }

    /// The validator with `registry` for external `$ref`s.
    pub fn with_registry(self, registry: SchemaRegistry) -> (r: Validator)
        ensures
            r.compiled == self.compiled,
            r.registry == self.registry,
            r.type_checker == self.type_checker,
            r.schema_registry == Some(registry),
    {
        let mut r = self;
        r.schema_registry = Some(registry);
        r
    }

    fn make_ctx(&self) -> (c: ValidationContext<'_>)
        ensures
            c.env() == self.env(),
            c.scope() == root_scope(),
            c.wf(),
    {
        ValidationContext::new(&self.compiled, &self.registry, &self.type_checker, self.schema_registry.as_ref())
    }

    /// `Ok` when `instance` is valid, else the first error.
    pub fn validate(&self, instance: &JsonValue) -> (r: Result<(), ValidationError>)
        ensures
            r is Ok <==> self.errors_spec(instance@).len() == 0,
            r matches Err(e) ==> e@ == self.errors_spec(instance@)[0],
    {
        let ctx = self.make_ctx();
        let mut errors = ctx.iter_errors(instance, &self.compiled.raw);
        if errors.len() == 0 {
            Ok(())
        } else {
            let first = errors.remove(0);
            Err(first)
        }
    }

    /// Whether `instance` is valid.
    pub fn is_valid(&self, instance: &JsonValue) -> (r: bool)
        ensures
            r == (self.errors_spec(instance@).len() == 0),
    {
        self.validate(instance).is_ok()
    }

    /// All errors of `instance` (empty when it is valid).
    pub fn iter_errors(&self, instance: &JsonValue) -> (r: Vec<ValidationError>)
        ensures
            errs_view(r@) == self.errors_spec(instance@),
    {
        let ctx = self.make_ctx();
        ctx.iter_errors(instance, &self.compiled.raw)
    }

    /// The schema.
    pub fn schema(&self) -> (r: &JsonValue)
        ensures
            r == &self.compiled.raw,
    {
        &self.compiled.raw
    }
}

} // verus!
