//! Helpers on instances: equality of values and the keys that `properties`
//! and `patternProperties` cover.
use vstd::prelude::*;

use crate::json::{
    entry_sizes, find_key, items_eq, json_eq, json_equal, lemma_entry_size, lemma_find_key, lemma_item_size,
    lemma_members_view, lemma_value_children, lookup, members_in, members_view, size, sizes, JsonValue, JsonView,
};
use crate::keyword::objects::pattern_covers;
use crate::pattern::{regex_compiles, regex_is_match, regex_matches};
use crate::text::views;

verus! {

/// Deep equality of values, as `enum` and `const` read it: numbers at any
/// depth are equal when their values are (see `json_eq`).
pub open spec fn deep_equal_spec(a: JsonView, b: JsonView) -> bool {
    json_eq(a, b)
}

/// Whether two values are equal (see `deep_equal_spec`).
pub fn deep_equal(a: &JsonValue, b: &JsonValue) -> (r: bool)
    ensures
        r == deep_equal_spec(a@, b@),
{
    json_equal(a, b)
}

/// `json_eq` is symmetric.
pub proof fn lemma_json_eq_symmetric(a: JsonView, b: JsonView)
    ensures
        json_eq(a, b) == json_eq(b, a),
    decreases size(a) + size(b), 0nat, 0nat,
{
    if let (JsonView::Array(xs), JsonView::Array(ys)) = (a, b) {
        if xs.len() == ys.len() {
            lemma_items_eq_symmetric(xs, ys, xs.len());
        }
    }
}

/// `items_eq` is symmetric.
proof fn lemma_items_eq_symmetric(xs: Seq<JsonView>, ys: Seq<JsonView>, n: nat)
    requires
        n <= xs.len(),
        n <= ys.len(),
    ensures
        items_eq(xs, ys, n) == items_eq(ys, xs, n),
    decreases sizes(xs) + sizes(ys), 1nat, n,
{
    if n > 0 {
        lemma_item_size(xs, n - 1);
        lemma_item_size(ys, n - 1);
        lemma_items_eq_symmetric(xs, ys, (n - 1) as nat);
        lemma_json_eq_symmetric(xs[n - 1], ys[n - 1]);
    }
}

/// Deep equality does not depend on the order of its arguments: whether
/// `a` equals `b` is whether `b` equals `a`.
pub proof fn law_deep_equal_symmetric(a: JsonView, b: JsonView)
    ensures
        deep_equal_spec(a, b) == deep_equal_spec(b, a),
{
    lemma_json_eq_symmetric(a, b);
}

/// Whether no object inside `v` has two members with the same key.
pub open spec fn unique_keys(v: JsonView) -> bool
    decreases size(v), 0nat, 0nat,
{
    match v {
        JsonView::Array(xs) => items_unique(xs, xs.len()),
        JsonView::Object(es) => members_unique(es, es.len()),
        _ => true,
    }
}

/// `unique_keys` holds of the first `n` items.
pub open spec fn items_unique(xs: Seq<JsonView>, n: nat) -> bool
    decreases sizes(xs), 1nat, n,
{
    if n == 0 || n > xs.len() {
        true
    } else {
        proof {
            lemma_item_size(xs, n - 1);
        }
        items_unique(xs, (n - 1) as nat) && unique_keys(xs[n - 1])
    }
}

/// Among the first `n` members no key repeats an earlier one, and
/// `unique_keys` holds of their values.
pub open spec fn members_unique(es: Seq<(Seq<char>, JsonView)>, n: nat) -> bool
    decreases entry_sizes(es), 1nat, n,
{
    if n == 0 || n > es.len() {
        true
    } else {
        proof {
            lemma_entry_size(es, n - 1);
        }
        members_unique(es, (n - 1) as nat) && unique_keys(es[n - 1].1) && find_key(es, es[n - 1].0) == Some(
            (n - 1) as nat,
        )
    }
}

/// A value with unique keys is `json_eq` to itself.
pub proof fn lemma_json_eq_reflexive(a: JsonView)
    requires
        unique_keys(a),
    ensures
        json_eq(a, a),
    decreases size(a), 0nat, 0nat,
{
    match a {
        JsonView::Array(xs) => lemma_items_eq_reflexive(xs, xs.len()),
        JsonView::Object(es) => lemma_members_in_reflexive(es, es.len()),
        _ => {},
    }
}

/// The first `n` items of a sequence with unique keys are equal to
/// themselves.
proof fn lemma_items_eq_reflexive(xs: Seq<JsonView>, n: nat)
    requires
        n <= xs.len(),
        items_unique(xs, n),
    ensures
        items_eq(xs, xs, n),
    decreases sizes(xs), 1nat, n,
{
    if n > 0 {
        lemma_item_size(xs, n - 1);
        lemma_items_eq_reflexive(xs, (n - 1) as nat);
        lemma_json_eq_reflexive(xs[n - 1]);
    }
}

/// Each of the first `n` members of an object with unique keys is found
/// in the object with an equal value.
proof fn lemma_members_in_reflexive(es: Seq<(Seq<char>, JsonView)>, n: nat)
    requires
        n <= es.len(),
        members_unique(es, n),
    ensures
        members_in(es, es, n),
    decreases entry_sizes(es), 1nat, n,
{
    if n > 0 {
        lemma_entry_size(es, n - 1);
        lemma_members_in_reflexive(es, (n - 1) as nat);
        lemma_json_eq_reflexive(es[n - 1].1);
        assert(lookup(es, es[n - 1].0) == Some(es[n - 1].1));
    }
}

/// A value equals itself, when no object inside it repeats a key.
pub proof fn law_deep_equal_reflexive(a: JsonView)
    requires
        unique_keys(a),
    ensures
        deep_equal_spec(a, a),
{
    lemma_json_eq_reflexive(a);
}

/// Each of the first `n` members of `xs` has its key in `ys`, under an
/// equal value.
proof fn lemma_members_in_forall(xs: Seq<(Seq<char>, JsonView)>, ys: Seq<(Seq<char>, JsonView)>, n: nat)
    requires
        n <= xs.len(),
    ensures
        members_in(xs, ys, n) <==> forall|i: int|
            0 <= i < n ==> (#[trigger] lookup(ys, xs[i].0) matches Some(y) && json_eq(xs[i].1, y)),
    decreases n,
{
    if n > 0 {
        lemma_members_in_forall(xs, ys, (n - 1) as nat);
    }
}

/// Deep equality of objects compares the values under each key: two
/// objects are deep-equal exactly when they have as many members, and each
/// member of either has its key in the other under a deep-equal value.
pub proof fn law_deep_equal_objects(xs: Seq<(Seq<char>, JsonView)>, ys: Seq<(Seq<char>, JsonView)>)
    ensures
        deep_equal_spec(JsonView::Object(xs), JsonView::Object(ys)) <==> {
            &&& xs.len() == ys.len()
            &&& forall|i: int|
                0 <= i < xs.len() ==> (#[trigger] lookup(ys, xs[i].0) matches Some(y) && deep_equal_spec(xs[i].1, y))
            &&& forall|i: int|
                0 <= i < ys.len() ==> (#[trigger] lookup(xs, ys[i].0) matches Some(x) && deep_equal_spec(ys[i].1, x))
        },
{
    lemma_members_in_forall(xs, ys, xs.len());
    lemma_members_in_forall(ys, xs, ys.len());
}

/// Deep equality of arrays compares items position by position.
pub proof fn law_deep_equal_arrays(xs: Seq<JsonView>, ys: Seq<JsonView>)
    ensures
        deep_equal_spec(JsonView::Array(xs), JsonView::Array(ys)) <==> {
            &&& xs.len() == ys.len()
            &&& forall|i: int| 0 <= i < xs.len() ==> deep_equal_spec(#[trigger] xs[i], ys[i])
        },
{
    if xs.len() == ys.len() {
        lemma_items_eq_forall(xs, ys, xs.len());
    }
}

proof fn lemma_items_eq_forall(xs: Seq<JsonView>, ys: Seq<JsonView>, n: nat)
    requires
        n <= xs.len(),
        n <= ys.len(),
    ensures
        items_eq(xs, ys, n) <==> forall|i: int| 0 <= i < n ==> json_eq(#[trigger] xs[i], ys[i]),
    decreases n,
{
    if n > 0 {
        lemma_items_eq_forall(xs, ys, (n - 1) as nat);
    }
}

/// Deep equality of scalars: strings and booleans by their contents, the
/// numbers `a / 10^p` and `b / 10^r` by value (`a * 10^r == b * 10^p`, so
/// `1` equals `1.0`), `null` with `null`; and values of different kinds are
/// never deep-equal.
pub proof fn law_deep_equal_scalars(a: JsonView, b: JsonView)
    ensures
        a matches JsonView::Str(x) ==> b matches JsonView::Str(y) ==> (deep_equal_spec(a, b) <==> x == y),
        a matches JsonView::Bool(x) ==> b matches JsonView::Bool(y) ==> (deep_equal_spec(a, b) <==> x == y),
        a matches JsonView::Number(x) ==> b matches JsonView::Number(y) ==> (deep_equal_spec(a, b) <==> x.mant()
            * crate::number::pow10(y.exp10()) == y.mant() * crate::number::pow10(x.exp10())),
        a is Null && b is Null ==> deep_equal_spec(a, b),
        (a is Null) != (b is Null) || (a is Bool) != (b is Bool) || (a is Number) != (b is Number) || (a is Str)
            != (b is Str) || (a is Array) != (b is Array) || (a is Object) != (b is Object) ==> !deep_equal_spec(a, b),
{
}

/// Two objects that hold one key under values that are not deep-equal are
/// not deep-equal.
pub proof fn law_deep_equal_needs_equal_members(
    xs: Seq<(Seq<char>, JsonView)>,
    ys: Seq<(Seq<char>, JsonView)>,
    k: Seq<char>,
)
    requires
        lookup(xs, k) is Some,
        lookup(ys, k) is Some,
        !deep_equal_spec(lookup(xs, k).unwrap(), lookup(ys, k).unwrap()),
    ensures
        !deep_equal_spec(JsonView::Object(xs), JsonView::Object(ys)),
{
    law_deep_equal_objects(xs, ys);
    lemma_find_key(xs, k);
    let i = find_key(xs, k).unwrap() as int;
    assert(xs[i].0 == k);
    assert(lookup(ys, xs[i].0) == lookup(ys, k));
}

/// The keys of the `properties` object.
pub open spec fn property_keys(properties: Option<JsonView>) -> Set<Seq<char>> {
    match properties {
        Some(JsonView::Object(es)) => Set::new(|k: Seq<char>| find_key(es, k) is Some),
        _ => Set::empty(),
    }
}

/// Whether `s` occurs in `v`.
pub fn contains_string(v: &Vec<String>, s: &String) -> (r: bool)
    ensures
        r == views(v@).contains(s@),
{
    let mut i: usize = 0;
    while i < v.len()
        invariant
            i <= v.len(),
            forall|j: int| 0 <= j < i ==> v@[j]@ != s@,
        decreases v.len() - i,
    {
        if v[i] == *s {
            assert(views(v@)[i as int] == s@);
            return true;
        }
        i += 1;
    }
    proof {
        if views(v@).contains(s@) {
            let j = choose|j: int| 0 <= j < views(v@).len() && views(v@)[j] == s@;
            assert(views(v@)[j] == v@[j]@);
        }
    }
    false
}

/// The keys of the instance that a pattern of `patternProperties` that
/// compiles matches.
pub open spec fn pattern_keys(instance: JsonView, pattern_properties: Option<JsonView>) -> Set<Seq<char>> {
    match (instance, pattern_properties) {
        (JsonView::Object(es), Some(JsonView::Object(pats))) => Set::new(
            |k: Seq<char>| (exists|i: int| 0 <= i < es.len() && #[trigger] es[i].0 == k) && pattern_covers(pats, k),
        ),
        _ => Set::empty(),
    }
}

/// Adds `s` to `keys` unless it is there already.
fn add_key(keys: &mut Vec<String>, s: &String)
    requires
        views(old(keys)@).no_duplicates(),
    ensures
        views(final(keys)@).no_duplicates(),
        views(final(keys)@).to_set() == views(old(keys)@).to_set().insert(s@),
{
    if contains_string(keys, s) {
        assert(views(keys@).to_set() =~= views(keys@).to_set().insert(s@));
    } else {
        let ghost before = keys@;
        let c = s.clone();
        keys.push(c);
        proof {
            crate::error::lemma_views_push(before, c);
            let vb = views(before);
            let vp = views(keys@);
            assert(vp == vb.push(s@));
            assert forall|x: Seq<char>| vp.contains(x) <==> vb.contains(x) || x == s@ by {
                if vb.contains(x) {
                    let k = choose|k: int| 0 <= k < vb.len() && vb[k] == x;
                    assert(vp[k] == x);
                }
                if x == s@ {
                    assert(vp[vb.len() as int] == x);
                }
                if vp.contains(x) {
                    let k = choose|k: int| 0 <= k < vp.len() && vp[k] == x;
                    if k < vb.len() {
                        assert(vb[k] == x);
                    }
                }
            }
            assert(views(keys@).to_set() =~= views(before).to_set().insert(s@));
            assert forall|a: int, b: int| 0 <= a < b < vp.len() implies vp[a] != vp[b] by {
                assert(vp[a] == vb[a]);
                if b < vb.len() {
                    assert(vp[b] == vb[b]);
                } else {
                    assert(vb.contains(vb[a]));
                }
            }
        }
    }
}

/// Whether one of the patterns compiles and matches `key` (see
/// `pattern_covers`).
pub fn pattern_covers_exec(pats: &Vec<(String, JsonValue)>, key: &String) -> (r: bool)
    ensures
        r == pattern_covers(members_view(pats@), key@),
{
    proof {
        lemma_members_view(pats@);
    }
    let ghost pv = members_view(pats@);
    let mut j: usize = 0;
    while j < pats.len()
        invariant
            j <= pats.len(),
            pv == members_view(pats@),
            pv.len() == pats@.len(),
            forall|q: int| 0 <= q < pats@.len() ==> (#[trigger] pv[q]) == (pats@[q].0@, pats@[q].1@),
            forall|q: int| 0 <= q < j ==> !(regex_compiles(#[trigger] pv[q].0) && regex_is_match(pv[q].0, key@)),
        decreases pats.len() - j,
    {
        if regex_matches(pats[j].0.as_str(), key.as_str()) {
            assert(pv[j as int] == (pats@[j as int].0@, pats@[j as int].1@));
            assert(regex_compiles(pv[j as int].0) && regex_is_match(pv[j as int].0, key@));
            return true;
        }
        j += 1;
    }
    false
}

/// The keys that `properties` and `patternProperties` cover, for
/// `additionalProperties` checks: the keys of the `properties` object, and
/// the keys of the instance that a pattern of `patternProperties` (one that
/// compiles) matches, each once.
pub fn known_property_keys(
    instance: &JsonValue,
    properties: Option<&JsonValue>,
    pattern_properties: Option<&JsonValue>,
) -> (r: Vec<String>)
    ensures
        views(r@).to_set() == property_keys(
            match properties {
                Some(p) => Some(p@),
                None => None,
            },
        ).union(
            pattern_keys(
                instance@,
                match pattern_properties {
                    Some(p) => Some(p@),
                    None => None,
                },
            ),
        ),
        views(r@).no_duplicates(),
{
    let ghost pview = match properties {
        Some(p) => Some(p@),
        None => None,
    };
    let ghost ppview = match pattern_properties {
        Some(p) => Some(p@),
        None => None,
    };
    let mut known: Vec<String> = Vec::new();
    assert(views(known@).to_set() =~= Set::<Seq<char>>::empty());
    match properties {
        Some(JsonValue::Object(props)) => {
            proof {
                lemma_members_view(props@);
            }
            let ghost es = members_view(props@);
            let mut i: usize = 0;
            while i < props.len()
                invariant
                    i <= props.len(),
                    es == members_view(props@),
                    es.len() == props@.len(),
                    forall|j: int| 0 <= j < props@.len() ==> #[trigger] es[j] == (props@[j].0@, props@[j].1@),
                    views(known@).no_duplicates(),
                    views(known@).to_set() == Set::new(
                        |k: Seq<char>| exists|j: int| 0 <= j < i && #[trigger] es[j].0 == k,
                    ),
                decreases props.len() - i,
            {
                let ghost before = views(known@).to_set();
                add_key(&mut known, &props[i].0);
                proof {
                    assert(es[i as int].0 == props@[i as int].0@);
                    assert forall|k: Seq<char>|
                        views(known@).to_set().contains(k) <==> (exists|j: int| 0 <= j < i + 1 && #[trigger] es[j].0 == k) by {
                        if exists|j: int| 0 <= j < i + 1 && #[trigger] es[j].0 == k {
                            let j = choose|j: int| 0 <= j < i + 1 && #[trigger] es[j].0 == k;
                            if j < i {
                                assert(before.contains(k));
                            }
                        }
                        if views(known@).to_set().contains(k) && k != es[i as int].0 {
                            assert(before.contains(k));
                        }
                    }
                    assert(views(known@).to_set() =~= Set::new(
                        |k: Seq<char>| exists|j: int| 0 <= j < i + 1 && #[trigger] es[j].0 == k,
                    ));
                }
                i += 1;
            }
            proof {
                assert(properties.unwrap()@ == JsonView::Object(es));
                assert forall|k: Seq<char>| views(known@).to_set().contains(k) <==> property_keys(pview).contains(k) by {
                    lemma_find_key(es, k);
                    if views(known@).to_set().contains(k) {
                        let j = choose|j: int| 0 <= j < props@.len() && #[trigger] es[j].0 == k;
                        assert(find_key(es, k) is Some);
                    }
                    if let Some(q) = find_key(es, k) {
                        assert(es[q as int].0 == k);
                    }
                }
                assert(views(known@).to_set() =~= property_keys(pview));
            }
        },
        _ => {
            assert(views(known@).to_set() =~= property_keys(pview));
        },
    }
    let ghost props_set = property_keys(pview);
    proof {
        lemma_value_children(*instance);
    }
    match (instance, pattern_properties) {
        (JsonValue::Object(ies), Some(JsonValue::Object(pats))) => {
            let ghost iv = members_view(ies@);
            let ghost pv = members_view(pats@);
            let mut i: usize = 0;
            while i < ies.len()
                invariant
                    i <= ies.len(),
                    *instance == JsonValue::Object(*ies),
                    instance@ == JsonView::Object(iv),
                    iv == members_view(ies@),
                    pv == members_view(pats@),
                    iv.len() == ies@.len(),
                    forall|j: int| 0 <= j < ies@.len() ==> #[trigger] iv[j] == (ies@[j].0@, ies@[j].1@),
                    views(known@).no_duplicates(),
                    views(known@).to_set() == props_set.union(
                        Set::new(
                            |k: Seq<char>|
                                (exists|j: int| 0 <= j < i && #[trigger] iv[j].0 == k) && pattern_covers(pv, k),
                        ),
                    ),
                decreases ies.len() - i,
            {
                let ghost before = views(known@).to_set();
                let key = &ies[i].0;
                assert(iv[i as int].0 == key@);
                let hit = pattern_covers_exec(pats, key);
                if hit {
                    add_key(&mut known, key);
                    assert(views(known@).to_set() == before.insert(key@));
                } else {
                    assert(views(known@).to_set() == before);
                }
                proof {
                    assert(hit == pattern_covers(pv, key@));
                    assert forall|k: Seq<char>|
                        views(known@).to_set().contains(k) <==> props_set.contains(k) || ((exists|j: int|
                            0 <= j < i + 1 && #[trigger] iv[j].0 == k) && pattern_covers(pv, k)) by {
                        if exists|j: int| 0 <= j < i + 1 && #[trigger] iv[j].0 == k {
                            let j = choose|j: int| 0 <= j < i + 1 && #[trigger] iv[j].0 == k;
                            if j < i && pattern_covers(pv, k) {
                                assert(before.contains(k));
                            }
                            if j == i && pattern_covers(pv, k) {
                                assert(k == key@);
                            }
                        }
                        if views(known@).to_set().contains(k) && !props_set.contains(k) {
                            if hit && k == key@ {
                                assert(iv[i as int].0 == k);
                            } else {
                                assert(before.contains(k));
                                let j = choose|j: int| 0 <= j < i && #[trigger] iv[j].0 == k;
                                assert(iv[j].0 == k);
                            }
                        }
                    }
                    assert(views(known@).to_set() =~= props_set.union(
                        Set::new(
                            |k: Seq<char>|
                                (exists|j: int| 0 <= j < i + 1 && #[trigger] iv[j].0 == k) && pattern_covers(pv, k),
                        ),
                    ));
                }
                i += 1;
            }
            proof {
                assert(pattern_properties.unwrap()@ == JsonView::Object(pv)) by {
                    lemma_value_children(*pattern_properties.unwrap());
                }
                assert(views(known@).to_set() =~= props_set.union(pattern_keys(instance@, ppview)));
            }
        },
        _ => {
            proof {
                if let Some(pp) = pattern_properties {
                    lemma_value_children(*pp);
                }
                assert(pattern_keys(instance@, ppview) =~= Set::<Seq<char>>::empty());
                assert(views(known@).to_set() =~= props_set.union(pattern_keys(instance@, ppview)));
            }
        },
    }
    known
}

} // verus!
