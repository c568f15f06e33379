//! JSON Schema type names and the compiled schema.
use vstd::prelude::*;

use crate::json::{find_key, lemma_find_key, lemma_find_key_at, lookup, JsonValue, JsonView};
use crate::text::string_of;

verus! {

broadcast use vstd::string::group_string_axioms;

/// The kinds of value that a type name can stand for.
#[derive(Clone, Copy, Debug, PartialEq, Eq)]
pub enum TypeKind {
    Null,
    Boolean,
    Object,
    Array,
    String,
    Number,
    Integer,
}

/// Whether `v` is a value of kind `k`.  An integer is a number with no
/// fractional part.
pub open spec fn kind_matches(k: TypeKind, v: JsonView) -> bool {
    match k {
        TypeKind::Null => v is Null,
        TypeKind::Boolean => v is Bool,
        TypeKind::Object => v is Object,
        TypeKind::Array => v is Array,
        TypeKind::String => v is Str,
        TypeKind::Number => v is Number,
        TypeKind::Integer => match v {
            JsonView::Number(n) => n.is_whole(),
            _ => false,
        },
    }
}

/// Whether `v` is of the type named `name` in `types`; unknown names match
/// nothing.
pub open spec fn is_type_spec(types: Seq<(Seq<char>, TypeKind)>, v: JsonView, name: Seq<char>) -> bool {
    match lookup(types, name) {
        Some(k) => kind_matches(k, v),
        None => false,
    }
}

/// The seven basic type names.
pub open spec fn default_types() -> Seq<(Seq<char>, TypeKind)> {
    seq![
        ("null"@, TypeKind::Null),
        ("boolean"@, TypeKind::Boolean),
        ("object"@, TypeKind::Object),
        ("array"@, TypeKind::Array),
        ("string"@, TypeKind::String),
        ("number"@, TypeKind::Number),
        ("integer"@, TypeKind::Integer),
    ]
}

/// 1 where `b` holds, else 0.
pub open spec fn indicator(b: bool) -> int {
    if b {
        1
    } else {
        0
    }
}

proof fn lemma_default_type_lookup(name: Seq<char>, k: int)
    requires
        0 <= k < 7,
        name == default_types()[k].0,
    ensures
        lookup(default_types(), name) == Some(default_types()[k].1),
{
    reveal_strlit("null");
    reveal_strlit("boolean");
    reveal_strlit("object");
    reveal_strlit("array");
    reveal_strlit("string");
    reveal_strlit("number");
    reveal_strlit("integer");
    let d = default_types();
    assert(d[0].0.len() == 4 && d[0].0[0] == 'n');
    assert(d[1].0.len() == 7 && d[1].0[0] == 'b');
    assert(d[2].0.len() == 6 && d[2].0[0] == 'o');
    assert(d[3].0.len() == 5 && d[3].0[0] == 'a');
    assert(d[4].0.len() == 6 && d[4].0[0] == 's');
    assert(d[5].0.len() == 6 && d[5].0[0] == 'n');
    assert(d[6].0.len() == 7 && d[6].0[0] == 'i');
    lemma_find_key_at(d, name, k);
}

/// Type checks with the seven basic type names: a name outside them matches
/// no value; `integer` holds exactly of the numbers with no fractional part,
/// so it implies `number`; and every value is of exactly one of the six
/// kinds `null`, `boolean`, `object`, `array`, `string` and `number`.
pub proof fn law_basic_type_checks(v: JsonView, name: Seq<char>)
    ensures
        name != "null"@ && name != "boolean"@ && name != "object"@ && name != "array"@ && name != "string"@
            && name != "number"@ && name != "integer"@ ==> !is_type_spec(default_types(), v, name),
        is_type_spec(default_types(), v, "integer"@) <==> (v matches JsonView::Number(n) && n.is_whole()),
        is_type_spec(default_types(), v, "integer"@) ==> is_type_spec(default_types(), v, "number"@),
        indicator(is_type_spec(default_types(), v, "null"@)) + indicator(is_type_spec(default_types(), v, "boolean"@))
            + indicator(is_type_spec(default_types(), v, "object"@)) + indicator(
            is_type_spec(default_types(), v, "array"@),
        ) + indicator(is_type_spec(default_types(), v, "string"@)) + indicator(
            is_type_spec(default_types(), v, "number"@),
        ) == 1,
{
    let d = default_types();
    lemma_default_type_lookup("null"@, 0);
    lemma_default_type_lookup("boolean"@, 1);
    lemma_default_type_lookup("object"@, 2);
    lemma_default_type_lookup("array"@, 3);
    lemma_default_type_lookup("string"@, 4);
    lemma_default_type_lookup("number"@, 5);
    lemma_default_type_lookup("integer"@, 6);
    lemma_find_key(d, name);
    if name != "null"@ && name != "boolean"@ && name != "object"@ && name != "array"@ && name != "string"@
        && name != "number"@ && name != "integer"@ {
        if let Some(k) = find_key(d, name) {
            assert(d[k as int].0 == name);
            assert(false);
        }
    }
}

/// Maps type names to kinds of value.
#[derive(Debug)]
pub struct TypeChecker {
    pub types: Vec<(String, TypeKind)>,
}

/// The names and kinds of a list of types.
pub open spec fn type_entries(v: Seq<(String, TypeKind)>) -> Seq<(Seq<char>, TypeKind)> {
    v.map_values(|e: (String, TypeKind)| (e.0@, e.1))
}

impl View for TypeChecker {
    type V = Seq<(Seq<char>, TypeKind)>;

    open spec fn view(&self) -> Seq<(Seq<char>, TypeKind)> {
        type_entries(self.types@)
    }
}

impl Clone for TypeChecker {
    fn clone(&self) -> (r: TypeChecker)
        ensures
            r@ == self@,
    {
        let mut types: Vec<(String, TypeKind)> = Vec::new();
        let mut i: usize = 0;
        while i < self.types.len()
            invariant
                i <= self.types.len(),
                types@.len() == i,
                forall|j: int| 0 <= j < i ==> (#[trigger] types@[j]).0@ == self.types@[j].0@ && types@[j].1 == self.types@[j].1,
            decreases self.types.len() - i,
        {
            let e = (crate::text::copy_string(&self.types[i].0), self.types[i].1);
            types.push(e);
            i += 1;
        }
        assert(type_entries(types@) =~= type_entries(self.types@));
        TypeChecker { types }
    }
}

fn kind_matches_exec(k: TypeKind, v: &JsonValue) -> (r: bool)
    ensures
        r == kind_matches(k, v@),
{
    match k {
        TypeKind::Null => matches!(v, JsonValue::Null),
        TypeKind::Boolean => matches!(v, JsonValue::Bool(_)),
        TypeKind::Object => matches!(v, JsonValue::Object(_)),
        TypeKind::Array => matches!(v, JsonValue::Array(_)),
        TypeKind::String => matches!(v, JsonValue::String(_)),
        TypeKind::Number => matches!(v, JsonValue::Number(_)),
        TypeKind::Integer => match v {
            JsonValue::Number(n) => n.is_whole_exec(),
            _ => false,
        },
    }
}

impl TypeChecker {
    /// The type checker for the seven basic types.
    pub fn default() -> (r: TypeChecker)
        ensures
            r@ == default_types(),
    {
        let mut types: Vec<(String, TypeKind)> = Vec::new();
        types.push((string_of("null"), TypeKind::Null));
        types.push((string_of("boolean"), TypeKind::Boolean));
        types.push((string_of("object"), TypeKind::Object));
        types.push((string_of("array"), TypeKind::Array));
        types.push((string_of("string"), TypeKind::String));
        types.push((string_of("number"), TypeKind::Number));
        types.push((string_of("integer"), TypeKind::Integer));
        let r = TypeChecker { types };
        assert(r@ =~= default_types());
        r
    }

    fn find(&self, name: &String) -> (r: Option<usize>)
        ensures
            r matches Some(k) ==> find_key(self@, name@) == Some(k as nat) && k < self.types@.len(),
            r is None ==> find_key(self@, name@) is None,
    {
        let ghost es = self@;
        let mut i: usize = 0;
        while i < self.types.len()
            invariant
                i <= self.types.len(),
                es == self@,
                es.len() == self.types@.len(),
                forall|j: int| 0 <= j < i ==> es[j].0 != name@,
            decreases self.types.len() - i,
        {
            if self.types[i].0 == *name {
                proof {
                    lemma_find_key_at(es, name@, i as int);
                }
                return Some(i);
            }
            i += 1;
        }
        proof {
            lemma_find_key(es, name@);
            if let Some(k) = find_key(es, name@) {
                assert(es[k as int].0 == name@);
            }
        }
        None
    }

    /// Registers (or replaces) the type name `name`, standing for `kind`.
    pub fn register(&mut self, name: &str, kind: TypeKind)
        ensures
            forall|n: Seq<char>| #[trigger] lookup(final(self)@, n) == if n == name@ {
                Some(kind)
            } else {
                lookup(old(self)@, n)
            },
    {
        let key = string_of(name);
        let ghost a = self@;
        match self.find(&key) {
            Some(i) => {
                self.types.set(i, (key, kind));
                proof {
                    let b = self@;
                    assert(b =~= a.update(i as int, (name@, kind)));
                    assert forall|u: Seq<char>| #[trigger] lookup(b, u) == if u == name@ {
                        Some(kind)
                    } else {
                        lookup(a, u)
                    } by {
                        lemma_find_key(a, u);
                        lemma_find_key(b, u);
                        lemma_find_key(a, name@);
                        if u == name@ {
                            lemma_find_key_at(b, u, i as int);
                        } else if let Some(k) = find_key(a, u) {
                            assert forall|j: int| 0 <= j < k implies b[j].0 != u by {
                                if j != i {
                                    assert(b[j] == a[j]);
                                }
                            }
                            lemma_find_key_at(b, u, k as int);
                        } else if let Some(k2) = find_key(b, u) {
                            if k2 != i {
                                assert(b[k2 as int] == a[k2 as int]);
                            }
                        }
                    }
                }
            },
            None => {
                self.types.push((key, kind));
                proof {
                    let b = self@;
                    assert(b =~= a.push((name@, kind)));
                    assert forall|u: Seq<char>| #[trigger] lookup(b, u) == if u == name@ {
                        Some(kind)
                    } else {
                        lookup(a, u)
                    } by {
                        lemma_find_key(a, u);
                        lemma_find_key(b, u);
                        if u == name@ {
                            lemma_find_key_at(b, u, a.len() as int);
                        } else if let Some(k) = find_key(a, u) {
                            assert forall|j: int| 0 <= j < k implies b[j].0 != u by {
                                assert(b[j] == a[j]);
                            }
                            lemma_find_key_at(b, u, k as int);
                        } else if let Some(k2) = find_key(b, u) {
                            if k2 < a.len() {
                                assert(b[k2 as int] == a[k2 as int]);
                            }
                        }
                    }
                }
            },
        }
    }

    /// Whether `instance` is of the type named `name`.
    pub fn is_type(&self, instance: &JsonValue, name: &str) -> (r: bool)
        ensures
            r == is_type_spec(self@, instance@, name@),
    {
        let key = string_of(name);
        match self.find(&key) {
            Some(i) => kind_matches_exec(self.types[i].1, instance),
            None => false,
        }
    }
}

/// A schema together with the distinct patterns in it that compile.
#[derive(Debug)]
pub struct CompiledSchema {
    pub raw: JsonValue,
    pub precompiled_patterns: Vec<String>,
}

impl Clone for CompiledSchema {
    fn clone(&self) -> (r: CompiledSchema)
        ensures
            r.raw@ == self.raw@,
            r.precompiled_patterns@ == self.precompiled_patterns@,
    {
        CompiledSchema { raw: self.raw.deep_copy(), precompiled_patterns: crate::text::copy_strings(&self.precompiled_patterns) }
    }
}

impl CompiledSchema {
    /// Bundles a schema with its compiled patterns.
    pub fn new(raw: JsonValue, patterns: Vec<String>) -> (r: CompiledSchema)
        ensures
            r.raw == raw,
            r.precompiled_patterns == patterns,
    {
        CompiledSchema { raw, precompiled_patterns: patterns }
    }
}

} // verus!
