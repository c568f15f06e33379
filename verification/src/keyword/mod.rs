//! The keywords of JSON Schema Draft 2020-12 and their registry.
pub mod applicator;
pub mod arrays;
pub mod assertions;
pub mod format;
pub mod numeric;
pub mod objects;
pub mod string;

use vstd::prelude::*;

use crate::error::{errs_view, ValidationError};
use crate::json::{find_key, lemma_find_key, lemma_find_key_at, lookup, size, JsonValue, JsonView};
use crate::keyword::applicator::{AllOfKeyword, AnyOfKeyword, ElseKeyword, IfKeyword, NotKeyword, OneOfKeyword, ThenKeyword};
use crate::keyword::arrays::{
    ContainsKeyword, ItemsKeyword, MaxContainsKeyword, MaxItemsKeyword, MinContainsKeyword, MinItemsKeyword,
    PrefixItemsKeyword, UniqueItemsKeyword,
};
use crate::keyword::assertions::{ConstKeyword, EnumKeyword, TypeKeyword};
use crate::keyword::format::FormatKeyword;
use crate::keyword::numeric::{
    ExclusiveMaximumKeyword, ExclusiveMinimumKeyword, MaximumKeyword, MinimumKeyword, MultipleOfKeyword,
};
use crate::keyword::objects::{
    AdditionalPropertiesKeyword, DependenciesKeyword, DependentRequiredKeyword, DependentSchemasKeyword,
    MaxPropertiesKeyword, MinPropertiesKeyword, PatternPropertiesKeyword, PropertiesKeyword,
    PropertyNamesKeyword, RequiredKeyword,
};
use crate::keyword::string::{MaxLengthKeyword, MinLengthKeyword, PatternKeyword};
use crate::text::string_of;
use crate::validator::{apply_keyword, fuel, kmeasure, ValidationContext};

verus! {

broadcast use vstd::string::group_string_axioms;

/// A keyword of JSON Schema: its name, and the errors it reports on an
/// instance given its value and the schema that holds it.
pub trait Keyword {
    /// The keyword's name.
    fn name(&self) -> &'static str;

    /// The errors that the keyword, with value `kv` in `schema`, reports on
    /// `instance`.
    fn validate(
        &self,
        ctx: &ValidationContext,
        kv: &JsonValue,
        instance: &JsonValue,
        schema: &JsonValue,
    ) -> Vec<ValidationError>
        requires
            ctx.wf(),
    ;
}

/// The keywords that the validator knows.
#[derive(Clone, Copy, Debug, PartialEq, Eq)]
pub enum KeywordKind {
    Type,
    Enum,
    Const,
    Minimum,
    Maximum,
    ExclusiveMinimum,
    ExclusiveMaximum,
    MultipleOf,
    MinLength,
    MaxLength,
    Pattern,
    Format,
    Properties,
    Required,
    AdditionalProperties,
    PatternProperties,
    PropertyNames,
    MinProperties,
    MaxProperties,
    DependentRequired,
    DependentSchemas,
    Dependencies,
    Items,
    PrefixItems,
    MinItems,
    MaxItems,
    UniqueItems,
    Contains,
    MinContains,
    MaxContains,
    AllOf,
    AnyOf,
    OneOf,
    Not,
    If,
    Then,
    Else,
}

/// The name of each keyword in a schema.
pub open spec fn kind_name(k: KeywordKind) -> Seq<char> {
    match k {
        KeywordKind::Type => "type"@,
        KeywordKind::Enum => "enum"@,
        KeywordKind::Const => "const"@,
        KeywordKind::Minimum => "minimum"@,
        KeywordKind::Maximum => "maximum"@,
        KeywordKind::ExclusiveMinimum => "exclusiveMinimum"@,
        KeywordKind::ExclusiveMaximum => "exclusiveMaximum"@,
        KeywordKind::MultipleOf => "multipleOf"@,
        KeywordKind::MinLength => "minLength"@,
        KeywordKind::MaxLength => "maxLength"@,
        KeywordKind::Pattern => "pattern"@,
        KeywordKind::Format => "format"@,
        KeywordKind::Properties => "properties"@,
        KeywordKind::Required => "required"@,
        KeywordKind::AdditionalProperties => "additionalProperties"@,
        KeywordKind::PatternProperties => "patternProperties"@,
        KeywordKind::PropertyNames => "propertyNames"@,
        KeywordKind::MinProperties => "minProperties"@,
        KeywordKind::MaxProperties => "maxProperties"@,
        KeywordKind::DependentRequired => "dependentRequired"@,
        KeywordKind::DependentSchemas => "dependentSchemas"@,
        KeywordKind::Dependencies => "dependencies"@,
        KeywordKind::Items => "items"@,
        KeywordKind::PrefixItems => "prefixItems"@,
        KeywordKind::MinItems => "minItems"@,
        KeywordKind::MaxItems => "maxItems"@,
        KeywordKind::UniqueItems => "uniqueItems"@,
        KeywordKind::Contains => "contains"@,
        KeywordKind::MinContains => "minContains"@,
        KeywordKind::MaxContains => "maxContains"@,
        KeywordKind::AllOf => "allOf"@,
        KeywordKind::AnyOf => "anyOf"@,
        KeywordKind::OneOf => "oneOf"@,
        KeywordKind::Not => "not"@,
        KeywordKind::If => "if"@,
        KeywordKind::Then => "then"@,
        KeywordKind::Else => "else"@,
    }
}

/// The keywords of Draft 2020-12, in registration order.
pub open spec fn draft_kinds() -> Seq<KeywordKind> {
    seq![
        KeywordKind::Type, KeywordKind::Enum, KeywordKind::Const,
        KeywordKind::Minimum, KeywordKind::Maximum, KeywordKind::ExclusiveMinimum,
        KeywordKind::ExclusiveMaximum, KeywordKind::MultipleOf,
        KeywordKind::MinLength, KeywordKind::MaxLength, KeywordKind::Pattern,
        KeywordKind::Format,
        KeywordKind::Properties, KeywordKind::Required, KeywordKind::AdditionalProperties,
        KeywordKind::PatternProperties, KeywordKind::PropertyNames, KeywordKind::MinProperties,
        KeywordKind::MaxProperties, KeywordKind::DependentRequired, KeywordKind::DependentSchemas,
        KeywordKind::Dependencies,
        KeywordKind::Items, KeywordKind::PrefixItems, KeywordKind::MinItems, KeywordKind::MaxItems,
        KeywordKind::UniqueItems, KeywordKind::Contains, KeywordKind::MinContains,
        KeywordKind::MaxContains,
        KeywordKind::AllOf, KeywordKind::AnyOf, KeywordKind::OneOf, KeywordKind::Not,
        KeywordKind::If, KeywordKind::Then, KeywordKind::Else,
    ]
}

/// The names and kinds of the Draft 2020-12 registry.
pub open spec fn draft_entries() -> Seq<(Seq<char>, KeywordKind)> {
    draft_kinds().map_values(|k: KeywordKind| (kind_name(k), k))
}

/// Every keyword name starts with a letter; none is a seven-letter word
/// starting with `u`.
proof fn lemma_kind_name_shape(k: KeywordKind)
    ensures
        kind_name(k).len() > 0,
        kind_name(k)[0] != '$',
        !(kind_name(k).len() == 7 && kind_name(k)[0] == 'u'),
{
    match k {
        KeywordKind::Type => {
            reveal_strlit("type");
        },
        KeywordKind::Enum => {
            reveal_strlit("enum");
        },
        KeywordKind::Const => {
            reveal_strlit("const");
        },
        KeywordKind::Minimum => {
            reveal_strlit("minimum");
        },
        KeywordKind::Maximum => {
            reveal_strlit("maximum");
        },
        KeywordKind::ExclusiveMinimum => {
            reveal_strlit("exclusiveMinimum");
        },
        KeywordKind::ExclusiveMaximum => {
            reveal_strlit("exclusiveMaximum");
        },
        KeywordKind::MultipleOf => {
            reveal_strlit("multipleOf");
        },
        KeywordKind::MinLength => {
            reveal_strlit("minLength");
        },
        KeywordKind::MaxLength => {
            reveal_strlit("maxLength");
        },
        KeywordKind::Pattern => {
            reveal_strlit("pattern");
        },
        KeywordKind::Format => {
            reveal_strlit("format");
        },
        KeywordKind::Properties => {
            reveal_strlit("properties");
        },
        KeywordKind::Required => {
            reveal_strlit("required");
        },
        KeywordKind::AdditionalProperties => {
            reveal_strlit("additionalProperties");
        },
        KeywordKind::PatternProperties => {
            reveal_strlit("patternProperties");
        },
        KeywordKind::PropertyNames => {
            reveal_strlit("propertyNames");
        },
        KeywordKind::MinProperties => {
            reveal_strlit("minProperties");
        },
        KeywordKind::MaxProperties => {
            reveal_strlit("maxProperties");
        },
        KeywordKind::DependentRequired => {
            reveal_strlit("dependentRequired");
        },
        KeywordKind::DependentSchemas => {
            reveal_strlit("dependentSchemas");
        },
        KeywordKind::Dependencies => {
            reveal_strlit("dependencies");
        },
        KeywordKind::Items => {
            reveal_strlit("items");
        },
        KeywordKind::PrefixItems => {
            reveal_strlit("prefixItems");
        },
        KeywordKind::MinItems => {
            reveal_strlit("minItems");
        },
        KeywordKind::MaxItems => {
            reveal_strlit("maxItems");
        },
        KeywordKind::UniqueItems => {
            reveal_strlit("uniqueItems");
        },
        KeywordKind::Contains => {
            reveal_strlit("contains");
        },
        KeywordKind::MinContains => {
            reveal_strlit("minContains");
        },
        KeywordKind::MaxContains => {
            reveal_strlit("maxContains");
        },
        KeywordKind::AllOf => {
            reveal_strlit("allOf");
        },
        KeywordKind::AnyOf => {
            reveal_strlit("anyOf");
        },
        KeywordKind::OneOf => {
            reveal_strlit("oneOf");
        },
        KeywordKind::Not => {
            reveal_strlit("not");
        },
        KeywordKind::If => {
            reveal_strlit("if");
        },
        KeywordKind::Then => {
            reveal_strlit("then");
        },
        KeywordKind::Else => {
            reveal_strlit("else");
        },
    }
}

/// Where `k` stands in the Draft 2020-12 registration order.
proof fn lemma_draft_position(k: KeywordKind) -> (i: int)
    ensures
        0 <= i < 37,
        draft_kinds()[i] == k,
{
    match k {
        KeywordKind::Type => 0,
        KeywordKind::Enum => 1,
        KeywordKind::Const => 2,
        KeywordKind::Minimum => 3,
        KeywordKind::Maximum => 4,
        KeywordKind::ExclusiveMinimum => 5,
        KeywordKind::ExclusiveMaximum => 6,
        KeywordKind::MultipleOf => 7,
        KeywordKind::MinLength => 8,
        KeywordKind::MaxLength => 9,
        KeywordKind::Pattern => 10,
        KeywordKind::Format => 11,
        KeywordKind::Properties => 12,
        KeywordKind::Required => 13,
        KeywordKind::AdditionalProperties => 14,
        KeywordKind::PatternProperties => 15,
        KeywordKind::PropertyNames => 16,
        KeywordKind::MinProperties => 17,
        KeywordKind::MaxProperties => 18,
        KeywordKind::DependentRequired => 19,
        KeywordKind::DependentSchemas => 20,
        KeywordKind::Dependencies => 21,
        KeywordKind::Items => 22,
        KeywordKind::PrefixItems => 23,
        KeywordKind::MinItems => 24,
        KeywordKind::MaxItems => 25,
        KeywordKind::UniqueItems => 26,
        KeywordKind::Contains => 27,
        KeywordKind::MinContains => 28,
        KeywordKind::MaxContains => 29,
        KeywordKind::AllOf => 30,
        KeywordKind::AnyOf => 31,
        KeywordKind::OneOf => 32,
        KeywordKind::Not => 33,
        KeywordKind::If => 34,
        KeywordKind::Then => 35,
        KeywordKind::Else => 36,
    }
}

/// The Draft 2020-12 registry: it holds 37 keywords, a name that it knows
/// gives a keyword of that name, every keyword (those of the README among
/// them) is known by its name, and `$ref` and `unknown` are not known.
pub proof fn law_draft_registry(name: Seq<char>, k: KeywordKind)
    ensures
        draft_entries().len() == 37,
        lookup(draft_entries(), name) matches Some(x) ==> kind_name(x) == name,
        lookup(draft_entries(), kind_name(k)) matches Some(x) && kind_name(x) == kind_name(k),
        lookup(draft_entries(), "$ref"@) is None,
        lookup(draft_entries(), "unknown"@) is None,
{
    let es = draft_entries();
    assert(es.len() == 37);
    lemma_find_key(es, name);
    if let Some(i) = find_key(es, name) {
        assert(es[i as int] == (kind_name(draft_kinds()[i as int]), draft_kinds()[i as int]));
    }
    let i = lemma_draft_position(k);
    assert(es[i].0 == kind_name(k));
    lemma_find_key(es, kind_name(k));
    if let Some(j) = find_key(es, kind_name(k)) {
        assert(es[j as int] == (kind_name(draft_kinds()[j as int]), draft_kinds()[j as int]));
    }
    reveal_strlit("$ref");
    reveal_strlit("unknown");
    lemma_find_key(es, "$ref"@);
    if let Some(j) = find_key(es, "$ref"@) {
        lemma_kind_name_shape(draft_kinds()[j as int]);
        assert(es[j as int].0[0] == '$');
    }
    lemma_find_key(es, "unknown"@);
    if let Some(j) = find_key(es, "unknown"@) {
        lemma_kind_name_shape(draft_kinds()[j as int]);
        assert(es[j as int].0.len() == 7 && es[j as int].0[0] == 'u');
    }
}

/// The name of a keyword.
pub fn kind_name_exec(k: KeywordKind) -> (r: &'static str)
    ensures
        r@ == kind_name(k),
{
    match k {
        KeywordKind::Type => "type",
        KeywordKind::Enum => "enum",
        KeywordKind::Const => "const",
        KeywordKind::Minimum => "minimum",
        KeywordKind::Maximum => "maximum",
        KeywordKind::ExclusiveMinimum => "exclusiveMinimum",
        KeywordKind::ExclusiveMaximum => "exclusiveMaximum",
        KeywordKind::MultipleOf => "multipleOf",
        KeywordKind::MinLength => "minLength",
        KeywordKind::MaxLength => "maxLength",
        KeywordKind::Pattern => "pattern",
        KeywordKind::Format => "format",
        KeywordKind::Properties => "properties",
        KeywordKind::Required => "required",
        KeywordKind::AdditionalProperties => "additionalProperties",
        KeywordKind::PatternProperties => "patternProperties",
        KeywordKind::PropertyNames => "propertyNames",
        KeywordKind::MinProperties => "minProperties",
        KeywordKind::MaxProperties => "maxProperties",
        KeywordKind::DependentRequired => "dependentRequired",
        KeywordKind::DependentSchemas => "dependentSchemas",
        KeywordKind::Dependencies => "dependencies",
        KeywordKind::Items => "items",
        KeywordKind::PrefixItems => "prefixItems",
        KeywordKind::MinItems => "minItems",
        KeywordKind::MaxItems => "maxItems",
        KeywordKind::UniqueItems => "uniqueItems",
        KeywordKind::Contains => "contains",
        KeywordKind::MinContains => "minContains",
        KeywordKind::MaxContains => "maxContains",
        KeywordKind::AllOf => "allOf",
        KeywordKind::AnyOf => "anyOf",
        KeywordKind::OneOf => "oneOf",
        KeywordKind::Not => "not",
        KeywordKind::If => "if",
        KeywordKind::Then => "then",
        KeywordKind::Else => "else",
    }
}

/// Maps keyword names to keywords.
#[derive(Debug)]
pub struct KeywordRegistry {
    pub keywords: Vec<(String, KeywordKind)>,
}

impl Clone for KeywordRegistry {
    fn clone(&self) -> (r: KeywordRegistry)
        ensures
            r@ == self@,
    {
        let mut keywords: Vec<(String, KeywordKind)> = Vec::new();
        let mut i: usize = 0;
        while i < self.keywords.len()
            invariant
                i <= self.keywords.len(),
                keywords@.len() == i,
                forall|j: int| 0 <= j < i ==> (#[trigger] keywords@[j]).0@ == self.keywords@[j].0@ && keywords@[j].1 == self.keywords@[j].1,
            decreases self.keywords.len() - i,
        {
            let e = (crate::text::copy_string(&self.keywords[i].0), self.keywords[i].1);
            let ghost before = keywords@;
            keywords.push(e);
            i += 1;
        }
        assert(keyword_entries(keywords@) =~= keyword_entries(self.keywords@));
        KeywordRegistry { keywords }
    }
}

impl Keyword for KeywordKind {
    /// The keyword's name.
    fn name(&self) -> (r: &'static str)
        ensures
            r@ == kind_name(*self),
    {
        kind_name_exec(*self)
    }

    /// The errors that the keyword, with value `kv` in `schema`, reports on
    /// `instance`.
    fn validate(
        &self,
        ctx: &ValidationContext,
        kv: &JsonValue,
        instance: &JsonValue,
        schema: &JsonValue,
    ) -> (r: Vec<ValidationError>)
        ensures
            errs_view(r@) == apply_keyword(ctx.env(), ctx.scope(), *self, kv@, instance@, schema@),
        decreases size(instance@), fuel(ctx.env(), ctx.scope()), kmeasure(kv@, schema@), 3nat, 0nat,
    {
        match self {
            KeywordKind::Type => TypeKeyword.validate(ctx, kv, instance, schema),
            KeywordKind::Enum => EnumKeyword.validate(ctx, kv, instance, schema),
            KeywordKind::Const => ConstKeyword.validate(ctx, kv, instance, schema),
            KeywordKind::Minimum => MinimumKeyword.validate(ctx, kv, instance, schema),
            KeywordKind::Maximum => MaximumKeyword.validate(ctx, kv, instance, schema),
            KeywordKind::ExclusiveMinimum => ExclusiveMinimumKeyword.validate(ctx, kv, instance, schema),
            KeywordKind::ExclusiveMaximum => ExclusiveMaximumKeyword.validate(ctx, kv, instance, schema),
            KeywordKind::MultipleOf => MultipleOfKeyword.validate(ctx, kv, instance, schema),
            KeywordKind::MinLength => MinLengthKeyword.validate(ctx, kv, instance, schema),
            KeywordKind::MaxLength => MaxLengthKeyword.validate(ctx, kv, instance, schema),
            KeywordKind::Pattern => PatternKeyword.validate(ctx, kv, instance, schema),
            KeywordKind::Format => FormatKeyword.validate(ctx, kv, instance, schema),
            KeywordKind::Properties => PropertiesKeyword.validate(ctx, kv, instance, schema),
            KeywordKind::Required => RequiredKeyword.validate(ctx, kv, instance, schema),
            KeywordKind::AdditionalProperties => AdditionalPropertiesKeyword.validate(ctx, kv, instance, schema),
            KeywordKind::PatternProperties => PatternPropertiesKeyword.validate(ctx, kv, instance, schema),
            KeywordKind::PropertyNames => PropertyNamesKeyword.validate(ctx, kv, instance, schema),
            KeywordKind::MinProperties => MinPropertiesKeyword.validate(ctx, kv, instance, schema),
            KeywordKind::MaxProperties => MaxPropertiesKeyword.validate(ctx, kv, instance, schema),
            KeywordKind::DependentRequired => DependentRequiredKeyword.validate(ctx, kv, instance, schema),
            KeywordKind::DependentSchemas => DependentSchemasKeyword.validate(ctx, kv, instance, schema),
            KeywordKind::Dependencies => DependenciesKeyword.validate(ctx, kv, instance, schema),
            KeywordKind::Items => ItemsKeyword.validate(ctx, kv, instance, schema),
            KeywordKind::PrefixItems => PrefixItemsKeyword.validate(ctx, kv, instance, schema),
            KeywordKind::MinItems => MinItemsKeyword.validate(ctx, kv, instance, schema),
            KeywordKind::MaxItems => MaxItemsKeyword.validate(ctx, kv, instance, schema),
            KeywordKind::UniqueItems => UniqueItemsKeyword.validate(ctx, kv, instance, schema),
            KeywordKind::Contains => ContainsKeyword.validate(ctx, kv, instance, schema),
            KeywordKind::MinContains => MinContainsKeyword.validate(ctx, kv, instance, schema),
            KeywordKind::MaxContains => MaxContainsKeyword.validate(ctx, kv, instance, schema),
            KeywordKind::AllOf => AllOfKeyword.validate(ctx, kv, instance, schema),
            KeywordKind::AnyOf => AnyOfKeyword.validate(ctx, kv, instance, schema),
            KeywordKind::OneOf => OneOfKeyword.validate(ctx, kv, instance, schema),
            KeywordKind::Not => NotKeyword.validate(ctx, kv, instance, schema),
            KeywordKind::If => IfKeyword.validate(ctx, kv, instance, schema),
            KeywordKind::Then => ThenKeyword.validate(ctx, kv, instance, schema),
            KeywordKind::Else => ElseKeyword.validate(ctx, kv, instance, schema),
        }
    }
}

/// The names and kinds of a list of keywords.
pub open spec fn keyword_entries(v: Seq<(String, KeywordKind)>) -> Seq<(Seq<char>, KeywordKind)> {
    v.map_values(|e: (String, KeywordKind)| (e.0@, e.1))
}

impl View for KeywordRegistry {
    type V = Seq<(Seq<char>, KeywordKind)>;

    open spec fn view(&self) -> Seq<(Seq<char>, KeywordKind)> {
        keyword_entries(self.keywords@)
    }
}

impl KeywordRegistry {
    /// The registry of all Draft 2020-12 keywords.
    pub fn draft_2020_12() -> (r: KeywordRegistry)
        ensures
            r@ == draft_entries(),
    {
        let mut registry = KeywordRegistry { keywords: Vec::new() };
        let kinds = [
            KeywordKind::Type, KeywordKind::Enum, KeywordKind::Const,
            KeywordKind::Minimum, KeywordKind::Maximum, KeywordKind::ExclusiveMinimum,
            KeywordKind::ExclusiveMaximum, KeywordKind::MultipleOf,
            KeywordKind::MinLength, KeywordKind::MaxLength, KeywordKind::Pattern,
            KeywordKind::Format,
            KeywordKind::Properties, KeywordKind::Required, KeywordKind::AdditionalProperties,
            KeywordKind::PatternProperties, KeywordKind::PropertyNames, KeywordKind::MinProperties,
            KeywordKind::MaxProperties, KeywordKind::DependentRequired, KeywordKind::DependentSchemas,
            KeywordKind::Dependencies,
            KeywordKind::Items, KeywordKind::PrefixItems, KeywordKind::MinItems, KeywordKind::MaxItems,
            KeywordKind::UniqueItems, KeywordKind::Contains, KeywordKind::MinContains,
            KeywordKind::MaxContains,
            KeywordKind::AllOf, KeywordKind::AnyOf, KeywordKind::OneOf, KeywordKind::Not,
            KeywordKind::If, KeywordKind::Then, KeywordKind::Else,
        ];
        assert(kinds@ == draft_kinds());
        let mut i: usize = 0;
        while i < 37
            invariant
                i <= 37,
                kinds@ == draft_kinds(),
                registry@ == draft_entries().take(i as int),
            decreases 37 - i,
        {
            registry.insert(kinds[i]);
            assert(draft_entries().take(i + 1) == draft_entries().take(i as int).push(draft_entries()[i as int]));
            i += 1;
        }
        assert(draft_entries().take(37) == draft_entries());
        registry
    }

    fn insert(&mut self, kind: KeywordKind)
        ensures
            final(self)@ == old(self)@.push((kind_name(kind), kind)),
    {
        let name = string_of(kind_name_exec(kind));
        self.keywords.push((name, kind));
        assert(final(self)@ =~= old(self)@.push((kind_name(kind), kind)));
    }

    /// The keyword registered under `name`.
    pub fn get(&self, name: &str) -> (r: Option<KeywordKind>)
        ensures
            r == lookup(self@, name@),
    {
        let key = string_of(name);
        let ghost es = self@;
        let mut i: usize = 0;
        while i < self.keywords.len()
            invariant
                i <= self.keywords.len(),
                es == self@,
                key@ == name@,
                es.len() == self.keywords@.len(),
                forall|j: int| 0 <= j < i ==> es[j].0 != key@,
            decreases self.keywords.len() - i,
        {
            if self.keywords[i].0 == key {
                proof {
                    assert(es[i as int] == (self.keywords@[i as int].0@, self.keywords@[i as int].1));
                    lemma_find_key_at(es, key@, i as int);
                }
                return Some(self.keywords[i].1);
            }
            i += 1;
        }
        proof {
            lemma_find_key(es, key@);
            if let Some(k) = find_key(es, key@) {
                assert(es[k as int].0 == key@);
            }
        }
        None
    }

    /// The number of registered keywords.
    pub fn len(&self) -> (r: usize)
        ensures
            r == self@.len(),
    {
        self.keywords.len()
    }

    /// Whether no keyword is registered.
    pub fn is_empty(&self) -> (r: bool)
        ensures
            r == (self@.len() == 0),
    {
        self.keywords.len() == 0
    }
}

/// A keyword value read as a list of strings: a string is a list of one,
/// an array gives its string items in order, anything else gives nothing.
pub open spec fn string_list(v: JsonView) -> Seq<Seq<char>> {
    match v {
        JsonView::Str(s) => seq![s],
        JsonView::Array(xs) => strings_of(xs),
        _ => Seq::empty(),
    }
}

/// The string items of a sequence, in order.
pub open spec fn strings_of(xs: Seq<JsonView>) -> Seq<Seq<char>>
    decreases xs.len(),
{
    if xs.len() == 0 {
        Seq::empty()
    } else {
        let rest = strings_of(xs.drop_last());
        match xs.last() {
            JsonView::Str(s) => rest.push(s),
            _ => rest,
        }
    }
}

/// Normalises a keyword value (a string or an array of strings) to a list
/// of strings.
pub fn ensure_string_list(value: &crate::json::JsonValue) -> (r: Vec<String>)
    ensures
        crate::text::views(r@) == string_list(value@),
{
    let mut out: Vec<String> = Vec::new();
    match value {
        crate::json::JsonValue::String(s) => {
            out.push(s.clone());
            assert(crate::text::views(out@) =~= seq![s@]);
        },
        crate::json::JsonValue::Array(xs) => {
            proof {
                crate::json::lemma_value_children(*value);
            }
            let ghost vs = crate::json::items_view(xs@);
            let mut i: usize = 0;
            while i < xs.len()
                invariant
                    i <= xs.len(),
                    *value == crate::json::JsonValue::Array(*xs),
                    vs == crate::json::items_view(xs@),
                    vs.len() == xs@.len(),
                    forall|j: int| 0 <= j < xs@.len() ==> (#[trigger] vs[j]) == xs@[j]@,
                    crate::text::views(out@) == strings_of(vs.take(i as int)),
                decreases xs.len() - i,
            {
                assert(vs.take(i + 1).drop_last() == vs.take(i as int));
                assert(vs.take(i + 1).last() == xs@[i as int]@);
                match &xs[i] {
                    crate::json::JsonValue::String(s) => {
                        let ghost before = out@;
                        out.push(s.clone());
                        proof {
                            crate::error::lemma_views_push(before, *s);
                        }
                    },
                    _ => {},
                }
                i += 1;
            }
            assert(vs.take(xs.len() as int) == vs);
        },
        _ => {
            assert(crate::text::views(out@) =~= Seq::<Seq<char>>::empty());
        },
    }
    out
}

/// The one error `{a}{count}{b}{bound}` of keyword `kw`, as the count
/// keywords report it.
pub fn count_error(a: &str, count: usize, b: &str, bound: u64, kw: &str, instance: &JsonValue) -> (r: Vec<ValidationError>)
    ensures
        errs_view(r@) == seq![crate::error::keyword_error(a@ + crate::text::dec(count as nat) + b@ + crate::text::dec(bound as nat), kw@, instance@)],
{
    let mut msg = string_of(a);
    let c = crate::text::usize_to_string(count);
    crate::text::push_str(&mut msg, c.as_str());
    crate::text::push_str(&mut msg, b);
    let d = crate::text::u128_to_string(bound as u128);
    crate::text::push_str(&mut msg, d.as_str());
    let mut r: Vec<ValidationError> = Vec::new();
    r.push(crate::error::keyword_error_exec(msg, kw, instance));
    assert(errs_view(r@) =~= seq![crate::error::keyword_error(a@ + crate::text::dec(count as nat) + b@ + crate::text::dec(bound as nat), kw@, instance@)]);
    r
}

} // verus!
