//! The JSON value model that schemas and instances are written in.
use vstd::prelude::*;

use crate::number::JsonNumber;
use crate::text::{digit_char, digit_char_exec, push_char, push_str, string_of, to_chars};

verus! {

broadcast use vstd::string::group_string_axioms;

/// A JSON value.  Objects keep their members in order; a lookup by key finds
/// the first member with that key.
#[derive(Debug)]
pub enum JsonValue {
    Null,
    Bool(bool),
    Number(JsonNumber),
    String(String),
    Array(Vec<JsonValue>),
    Object(Vec<(String, JsonValue)>),
}

/// The mathematical content of a JSON value.
pub enum JsonView {
    Null,
    Bool(bool),
    Number(JsonNumber),
    Str(Seq<char>),
    Array(Seq<JsonView>),
    Object(Seq<(Seq<char>, JsonView)>),
}

/// The content of a value.
pub open spec fn json_view(v: JsonValue) -> JsonView
    decreases v, 1nat,
{
    match v {
        JsonValue::Null => JsonView::Null,
        JsonValue::Bool(b) => JsonView::Bool(b),
        JsonValue::Number(n) => JsonView::Number(n),
        JsonValue::String(s) => JsonView::Str(s@),
        JsonValue::Array(xs) => JsonView::Array(items_view(xs@)),
        JsonValue::Object(es) => JsonView::Object(members_view(es@)),
    }
}

/// The contents of a sequence of values.
pub open spec fn items_view(xs: Seq<JsonValue>) -> Seq<JsonView>
    decreases xs, 0nat,
{
    if xs.len() == 0 {
        Seq::empty()
    } else {
        items_view(xs.drop_last()).push(json_view(xs.last()))
    }
}

/// The contents of a sequence of members.
pub open spec fn members_view(es: Seq<(String, JsonValue)>) -> Seq<(Seq<char>, JsonView)>
    decreases es, 0nat,
{
    if es.len() == 0 {
        Seq::empty()
    } else {
        members_view(es.drop_last()).push((es.last().0@, json_view(es.last().1)))
    }
}

impl View for JsonValue {
    type V = JsonView;

    open spec fn view(&self) -> JsonView {
        json_view(*self)
    }
}

/// `items_view` views each item.
pub proof fn lemma_items_view(xs: Seq<JsonValue>)
    ensures
        items_view(xs).len() == xs.len(),
        forall|i: int| 0 <= i < xs.len() ==> #[trigger] items_view(xs)[i] == json_view(xs[i]),
    decreases xs.len(),
{
    if xs.len() > 0 {
        lemma_items_view(xs.drop_last());
        assert forall|i: int| 0 <= i < xs.len() implies #[trigger] items_view(xs)[i] == json_view(xs[i]) by {
            if i < xs.len() - 1 {
                assert(xs.drop_last()[i] == xs[i]);
            }
        }
    }
}

/// `members_view` views each member.
pub proof fn lemma_members_view(es: Seq<(String, JsonValue)>)
    ensures
        members_view(es).len() == es.len(),
        forall|i: int| 0 <= i < es.len() ==> #[trigger] members_view(es)[i] == (es[i].0@, json_view(es[i].1)),
    decreases es.len(),
{
    if es.len() > 0 {
        lemma_members_view(es.drop_last());
        assert forall|i: int| 0 <= i < es.len() implies #[trigger] members_view(es)[i] == (es[i].0@, json_view(es[i].1)) by {
            if i < es.len() - 1 {
                assert(es.drop_last()[i] == es[i]);
            }
        }
    }
}

/// The number of nodes of a value.
pub open spec fn size(v: JsonView) -> nat
    decreases v,
{
    match v {
        JsonView::Array(items) => 1 + sizes(items),
        JsonView::Object(entries) => 1 + entry_sizes(entries),
        _ => 1,
    }
}

/// The number of nodes of a sequence of values.
pub open spec fn sizes(s: Seq<JsonView>) -> nat
    decreases s,
{
    if s.len() == 0 {
        0
    } else {
        sizes(s.drop_last()) + size(s.last())
    }
}

/// The number of nodes of the values of a sequence of members.
pub open spec fn entry_sizes(s: Seq<(Seq<char>, JsonView)>) -> nat
    decreases s,
{
    if s.len() == 0 {
        0
    } else {
        entry_sizes(s.drop_last()) + size(s.last().1)
    }
}

/// Every value has at least one node.
pub proof fn lemma_size_pos(v: JsonView)
    ensures
        size(v) >= 1,
{
}

/// Each item of a sequence is no larger than the sequence.
pub proof fn lemma_item_size(s: Seq<JsonView>, i: int)
    requires
        0 <= i < s.len(),
    ensures
        size(s[i]) <= sizes(s),
    decreases s.len(),
{
    if i < s.len() - 1 {
        lemma_item_size(s.drop_last(), i);
        assert(s.drop_last()[i] == s[i]);
    }
}

/// Each member value of a sequence is no larger than the sequence.
pub proof fn lemma_entry_size(s: Seq<(Seq<char>, JsonView)>, i: int)
    requires
        0 <= i < s.len(),
    ensures
        size(s[i].1) <= entry_sizes(s),
    decreases s.len(),
{
    if i < s.len() - 1 {
        lemma_entry_size(s.drop_last(), i);
        assert(s.drop_last()[i] == s[i]);
    }
}

/// Index of the first entry whose key is `key`.
pub open spec fn find_key<T>(es: Seq<(Seq<char>, T)>, key: Seq<char>) -> Option<nat>
    decreases es.len(),
{
    if es.len() == 0 {
        None
    } else if es[0].0 == key {
        Some(0)
    } else {
        match find_key(es.drop_first(), key) {
            Some(k) => Some(k + 1),
            None => None,
        }
    }
}

/// `find_key` finds the first member with the key, and fails only when
/// there is none.
pub proof fn lemma_find_key<T>(es: Seq<(Seq<char>, T)>, key: Seq<char>)
    ensures
        find_key(es, key) matches Some(k) ==> k < es.len() && es[k as int].0 == key
            && forall|j: int| 0 <= j < k ==> es[j].0 != key,
        find_key(es, key) is None ==> forall|j: int| 0 <= j < es.len() ==> es[j].0 != key,
    decreases es.len(),
{
    if es.len() > 0 && es[0].0 != key {
        lemma_find_key(es.drop_first(), key);
        if let Some(k) = find_key(es.drop_first(), key) {
            assert forall|j: int| 0 <= j < k + 1 implies es[j].0 != key by {
                if j > 0 {
                    assert(es[j] == es.drop_first()[j - 1]);
                }
            }
        } else {
            assert forall|j: int| 0 <= j < es.len() implies es[j].0 != key by {
                if j > 0 {
                    assert(es[j] == es.drop_first()[j - 1]);
                }
            }
        }
    }
}

/// The first index `k` with `es[k].0 == key` is what `find_key` returns.
pub proof fn lemma_find_key_at<T>(es: Seq<(Seq<char>, T)>, key: Seq<char>, k: int)
    requires
        0 <= k < es.len(),
        es[k].0 == key,
        forall|j: int| 0 <= j < k ==> es[j].0 != key,
    ensures
        find_key(es, key) == Some(k as nat),
{
    lemma_find_key(es, key);
    if let Some(q) = find_key(es, key) {
        if q < k {
            assert(es[q as int].0 == key);
        }
        if q > k {
            assert(es[k].0 == key);
        }
    }
}

/// The value of the first entry with key `key`.
pub open spec fn lookup<T>(es: Seq<(Seq<char>, T)>, key: Seq<char>) -> Option<T> {
    match find_key(es, key) {
        Some(k) => Some(es[k as int].1),
        None => None,
    }
}

/// The member `key` of an object; `None` for other values.
pub open spec fn get_key(v: JsonView, key: Seq<char>) -> Option<JsonView> {
    match v {
        JsonView::Object(es) => lookup(es, key),
        _ => None,
    }
}

/// A member found by key is smaller than the object.
pub proof fn lemma_get_key_size(v: JsonView, key: Seq<char>)
    ensures
        get_key(v, key) matches Some(x) ==> size(x) < size(v),
{
    if let JsonView::Object(es) = v {
        lemma_find_key(es, key);
        if let Some(k) = find_key(es, key) {
            lemma_entry_size(es, k as int);
        }
    }
}

/// Members of an object and items of an array are smaller than the value.
pub proof fn lemma_children_size(v: JsonView)
    ensures
        v matches JsonView::Object(es) ==> forall|i: int| 0 <= i < es.len() ==> size(#[trigger] es[i].1) < size(v),
        v matches JsonView::Array(xs) ==> forall|i: int| 0 <= i < xs.len() ==> size(#[trigger] xs[i]) < size(v),
{
    match v {
        JsonView::Object(es) => {
            assert forall|i: int| 0 <= i < es.len() implies size(#[trigger] es[i].1) < size(v) by {
                lemma_entry_size(es, i);
            }
        },
        JsonView::Array(xs) => {
            assert forall|i: int| 0 <= i < xs.len() implies size(#[trigger] xs[i]) < size(v) by {
                lemma_item_size(xs, i);
            }
        },
        _ => {},
    }
}

/// The view of an exec array or object exposes its items and members.
pub proof fn lemma_value_children(v: JsonValue)
    ensures
        v matches JsonValue::Object(es) ==> v@ == JsonView::Object(members_view(es@))
            && members_view(es@).len() == es@.len()
            && forall|i: int| 0 <= i < es@.len() ==> (#[trigger] members_view(es@)[i]) == (es@[i].0@, es@[i].1@)
            && forall|i: int| 0 <= i < es@.len() ==> size(#[trigger] es@[i].1@) < size(v@),
        v matches JsonValue::Array(xs) ==> v@ == JsonView::Array(items_view(xs@))
            && items_view(xs@).len() == xs@.len()
            && forall|i: int| 0 <= i < xs@.len() ==> (#[trigger] items_view(xs@)[i]) == xs@[i]@
            && forall|i: int| 0 <= i < xs@.len() ==> size(#[trigger] xs@[i]@) < size(v@),
{
    match v {
        JsonValue::Object(es) => {
            lemma_members_view(es@);
            lemma_children_size(v@);
            assert forall|i: int| 0 <= i < es@.len() implies size(#[trigger] es@[i].1@) < size(v@) by {
                assert(members_view(es@)[i].1 == es@[i].1@);
            }
        },
        JsonValue::Array(xs) => {
            lemma_items_view(xs@);
            lemma_children_size(v@);
            assert forall|i: int| 0 <= i < xs@.len() implies size(#[trigger] xs@[i]@) < size(v@) by {
                assert(items_view(xs@)[i] == xs@[i]@);
            }
        },
        _ => {},
    }
}

/// Lower-case hexadecimal digit.
pub open spec fn hex_char(d: nat) -> char {
    if d < 10 {
        digit_char(d)
    } else if d == 10 {
        'a'
    } else if d == 11 {
        'b'
    } else if d == 12 {
        'c'
    } else if d == 13 {
        'd'
    } else if d == 14 {
        'e'
    } else {
        'f'
    }
}

/// The JSON escape of one character inside a string literal.
pub open spec fn escape_char(c: char) -> Seq<char> {
    if c == '"' {
        seq!['\\', '"']
    } else if c == '\\' {
        seq!['\\', '\\']
    } else if c == '\n' {
        seq!['\\', 'n']
    } else if c == '\r' {
        seq!['\\', 'r']
    } else if c == '\t' {
        seq!['\\', 't']
    } else if c == '\u{08}' {
        seq!['\\', 'b']
    } else if c == '\u{0c}' {
        seq!['\\', 'f']
    } else if (c as nat) < 0x20 {
        seq!['\\', 'u', '0', '0', hex_char((c as nat) / 16), hex_char((c as nat) % 16)]
    } else {
        seq![c]
    }
}

/// The escaped characters of a string.
pub open spec fn escape(s: Seq<char>) -> Seq<char>
    decreases s.len(),
{
    if s.len() == 0 {
        Seq::empty()
    } else {
        escape(s.drop_last()) + escape_char(s.last())
    }
}

/// A JSON string literal.
pub open spec fn quote(s: Seq<char>) -> Seq<char> {
    seq!['"'] + escape(s) + seq!['"']
}

/// The compact JSON text of a value.
pub open spec fn render(v: JsonView) -> Seq<char>
    decreases size(v), 1nat, 0nat,
{
    match v {
        JsonView::Null => seq!['n', 'u', 'l', 'l'],
        JsonView::Bool(b) => if b { seq!['t', 'r', 'u', 'e'] } else { seq!['f', 'a', 'l', 's', 'e'] },
        JsonView::Number(n) => n.json_text(),
        JsonView::Str(s) => quote(s),
        JsonView::Array(xs) => seq!['['] + render_items(xs, xs.len()) + seq![']'],
        JsonView::Object(es) => seq!['{'] + render_members(es, es.len()) + seq!['}'],
    }
}

/// The first `n` items, rendered and separated by commas.
pub open spec fn render_items(xs: Seq<JsonView>, n: nat) -> Seq<char>
    decreases sizes(xs), 2nat, n,
{
    if n == 0 || n > xs.len() {
        Seq::empty()
    } else {
        proof {
            lemma_item_size(xs, n - 1);
        }
        let sep = if n > 1 { seq![','] } else { Seq::<char>::empty() };
        render_items(xs, (n - 1) as nat) + sep + render(xs[n - 1])
    }
}

/// The first `n` members, rendered and separated by commas.
pub open spec fn render_members(es: Seq<(Seq<char>, JsonView)>, n: nat) -> Seq<char>
    decreases entry_sizes(es), 2nat, n,
{
    if n == 0 || n > es.len() {
        Seq::empty()
    } else {
        proof {
            lemma_entry_size(es, n - 1);
        }
        let sep = if n > 1 { seq![','] } else { Seq::<char>::empty() };
        render_members(es, (n - 1) as nat) + sep + quote(es[n - 1].0) + seq![':'] + render(es[n - 1].1)
    }
}

/// Equality of JSON values: numbers by value (`1` equals `1.0`), arrays item by item,
/// objects with the same number of members where each member of one is
/// found with an equal value in the other.
pub open spec fn json_eq(a: JsonView, b: JsonView) -> bool
    decreases size(a) + size(b), 0nat, 0nat,
{
    match (a, b) {
        (JsonView::Null, JsonView::Null) => true,
        (JsonView::Bool(x), JsonView::Bool(y)) => x == y,
        (JsonView::Number(x), JsonView::Number(y)) => x.same_value(y),
        (JsonView::Str(x), JsonView::Str(y)) => x == y,
        (JsonView::Array(xs), JsonView::Array(ys)) => xs.len() == ys.len() && items_eq(xs, ys, xs.len()),
        (JsonView::Object(xs), JsonView::Object(ys)) => {
            &&& xs.len() == ys.len()
            &&& members_in(xs, ys, xs.len())
            &&& members_in(ys, xs, ys.len())
        },
        _ => false,
    }
}

/// The first `n` items of `xs` and `ys` are pairwise equal.
pub open spec fn items_eq(xs: Seq<JsonView>, ys: Seq<JsonView>, n: nat) -> bool
    decreases sizes(xs) + sizes(ys), 1nat, n,
{
    if n == 0 || n > xs.len() || n > ys.len() {
        n == 0
    } else {
        proof {
            lemma_item_size(xs, n - 1);
            lemma_item_size(ys, n - 1);
        }
        items_eq(xs, ys, (n - 1) as nat) && json_eq(xs[n - 1], ys[n - 1])
    }
}

/// Each of the first `n` members of `xs` has its key in `ys`, with an equal
/// value.
pub open spec fn members_in(xs: Seq<(Seq<char>, JsonView)>, ys: Seq<(Seq<char>, JsonView)>, n: nat) -> bool
    decreases entry_sizes(xs) + entry_sizes(ys), 1nat, n,
{
    if n == 0 || n > xs.len() {
        n == 0
    } else {
        proof {
            lemma_entry_size(xs, n - 1);
            lemma_find_key(ys, xs[n - 1].0);
            if let Some(k) = find_key(ys, xs[n - 1].0) {
                lemma_entry_size(ys, k as int);
            }
        }
        members_in(xs, ys, (n - 1) as nat) && match lookup(ys, xs[n - 1].0) {
            Some(y) => json_eq(xs[n - 1].1, y),
            None => false,
        }
    }
}

/// Index of the first member of `es` with key `key`.
pub fn find_member(es: &Vec<(String, JsonValue)>, key: &String) -> (r: Option<usize>)
    ensures
        r matches Some(k) ==> find_key(members_view(es@), key@) == Some(k as nat) && k < es@.len(),
        r is None ==> find_key(members_view(es@), key@) is None,
{
    proof {
        lemma_members_view(es@);
    }
    let ghost ms = members_view(es@);
    let mut i: usize = 0;
    while i < es.len()
        invariant
            i <= es.len(),
            ms == members_view(es@),
            ms.len() == es@.len(),
            forall|j: int| 0 <= j < es@.len() ==> #[trigger] ms[j] == (es@[j].0@, es@[j].1@),
            forall|j: int| 0 <= j < i ==> ms[j].0 != key@,
        decreases es.len() - i,
    {
        if es[i].0 == *key {
            proof {
                assert(ms[i as int].0 == key@);
                lemma_find_key_at(ms, key@, i as int);
            }
            return Some(i);
        }
        assert(ms[i as int].0 != key@);
        i += 1;
    }
    proof {
        lemma_find_key(ms, key@);
        if let Some(k) = find_key(ms, key@) {
            assert(ms[k as int].0 == key@);
        }
    }
    None
}

impl JsonValue {
    /// The member `key` of an object; `None` for other values.
    pub fn get(&self, key: &str) -> (r: Option<&JsonValue>)
        ensures
            r matches Some(x) ==> get_key(self@, key@) == Some(x@) && size(x@) < size(self@),
            r is None ==> get_key(self@, key@) is None,
    {
        proof {
            lemma_value_children(*self);
        }
        match self {
            JsonValue::Object(es) => {
                let k = string_of(key);
                match find_member(es, &k) {
                    Some(i) => {
                        assert(members_view(es@)[i as int] == (es@[i as int].0@, es@[i as int].1@));
                        Some(&es[i].1)
                    },
                    None => None,
                }
            },
            _ => None,
        }
    }

    /// Whether an object has a member `key`.
    pub fn contains_key(&self, key: &str) -> (r: bool)
        ensures
            r == (get_key(self@, key@) is Some),
    {
        self.get(key).is_some()
    }

    /// The text of a string value.
    pub fn as_str(&self) -> (r: Option<&String>)
        ensures
            r matches Some(s) ==> self@ == JsonView::Str(s@),
            r is None ==> !(self@ is Str),
    {
        match self {
            JsonValue::String(s) => Some(s),
            _ => None,
        }
    }

    /// The items of an array value.
    pub fn as_array(&self) -> (r: Option<&Vec<JsonValue>>)
        ensures
            r matches Some(xs) ==> *self == JsonValue::Array(*xs),
            r is None ==> !(self@ is Array),
    {
        match self {
            JsonValue::Array(xs) => Some(xs),
            _ => None,
        }
    }

    /// The members of an object value.
    pub fn as_object(&self) -> (r: Option<&Vec<(String, JsonValue)>>)
        ensures
            r matches Some(es) ==> *self == JsonValue::Object(*es),
            r is None ==> !(self@ is Object),
    {
        match self {
            JsonValue::Object(es) => Some(es),
            _ => None,
        }
    }

    /// The number held by a number value.
    pub fn as_number(&self) -> (r: Option<&JsonNumber>)
        ensures
            r matches Some(n) ==> self@ == JsonView::Number(*n),
            r is None ==> !(self@ is Number),
    {
        match self {
            JsonValue::Number(n) => Some(n),
            _ => None,
        }
    }

    /// Whether the value is the literal `false`.
    pub fn is_false(&self) -> (r: bool)
        ensures
            r == (self@ == JsonView::Bool(false)),
    {
        match self {
            JsonValue::Bool(b) => !*b,
            _ => false,
        }
    }

    /// Whether the value is the literal `true`.
    pub fn is_true(&self) -> (r: bool)
        ensures
            r == (self@ == JsonView::Bool(true)),
    {
        match self {
            JsonValue::Bool(b) => *b,
            _ => false,
        }
    }

    /// A copy of the value.
    pub fn deep_copy(&self) -> (r: JsonValue)
        ensures
            r@ == self@,
        decreases size(self@),
    {
        proof {
            lemma_value_children(*self);
        }
        match self {
            JsonValue::Null => JsonValue::Null,
            JsonValue::Bool(b) => JsonValue::Bool(*b),
            JsonValue::Number(n) => JsonValue::Number(*n),
            JsonValue::String(s) => JsonValue::String(s.clone()),
            JsonValue::Array(xs) => {
                let mut out: Vec<JsonValue> = Vec::new();
                let mut i: usize = 0;
                while i < xs.len()
                    invariant
                        i <= xs.len(),
                        *self == JsonValue::Array(*xs),
                        forall|j: int| 0 <= j < xs@.len() ==> size(#[trigger] xs@[j]@) < size(self@),
                        out@.len() == i,
                        forall|j: int| 0 <= j < i ==> (#[trigger] out@[j])@ == xs@[j]@,
                    decreases xs.len() - i,
                {
                    let c = xs[i].deep_copy();
                    out.push(c);
                    i += 1;
                }
                proof {
                    lemma_items_view(out@);
                    lemma_items_view(xs@);
                    assert(items_view(out@) =~= items_view(xs@));
                }
                JsonValue::Array(out)
            },
            JsonValue::Object(es) => {
                let mut out: Vec<(String, JsonValue)> = Vec::new();
                let mut i: usize = 0;
                while i < es.len()
                    invariant
                        i <= es.len(),
                        *self == JsonValue::Object(*es),
                        forall|j: int| 0 <= j < es@.len() ==> size(#[trigger] es@[j].1@) < size(self@),
                        out@.len() == i,
                        forall|j: int| 0 <= j < i ==> (#[trigger] out@[j]).0@ == es@[j].0@ && out@[j].1@ == es@[j].1@,
                    decreases es.len() - i,
                {
                    let k = es[i].0.clone();
                    let c = es[i].1.deep_copy();
                    out.push((k, c));
                    i += 1;
                }
                proof {
                    lemma_members_view(out@);
                    lemma_members_view(es@);
                    assert(members_view(out@) =~= members_view(es@));
                }
                JsonValue::Object(out)
            },
        }
    }

    /// The compact JSON text of the value.
    pub fn to_json_string(&self) -> (r: String)
        ensures
            r@ == render(self@),
    {
        let mut out = String::new();
        self.write_json(&mut out);
        assert(out@ == Seq::<char>::empty() + render(self@));
        out
    }

    /// Appends the compact JSON text of the value.
    pub fn write_json(&self, out: &mut String)
        ensures
            final(out)@ == old(out)@ + render(self@),
        decreases size(self@),
    {
        proof {
            lemma_value_children(*self);
        }
        match self {
            JsonValue::Null => {
                push_str(out, "null");
                proof { reveal_strlit("null"); }
                assert(render(self@) == "null"@);
            },
            JsonValue::Bool(b) => {
                if *b {
                    push_str(out, "true");
                    proof { reveal_strlit("true"); }
                    assert(render(self@) == "true"@);
                } else {
                    push_str(out, "false");
                    proof { reveal_strlit("false"); }
                    assert(render(self@) == "false"@);
                }
            },
            JsonValue::Number(n) => {
                let t = n.json_text_exec();
                push_str(out, t.as_str());
            },
            JsonValue::String(s) => {
                write_quoted(out, s.as_str());
            },
            JsonValue::Array(xs) => {
                let ghost start = out@;
                let ghost vs = items_view(xs@);
                push_char(out, '[');
                let mut i: usize = 0;
                while i < xs.len()
                    invariant
                        i <= xs.len(),
                        *self == JsonValue::Array(*xs),
                        vs == items_view(xs@),
                        vs.len() == xs@.len(),
                        forall|j: int| 0 <= j < xs@.len() ==> (#[trigger] vs[j]) == xs@[j]@,
                        forall|j: int| 0 <= j < xs@.len() ==> size(#[trigger] xs@[j]@) < size(self@),
                        out@ == start + seq!['['] + render_items(vs, i as nat),
                    decreases xs.len() - i,
                {
                    if i > 0 {
                        push_char(out, ',');
                    }
                    xs[i].write_json(out);
                    proof {
                        let sep = if i + 1 > 1 { seq![','] } else { Seq::<char>::empty() };
                        assert(render_items(vs, (i + 1) as nat) == render_items(vs, i as nat) + sep + render(vs[i as int]));
                    }
                    i += 1;
                }
                push_char(out, ']');
            },
            JsonValue::Object(es) => {
                let ghost start = out@;
                let ghost ms = members_view(es@);
                push_char(out, '{');
                let mut i: usize = 0;
                while i < es.len()
                    invariant
                        i <= es.len(),
                        *self == JsonValue::Object(*es),
                        ms == members_view(es@),
                        ms.len() == es@.len(),
                        forall|j: int| 0 <= j < es@.len() ==> (#[trigger] ms[j]) == (es@[j].0@, es@[j].1@),
                        forall|j: int| 0 <= j < es@.len() ==> size(#[trigger] es@[j].1@) < size(self@),
                        out@ == start + seq!['{'] + render_members(ms, i as nat),
                    decreases es.len() - i,
                {
                    if i > 0 {
                        push_char(out, ',');
                    }
                    write_quoted(out, es[i].0.as_str());
                    push_char(out, ':');
                    es[i].1.write_json(out);
                    proof {
                        let sep = if i + 1 > 1 { seq![','] } else { Seq::<char>::empty() };
                        assert(render_members(ms, (i + 1) as nat) == render_members(ms, i as nat) + sep + quote(ms[i as int].0) + seq![':'] + render(ms[i as int].1));
                    }
                    i += 1;
                }
                push_char(out, '}');
            },
        }
    }
}

/// `members_in(xs, ys, xs.len())` for the members of two objects.
fn members_in_exec(
    a: &JsonValue,
    b: &JsonValue,
    xs: &Vec<(String, JsonValue)>,
    ys: &Vec<(String, JsonValue)>,
) -> (r: bool)
    requires
        *a == JsonValue::Object(*xs),
        *b == JsonValue::Object(*ys),
    ensures
        r == members_in(members_view(xs@), members_view(ys@), xs@.len()),
    decreases size(a@) + size(b@), 0nat,
{
    proof {
        lemma_value_children(*a);
        lemma_value_children(*b);
    }
    let ghost mx = members_view(xs@);
    let ghost my = members_view(ys@);
    let mut i: usize = 0;
    while i < xs.len()
        invariant
            i <= xs.len(),
            *a == JsonValue::Object(*xs),
            *b == JsonValue::Object(*ys),
            mx == members_view(xs@),
            my == members_view(ys@),
            mx.len() == xs@.len(),
            my.len() == ys@.len(),
            forall|j: int| 0 <= j < xs@.len() ==> (#[trigger] mx[j]) == (xs@[j].0@, xs@[j].1@),
            forall|j: int| 0 <= j < ys@.len() ==> (#[trigger] my[j]) == (ys@[j].0@, ys@[j].1@),
            forall|j: int| 0 <= j < xs@.len() ==> size(#[trigger] xs@[j].1@) < size(a@),
            forall|j: int| 0 <= j < ys@.len() ==> size(#[trigger] ys@[j].1@) < size(b@),
            members_in(mx, my, i as nat),
        decreases xs.len() - i,
    {
        match find_member(ys, &xs[i].0) {
            Some(k) => {
                if !json_equal(&xs[i].1, &ys[k].1) {
                    proof {
                        assert(!members_in(mx, my, (i + 1) as nat));
                        if members_in(mx, my, mx.len()) {
                            lemma_members_in_mono(mx, my, (i + 1) as nat, mx.len());
                        }
                    }
                    return false;
                }
            },
            None => {
                proof {
                    assert(!members_in(mx, my, (i + 1) as nat));
                    if members_in(mx, my, mx.len()) {
                        lemma_members_in_mono(mx, my, (i + 1) as nat, mx.len());
                    }
                }
                return false;
            },
        }
        i += 1;
    }
    true
}

/// `members_in` for a longer prefix implies it for a shorter one.
pub proof fn lemma_members_in_mono(xs: Seq<(Seq<char>, JsonView)>, ys: Seq<(Seq<char>, JsonView)>, i: nat, n: nat)
    requires
        i <= n <= xs.len(),
        members_in(xs, ys, n),
    ensures
        members_in(xs, ys, i),
    decreases n,
{
    if n > i {
        lemma_members_in_mono(xs, ys, i, (n - 1) as nat);
    }
}

/// `items_eq` for a longer prefix implies it for a shorter one.
pub proof fn lemma_items_eq_mono(xs: Seq<JsonView>, ys: Seq<JsonView>, i: nat, n: nat)
    requires
        i <= n <= xs.len(),
        n <= ys.len(),
        items_eq(xs, ys, n),
    ensures
        items_eq(xs, ys, i),
    decreases n,
{
    if n > i {
        lemma_items_eq_mono(xs, ys, i, (n - 1) as nat);
    }
}

/// Whether two values are equal (see `json_eq`).
pub fn json_equal(a: &JsonValue, b: &JsonValue) -> (r: bool)
    ensures
        r == json_eq(a@, b@),
    decreases size(a@) + size(b@), 1nat,
{
    proof {
        lemma_value_children(*a);
        lemma_value_children(*b);
    }
    match (a, b) {
        (JsonValue::Null, JsonValue::Null) => true,
        (JsonValue::Bool(x), JsonValue::Bool(y)) => *x == *y,
        (JsonValue::Number(x), JsonValue::Number(y)) => x.value_eq(y),
        (JsonValue::String(x), JsonValue::String(y)) => *x == *y,
        (JsonValue::Array(xs), JsonValue::Array(ys)) => {
            if xs.len() != ys.len() {
                return false;
            }
            let ghost vx = items_view(xs@);
            let ghost vy = items_view(ys@);
            let mut i: usize = 0;
            while i < xs.len()
                invariant
                    i <= xs.len(),
                    xs.len() == ys.len(),
                    *a == JsonValue::Array(*xs),
                    *b == JsonValue::Array(*ys),
                    vx == items_view(xs@),
                    vy == items_view(ys@),
                    vx.len() == xs@.len(),
                    vy.len() == ys@.len(),
                    forall|j: int| 0 <= j < xs@.len() ==> (#[trigger] vx[j]) == xs@[j]@,
                    forall|j: int| 0 <= j < ys@.len() ==> (#[trigger] vy[j]) == ys@[j]@,
                    forall|j: int| 0 <= j < xs@.len() ==> size(#[trigger] xs@[j]@) < size(a@),
                    forall|j: int| 0 <= j < ys@.len() ==> size(#[trigger] ys@[j]@) < size(b@),
                    items_eq(vx, vy, i as nat),
                decreases xs.len() - i,
            {
                if !json_equal(&xs[i], &ys[i]) {
                    proof {
                        assert(!items_eq(vx, vy, (i + 1) as nat));
                        if items_eq(vx, vy, vx.len()) {
                            lemma_items_eq_mono(vx, vy, (i + 1) as nat, vx.len());
                        }
                    }
                    return false;
                }
                i += 1;
            }
            true
        },
        (JsonValue::Object(xs), JsonValue::Object(ys)) => {
            if xs.len() != ys.len() {
                return false;
            }
            members_in_exec(a, b, xs, ys) && members_in_exec(b, a, ys, xs)
        },
        _ => false,
    }
}

impl Clone for JsonValue {
    fn clone(&self) -> (r: JsonValue)
        ensures
            r@ == self@,
    {
        self.deep_copy()
    }
}

/// Appends the JSON escape of one character.
fn write_escaped_char(out: &mut String, c: char)
    ensures
        final(out)@ == old(out)@ + escape_char(c),
{
    if c == '"' {
        push_char(out, '\\');
        push_char(out, '"');
    } else if c == '\\' {
        push_char(out, '\\');
        push_char(out, '\\');
    } else if c == '\n' {
        push_char(out, '\\');
        push_char(out, 'n');
    } else if c == '\r' {
        push_char(out, '\\');
        push_char(out, 'r');
    } else if c == '\t' {
        push_char(out, '\\');
        push_char(out, 't');
    } else if c == '\u{08}' {
        push_char(out, '\\');
        push_char(out, 'b');
    } else if c == '\u{0c}' {
        push_char(out, '\\');
        push_char(out, 'f');
    } else if (c as u32) < 0x20 {
        push_char(out, '\\');
        push_char(out, 'u');
        push_char(out, '0');
        push_char(out, '0');
        push_char(out, hex_char_exec((c as u32) / 16));
        push_char(out, hex_char_exec((c as u32) % 16));
    } else {
        push_char(out, c);
    }
}

fn hex_char_exec(d: u32) -> (c: char)
    requires
        d < 16,
    ensures
        c == hex_char(d as nat),
{
    if d < 10 {
        digit_char_exec(d)
    } else if d == 10 {
        'a'
    } else if d == 11 {
        'b'
    } else if d == 12 {
        'c'
    } else if d == 13 {
        'd'
    } else if d == 14 {
        'e'
    } else {
        'f'
    }
}

/// Appends a JSON string literal for `s`.
pub fn write_quoted(out: &mut String, s: &str)
    ensures
        final(out)@ == old(out)@ + quote(s@),
{
    let ghost start = out@;
    let cs = to_chars(s);
    push_char(out, '"');
    let mut i: usize = 0;
    while i < cs.len()
        invariant
            i <= cs.len(),
            cs@ == s@,
            out@ == start + seq!['"'] + escape(cs@.take(i as int)),
        decreases cs.len() - i,
    {
        write_escaped_char(out, cs[i]);
        assert(cs@.take(i + 1).drop_last() == cs@.take(i as int));
        i += 1;
    }
    assert(cs@.take(cs.len() as int) == cs@);
    push_char(out, '"');
}

} // verus!
