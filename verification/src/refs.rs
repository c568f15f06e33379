//! `$ref` resolution: JSON Pointers, `$anchor` and `$id` lookups, and a
//! registry of schema documents keyed by URI.
use vstd::prelude::*;

use crate::json::{
    find_key, find_member, lemma_find_key, lemma_find_key_at, lemma_members_view, lemma_value_children, lookup,
    members_view, size, JsonValue, JsonView,
};
use crate::text::{find_char, find_char_from, lemma_find_char, string_from_chars, string_of, to_chars};

verus! {

broadcast use vstd::string::group_string_axioms;

/// `s` without its leading `c` characters.
pub open spec fn trim_leading(s: Seq<char>, c: char) -> Seq<char>
    decreases s.len(),
{
    if s.len() > 0 && s[0] == c {
        trim_leading(s.skip(1), c)
    } else {
        s
    }
}

/// `s` with each occurrence of `a b` (scanning left to right) replaced by `rep`.
pub open spec fn replace_pair(s: Seq<char>, a: char, b: char, rep: char) -> Seq<char>
    decreases s.len(),
{
    if s.len() == 0 {
        Seq::empty()
    } else if s.len() >= 2 && s[0] == a && s[1] == b {
        seq![rep] + replace_pair(s.skip(2), a, b, rep)
    } else {
        seq![s[0]] + replace_pair(s.skip(1), a, b, rep)
    }
}

/// JSON Pointer unescaping: `~1` becomes `/`, then `~0` becomes `~`.
pub open spec fn unescape_spec(token: Seq<char>) -> Seq<char> {
    replace_pair(replace_pair(token, '~', '1', '/'), '~', '0', '~')
}

/// JSON Pointer escaping of a reference token (RFC 6901): `~` becomes `~0`
/// and `/` becomes `~1`.
pub open spec fn escape_token(token: Seq<char>) -> Seq<char>
    decreases token.len(),
{
    if token.len() == 0 {
        Seq::empty()
    } else {
        let head = if token[0] == '~' {
            seq!['~', '0']
        } else if token[0] == '/' {
            seq!['~', '1']
        } else {
            seq![token[0]]
        };
        head + escape_token(token.skip(1))
    }
}

/// `token` with only `~` escaped, as `~0`.
spec fn escape_tildes(token: Seq<char>) -> Seq<char>
    decreases token.len(),
{
    if token.len() == 0 {
        Seq::empty()
    } else if token[0] == '~' {
        seq!['~', '0'] + escape_tildes(token.skip(1))
    } else {
        seq![token[0]] + escape_tildes(token.skip(1))
    }
}

proof fn lemma_unescape_slashes(token: Seq<char>)
    ensures
        replace_pair(escape_token(token), '~', '1', '/') == escape_tildes(token),
    decreases token.len(),
{
    if token.len() > 0 {
        let rest = token.skip(1);
        lemma_unescape_slashes(rest);
        let e = escape_token(token);
        if token[0] == '~' {
            assert(e.skip(1).skip(1) =~= escape_token(rest));
            assert(e.skip(1) =~= seq!['0'] + escape_token(rest));
            assert(e.skip(1)[0] == '0');
            assert(replace_pair(e.skip(1), '~', '1', '/') =~= seq!['0'] + replace_pair(escape_token(rest), '~', '1', '/'));
            assert(replace_pair(e, '~', '1', '/') =~= escape_tildes(token));
        } else if token[0] == '/' {
            assert(e.skip(2) =~= escape_token(rest));
            assert(replace_pair(e, '~', '1', '/') =~= escape_tildes(token));
        } else {
            assert(e.skip(1) =~= escape_token(rest));
            assert(replace_pair(e, '~', '1', '/') =~= escape_tildes(token));
        }
    }
}

proof fn lemma_unescape_tildes(token: Seq<char>)
    ensures
        replace_pair(escape_tildes(token), '~', '0', '~') == token,
    decreases token.len(),
{
    if token.len() > 0 {
        let rest = token.skip(1);
        lemma_unescape_tildes(rest);
        let e = escape_tildes(token);
        if token[0] == '~' {
            assert(e.skip(2) =~= escape_tildes(rest));
        } else {
            assert(e.skip(1) =~= escape_tildes(rest));
        }
        assert(replace_pair(e, '~', '0', '~') =~= seq![token[0]] + rest);
        assert(seq![token[0]] + rest =~= token);
    }
}

/// Unescaping an escaped reference token gives the token back.
pub proof fn law_pointer_token_round_trip(token: Seq<char>)
    ensures
        unescape_spec(escape_token(token)) == token,
{
    lemma_unescape_slashes(token);
    lemma_unescape_tildes(token);
}

/// An array index in a JSON Pointer (RFC 6901): `0`, or decimal digits
/// without a leading zero, read as a `usize`.
pub open spec fn index_spec(s: Seq<char>) -> Option<nat> {
    if s.len() > 0 && s[0] != '+' && (s[0] != '0' || s.len() == 1) {
        crate::number::parse_uint_spec(s, usize::MAX as nat)
    } else {
        None
    }
}

/// The value of a hexadecimal digit.
pub open spec fn hex_value(c: char) -> Option<nat> {
    if '0' <= c && c <= '9' {
        Some((c as int - '0' as int) as nat)
    } else if 'a' <= c && c <= 'f' {
        Some((c as int - 'a' as int + 10) as nat)
    } else if 'A' <= c && c <= 'F' {
        Some((c as int - 'A' as int + 10) as nat)
    } else {
        None
    }
}

/// Whether `s` starts with a percent escape `%XY` of an ASCII character.
pub open spec fn starts_with_escape(s: Seq<char>) -> bool {
    &&& s.len() >= 3
    &&& s[0] == '%'
    &&& hex_value(s[1]) is Some
    &&& hex_value(s[2]) is Some
    &&& hex_value(s[1]).unwrap() < 8
}

/// The character that the escape at the start of `s` stands for.
pub open spec fn escaped_char(s: Seq<char>) -> char {
    ((hex_value(s[1]).unwrap() * 16 + hex_value(s[2]).unwrap()) as u8) as char
}

/// URI fragment decoding: each percent escape `%XY` of an ASCII character
/// (`XY` two hexadecimal digits, below `80`) becomes that character.
pub open spec fn percent_decode(s: Seq<char>) -> Seq<char>
    decreases s.len(),
{
    if s.len() == 0 {
        Seq::empty()
    } else if starts_with_escape(s) {
        seq![escaped_char(s)] + percent_decode(s.skip(3))
    } else {
        seq![s[0]] + percent_decode(s.skip(1))
    }
}

/// One step of a JSON Pointer: the member `seg` of an object, or the item
/// at index `seg` of an array.
pub open spec fn pointer_step(cur: JsonView, seg: Seq<char>) -> Option<JsonView> {
    match cur {
        JsonView::Object(es) => lookup(es, seg),
        JsonView::Array(xs) => match index_spec(seg) {
            Some(i) => if i < xs.len() {
                Some(xs[i as int])
            } else {
                None
            },
            None => None,
        },
        _ => None,
    }
}

/// Follows the pointer text `rest` (what follows a `/`) from `cur`.
pub open spec fn pointer_walk(cur: JsonView, rest: Seq<char>) -> Option<JsonView>
    decreases rest.len(),
{
    let k = find_char(rest, '/');
    let seg = match k {
        Some(k) => rest.take(k as int),
        None => rest,
    };
    match pointer_step(cur, unescape_spec(seg)) {
        None => None,
        Some(next) => match k {
            Some(k) => {
                proof {
                    lemma_find_char(rest, '/');
                }
                pointer_walk(next, rest.skip(k as int + 1))
            },
            None => Some(next),
        },
    }
}

/// The value that the JSON Pointer `p` designates in `doc` (RFC 6901): the
/// text before the first `/` is ignored.
pub open spec fn resolve_pointer_spec(doc: JsonView, p: Seq<char>) -> Option<JsonView> {
    if p.len() == 0 {
        Some(doc)
    } else {
        match find_char(p, '/') {
            None => Some(doc),
            Some(k) => pointer_walk(doc, p.skip(k as int + 1)),
        }
    }
}

/// Whether `node` is an object whose member `key` is the string `name`.
pub open spec fn has_string_member(node: JsonView, key: Seq<char>, name: Seq<char>) -> bool {
    match node {
        JsonView::Object(es) => lookup(es, key) == Some(JsonView::Str(name)),
        _ => false,
    }
}

/// The first node, in pre-order, that is an object whose member `key` is
/// the string `name`.
pub open spec fn search_tagged(node: JsonView, key: Seq<char>, name: Seq<char>) -> Option<JsonView>
    decreases size(node), 1nat, 0nat,
{
    if has_string_member(node, key, name) {
        Some(node)
    } else {
        match node {
            JsonView::Object(es) => search_members(es, key, name, es.len()),
            JsonView::Array(xs) => search_items(xs, key, name, xs.len()),
            _ => None,
        }
    }
}

/// `search_tagged` over the values of the first `n` members, in order.
pub open spec fn search_members(
    es: Seq<(Seq<char>, JsonView)>,
    key: Seq<char>,
    name: Seq<char>,
    n: nat,
) -> Option<JsonView>
    decreases crate::json::entry_sizes(es), 2nat, n,
{
    if n == 0 || n > es.len() {
        None
    } else {
        proof {
            crate::json::lemma_entry_size(es, n - 1);
        }
        match search_members(es, key, name, (n - 1) as nat) {
            Some(x) => Some(x),
            None => search_tagged(es[n - 1].1, key, name),
        }
    }
}

/// `search_tagged` over the first `n` items, in order.
pub open spec fn search_items(xs: Seq<JsonView>, key: Seq<char>, name: Seq<char>, n: nat) -> Option<JsonView>
    decreases crate::json::sizes(xs), 2nat, n,
{
    if n == 0 || n > xs.len() {
        None
    } else {
        proof {
            crate::json::lemma_item_size(xs, n - 1);
        }
        match search_items(xs, key, name, (n - 1) as nat) {
            Some(x) => Some(x),
            None => search_tagged(xs[n - 1], key, name),
        }
    }
}

/// Once an item is found, later items do not change the result.
pub proof fn lemma_search_items_stable(xs: Seq<JsonView>, key: Seq<char>, name: Seq<char>, i: nat, n: nat)
    requires
        i <= n <= xs.len(),
        search_items(xs, key, name, i) is Some,
    ensures
        search_items(xs, key, name, n) == search_items(xs, key, name, i),
    decreases n,
{
    if n > i {
        lemma_search_items_stable(xs, key, name, i, (n - 1) as nat);
    }
}

/// Once a member is found, later members do not change the result.
pub proof fn lemma_search_members_stable(
    es: Seq<(Seq<char>, JsonView)>,
    key: Seq<char>,
    name: Seq<char>,
    i: nat,
    n: nat,
)
    requires
        i <= n <= es.len(),
        search_members(es, key, name, i) is Some,
    ensures
        search_members(es, key, name, n) == search_members(es, key, name, i),
    decreases n,
{
    if n > i {
        lemma_search_members_stable(es, key, name, i, (n - 1) as nat);
    }
}

/// The nodes of `node` in pre-order: the node, then the nodes of each
/// member value or item, in order.
pub open spec fn preorder(node: JsonView) -> Seq<JsonView>
    decreases size(node), 1nat, 0nat,
{
    seq![node] + match node {
        JsonView::Object(es) => preorder_members(es, es.len()),
        JsonView::Array(xs) => preorder_items(xs, xs.len()),
        _ => Seq::empty(),
    }
}

/// `preorder` of the values of the first `n` members, concatenated.
pub open spec fn preorder_members(es: Seq<(Seq<char>, JsonView)>, n: nat) -> Seq<JsonView>
    decreases crate::json::entry_sizes(es), 2nat, n,
{
    if n == 0 || n > es.len() {
        Seq::empty()
    } else {
        proof {
            crate::json::lemma_entry_size(es, n - 1);
        }
        preorder_members(es, (n - 1) as nat) + preorder(es[n - 1].1)
    }
}

/// `preorder` of the first `n` items, concatenated.
pub open spec fn preorder_items(xs: Seq<JsonView>, n: nat) -> Seq<JsonView>
    decreases crate::json::sizes(xs), 2nat, n,
{
    if n == 0 || n > xs.len() {
        Seq::empty()
    } else {
        proof {
            crate::json::lemma_item_size(xs, n - 1);
        }
        preorder_items(xs, (n - 1) as nat) + preorder(xs[n - 1])
    }
}

/// The first of `xs` that is an object whose member `key` is the string
/// `name`.
pub open spec fn first_tagged(xs: Seq<JsonView>, key: Seq<char>, name: Seq<char>) -> Option<JsonView>
    decreases xs.len(),
{
    if xs.len() == 0 {
        None
    } else if has_string_member(xs[0], key, name) {
        Some(xs[0])
    } else {
        first_tagged(xs.skip(1), key, name)
    }
}

proof fn lemma_first_tagged_append(a: Seq<JsonView>, b: Seq<JsonView>, key: Seq<char>, name: Seq<char>)
    ensures
        first_tagged(a + b, key, name) == match first_tagged(a, key, name) {
            Some(x) => Some(x),
            None => first_tagged(b, key, name),
        },
    decreases a.len(),
{
    if a.len() == 0 {
        assert(a + b =~= b);
    } else {
        assert((a + b)[0] == a[0]);
        assert((a + b).skip(1) =~= a.skip(1) + b);
        lemma_first_tagged_append(a.skip(1), b, key, name);
    }
}

/// What `first_tagged` gives: `None` exactly when no element is tagged, and
/// otherwise the earliest tagged element.
pub proof fn lemma_first_tagged(xs: Seq<JsonView>, key: Seq<char>, name: Seq<char>)
    ensures
        first_tagged(xs, key, name) is None <==> forall|i: int|
            0 <= i < xs.len() ==> !has_string_member(#[trigger] xs[i], key, name),
        first_tagged(xs, key, name) matches Some(x) ==> exists|i: int|
            0 <= i < xs.len() && xs[i] == x && has_string_member(x, key, name) && forall|j: int|
                0 <= j < i ==> !has_string_member(#[trigger] xs[j], key, name),
    decreases xs.len(),
{
    if xs.len() > 0 {
        let t = xs.skip(1);
        lemma_first_tagged(t, key, name);
        if !has_string_member(xs[0], key, name) {
            assert forall|i: int| 1 <= i < xs.len() implies xs[i] == t[i - 1] by {}
            if first_tagged(xs, key, name) is None {
                assert forall|i: int| 0 <= i < xs.len() implies !has_string_member(#[trigger] xs[i], key, name) by {
                    if i > 0 {
                        assert(xs[i] == t[i - 1]);
                    }
                }
            } else {
                let x = first_tagged(t, key, name).unwrap();
                let i = choose|i: int|
                    0 <= i < t.len() && t[i] == x && has_string_member(x, key, name) && forall|j: int|
                        0 <= j < i ==> !has_string_member(#[trigger] t[j], key, name);
                assert(xs[i + 1] == x);
                assert forall|j: int| 0 <= j < i + 1 implies !has_string_member(#[trigger] xs[j], key, name) by {
                    if j > 0 {
                        assert(xs[j] == t[j - 1]);
                    }
                }
            }
            if forall|i: int| 0 <= i < xs.len() ==> !has_string_member(#[trigger] xs[i], key, name) {
                assert forall|i: int| 0 <= i < t.len() implies !has_string_member(#[trigger] t[i], key, name) by {
                    assert(t[i] == xs[i + 1]);
                }
            }
        }
    }
}

/// `search_tagged` is the first tagged node in pre-order.
pub proof fn lemma_search_tagged_preorder(node: JsonView, key: Seq<char>, name: Seq<char>)
    ensures
        search_tagged(node, key, name) == first_tagged(preorder(node), key, name),
    decreases size(node), 1nat, 0nat,
{
    let rest = match node {
        JsonView::Object(es) => preorder_members(es, es.len()),
        JsonView::Array(xs) => preorder_items(xs, xs.len()),
        _ => Seq::<JsonView>::empty(),
    };
    assert(preorder(node) == seq![node] + rest);
    assert((seq![node] + rest)[0] == node);
    assert((seq![node] + rest).skip(1) =~= rest);
    let p = seq![node] + rest;
    if !has_string_member(node, key, name) {
        assert(first_tagged(p, key, name) == first_tagged(rest, key, name));
        match node {
            JsonView::Object(es) => lemma_search_members_preorder(es, key, name, es.len()),
            JsonView::Array(xs) => lemma_search_items_preorder(xs, key, name, xs.len()),
            _ => {
                assert(first_tagged(rest, key, name) is None);
            },
        }
    } else {
        assert(first_tagged(p, key, name) == Some(node));
    }
}

proof fn lemma_search_members_preorder(es: Seq<(Seq<char>, JsonView)>, key: Seq<char>, name: Seq<char>, n: nat)
    ensures
        search_members(es, key, name, n) == first_tagged(preorder_members(es, n), key, name),
    decreases crate::json::entry_sizes(es), 2nat, n,
{
    if n > 0 && n <= es.len() {
        crate::json::lemma_entry_size(es, n - 1);
        lemma_search_members_preorder(es, key, name, (n - 1) as nat);
        lemma_search_tagged_preorder(es[n - 1].1, key, name);
        lemma_first_tagged_append(preorder_members(es, (n - 1) as nat), preorder(es[n - 1].1), key, name);
    }
}

proof fn lemma_search_items_preorder(xs: Seq<JsonView>, key: Seq<char>, name: Seq<char>, n: nat)
    ensures
        search_items(xs, key, name, n) == first_tagged(preorder_items(xs, n), key, name),
    decreases crate::json::sizes(xs), 2nat, n,
{
    if n > 0 && n <= xs.len() {
        crate::json::lemma_item_size(xs, n - 1);
        lemma_search_items_preorder(xs, key, name, (n - 1) as nat);
        lemma_search_tagged_preorder(xs[n - 1], key, name);
        lemma_first_tagged_append(preorder_items(xs, (n - 1) as nat), preorder(xs[n - 1]), key, name);
    }
}

/// The member key `"$anchor"`.
pub open spec fn anchor_key() -> Seq<char> {
    seq!['$', 'a', 'n', 'c', 'h', 'o', 'r']
}

/// The member key `"$id"`.
pub open spec fn id_key() -> Seq<char> {
    seq!['$', 'i', 'd']
}

/// The node named by an `$anchor` reference (leading `#` removed; an empty
/// name designates the document).
pub open spec fn resolve_anchor_spec(doc: JsonView, anchor: Seq<char>) -> Option<JsonView> {
    let name = trim_leading(anchor, '#');
    if name.len() == 0 {
        Some(doc)
    } else {
        search_tagged(doc, anchor_key(), name)
    }
}

/// The sub-schema whose `$id` is `id`.
pub open spec fn find_by_id_spec(doc: JsonView, id: Seq<char>) -> Option<JsonView> {
    search_tagged(doc, id_key(), id)
}

/// What a tagged search finds: the first node in pre-order that is an
/// object whose member `key` is the string `name`; `None` exactly when no
/// node of the document is such an object.
pub open spec fn first_in_preorder(doc: JsonView, key: Seq<char>, name: Seq<char>, r: Option<JsonView>) -> bool {
    let nodes = preorder(doc);
    &&& r == first_tagged(nodes, key, name)
    &&& r is None <==> forall|i: int| 0 <= i < nodes.len() ==> !has_string_member(#[trigger] nodes[i], key, name)
    &&& r matches Some(x) ==> exists|i: int|
        0 <= i < nodes.len() && nodes[i] == x && has_string_member(x, key, name) && forall|j: int|
            0 <= j < i ==> !has_string_member(#[trigger] nodes[j], key, name)
}

/// `$anchor` lookup: a name that is empty once its leading `#` are removed
/// designates the whole document; any other name designates the first node,
/// in pre-order, whose `$anchor` is that name, and nothing exactly when no
/// node has it.
pub proof fn law_anchor_lookup(doc: JsonView, anchor: Seq<char>)
    ensures
        trim_leading(anchor, '#').len() == 0 ==> resolve_anchor_spec(doc, anchor) == Some(doc),
        trim_leading(anchor, '#').len() > 0 ==> first_in_preorder(
            doc,
            anchor_key(),
            trim_leading(anchor, '#'),
            resolve_anchor_spec(doc, anchor),
        ),
{
    let name = trim_leading(anchor, '#');
    lemma_search_tagged_preorder(doc, anchor_key(), name);
    lemma_first_tagged(preorder(doc), anchor_key(), name);
}

/// `$id` lookup: the first node, in pre-order, whose `$id` is `id`, and
/// nothing exactly when no node has it.
pub proof fn law_id_lookup(doc: JsonView, id: Seq<char>)
    ensures
        first_in_preorder(doc, id_key(), id, find_by_id_spec(doc, id)),
{
    lemma_search_tagged_preorder(doc, id_key(), id);
    lemma_first_tagged(preorder(doc), id_key(), id);
}

/// A URI fragment resolved in `doc`: empty designates the document, a
/// leading `/` makes it a JSON Pointer (read after percent decoding),
/// otherwise it names an anchor.
pub open spec fn resolve_fragment(doc: JsonView, frag: Seq<char>) -> Option<JsonView> {
    if frag.len() == 0 {
        Some(doc)
    } else if frag[0] == '/' {
        resolve_pointer_spec(doc, percent_decode(frag))
    } else {
        resolve_anchor_spec(doc, frag)
    }
}

/// What `SchemaRegistry::resolve` gives for `r` with `store` and `base`.
pub open spec fn registry_resolve(store: Seq<(Seq<char>, JsonView)>, base: JsonView, r: Seq<char>) -> Option<JsonView> {
    if r.len() > 0 && r[0] == '#' {
        resolve_fragment(base, trim_leading(r, '#'))
    } else {
        match find_char(r, '#') {
            Some(k) => match lookup(store, r.take(k as int)) {
                Some(doc) => resolve_fragment(doc, trim_leading(r.skip(k as int), '#')),
                None => None,
            },
            None => lookup(store, r),
        }
    }
}

/// Schema documents keyed by URI.
#[derive(Debug)]
pub struct SchemaRegistry {
    pub store: Vec<(String, JsonValue)>,
}

impl View for SchemaRegistry {
    type V = Seq<(Seq<char>, JsonView)>;

    open spec fn view(&self) -> Seq<(Seq<char>, JsonView)> {
        members_view(self.store@)
    }
}

impl Clone for SchemaRegistry {
    fn clone(&self) -> (r: SchemaRegistry)
        ensures
            r@ == self@,
    {
        let mut store: Vec<(String, JsonValue)> = Vec::new();
        let mut i: usize = 0;
        while i < self.store.len()
            invariant
                i <= self.store.len(),
                store@.len() == i,
                forall|j: int| 0 <= j < i ==> (#[trigger] store@[j]).0@ == self.store@[j].0@ && store@[j].1@ == self.store@[j].1@,
            decreases self.store.len() - i,
        {
            let e = (self.store[i].0.clone(), self.store[i].1.deep_copy());
            store.push(e);
            i += 1;
        }
        proof {
            crate::json::lemma_members_view(store@);
            crate::json::lemma_members_view(self.store@);
            assert(members_view(store@) =~= members_view(self.store@));
        }
        SchemaRegistry { store }
    }
}

impl Default for SchemaRegistry {
    fn default() -> (r: SchemaRegistry)
        ensures
            r@ == Seq::<(Seq<char>, JsonView)>::empty(),
    {
        SchemaRegistry { store: Vec::new() }
    }
}

impl SchemaRegistry {
    /// Registers a document under `uri`, replacing any document registered
    /// under the same URI.
    pub fn add(&mut self, uri: &str, schema: JsonValue)
        ensures
            forall|u: Seq<char>| #[trigger] lookup(final(self)@, u) == if u == uri@ {
                Some(schema@)
            } else {
                lookup(old(self)@, u)
            },
    {
        let key = string_of(uri);
        let ghost old_store = self.store@;
        proof {
            lemma_members_view(old_store);
        }
        match find_member(&self.store, &key) {
            Some(i) => {
                let ghost v = schema@;
                self.store.set(i, (key, schema));
                proof {
                    lemma_members_view(self.store@);
                    let a = members_view(old_store);
                    let b = members_view(self.store@);
                    assert(b =~= a.update(i as int, (uri@, v)));
                    assert forall|u: Seq<char>| #[trigger] lookup(b, u) == if u == uri@ {
                        Some(v)
                    } else {
                        lookup(a, u)
                    } by {
                        lemma_find_key(a, u);
                        lemma_find_key(b, u);
                        lemma_find_key(a, uri@);
                        if u == uri@ {
                            lemma_find_key_at(b, u, i as int);
                        } else {
                            if let Some(k) = find_key(a, u) {
                                assert(a[k as int].0 == u);
                                assert(b[k as int] == a[k as int]);
                                assert forall|j: int| 0 <= j < k implies b[j].0 != u by {
                                    if j != i {
                                        assert(b[j] == a[j]);
                                    }
                                }
                                lemma_find_key_at(b, u, k as int);
                            } else {
                                if let Some(k2) = find_key(b, u) {
                                    if k2 != i {
                                        assert(b[k2 as int] == a[k2 as int]);
                                    }
                                }
                            }
                        }
                    }
                }
            },
            None => {
                let ghost v = schema@;
                self.store.push((key, schema));
                proof {
                    lemma_members_view(self.store@);
                    let a = members_view(old_store);
                    let b = members_view(self.store@);
                    assert(b =~= a.push((uri@, v)));
                    assert forall|u: Seq<char>| #[trigger] lookup(b, u) == if u == uri@ {
                        Some(v)
                    } else {
                        lookup(a, u)
                    } by {
                        lemma_find_key(a, u);
                        lemma_find_key(b, u);
                        if u == uri@ {
                            lemma_find_key_at(b, u, a.len() as int);
                        } else {
                            if let Some(k) = find_key(a, u) {
                                assert(b[k as int] == a[k as int]);
                                assert forall|j: int| 0 <= j < k implies b[j].0 != u by {
                                    assert(b[j] == a[j]);
                                }
                                lemma_find_key_at(b, u, k as int);
                            } else {
                                if let Some(k2) = find_key(b, u) {
                                    if k2 < a.len() {
                                        assert(b[k2 as int] == a[k2 as int]);
                                    }
                                }
                            }
                        }
                    }
                }
            },
        }
    }

    /// The document registered under `uri`.
    pub fn get(&self, uri: &str) -> (r: Option<&JsonValue>)
        ensures
            r matches Some(x) ==> lookup(self@, uri@) == Some(x@),
            r is None ==> lookup(self@, uri@) is None,
    {
        let key = string_of(uri);
        match find_member(&self.store, &key) {
            Some(i) => {
                proof {
                    lemma_members_view(self.store@);
                }
                Some(&self.store[i].1)
            },
            None => None,
        }
    }

    pub(crate) fn get_chars(&self, cs: &Vec<char>, from: usize, to: usize) -> (r: Option<&JsonValue>)
        requires
            from <= to <= cs.len(),
        ensures
            r matches Some(x) ==> lookup(self@, cs@.subrange(from as int, to as int)) == Some(x@),
            r is None ==> lookup(self@, cs@.subrange(from as int, to as int)) is None,
    {
        let key = string_from_chars(cs, from, to);
        self.get(key.as_str())
    }

    /// Resolves a `$ref` string against `base_doc` and the registered
    /// documents; `None` when it cannot be resolved.
    pub fn resolve(&self, base_doc: &JsonValue, ref_val: &str) -> (r: Option<JsonValue>)
        ensures
            r matches Some(x) ==> registry_resolve(self@, base_doc@, ref_val@) == Some(x@),
            r is None ==> registry_resolve(self@, base_doc@, ref_val@) is None,
    {
        let cs = to_chars(ref_val);
        assert(cs@.skip(0) == cs@);
        if cs.len() > 0 && cs[0] == '#' {
            let f = trim_leading_from(&cs, 0, '#');
            return resolve_fragment_chars(base_doc, &cs, f);
        }
        match find_char_from(&cs, 0, '#') {
            Some(k) => {
                assert(cs@.skip(0) == cs@);
                match self.get_chars(&cs, 0, k) {
                    Some(doc) => {
                        assert(cs@.subrange(0, k as int) == cs@.take(k as int));
                        let f = trim_leading_from(&cs, k, '#');
                        resolve_fragment_chars(doc, &cs, f)
                    },
                    None => {
                        assert(cs@.subrange(0, k as int) == cs@.take(k as int));
                        None
                    },
                }
            },
            None => {
                assert(cs@.skip(0) == cs@);
                assert(cs@.subrange(0, cs.len() as int) == cs@);
                match self.get_chars(&cs, 0, cs.len()) {
                    Some(doc) => Some(doc.deep_copy()),
                    None => None,
                }
            },
        }
    }
}

/// `trim_leading` of a suffix: the index of the first character at or after
/// `from` that is not `c`.
pub fn trim_leading_from(cs: &Vec<char>, from: usize, c: char) -> (r: usize)
    requires
        from <= cs.len(),
    ensures
        from <= r <= cs.len(),
        trim_leading(cs@.skip(from as int), c) == cs@.skip(r as int),
{
    let mut i = from;
    while i < cs.len() && cs[i] == c
        invariant
            from <= i <= cs.len(),
            trim_leading(cs@.skip(from as int), c) == trim_leading(cs@.skip(i as int), c),
        decreases cs.len() - i,
    {
        assert(cs@.skip(i as int).skip(1) == cs@.skip(i + 1));
        i += 1;
    }
    i
}

/// `resolve_fragment(doc, cs[from..])`.
pub(crate) fn resolve_fragment_chars(doc: &JsonValue, cs: &Vec<char>, from: usize) -> (r: Option<JsonValue>)
    requires
        from <= cs.len(),
    ensures
        r matches Some(x) ==> resolve_fragment(doc@, cs@.skip(from as int)) == Some(x@),
        r is None ==> resolve_fragment(doc@, cs@.skip(from as int)) is None,
{
    if from == cs.len() {
        return Some(doc.deep_copy());
    }
    if cs[from] == '/' {
        let decoded = percent_decode_from(cs, from);
        assert(decoded@.skip(0) == decoded@);
        resolve_pointer_chars(doc, &decoded, 0)
    } else {
        resolve_anchor_chars(doc, cs, from)
    }
}

/// Reverses the JSON Pointer escapes `~1` (to `/`) and `~0` (to `~`).
pub fn unescape_json_pointer(token: &str) -> (r: String)
    ensures
        r@ == unescape_spec(token@),
{
    let cs = to_chars(token);
    let a = replace_pair_exec(&cs, 0, cs.len(), '~', '1', '/');
    let b = replace_pair_exec(&a, 0, a.len(), '~', '0', '~');
    assert(cs@.subrange(0, cs.len() as int) == cs@);
    assert(a@.subrange(0, a.len() as int) == a@);
    string_from_chars(&b, 0, b.len())
}

/// `replace_pair(cs[from..to], a, b, rep)`.
fn replace_pair_exec(cs: &Vec<char>, from: usize, to: usize, a: char, b: char, rep: char) -> (r: Vec<char>)
    requires
        from <= to <= cs.len(),
    ensures
        r@ == replace_pair(cs@.subrange(from as int, to as int), a, b, rep),
        from == to ==> r@.len() == 0,
{
    let mut out: Vec<char> = Vec::new();
    let mut i = from;
    while i < to
        invariant
            from <= i <= to <= cs.len(),
            replace_pair(cs@.subrange(from as int, to as int), a, b, rep) == out@ + replace_pair(
                cs@.subrange(i as int, to as int),
                a,
                b,
                rep,
            ),
        decreases to - i,
    {
        let ghost s = cs@.subrange(i as int, to as int);
        if i + 1 < to && cs[i] == a && cs[i + 1] == b {
            assert(s.skip(2) == cs@.subrange(i + 2, to as int));
            out.push(rep);
            i += 2;
        } else {
            assert(s.skip(1) == cs@.subrange(i + 1, to as int));
            out.push(cs[i]);
            i += 1;
        }
    }
    assert(cs@.subrange(to as int, to as int).len() == 0);
    assert(out@ + Seq::<char>::empty() == out@);
    out
}

/// `index_spec(cs[from..to])`.
pub fn parse_index_chars(cs: &Vec<char>, from: usize, to: usize) -> (r: Option<usize>)
    requires
        from <= to <= cs.len(),
    ensures
        r matches Some(v) ==> index_spec(cs@.subrange(from as int, to as int)) == Some(v as nat),
        r is None ==> index_spec(cs@.subrange(from as int, to as int)) is None,
{
    if from < to && cs[from] != '+' && (cs[from] != '0' || to - from == 1) {
        match crate::number::parse_uint_chars(cs, from, to, usize::MAX as u64) {
            Some(v) => Some(v as usize),
            None => None,
        }
    } else {
        None
    }
}

/// The value of a hexadecimal digit.
fn hex_value_exec(c: char) -> (r: Option<u32>)
    ensures
        r matches Some(v) ==> hex_value(c) == Some(v as nat),
        r is None ==> hex_value(c) is None,
{
    if '0' <= c && c <= '9' {
        Some((c as u32) - ('0' as u32))
    } else if 'a' <= c && c <= 'f' {
        Some((c as u32) - ('a' as u32) + 10)
    } else if 'A' <= c && c <= 'F' {
        Some((c as u32) - ('A' as u32) + 10)
    } else {
        None
    }
}

/// `percent_decode(cs[from..])`.
pub fn percent_decode_from(cs: &Vec<char>, from: usize) -> (r: Vec<char>)
    requires
        from <= cs.len(),
    ensures
        r@ == percent_decode(cs@.skip(from as int)),
{
    let mut out: Vec<char> = Vec::new();
    let mut i = from;
    while i < cs.len()
        invariant
            from <= i <= cs.len(),
            out@ + percent_decode(cs@.skip(i as int)) == percent_decode(cs@.skip(from as int)),
        decreases cs.len() - i,
    {
        let ghost t = cs@.skip(i as int);
        let mut step: usize = 1;
        if cs.len() - i > 2 && cs[i] == '%' {
            match (hex_value_exec(cs[i + 1]), hex_value_exec(cs[i + 2])) {
                (Some(h), Some(l)) => {
                    if h < 8 {
                        let c = ((h * 16 + l) as u8) as char;
                        assert(t[1] == cs@[i + 1] && t[2] == cs@[i + 2]);
                        assert(starts_with_escape(t));
                        assert(c == escaped_char(t));
                        assert(t.skip(3) == cs@.skip(i + 3));
                        assert(percent_decode(t) == seq![c] + percent_decode(t.skip(3)));
                        assert(out@.push(c) + percent_decode(cs@.skip(i + 3)) == out@ + percent_decode(t));
                        out.push(c);
                        step = 3;
                    }
                },
                _ => {},
            }
        }
        if step == 1 {
            proof {
                if starts_with_escape(t) {
                    assert(t[1] == cs@[i + 1] && t[2] == cs@[i + 2]);
                }
                assert(!starts_with_escape(t));
                assert(t.skip(1) == cs@.skip(i + 1));
                assert(percent_decode(t) == seq![t[0]] + percent_decode(t.skip(1)));
                assert(out@.push(cs@[i as int]) + percent_decode(cs@.skip(i + 1)) == out@ + percent_decode(t));
            }
            out.push(cs[i]);
        }
        i = i + step;
    }
    assert(out@ + Seq::<char>::empty() == out@);
    out
}

/// `pointer_step(cur, seg)` with `seg` given as characters.
fn pointer_step_exec<'a>(cur: &'a JsonValue, seg: &Vec<char>) -> (r: Option<&'a JsonValue>)
    ensures
        r matches Some(x) ==> pointer_step(cur@, seg@) == Some(x@) && size(x@) < size(cur@),
        r is None ==> pointer_step(cur@, seg@) is None,
{
    proof {
        lemma_value_children(*cur);
    }
    match cur {
        JsonValue::Object(_) => {
            let key = string_from_chars(seg, 0, seg.len());
            assert(seg@.subrange(0, seg.len() as int) == seg@);
            cur.get(key.as_str())
        },
        JsonValue::Array(xs) => {
            assert(seg@.subrange(0, seg.len() as int) == seg@);
            match parse_index_chars(seg, 0, seg.len()) {
                Some(i) => {
                    if i < xs.len() {
                        Some(&xs[i])
                    } else {
                        None
                    }
                },
                None => None,
            }
        },
        _ => None,
    }
}

/// Locates the value that a JSON Pointer (RFC 6901) designates.
pub fn resolve_pointer(doc: &JsonValue, pointer: &str) -> (r: Option<JsonValue>)
    ensures
        r matches Some(x) ==> resolve_pointer_spec(doc@, pointer@) == Some(x@),
        r is None ==> resolve_pointer_spec(doc@, pointer@) is None,
{
    let cs = to_chars(pointer);
    assert(cs@.skip(0) == cs@);
    resolve_pointer_chars(doc, &cs, 0)
}

/// `resolve_pointer_spec(doc, cs[from..])`.
fn resolve_pointer_chars(doc: &JsonValue, cs: &Vec<char>, from: usize) -> (r: Option<JsonValue>)
    requires
        from <= cs.len(),
    ensures
        r matches Some(x) ==> resolve_pointer_spec(doc@, cs@.skip(from as int)) == Some(x@),
        r is None ==> resolve_pointer_spec(doc@, cs@.skip(from as int)) is None,
{
    let ghost p = cs@.skip(from as int);
    if from == cs.len() {
        return Some(doc.deep_copy());
    }
    let first = find_char_from(cs, from, '/');
    let mut start = match first {
        None => {
            return Some(doc.deep_copy());
        },
        Some(k) => k + 1,
    };
    proof {
        assert(p.skip((start - 1 - from) + 1) == cs@.skip(start as int));
    }
    let mut current: &JsonValue = doc;
    loop
        invariant
            from < start <= cs.len(),
            p == cs@.skip(from as int),
            resolve_pointer_spec(doc@, p) == pointer_walk(current@, cs@.skip(start as int)),
        decreases cs.len() - start,
    {
        let ghost rest = cs@.skip(start as int);
        let k = find_char_from(cs, start, '/');
        let end = match k {
            Some(k) => k,
            None => cs.len(),
        };
        let seg = unescape_range(cs, start, end);
        proof {
            match k {
                Some(kk) => {
                    assert(rest.take(kk - start) == cs@.subrange(start as int, kk as int));
                },
                None => {
                    assert(rest == cs@.subrange(start as int, cs.len() as int));
                },
            }
        }
        match pointer_step_exec(current, &seg) {
            None => {
                return None;
            },
            Some(next) => match k {
                None => {
                    return Some(next.deep_copy());
                },
                Some(kk) => {
                    proof {
                        assert(rest.skip(kk - start + 1) == cs@.skip(kk + 1));
                    }
                    current = next;
                    start = kk + 1;
                },
            },
        }
    }
}

/// `unescape_spec(cs[from..to])`.
fn unescape_range(cs: &Vec<char>, from: usize, to: usize) -> (r: Vec<char>)
    requires
        from <= to <= cs.len(),
    ensures
        r@ == unescape_spec(cs@.subrange(from as int, to as int)),
{
    let a = replace_pair_exec(cs, from, to, '~', '1', '/');
    let b = replace_pair_exec(&a, 0, a.len(), '~', '0', '~');
    assert(a@.subrange(0, a.len() as int) == a@);
    b
}

/// Resolves an `$anchor` reference: returns the node whose `$anchor`
/// matches the name (leading `#` removed).
pub fn resolve_anchor(doc: &JsonValue, anchor_name: &str) -> (r: Option<JsonValue>)
    ensures
        r matches Some(x) ==> resolve_anchor_spec(doc@, anchor_name@) == Some(x@),
        r is None ==> resolve_anchor_spec(doc@, anchor_name@) is None,
{
    let cs = to_chars(anchor_name);
    assert(cs@.skip(0) == cs@);
    resolve_anchor_chars(doc, &cs, 0)
}

/// `resolve_anchor_spec(doc, cs[from..])`.
fn resolve_anchor_chars(doc: &JsonValue, cs: &Vec<char>, from: usize) -> (r: Option<JsonValue>)
    requires
        from <= cs.len(),
    ensures
        r matches Some(x) ==> resolve_anchor_spec(doc@, cs@.skip(from as int)) == Some(x@),
        r is None ==> resolve_anchor_spec(doc@, cs@.skip(from as int)) is None,
{
    let start = trim_leading_from(cs, from, '#');
    if start == cs.len() {
        return Some(doc.deep_copy());
    }
    let name = string_from_chars(cs, start, cs.len());
    assert(cs@.skip(start as int) == cs@.subrange(start as int, cs.len() as int));
    search_anchor(doc, &name)
}

/// Whether `node` is an object whose member `key` is the string `name`.
fn has_string_member_exec(node: &JsonValue, key: &str, name: &String) -> (r: bool)
    ensures
        r == has_string_member(node@, key@, name@),
{
    match node.get(key) {
        Some(v) => match v.as_str() {
            Some(a) => *a == *name,
            None => false,
        },
        None => false,
    }
}

/// The first node, in pre-order, that is an object whose member `key` is the
/// string `name`.  Objects holding `"$ref"` are searched through all their
/// members; other objects through all members but any keyed `"$ref"`.
fn search_tagged_exec(node: &JsonValue, key: &str, name: &String) -> (r: Option<JsonValue>)
    ensures
        r matches Some(x) ==> search_tagged(node@, key@, name@) == Some(x@),
        r is None ==> search_tagged(node@, key@, name@) is None,
    decreases size(node@), 1nat,
{
    proof {
        lemma_value_children(*node);
    }
    if has_string_member_exec(node, key, name) {
        return Some(node.deep_copy());
    }
    match node {
        JsonValue::Object(es) => {
            let has_ref = node.contains_key("$ref");
            search_values(node, es, key, name, !has_ref)
        },
        JsonValue::Array(xs) => {
            let ghost vs = crate::json::items_view(xs@);
            let mut i: usize = 0;
            while i < xs.len()
                invariant
                    i <= xs.len(),
                    *node == JsonValue::Array(*xs),
                    vs == crate::json::items_view(xs@),
                    vs.len() == xs@.len(),
                    forall|j: int| 0 <= j < xs@.len() ==> (#[trigger] vs[j]) == xs@[j]@,
                    forall|j: int| 0 <= j < xs@.len() ==> size(#[trigger] xs@[j]@) < size(node@),
                    search_items(vs, key@, name@, i as nat) is None,
                decreases xs.len() - i,
            {
                match search_tagged_exec(&xs[i], key, name) {
                    Some(x) => {
                        proof {
                            lemma_search_items_stable(vs, key@, name@, (i + 1) as nat, vs.len());
                        }
                        return Some(x);
                    },
                    None => {},
                }
                i += 1;
            }
            None
        },
        _ => None,
    }
}

/// Searches the member values of an object in order; members keyed
/// `"$ref"` are passed over when `skip_ref` is set (there are none then).
fn search_values(node: &JsonValue, es: &Vec<(String, JsonValue)>, key: &str, name: &String, skip_ref: bool) -> (r: Option<JsonValue>)
    requires
        *node == JsonValue::Object(*es),
        skip_ref ==> get_key_is_none(node@, "$ref"@),
    ensures
        r matches Some(x) ==> search_members(members_view(es@), key@, name@, es@.len()) == Some(x@),
        r is None ==> search_members(members_view(es@), key@, name@, es@.len()) is None,
    decreases size(node@), 0nat,
{
    proof {
        lemma_value_children(*node);
    }
    let ghost ms = members_view(es@);
    let ref_key = string_of("$ref");
    let mut i: usize = 0;
    while i < es.len()
        invariant
            i <= es.len(),
            *node == JsonValue::Object(*es),
            ms == members_view(es@),
            ms.len() == es@.len(),
            ref_key@ == "$ref"@,
            skip_ref ==> get_key_is_none(node@, "$ref"@),
            forall|j: int| 0 <= j < es@.len() ==> (#[trigger] ms[j]) == (es@[j].0@, es@[j].1@),
            forall|j: int| 0 <= j < es@.len() ==> size(#[trigger] es@[j].1@) < size(node@),
            search_members(ms, key@, name@, i as nat) is None,
        decreases es.len() - i,
    {
        if skip_ref && es[i].0 == ref_key {
            proof {
                lemma_find_key(ms, "$ref"@);
                assert(ms[i as int].0 == "$ref"@);
            }
            i += 1;
            continue;
        }
        match search_tagged_exec(&es[i].1, key, name) {
            Some(x) => {
                proof {
                    lemma_search_members_stable(ms, key@, name@, (i + 1) as nat, ms.len());
                }
                return Some(x);
            },
            None => {},
        }
        i += 1;
    }
    None
}

/// Whether an object has no member `key` (or the value is not an object).
pub open spec fn get_key_is_none(v: JsonView, key: Seq<char>) -> bool {
    crate::json::get_key(v, key) is None
}

/// The first node, in pre-order, whose `$anchor` is `name`.
fn search_anchor(node: &JsonValue, name: &String) -> (r: Option<JsonValue>)
    ensures
        r matches Some(x) ==> search_tagged(node@, anchor_key(), name@) == Some(x@),
        r is None ==> search_tagged(node@, anchor_key(), name@) is None,
{
    proof {
        reveal_strlit("$anchor");
        assert("$anchor"@ =~= anchor_key());
    }
    search_tagged_exec(node, "$anchor", name)
}

/// Finds the sub-schema whose `$id` equals `target_id`.
pub fn find_by_id(doc: &JsonValue, target_id: &str) -> (r: Option<JsonValue>)
    ensures
        r matches Some(x) ==> find_by_id_spec(doc@, target_id@) == Some(x@),
        r is None ==> find_by_id_spec(doc@, target_id@) is None,
{
    proof {
        reveal_strlit("$id");
        assert("$id"@ =~= id_key());
    }
    let t = string_of(target_id);
    search_tagged_exec(doc, "$id", &t)
}

} // verus!
