//! JSON values as the packers and the request carrier see them.
//!
//! A [`JsonMap`] keeps its keys in ascending order of their UTF-8 bytes, as a
//! B-tree map of strings does, so two maps with the same entries are equal
//! value by value and are always walked in the same order.

use vstd::prelude::*;

verus! {

broadcast use vstd::utf8::encode_utf8_decode_utf8;

/// The mathematical model of a [`JsonValue`].
pub enum JsonView {
    Null,
    Bool(bool),
    Number(Seq<char>),
    Str(Seq<char>),
    Array(Seq<JsonView>),
    Object(Seq<(Seq<char>, JsonView)>),
}

/// A JSON value; a number is held as its decimal text.
#[derive(Debug, PartialEq)]
pub enum JsonValue {
    Null,
    Bool(bool),
    Number(String),
    String(String),
    Array(Vec<JsonValue>),
    Object(JsonMap),
}

/// A JSON object whose keys are kept in ascending byte order.
#[derive(Debug, PartialEq)]
pub struct JsonMap {
    entries: Vec<(String, JsonValue)>,
}

/// Three-way result of comparing two keys.
#[derive(PartialEq, Eq, Structural, Clone, Copy, Debug)]
pub enum KeyOrder {
    Less,
    Equal,
    Greater,
}

impl JsonValue {
    pub open spec fn view(&self) -> JsonView
        decreases self,
    {
        match self {
            JsonValue::Null => JsonView::Null,
            JsonValue::Bool(b) => JsonView::Bool(*b),
            JsonValue::Number(n) => JsonView::Number(n@),
            JsonValue::String(s) => JsonView::Str(s@),
            JsonValue::Array(items) => JsonView::Array(
                Seq::new(
                    items.len() as nat,
                    |i: int| if 0 <= i < items.len() { items@[i].view() } else { JsonView::Null },
                ),
            ),
            JsonValue::Object(m) => JsonView::Object(m.entries_view()),
        }
    }
}

/// The view of a sequence of values, element by element.
pub open spec fn views_of(items: Seq<JsonValue>) -> Seq<JsonView> {
    Seq::new(items.len(), |i: int| items[i]@)
}

/// Byte-wise lexicographic order.
pub open spec fn bytes_lt(a: Seq<u8>, b: Seq<u8>) -> bool
    decreases a.len(),
{
    if a.len() == 0 {
        b.len() > 0
    } else if b.len() == 0 {
        false
    } else if a[0] != b[0] {
        a[0] < b[0]
    } else {
        bytes_lt(a.drop_first(), b.drop_first())
    }
}

/// Key order: the byte order of the keys' UTF-8 encodings.
pub open spec fn key_lt(a: Seq<char>, b: Seq<char>) -> bool {
    bytes_lt(vstd::utf8::encode_utf8(a), vstd::utf8::encode_utf8(b))
}

/// Entries are strictly ascending by key (so no key occurs twice).
pub open spec fn keys_sorted(e: Seq<(Seq<char>, JsonView)>) -> bool {
    forall|i: int, j: int| 0 <= i < j < e.len() ==> key_lt(#[trigger] e[i].0, #[trigger] e[j].0)
}

/// Number of leading entries whose key is below `k`.
pub open spec fn lower_bound(e: Seq<(Seq<char>, JsonView)>, k: Seq<char>) -> int
    decreases e.len(),
{
    if e.len() == 0 {
        0
    } else if key_lt(e[0].0, k) {
        1 + lower_bound(e.drop_first(), k)
    } else {
        0
    }
}

/// The value stored under `k`, if any.
pub open spec fn map_get(e: Seq<(Seq<char>, JsonView)>, k: Seq<char>) -> Option<JsonView> {
    let p = lower_bound(e, k);
    if p < e.len() && e[p].0 == k {
        Some(e[p].1)
    } else {
        None
    }
}

/// The entries after storing `v` under `k` (replacing a previous value).
pub open spec fn map_insert(e: Seq<(Seq<char>, JsonView)>, k: Seq<char>, v: JsonView) -> Seq<
    (Seq<char>, JsonView),
> {
    let p = lower_bound(e, k);
    if p < e.len() && e[p].0 == k {
        e.update(p, (k, v))
    } else {
        e.insert(p, (k, v))
    }
}

/// The keys of the entries, in order.
pub open spec fn keys_of(e: Seq<(Seq<char>, JsonView)>) -> Seq<Seq<char>> {
    Seq::new(e.len(), |i: int| e[i].0)
}

pub proof fn lemma_bytes_lt_irreflexive(a: Seq<u8>)
    ensures
        !bytes_lt(a, a),
    decreases a.len(),
{
    if a.len() > 0 {
        lemma_bytes_lt_irreflexive(a.drop_first());
    }
}

pub proof fn lemma_bytes_lt_transitive(a: Seq<u8>, b: Seq<u8>, c: Seq<u8>)
    requires
        bytes_lt(a, b),
        bytes_lt(b, c),
    ensures
        bytes_lt(a, c),
    decreases a.len(),
{
    if a.len() > 0 && b.len() > 0 && c.len() > 0 && a[0] == b[0] && b[0] == c[0] {
        lemma_bytes_lt_transitive(a.drop_first(), b.drop_first(), c.drop_first());
    }
}

pub proof fn lemma_bytes_lt_total(a: Seq<u8>, b: Seq<u8>)
    ensures
        a =~= b || bytes_lt(a, b) || bytes_lt(b, a),
    decreases a.len(),
{
    if a.len() > 0 && b.len() > 0 && a[0] == b[0] {
        lemma_bytes_lt_total(a.drop_first(), b.drop_first());
        if a.drop_first() =~= b.drop_first() {
            assert(a =~= seq![a[0]] + a.drop_first());
            assert(b =~= seq![b[0]] + b.drop_first());
        }
    }
}

pub proof fn lemma_bytes_lt_asymmetric(a: Seq<u8>, b: Seq<u8>)
    requires
        bytes_lt(a, b),
    ensures
        !bytes_lt(b, a),
{
    if bytes_lt(b, a) {
        lemma_bytes_lt_transitive(a, b, a);
        lemma_bytes_lt_irreflexive(a);
    }
}

pub proof fn lemma_key_lt_irreflexive(a: Seq<char>)
    ensures
        !key_lt(a, a),
{
    lemma_bytes_lt_irreflexive(vstd::utf8::encode_utf8(a));
}

pub proof fn lemma_key_lt_transitive(a: Seq<char>, b: Seq<char>, c: Seq<char>)
    requires
        key_lt(a, b),
        key_lt(b, c),
    ensures
        key_lt(a, c),
{
    lemma_bytes_lt_transitive(
        vstd::utf8::encode_utf8(a),
        vstd::utf8::encode_utf8(b),
        vstd::utf8::encode_utf8(c),
    );
}

pub proof fn lemma_key_lt_total(a: Seq<char>, b: Seq<char>)
    ensures
        a == b || key_lt(a, b) || key_lt(b, a),
{
    lemma_bytes_lt_total(vstd::utf8::encode_utf8(a), vstd::utf8::encode_utf8(b));
    if vstd::utf8::encode_utf8(a) =~= vstd::utf8::encode_utf8(b) {
        assert(vstd::utf8::decode_utf8(vstd::utf8::encode_utf8(a)) == a);
        assert(vstd::utf8::decode_utf8(vstd::utf8::encode_utf8(b)) == b);
    }
}

pub proof fn lemma_key_lt_asymmetric(a: Seq<char>, b: Seq<char>)
    requires
        key_lt(a, b),
    ensures
        !key_lt(b, a),
        a != b,
{
    lemma_bytes_lt_asymmetric(vstd::utf8::encode_utf8(a), vstd::utf8::encode_utf8(b));
    lemma_key_lt_irreflexive(a);
}

/// In sorted entries, every entry before the lower bound is below `k` and every
/// entry from it on is not.
pub proof fn lemma_lower_bound(e: Seq<(Seq<char>, JsonView)>, k: Seq<char>)
    requires
        keys_sorted(e),
    ensures
        0 <= lower_bound(e, k) <= e.len(),
        forall|i: int| 0 <= i < lower_bound(e, k) ==> key_lt(#[trigger] e[i].0, k),
        forall|i: int| lower_bound(e, k) <= i < e.len() ==> !key_lt(#[trigger] e[i].0, k),
    decreases e.len(),
{
    if e.len() > 0 {
        let t = e.drop_first();
        assert(keys_sorted(t)) by {
            assert forall|i: int, j: int| 0 <= i < j < t.len() implies key_lt(
                #[trigger] t[i].0,
                #[trigger] t[j].0,
            ) by {
                assert(t[i] == e[i + 1] && t[j] == e[j + 1]);
            }
        }
        lemma_lower_bound(t, k);
        if key_lt(e[0].0, k) {
            assert forall|i: int| 1 <= i < e.len() implies (key_lt(#[trigger] e[i].0, k) <==> key_lt(
                t[i - 1].0,
                k,
            )) by {
                assert(t[i - 1] == e[i]);
            }
        } else {
            assert forall|i: int| 0 <= i < e.len() implies !key_lt(#[trigger] e[i].0, k) by {
                if i > 0 {
                    assert(key_lt(e[0].0, e[i].0));
                    if key_lt(e[i].0, k) {
                        lemma_key_lt_transitive(e[0].0, e[i].0, k);
                    }
                }
            }
        }
    }
}

/// A sorted sequence has `k` at index `i` exactly when `map_get` finds it there.
pub proof fn lemma_map_get_index(e: Seq<(Seq<char>, JsonView)>, k: Seq<char>, i: int)
    requires
        keys_sorted(e),
        0 <= i < e.len(),
        e[i].0 == k,
    ensures
        lower_bound(e, k) == i,
        map_get(e, k) == Some(e[i].1),
{
    lemma_lower_bound(e, k);
    lemma_key_lt_irreflexive(k);
    let p = lower_bound(e, k);
    if p < i {
        assert(!key_lt(e[p].0, k));
        assert(key_lt(e[p].0, e[i].0));
    }
}

/// Storing into a map keeps its keys in order; reading the key back gives
/// the stored value, and every other key reads as before.
pub proof fn law_map_insert(e: Seq<(Seq<char>, JsonView)>, k: Seq<char>, v: JsonView)
    requires
        keys_sorted(e),
    ensures
        keys_sorted(map_insert(e, k, v)),
        map_get(map_insert(e, k, v), k) == Some(v),
        forall|k2: Seq<char>| k2 != k ==> #[trigger] map_get(map_insert(e, k, v), k2) == map_get(e, k2),
{
    lemma_lower_bound(e, k);
    let p = lower_bound(e, k);
    let r = map_insert(e, k, v);
    if p < e.len() && e[p].0 == k {
        assert(keys_sorted(r)) by {
            assert forall|i: int, j: int| 0 <= i < j < r.len() implies key_lt(
                #[trigger] r[i].0,
                #[trigger] r[j].0,
            ) by {
                assert(r[i].0 == e[i].0 && r[j].0 == e[j].0);
            }
        }
        lemma_map_get_index(r, k, p);
        assert forall|k2: Seq<char>| k2 != k implies map_get(r, k2) == map_get(e, k2) by {
            lemma_lower_bound(e, k2);
            lemma_lower_bound(r, k2);
            let q = lower_bound(e, k2);
            if q < e.len() && e[q].0 == k2 {
                lemma_map_get_index(r, k2, q);
            } else {
                let q2 = lower_bound(r, k2);
                if q2 < r.len() && r[q2].0 == k2 {
                    lemma_map_get_index(e, k2, q2);
                }
            }
        }
    } else {
        assert(keys_sorted(r)) by {
            assert forall|i: int, j: int| 0 <= i < j < r.len() implies key_lt(
                #[trigger] r[i].0,
                #[trigger] r[j].0,
            ) by {
                if j < p {
                } else if i < p && j == p {
                } else if i < p && j > p {
                    assert(r[j] == e[j - 1]);
                } else if i == p {
                    assert(r[j] == e[j - 1]);
                    assert(!key_lt(e[j - 1].0, k));
                    lemma_key_lt_total(e[j - 1].0, k);
                    if j - 1 > p {
                        assert(key_lt(e[p].0, e[j - 1].0));
                        lemma_key_lt_total(e[p].0, k);
                        if key_lt(e[p].0, k) {
                        } else if e[p].0 == k {
                        } else {
                            lemma_key_lt_transitive(k, e[p].0, e[j - 1].0);
                        }
                    }
                } else {
                    assert(r[i] == e[i - 1] && r[j] == e[j - 1]);
                }
            }
        }
        lemma_map_get_index(r, k, p);
        assert forall|k2: Seq<char>| k2 != k implies map_get(r, k2) == map_get(e, k2) by {
            lemma_lower_bound(e, k2);
            lemma_lower_bound(r, k2);
            let q = lower_bound(e, k2);
            if q < e.len() && e[q].0 == k2 {
                if q < p {
                    lemma_map_get_index(r, k2, q);
                } else {
                    lemma_map_get_index(r, k2, q + 1);
                }
            } else {
                let q2 = lower_bound(r, k2);
                if q2 < r.len() && r[q2].0 == k2 {
                    if q2 < p {
                        lemma_map_get_index(e, k2, q2);
                    } else if q2 > p {
                        lemma_map_get_index(e, k2, q2 - 1);
                    }
                }
            }
        }
    }
}

/// Reading past the first entry: its key is no longer found, every other
/// key reads as before.
proof fn lemma_map_get_tail(e: Seq<(Seq<char>, JsonView)>, k: Seq<char>)
    requires
        keys_sorted(e),
        e.len() > 0,
    ensures
        keys_sorted(e.drop_first()),
        k == e[0].0 ==> map_get(e.drop_first(), k) is None,
        k != e[0].0 ==> map_get(e.drop_first(), k) == map_get(e, k),
{
    let t = e.drop_first();
    assert(keys_sorted(t)) by {
        assert forall|i: int, j: int| 0 <= i < j < t.len() implies key_lt(#[trigger] t[i].0, #[trigger] t[j].0) by {
            assert(t[i] == e[i + 1] && t[j] == e[j + 1]);
        }
    }
    lemma_lower_bound(t, k);
    let p = lower_bound(t, k);
    if p < t.len() && t[p].0 == k {
        assert(t[p] == e[p + 1]);
        lemma_map_get_index(e, k, p + 1);
        if k == e[0].0 {
            assert(key_lt(e[0].0, e[p + 1].0));
            lemma_key_lt_irreflexive(k);
        }
    } else {
        assert(map_get(t, k) is None);
        if k != e[0].0 {
            let q = lower_bound(e, k);
            if q < e.len() && e[q].0 == k {
                assert(q != 0);
                assert(t[q - 1] == e[q]);
                lemma_map_get_index(t, k, q - 1);
            }
        }
    }
}

/// A map's entries are fixed by what its keys read: two maps that read the
/// same under every key hold the same entries in the same order.
pub proof fn law_map_entries_determined(a: Seq<(Seq<char>, JsonView)>, b: Seq<(Seq<char>, JsonView)>)
    requires
        keys_sorted(a),
        keys_sorted(b),
        forall|k: Seq<char>| #[trigger] map_get(a, k) == map_get(b, k),
    ensures
        a == b,
    decreases a.len(),
{
    if a.len() == 0 {
        if b.len() > 0 {
            lemma_map_get_index(b, b[0].0, 0);
            assert(map_get(a, b[0].0) is None);
        }
        assert(a =~= b);
    } else if b.len() == 0 {
        lemma_map_get_index(a, a[0].0, 0);
        assert(map_get(b, a[0].0) is None);
    } else {
        let ka = a[0].0;
        let kb = b[0].0;
        lemma_map_get_index(a, ka, 0);
        lemma_map_get_index(b, kb, 0);
        assert(map_get(b, ka) is Some);
        assert(map_get(a, kb) is Some);
        let j = lower_bound(b, ka);
        let i = lower_bound(a, kb);
        assert(b[j].0 == ka);
        assert(a[i].0 == kb);
        if ka != kb {
            assert(j != 0 && i != 0);
            assert(key_lt(b[0].0, b[j].0));
            assert(key_lt(a[0].0, a[i].0));
            lemma_key_lt_asymmetric(ka, kb);
        }
        assert(a[0] == b[0]);
        assert forall|k: Seq<char>| #[trigger] map_get(a.drop_first(), k) == map_get(b.drop_first(), k) by {
            lemma_map_get_tail(a, k);
            lemma_map_get_tail(b, k);
        }
        lemma_map_get_tail(a, ka);
        lemma_map_get_tail(b, ka);
        law_map_entries_determined(a.drop_first(), b.drop_first());
        assert(a =~= seq![a[0]] + a.drop_first());
        assert(b =~= seq![b[0]] + b.drop_first());
    }
}

/// Storing under two different keys gives the same map in either order: a
/// map's content does not depend on the order it was filled in.
pub proof fn law_map_insert_commutes(
    e: Seq<(Seq<char>, JsonView)>,
    k1: Seq<char>,
    v1: JsonView,
    k2: Seq<char>,
    v2: JsonView,
)
    requires
        keys_sorted(e),
        k1 != k2,
    ensures
        map_insert(map_insert(e, k1, v1), k2, v2) == map_insert(map_insert(e, k2, v2), k1, v1),
{
    let a1 = map_insert(e, k1, v1);
    let b1 = map_insert(e, k2, v2);
    law_map_insert(e, k1, v1);
    law_map_insert(e, k2, v2);
    law_map_insert(a1, k2, v2);
    law_map_insert(b1, k1, v1);
    let a = map_insert(a1, k2, v2);
    let b = map_insert(b1, k1, v1);
    assert forall|k: Seq<char>| #[trigger] map_get(a, k) == map_get(b, k) by {
        if k == k1 {
        } else if k == k2 {
        } else {
        }
    }
    law_map_entries_determined(a, b);
}

/// Storing twice under one key is storing the second value only.
pub proof fn law_map_insert_twice(e: Seq<(Seq<char>, JsonView)>, k: Seq<char>, v1: JsonView, v2: JsonView)
    requires
        keys_sorted(e),
    ensures
        map_insert(map_insert(e, k, v1), k, v2) == map_insert(e, k, v2),
{
    lemma_lower_bound(e, k);
    law_map_insert(e, k, v1);
    let p = lower_bound(e, k);
    let e1 = map_insert(e, k, v1);
    assert(e1[p].0 == k);
    lemma_map_get_index(e1, k, p);
    if p < e.len() && e[p].0 == k {
        assert(map_insert(e1, k, v2) =~= map_insert(e, k, v2));
    } else {
        assert(map_insert(e1, k, v2) =~= map_insert(e, k, v2));
    }
}

impl JsonMap {
    /// The entries of the map in key order.
    pub closed spec fn entries_view(&self) -> Seq<(Seq<char>, JsonView)>
        decreases self,
    {
        Seq::new(
            self.entries.len() as nat,
            |i: int|
                if 0 <= i < self.entries.len() {
                    (self.entries@[i].0@, self.entries@[i].1.view())
                } else {
                    (Seq::empty(), JsonView::Null)
                },
        )
    }

    pub open spec fn view(&self) -> Seq<(Seq<char>, JsonView)> {
        self.entries_view()
    }

    #[verifier::type_invariant]
    closed spec fn sorted_inv(&self) -> bool {
        keys_sorted(self.entries_view())
    }

    /// An empty map.
    pub fn new() -> (m: JsonMap)
        ensures
            m@ == Seq::<(Seq<char>, JsonView)>::empty(),
    {
        let m = JsonMap { entries: Vec::new() };
        assert(m.entries_view() =~= Seq::<(Seq<char>, JsonView)>::empty());
        m
    }

    /// Number of entries.
    pub fn len(&self) -> (n: usize)
        ensures
            n == self@.len(),
            keys_sorted(self@),
    {
        proof {
            use_type_invariant(self);
        }
        self.entries.len()
    }

    /// Whether the map has no entries.
    pub fn is_empty(&self) -> (b: bool)
        ensures
            b == (self@.len() == 0),
    {
        self.entries.len() == 0
    }

    /// The key and value of entry `i` (in key order).
    pub fn entry_at(&self, i: usize) -> (r: (&String, &JsonValue))
        requires
            i < self@.len(),
        ensures
            r.0@ == self@[i as int].0,
            r.1@ == self@[i as int].1,
    {
        let e = &self.entries[i];
        (&e.0, &e.1)
    }

    /// Position of `key`, or the position where it would be inserted.
    fn locate(&self, key: &str) -> (r: (usize, bool))
        ensures
            r.0 == lower_bound(self@, key@),
            r.0 <= self@.len(),
            r.1 == (r.0 < self@.len() && self@[r.0 as int].0 == key@),
    {
        proof {
            use_type_invariant(self);
            lemma_lower_bound(self@, key@);
        }
        let mut i: usize = 0;
        let n = self.entries.len();
        while i < n
            invariant
                0 <= i <= n,
                n == self@.len(),
                keys_sorted(self@),
                forall|j: int| 0 <= j < i ==> key_lt(#[trigger] self@[j].0, key@),
            decreases n - i,
        {
            let ord = compare_keys(self.entries[i].0.as_str(), key);
            match ord {
                KeyOrder::Less => {
                    i = i + 1;
                },
                _ => {
                    proof {
                        lemma_lower_bound(self@, key@);
                        let p = lower_bound(self@, key@);
                        if p > i {
                            assert(key_lt(self@[i as int].0, key@));
                        }
                        if p < i {
                            assert(key_lt(self@[p].0, key@));
                        }
                    }
                    return (i, ord == KeyOrder::Equal);
                },
            }
        }
        proof {
            lemma_lower_bound(self@, key@);
            let p = lower_bound(self@, key@);
            if p < n {
                assert(key_lt(self@[p].0, key@));
            }
        }
        (n, false)
    }

    /// The value stored under `key`.
    pub fn get(&self, key: &str) -> (r: Option<&JsonValue>)
        ensures
            match r {
                Some(v) => map_get(self@, key@) == Some(v@),
                None => map_get(self@, key@) is None,
            },
    {
        let (i, found) = self.locate(key);
        if found {
            Some(&self.entries[i].1)
        } else {
            None
        }
    }

    /// Whether `key` is present.
    pub fn contains_key(&self, key: &str) -> (b: bool)
        ensures
            b == (map_get(self@, key@) is Some),
    {
        let (_i, found) = self.locate(key);
        found
    }

    /// Stores `value` under `key`, handing back the value it replaces.
    pub fn insert(&mut self, key: String, value: JsonValue) -> (old_value: Option<JsonValue>)
        ensures
            final(self)@ == map_insert(old(self)@, key@, value@),
            keys_sorted(final(self)@),
            match old_value {
                Some(v) => map_get(old(self)@, key@) == Some(v@),
                None => map_get(old(self)@, key@) is None,
            },
    {
        proof {
            use_type_invariant(&*self);
            law_map_insert(self@, key@, value@);
        }
        let (i, found) = self.locate(key.as_str());
        let ghost e = self@;
        let ghost kv = key@;
        let ghost vv = value@;
        let mut entries: Vec<(String, JsonValue)> = Vec::new();
        std::mem::swap(&mut entries, &mut self.entries);
        let ghost before = entries@;
        assert(before.len() == e.len());
        let old_value = if found {
            let (_k, prev) = entries.remove(i);
            entries.insert(i, (key, value));
            assert(entries@ =~= before.update(i as int, (key, value)));
            Some(prev)
        } else {
            entries.insert(i, (key, value));
            assert(entries@ =~= before.insert(i as int, (key, value)));
            None
        };
        proof {
            let r = (JsonMap { entries: entries }).entries_view();
            assert(r.len() == map_insert(e, kv, vv).len());
            assert forall|j: int| 0 <= j < r.len() implies r[j] == map_insert(e, kv, vv)[j] by {
                if found {
                    if j != i {
                        assert(entries@[j] == before[j]);
                    }
                } else {
                    if j < i {
                        assert(entries@[j] == before[j]);
                    } else if j > i {
                        assert(entries@[j] == before[j - 1]);
                    }
                }
            }
            assert(r =~= map_insert(e, kv, vv));
        }
        self.entries = entries;
        old_value
    }
}

/// Compares two keys by their UTF-8 bytes.
pub fn compare_keys(a: &str, b: &str) -> (r: KeyOrder)
    ensures
        r == KeyOrder::Less <==> key_lt(a@, b@),
        r == KeyOrder::Equal <==> a@ == b@,
        r == KeyOrder::Greater <==> key_lt(b@, a@),
{
    let x = a.as_bytes();
    let y = b.as_bytes();
    let ghost xa = vstd::utf8::encode_utf8(a@);
    let ghost yb = vstd::utf8::encode_utf8(b@);
    proof {
        vstd::utf8::encode_utf8_decode_utf8(a@);
        vstd::utf8::encode_utf8_decode_utf8(b@);
        assert(xa.skip(0) =~= xa);
        assert(yb.skip(0) =~= yb);
    }
    let n = if x.len() < y.len() {
        x.len()
    } else {
        y.len()
    };
    let mut i: usize = 0;
    while i < n
        invariant
            x@ == xa,
            y@ == yb,
            xa == vstd::utf8::encode_utf8(a@),
            yb == vstd::utf8::encode_utf8(b@),
            vstd::utf8::decode_utf8(xa) == a@,
            vstd::utf8::decode_utf8(yb) == b@,
            n <= x@.len(),
            n <= y@.len(),
            n == x@.len() || n == y@.len(),
            0 <= i <= n,
            x@.take(i as int) =~= y@.take(i as int),
            bytes_lt(xa, yb) == bytes_lt(xa.skip(i as int), yb.skip(i as int)),
            bytes_lt(yb, xa) == bytes_lt(yb.skip(i as int), xa.skip(i as int)),
        decreases n - i,
    {
        assert(xa.skip(i as int).drop_first() =~= xa.skip(i + 1));
        assert(yb.skip(i as int).drop_first() =~= yb.skip(i + 1));
        if x[i] != y[i] {
            proof {
                let xs = xa.skip(i as int);
                let ys = yb.skip(i as int);
                assert(xs[0] == x@[i as int] && ys[0] == y@[i as int]);
                assert(bytes_lt(xs, ys) == (xs[0] < ys[0]));
                assert(bytes_lt(ys, xs) == (ys[0] < xs[0]));
                if xa =~= yb {
                    assert(xa[i as int] == yb[i as int]);
                }
            }
            if x[i] < y[i] {
                return KeyOrder::Less;
            } else {
                return KeyOrder::Greater;
            }
        }
        assert(x@.take(i + 1) =~= x@.take(i as int).push(x@[i as int]));
        assert(y@.take(i + 1) =~= y@.take(i as int).push(y@[i as int]));
        i = i + 1;
    }
    proof {
        assert(xa.take(xa.len() as int) =~= xa);
        assert(yb.take(yb.len() as int) =~= yb);
        lemma_bytes_lt_irreflexive(xa);
    }
    if x.len() < y.len() {
        proof {
            assert(xa.skip(n as int).len() == 0);
        }
        KeyOrder::Less
    } else if x.len() > y.len() {
        proof {
            assert(yb.skip(n as int).len() == 0);
        }
        KeyOrder::Greater
    } else {
        proof {
            assert(xa =~= yb);
        }
        KeyOrder::Equal
    }
}

impl JsonValue {
    /// A copy of the value.
    #[verifier::loop_isolation(false)]
    pub fn duplicate(&self) -> (r: JsonValue)
        ensures
            r@ == self@,
        decreases self,
    {
        match self {
            JsonValue::Null => JsonValue::Null,
            JsonValue::Bool(b) => JsonValue::Bool(*b),
            JsonValue::Number(n) => JsonValue::Number(n.clone()),
            JsonValue::String(s) => JsonValue::String(s.clone()),
            JsonValue::Array(items) => {
                let mut out: Vec<JsonValue> = Vec::new();
                let mut i: usize = 0;
                while i < items.len()
                    invariant
                        0 <= i <= items@.len(),
                        out@.len() == i,
                        forall|j: int| 0 <= j < i ==> #[trigger] out@[j]@ == items@[j]@,
                    decreases items@.len() - i,
                {
                    proof {
                        assert(decreases_to!(*self => *items));
                        assert(decreases_to!(*items => items@));
                        assert(decreases_to!(items@ => items@[i as int]));
                    }
                    let v = items[i].duplicate();
                    out.push(v);
                    i = i + 1;
                }
                let r = JsonValue::Array(out);
                proof {
                    if let JsonView::Array(x) = r@ {
                        if let JsonView::Array(y) = self@ {
                            assert(out@.len() == items@.len());
                            assert(x.len() == y.len());
                            assert forall|j: int| 0 <= j < x.len() implies x[j] == y[j] by {
                                assert(out@[j]@ == items@[j]@);
                            }
                            assert(x =~= y);
                        }
                    }
                }
                assert(r@ == self@);
                r
            },
            JsonValue::Object(m) => {
                proof {
                    use_type_invariant(m);
                }
                let mut out: Vec<(String, JsonValue)> = Vec::new();
                let mut i: usize = 0;
                while i < m.entries.len()
                    invariant
                        0 <= i <= m.entries@.len(),
                        out@.len() == i,
                        forall|j: int| 0 <= j < i ==> #[trigger] out@[j].0@ == m.entries@[j].0@
                            && out@[j].1@ == m.entries@[j].1@,
                    decreases m.entries@.len() - i,
                {
                    proof {
                        assert(decreases_to!(*self => *m));
                        assert(decreases_to!(*m => m.entries));
                        assert(decreases_to!(m.entries => m.entries@));
                        assert(decreases_to!(m.entries@ => m.entries@[i as int]));
                        assert(decreases_to!(m.entries@[i as int] => m.entries@[i as int].1));
                    }
                    let k = m.entries[i].0.clone();
                    let v = m.entries[i].1.duplicate();
                    out.push((k, v));
                    i = i + 1;
                }
                proof {
                    let a = (JsonMap { entries: out }).entries_view();
                    assert(a =~= m.entries_view());
                }
                let r = JsonMap { entries: out };
                let v = JsonValue::Object(r);
                assert(v@ == self@);
                v
            },
        }
    }
}

impl JsonMap {
    /// A copy of the map.
    pub fn duplicate(&self) -> (r: JsonMap)
        ensures
            r@ == self@,
    {
        proof {
            use_type_invariant(self);
        }
        let mut out: Vec<(String, JsonValue)> = Vec::new();
        let mut i: usize = 0;
        while i < self.entries.len()
            invariant
                0 <= i <= self.entries@.len(),
                out@.len() == i,
                forall|j: int| 0 <= j < i ==> #[trigger] out@[j].0@ == self.entries@[j].0@
                    && out@[j].1@ == self.entries@[j].1@,
            decreases self.entries@.len() - i,
        {
            let k = self.entries[i].0.clone();
            let v = self.entries[i].1.duplicate();
            out.push((k, v));
            i = i + 1;
        }
        proof {
            let a = (JsonMap { entries: out }).entries_view();
            assert(a =~= self.entries_view());
        }
        JsonMap { entries: out }
    }
}

/// The JSON packer. Writing and reading JSON text is done by a JSON
/// library around this crate; here is what the packer declares.
#[derive(Debug, Clone, Copy, Default)]
pub struct JsonPacker;

/// `application/json`.
pub open spec fn json_content_type() -> Seq<char> {
    seq!['a', 'p', 'p', 'l', 'i', 'c', 'a', 't', 'i', 'o', 'n', '/', 'j', 's', 'o', 'n']
}

impl JsonPacker {
    /// The Content-Type of a JSON body.
    pub fn content_type(&self) -> (r: Option<&'static str>)
        ensures
            r matches Some(t) && t@ == json_content_type(),
    {
        let t = "application/json";
        proof {
            reveal_strlit("application/json");
        }
        Some(t)
    }
}

} // verus!
