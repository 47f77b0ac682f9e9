//! The request carrier and its configuration.
//!
//! A [`Rocket`] carries one request through the plugin chain: the caller's
//! parameters (never changed), the payload the plugins build, the request
//! configuration, the built request, the raw response and the parsed result.

use vstd::prelude::*;
use crate::direction::{Destination, DirectionKind};
use crate::json::{JsonMap, JsonView, keys_of, map_get, map_insert, keys_sorted, law_map_insert, lemma_map_get_index, lemma_lower_bound, lower_bound, key_lt};
use crate::net::{ModeledRequest, post_method};
use crate::text::{join_strings, join_with, push_str, same_ignore_case, str_eq_ignore_case, strings_view};

verus! {

/// Header entries with distinct names.
pub open spec fn names_distinct(h: Seq<(Seq<char>, Seq<char>)>) -> bool {
    forall|i: int, j: int| 0 <= i < j < h.len() ==> #[trigger] h[i].0 != #[trigger] h[j].0
}

/// Whether an entry is named exactly `k`.
pub open spec fn has_name(h: Seq<(Seq<char>, Seq<char>)>, k: Seq<char>) -> bool {
    exists|i: int| 0 <= i < h.len() && #[trigger] h[i].0 == k
}

/// The position of the entry named `k` (meaningful when there is one).
pub open spec fn name_index(h: Seq<(Seq<char>, Seq<char>)>, k: Seq<char>) -> int {
    choose|i: int| 0 <= i < h.len() && #[trigger] h[i].0 == k
}

/// The value stored under `k`.
pub open spec fn header_value(h: Seq<(Seq<char>, Seq<char>)>, k: Seq<char>) -> Option<Seq<char>> {
    if has_name(h, k) {
        Some(h[name_index(h, k)].1)
    } else {
        None
    }
}

/// `h` with `v` stored under `k`: the entry of that name is replaced in
/// place, or a new entry is added at the end.
pub open spec fn header_put(h: Seq<(Seq<char>, Seq<char>)>, k: Seq<char>, v: Seq<char>) -> Seq<(Seq<char>, Seq<char>)> {
    if has_name(h, k) {
        h.update(name_index(h, k), (k, v))
    } else {
        h.push((k, v))
    }
}

/// Whether some entry's name equals `name` up to ASCII case.
pub open spec fn has_name_ignore_case(h: Seq<(Seq<char>, Seq<char>)>, name: Seq<char>) -> bool {
    exists|i: int| 0 <= i < h.len() && same_ignore_case(#[trigger] h[i].0, name)
}

proof fn lemma_name_index(h: Seq<(Seq<char>, Seq<char>)>, k: Seq<char>, i: int)
    requires
        names_distinct(h),
        0 <= i < h.len(),
        h[i].0 == k,
    ensures
        has_name(h, k),
        name_index(h, k) == i,
{
    assert(has_name(h, k));
    let j = name_index(h, k);
    if j != i {
        if j < i {
            assert(h[j].0 != h[i].0);
        } else {
            assert(h[i].0 != h[j].0);
        }
    }
}

/// Storing under a name and reading that name gives back what was stored;
/// every other name reads as before, and names stay distinct.
pub proof fn law_header_put_get(h: Seq<(Seq<char>, Seq<char>)>, k: Seq<char>, v: Seq<char>, other: Seq<char>)
    requires
        names_distinct(h),
    ensures
        names_distinct(header_put(h, k, v)),
        header_value(header_put(h, k, v), k) == Some(v),
        other != k ==> header_value(header_put(h, k, v), other) == header_value(h, other),
{
    let r = header_put(h, k, v);
    if has_name(h, k) {
        let i = name_index(h, k);
        assert(names_distinct(r)) by {
            assert forall|a: int, b: int| 0 <= a < b < r.len() implies #[trigger] r[a].0 != #[trigger] r[b].0 by {
                if a == i {
                    assert(h[a].0 == k);
                } else if b == i {
                    assert(h[b].0 == k);
                }
            }
        }
        lemma_name_index(r, k, i);
        if other != k {
            if has_name(h, other) {
                let j = name_index(h, other);
                assert(r[j] == h[j]);
                lemma_name_index(r, other, j);
            } else {
                assert(!has_name(r, other)) by {
                    if has_name(r, other) {
                        let j = name_index(r, other);
                        assert(h[j].0 == other);
                    }
                }
            }
        }
    } else {
        assert(names_distinct(r)) by {
            assert forall|a: int, b: int| 0 <= a < b < r.len() implies #[trigger] r[a].0 != #[trigger] r[b].0 by {
                if b == h.len() {
                    assert(h[a].0 != k);
                }
            }
        }
        lemma_name_index(r, k, h.len() as int);
        if other != k {
            if has_name(h, other) {
                let j = name_index(h, other);
                assert(r[j] == h[j]);
                lemma_name_index(r, other, j);
            } else {
                assert(!has_name(r, other)) by {
                    if has_name(r, other) {
                        let j = name_index(r, other);
                        if j < h.len() {
                            assert(h[j].0 == other);
                        }
                    }
                }
            }
        }
    }
}

/// A header stored under a name is found by any spelling of that name that
/// differs only in ASCII case.
pub proof fn law_header_put_found_ignore_case(h: Seq<(Seq<char>, Seq<char>)>, k: Seq<char>, v: Seq<char>, name: Seq<char>)
    requires
        names_distinct(h),
        same_ignore_case(k, name),
    ensures
        has_name_ignore_case(header_put(h, k, v), name),
{
    law_header_put_get(h, k, v, k);
    let r = header_put(h, k, v);
    let i = name_index(r, k);
    assert(r[i].0 == k);
}

/// Request headers: each name at most once, in the order first stored.
#[derive(Debug)]
pub struct Headers {
    entries: Vec<(String, String)>,
}

impl Headers {
    pub closed spec fn view(&self) -> Seq<(Seq<char>, Seq<char>)> {
        Seq::new(self.entries@.len(), |i: int| (self.entries@[i].0@, self.entries@[i].1@))
    }

    #[verifier::type_invariant]
    closed spec fn distinct_inv(&self) -> bool {
        names_distinct(self@)
    }

    /// No headers.
    pub fn new() -> (h: Headers)
        ensures
            h@ == Seq::<(Seq<char>, Seq<char>)>::empty(),
    {
        let h = Headers { entries: Vec::new() };
        assert(h@ =~= Seq::<(Seq<char>, Seq<char>)>::empty());
        h
    }

    /// Number of headers.
    pub fn len(&self) -> (n: usize)
        ensures
            n == self@.len(),
            names_distinct(self@),
    {
        proof {
            use_type_invariant(self);
        }
        self.entries.len()
    }

    /// Whether there are no headers.
    pub fn is_empty(&self) -> (b: bool)
        ensures
            b == (self@.len() == 0),
    {
        self.entries.len() == 0
    }

    /// Header `i` (in the order stored).
    pub fn entry_at(&self, i: usize) -> (r: (&String, &String))
        requires
            i < self@.len(),
        ensures
            r.0@ == self@[i as int].0,
            r.1@ == self@[i as int].1,
    {
        let e = &self.entries[i];
        (&e.0, &e.1)
    }

    fn position(&self, key: &str) -> (r: Option<usize>)
        ensures
            names_distinct(self@),
            match r {
                Some(i) => i < self@.len() && self@[i as int].0 == key@ && has_name(self@, key@) && name_index(self@, key@) == i,
                None => !has_name(self@, key@),
            },
    {
        proof {
            use_type_invariant(self);
        }
        let k = key.to_owned();
        let mut i: usize = 0;
        while i < self.entries.len()
            invariant
                0 <= i <= self@.len(),
                self@.len() == self.entries@.len(),
                names_distinct(self@),
                k@ == key@,
                forall|j: int| 0 <= j < i ==> self@[j].0 != key@,
            decreases self@.len() - i,
        {
            let e = &self.entries[i];
            assert(self@[i as int].0 == self.entries@[i as int].0@);
            if e.0 == k {
                proof {
                    lemma_name_index(self@, key@, i as int);
                }
                return Some(i);
            }
            i = i + 1;
        }
        None
    }

    /// The value stored under exactly `key`.
    pub fn get(&self, key: &str) -> (r: Option<&String>)
        ensures
            match r {
                Some(v) => header_value(self@, key@) == Some(v@),
                None => header_value(self@, key@) is None,
            },
    {
        match self.position(key) {
            Some(i) => Some(&self.entries[i].1),
            None => None,
        }
    }

    /// Whether a header is stored under exactly `key`.
    pub fn contains_key(&self, key: &str) -> (b: bool)
        ensures
            b == has_name(self@, key@),
    {
        self.position(key).is_some()
    }

    /// Whether a header is stored under `name`, ignoring ASCII case.
    pub fn contains_ignore_case(&self, name: &str) -> (b: bool)
        ensures
            b == has_name_ignore_case(self@, name@),
    {
        let mut i: usize = 0;
        while i < self.entries.len()
            invariant
                0 <= i <= self@.len(),
                self@.len() == self.entries@.len(),
                forall|j: int| 0 <= j < i ==> !same_ignore_case(#[trigger] self@[j].0, name@),
            decreases self@.len() - i,
        {
            if str_eq_ignore_case(self.entries[i].0.as_str(), name) {
                assert(self@[i as int].0 == self.entries@[i as int].0@);
                return true;
            }
            i = i + 1;
        }
        false
    }

    /// Stores `value` under `key`, handing back the value it replaces.
    pub fn insert(&mut self, key: String, value: String) -> (old_value: Option<String>)
        ensures
            final(self)@ == header_put(old(self)@, key@, value@),
            match old_value {
                Some(v) => header_value(old(self)@, key@) == Some(v@),
                None => header_value(old(self)@, key@) is None,
            },
    {
        let ghost h = self@;
        let ghost kv = key@;
        let ghost vv = value@;
        proof {
            use_type_invariant(&*self);
            law_header_put_get(h, kv, vv, kv);
        }
        let pos = self.position(key.as_str());
        let mut entries: Vec<(String, String)> = Vec::new();
        std::mem::swap(&mut entries, &mut self.entries);
        let ghost before = entries@;
        let old_value = match pos {
            Some(i) => {
                let (_k, prev) = entries.remove(i);
                entries.insert(i, (key, value));
                assert(entries@ =~= before.update(i as int, (key, value)));
                Some(prev)
            },
            None => {
                entries.push((key, value));
                None
            },
        };
        let ghost r = Seq::new(entries@.len(), |i: int| (entries@[i].0@, entries@[i].1@));
        assert(r =~= header_put(h, kv, vv));
        self.entries = entries;
        old_value
    }
}

/// Options of one request.
#[derive(Debug, Clone, Copy, Default)]
pub struct RequestOptions {
    /// Request timeout in seconds.
    pub timeout: Option<u64>,
}

/// Options of the HTTP client, used when it is built.
#[derive(Debug, Clone, Default)]
pub struct ClientOptions {
    /// Timeout of every request, in seconds.
    pub timeout: Option<u64>,
    /// Connect timeout, in seconds.
    pub connect_timeout: Option<u64>,
    /// How long an idle pooled connection is kept, in seconds (default 90).
    pub pool_idle_timeout: Option<u64>,
    /// Idle connections kept per host (default 20).
    pub pool_max_idle_per_host: Option<usize>,
    /// User-Agent (default `yansongda/artisan-http:` and the version).
    pub user_agent: Option<String>,
}

/// The request configuration; every field can be changed by a plugin.
#[derive(Debug)]
pub struct RocketConfig {
    /// HTTP method (POST by default).
    pub method: reqwest::Method,
    /// Request URL.
    pub url: String,
    /// Request headers.
    pub headers: Headers,
    /// Request body, when set.
    pub body: Option<String>,
    /// Options of this request.
    pub http: RequestOptions,
    /// How the response is parsed.
    pub direction: DirectionKind,
}

impl Default for RocketConfig {
    /// A POST to an empty URL, without headers, body or timeout, parsed as JSON.
    fn default() -> (c: RocketConfig)
        ensures
            c.url@ == Seq::<char>::empty(),
            c.headers@ == Seq::<(Seq<char>, Seq<char>)>::empty(),
            c.body is None,
            c.http.timeout is None,
            c.direction == DirectionKind::Json,
    {
        RocketConfig {
            method: post_method(),
            url: String::new(),
            headers: Headers::new(),
            body: None,
            http: RequestOptions { timeout: None },
            direction: DirectionKind::Json,
        }
    }
}

/// The caller's parameters; once given they can only be read.
#[derive(Debug)]
pub struct Params {
    map: JsonMap,
}

impl Params {
    pub closed spec fn view(&self) -> Seq<(Seq<char>, JsonView)> {
        self.map@
    }

    /// The parameters as a map.
    pub fn as_map(&self) -> (r: &JsonMap)
        ensures
            r@ == self@,
    {
        &self.map
    }
}

/// The names of header entries, in order.
pub open spec fn names_of(h: Seq<(Seq<char>, Seq<char>)>) -> Seq<Seq<char>> {
    Seq::new(h.len(), |i: int| h[i].0)
}

/// `yes` when `b`, `none` otherwise.
pub open spec fn presence(b: bool, yes: Seq<char>) -> Seq<char> {
    if b {
        yes
    } else {
        "none"@
    }
}

/// The summary [`Rocket::describe`] gives.
pub open spec fn rocket_text(r: Rocket) -> Seq<char> {
    "Rocket { params: ["@ + join_with(keys_of(r.params_view()), ',') + "], payload: ["@ + join_with(
        keys_of(r.payload@),
        ',',
    ) + "], config: { url: "@ + r.config.url@ + ", headers: ["@ + join_with(names_of(r.config.headers@), ',')
        + "], body: "@ + presence(r.config.body is Some, "set"@) + " }, radar: "@ + presence(
        r.radar is Some,
        "built"@,
    ) + ", destination_origin: "@ + presence(r.destination_origin is Some, "received"@) + ", destination: "@
        + presence(r.destination is Some, "set"@) + " }"@
}

/// The keys of a map, in order.
fn key_list(m: &JsonMap) -> (v: Vec<String>)
    ensures
        strings_view(v@) == keys_of(m@),
{
    let mut v: Vec<String> = Vec::new();
    let n = m.len();
    let mut i: usize = 0;
    while i < n
        invariant
            0 <= i <= n,
            n == m@.len(),
            strings_view(v@) == keys_of(m@).take(i as int),
            v@.len() == i,
        decreases n - i,
    {
        let (k, _) = m.entry_at(i);
        let key = k.clone();
        let ghost before = v@;
        v.push(key);
        assert(v@ == before.push(key));
        assert forall|j: int| 0 <= j < i + 1 implies #[trigger] strings_view(v@)[j] == keys_of(m@).take(i + 1)[j] by {
            if j < i {
                assert(v@[j] == before[j]);
                assert(strings_view(before)[j] == keys_of(m@).take(i as int)[j]);
            }
        }
        assert(strings_view(v@) =~= keys_of(m@).take(i + 1));
        i = i + 1;
    }
    assert(keys_of(m@).take(n as int) =~= keys_of(m@));
    v
}

/// The header names, in order.
fn header_names(h: &Headers) -> (v: Vec<String>)
    ensures
        strings_view(v@) == names_of(h@),
{
    let mut v: Vec<String> = Vec::new();
    let n = h.len();
    let mut i: usize = 0;
    while i < n
        invariant
            0 <= i <= n,
            n == h@.len(),
            strings_view(v@) == names_of(h@).take(i as int),
            v@.len() == i,
        decreases n - i,
    {
        let (k, _) = h.entry_at(i);
        let name = k.clone();
        let ghost before = v@;
        v.push(name);
        assert(v@ == before.push(name));
        assert forall|j: int| 0 <= j < i + 1 implies #[trigger] strings_view(v@)[j] == names_of(h@).take(i + 1)[j] by {
            if j < i {
                assert(v@[j] == before[j]);
                assert(strings_view(before)[j] == names_of(h@).take(i as int)[j]);
            }
        }
        assert(strings_view(v@) =~= names_of(h@).take(i + 1));
        i = i + 1;
    }
    assert(names_of(h@).take(n as int) =~= names_of(h@));
    v
}

/// The carrier of one request through the plugin chain.
pub struct Rocket {
    /// The caller's parameters.
    pub params: Params,
    /// The business parameters the plugins build.
    pub payload: JsonMap,
    /// The request configuration.
    pub config: RocketConfig,
    /// The built request, with what it was built from.
    pub radar: Option<ModeledRequest>,
    /// The raw response.
    pub destination_origin: Option<reqwest::Response>,
    /// The parsed result.
    pub destination: Option<Destination>,
}

/// The entries of `p` stored into `e` one after another.
pub open spec fn merge_entries(e: Seq<(Seq<char>, JsonView)>, p: Seq<(Seq<char>, JsonView)>) -> Seq<(Seq<char>, JsonView)>
    decreases p.len(),
{
    if p.len() == 0 {
        e
    } else {
        map_insert(merge_entries(e, p.drop_last()), p.last().0, p.last().1)
    }
}

proof fn lemma_map_get_drop_last(p: Seq<(Seq<char>, JsonView)>, k: Seq<char>)
    requires
        keys_sorted(p),
        p.len() > 0,
        k != p.last().0,
    ensures
        keys_sorted(p.drop_last()),
        map_get(p.drop_last(), k) == map_get(p, k),
{
    let q = p.drop_last();
    assert(keys_sorted(q)) by {
        assert forall|i: int, j: int| 0 <= i < j < q.len() implies key_lt(#[trigger] q[i].0, #[trigger] q[j].0) by {
            assert(q[i] == p[i] && q[j] == p[j]);
        }
    }
    lemma_lower_bound(q, k);
    lemma_lower_bound(p, k);
    let a = lower_bound(q, k);
    let b = lower_bound(p, k);
    if a < q.len() && q[a].0 == k {
        assert(p[a] == q[a]);
        lemma_map_get_index(p, k, a);
    } else if b < p.len() && p[b].0 == k {
        assert(b < q.len());
        assert(q[b] == p[b]);
        lemma_map_get_index(q, k, b);
    }
}

/// Storing the parameters into the payload: the result keeps its keys in
/// order, every parameter reads back from it with the parameter's value,
/// and every other key reads as it did in the payload.
pub proof fn law_merge_params(e: Seq<(Seq<char>, JsonView)>, p: Seq<(Seq<char>, JsonView)>, k: Seq<char>)
    requires
        keys_sorted(e),
        keys_sorted(p),
    ensures
        keys_sorted(merge_entries(e, p)),
        map_get(merge_entries(e, p), k) == match map_get(p, k) {
            Some(v) => Some(v),
            None => map_get(e, k),
        },
    decreases p.len(),
{
    if p.len() > 0 {
        let q = p.drop_last();
        let (lk, lv) = p.last();
        if k != lk {
            lemma_map_get_drop_last(p, k);
        } else {
            assert(keys_sorted(q)) by {
                assert forall|i: int, j: int| 0 <= i < j < q.len() implies key_lt(#[trigger] q[i].0, #[trigger] q[j].0) by {
                    assert(q[i] == p[i] && q[j] == p[j]);
                }
            }
            lemma_map_get_index(p, k, p.len() - 1);
        }
        law_merge_params(e, q, k);
        law_map_insert(merge_entries(e, q), lk, lv);
    }
}

impl Rocket {
    /// The caller's parameters.
    pub open spec fn params_view(&self) -> Seq<(Seq<char>, JsonView)> {
        self.params@
    }

    /// A carrier for `params`, with an empty payload, the default
    /// configuration and nothing built, received or parsed yet.
    pub fn new(params: JsonMap) -> (r: Rocket)
        ensures
            r.params_view() == params@,
            r.payload@ == Seq::<(Seq<char>, JsonView)>::empty(),
            r.config.url@ == Seq::<char>::empty(),
            r.config.headers@ == Seq::<(Seq<char>, Seq<char>)>::empty(),
            r.config.body is None,
            r.config.http.timeout is None,
            r.config.direction == DirectionKind::Json,
            r.radar is None,
            r.destination_origin is None,
            r.destination is None,
    {
        Rocket {
            params: Params { map: params },
            payload: JsonMap::new(),
            config: RocketConfig::default(),
            radar: None,
            destination_origin: None,
            destination: None,
        }
    }

    /// The caller's parameters, as given.
    pub fn get_params(&self) -> (r: &JsonMap)
        ensures
            r@ == self.params_view(),
    {
        self.params.as_map()
    }

    /// Stores every parameter into the payload (a parameter replaces a
    /// payload entry of the same key); the parameters stay as they are.
    pub fn merge_params_to_payload(&mut self)
        ensures
            final(self).payload@ == merge_entries(old(self).payload@, old(self).params_view()),
            final(self).params == old(self).params,
            final(self).config == old(self).config,
            final(self).radar == old(self).radar,
            final(self).destination_origin == old(self).destination_origin,
            final(self).destination == old(self).destination,
    {
        let n = self.params.map.len();
        let ghost p = self.params@;
        let ghost e0 = self.payload@;
        let mut i: usize = 0;
        while i < n
            invariant
                0 <= i <= n,
                n == p.len(),
                p == self.params@,
                self.payload@ == merge_entries(e0, p.take(i as int)),
                self.config == old(self).config,
                self.radar == old(self).radar,
                self.destination_origin == old(self).destination_origin,
                self.destination == old(self).destination,
                self.params == old(self).params,
            decreases n - i,
        {
            let (k, v) = self.params.map.entry_at(i);
            let key = k.clone();
            let value = v.duplicate();
            self.payload.insert(key, value);
            assert(p.take(i + 1).drop_last() =~= p.take(i as int));
            i = i + 1;
        }
        assert(p.take(n as int) =~= p);
    }

    /// Sets the HTTP method.
    pub fn set_method(&mut self, method: reqwest::Method)
        ensures
            final(self).config.method == method,
            final(self).config.url == old(self).config.url,
            final(self).config.headers == old(self).config.headers,
            final(self).config.body == old(self).config.body,
            final(self).config.http == old(self).config.http,
            final(self).config.direction == old(self).config.direction,
            final(self).payload == old(self).payload,
            final(self).params == old(self).params,
            final(self).radar == old(self).radar,
            final(self).destination_origin == old(self).destination_origin,
            final(self).destination == old(self).destination,
    {
        self.config.method = method;
    }

    /// Sets the URL.
    pub fn set_url(&mut self, url: &str)
        ensures
            final(self).config.url@ == url@,
            final(self).config.method == old(self).config.method,
            final(self).config.headers == old(self).config.headers,
            final(self).config.body == old(self).config.body,
            final(self).config.http == old(self).config.http,
            final(self).config.direction == old(self).config.direction,
            final(self).payload == old(self).payload,
            final(self).params == old(self).params,
            final(self).radar == old(self).radar,
            final(self).destination_origin == old(self).destination_origin,
            final(self).destination == old(self).destination,
    {
        self.config.url = url.to_owned();
    }

    /// Stores a header under exactly `key`, replacing a header of that name.
    pub fn add_header(&mut self, key: &str, value: &str)
        ensures
            final(self).config.headers@ == header_put(old(self).config.headers@, key@, value@),
            final(self).config.method == old(self).config.method,
            final(self).config.url == old(self).config.url,
            final(self).config.body == old(self).config.body,
            final(self).config.http == old(self).config.http,
            final(self).config.direction == old(self).config.direction,
            final(self).payload == old(self).payload,
            final(self).params == old(self).params,
            final(self).radar == old(self).radar,
            final(self).destination_origin == old(self).destination_origin,
            final(self).destination == old(self).destination,
    {
        self.config.headers.insert(key.to_owned(), value.to_owned());
    }

    /// Sets the body.
    pub fn set_body(&mut self, body: &str)
        ensures
            final(self).config.body matches Some(b) && b@ == body@,
            final(self).config.method == old(self).config.method,
            final(self).config.url == old(self).config.url,
            final(self).config.headers == old(self).config.headers,
            final(self).config.http == old(self).config.http,
            final(self).config.direction == old(self).config.direction,
            final(self).payload == old(self).payload,
            final(self).params == old(self).params,
            final(self).radar == old(self).radar,
            final(self).destination_origin == old(self).destination_origin,
            final(self).destination == old(self).destination,
    {
        self.config.body = Some(body.to_owned());
    }

    /// Sets the timeout of this request, in seconds.
    pub fn set_timeout(&mut self, secs: u64)
        ensures
            final(self).config.http.timeout == Some(secs),
            final(self).config.method == old(self).config.method,
            final(self).config.url == old(self).config.url,
            final(self).config.headers == old(self).config.headers,
            final(self).config.body == old(self).config.body,
            final(self).config.direction == old(self).config.direction,
            final(self).payload == old(self).payload,
            final(self).params == old(self).params,
            final(self).radar == old(self).radar,
            final(self).destination_origin == old(self).destination_origin,
            final(self).destination == old(self).destination,
    {
        self.config.http.timeout = Some(secs);
    }

    /// A summary of the carrier: the parameter and payload keys, the URL,
    /// the header names, and which of body, built request, raw response and
    /// parsed result are present; see [`rocket_text`].
    pub fn describe(&self) -> (s: String)
        ensures
            s@ == rocket_text(*self),
    {
        let mut s = String::new();
        push_str(&mut s, "Rocket { params: [");
        push_str(&mut s, join_strings(&key_list(self.params.as_map()), ',').as_str());
        push_str(&mut s, "], payload: [");
        push_str(&mut s, join_strings(&key_list(&self.payload), ',').as_str());
        push_str(&mut s, "], config: { url: ");
        push_str(&mut s, self.config.url.as_str());
        push_str(&mut s, ", headers: [");
        push_str(&mut s, join_strings(&header_names(&self.config.headers), ',').as_str());
        push_str(&mut s, "], body: ");
        push_str(&mut s, if self.config.body.is_some() { "set" } else { "none" });
        push_str(&mut s, " }, radar: ");
        push_str(&mut s, if self.radar.is_some() { "built" } else { "none" });
        push_str(&mut s, ", destination_origin: ");
        push_str(&mut s, if self.destination_origin.is_some() { "received" } else { "none" });
        push_str(&mut s, ", destination: ");
        push_str(&mut s, if self.destination.is_some() { "set" } else { "none" });
        push_str(&mut s, " }");
        s
    }

    /// Whether a header named `name` is set, ignoring ASCII case.
    pub fn has_header(&self, name: &str) -> (b: bool)
        ensures
            b == has_name_ignore_case(self.config.headers@, name@),
    {
        self.config.headers.contains_ignore_case(name)
    }
}

} // verus!
