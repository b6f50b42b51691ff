//! JSON values as the library sees them: the request messages it rewrites, the
//! request bodies it builds and the stream fragments it reads.
//! Numbers are kept by their JSON text; a member list keeps its order.

use vstd::prelude::*;

verus! {

/// A JSON value.
#[derive(Debug)]
pub enum Json {
    Null,
    Bool(bool),
    /// A number, by its JSON text.
    Number(String),
    Str(String),
    Array(Vec<Json>),
    /// Members in order.
    Object(Vec<(String, Json)>),
    /// A complete JSON document given by its text (valid JSON), embedded as the value it denotes.
    Embedded(String),
}

/// A JSON value as mathematical values.
pub enum JsonV {
    Null,
    Bool(bool),
    Number(Seq<char>),
    Str(Seq<char>),
    Array(Seq<JsonV>),
    Object(Seq<(Seq<char>, JsonV)>),
    Embedded(Seq<char>),
}

/// The value of a JSON value.
pub open spec fn json_view(j: Json) -> JsonV
    decreases j,
{
    match j {
        Json::Null => JsonV::Null,
        Json::Bool(b) => JsonV::Bool(b),
        Json::Number(n) => JsonV::Number(n@),
        Json::Str(s) => JsonV::Str(s@),
        Json::Array(v) => {
            proof { assert(decreases_to!(v => v@)) by { broadcast use vstd::std_specs::vec::axiom_vec_decreases_to_view; } }
            JsonV::Array(items_view(v@))
        },
        Json::Object(m) => {
            proof { assert(decreases_to!(m => m@)) by { broadcast use vstd::std_specs::vec::axiom_vec_decreases_to_view; } }
            JsonV::Object(members_view(m@))
        },
        Json::Embedded(t) => JsonV::Embedded(t@),
    }
}

/// The values of a list of JSON values.
pub open spec fn items_view(s: Seq<Json>) -> Seq<JsonV>
    decreases s,
{
    if s.len() == 0 {
        Seq::<JsonV>::empty()
    } else {
        proof {
            assert(decreases_to!(s => s.drop_last())) by { broadcast use vstd::seq::axiom_seq_subrange_decreases; }
            assert(decreases_to!(s => s[s.len() - 1])) by { broadcast use vstd::seq::axiom_seq_index_decreases; }
        }
        items_view(s.drop_last()).push(json_view(s[s.len() - 1]))
    }
}

/// The members of a JSON object as values.
pub open spec fn members_view(s: Seq<(String, Json)>) -> Seq<(Seq<char>, JsonV)>
    decreases s,
{
    if s.len() == 0 {
        Seq::<(Seq<char>, JsonV)>::empty()
    } else {
        proof {
            assert(decreases_to!(s => s.drop_last())) by { broadcast use vstd::seq::axiom_seq_subrange_decreases; }
            assert(decreases_to!(s => s[s.len() - 1])) by { broadcast use vstd::seq::axiom_seq_index_decreases; }
        }
        members_view(s.drop_last()).push((s[s.len() - 1].0@, json_view(s[s.len() - 1].1)))
    }
}

pub proof fn lemma_items_view(s: Seq<Json>)
    ensures
        items_view(s).len() == s.len(),
        forall|k: int| 0 <= k < s.len() ==> #[trigger] items_view(s)[k] == json_view(s[k]),
    decreases s.len(),
{
    if s.len() > 0 {
        lemma_items_view(s.drop_last());
        assert forall|k: int| 0 <= k < s.len() implies #[trigger] items_view(s)[k] == json_view(s[k]) by {
            if k < s.len() - 1 {
                assert(s.drop_last()[k] == s[k]);
            }
        }
    }
}

pub proof fn lemma_members_view(s: Seq<(String, Json)>)
    ensures
        members_view(s).len() == s.len(),
        forall|k: int| 0 <= k < s.len() ==> #[trigger] members_view(s)[k] == (s[k].0@, json_view(s[k].1)),
    decreases s.len(),
{
    if s.len() > 0 {
        lemma_members_view(s.drop_last());
        assert forall|k: int| 0 <= k < s.len() implies #[trigger] members_view(s)[k] == (s[k].0@, json_view(s[k].1)) by {
            if k < s.len() - 1 {
                assert(s.drop_last()[k] == s[k]);
            }
        }
    }
}

impl View for Json {
    type V = JsonV;

    open spec fn view(&self) -> JsonV {
        json_view(*self)
    }
}

impl Json {
    /// A copy of the value.
    pub fn deep_clone(&self) -> (r: Json)
        ensures
            r@ == self@,
        decreases self,
    {
        match self {
            Json::Null => Json::Null,
            Json::Bool(b) => Json::Bool(*b),
            Json::Number(n) => Json::Number(n.clone()),
            Json::Str(s) => Json::Str(s.clone()),
            Json::Embedded(t) => Json::Embedded(t.clone()),
            Json::Array(v) => {
                let mut out: Vec<Json> = Vec::new();
                let mut i: usize = 0;
                assert forall|k: int| 0 <= k < v@.len() implies decreases_to!(*self => #[trigger] v@[k]) by {
                    broadcast use vstd::std_specs::vec::axiom_vec_index_decreases;
                    assert(decreases_to!(*v => v[k]));
                }
                while i < v.len()
                    invariant
                        forall|k: int| 0 <= k < v@.len() ==> decreases_to!(*self => #[trigger] v@[k]),
                        i <= v@.len(),
                        out@.len() == i,
                        forall|k: int| 0 <= k < i ==> #[trigger] out@[k]@ == v@[k]@,
                    decreases v@.len() - i,
                {
                    let c = v[i].deep_clone();
                    out.push(c);
                    i += 1;
                }
                let r = Json::Array(out);
                proof {
                    lemma_items_view(out@);
                    lemma_items_view(v@);
                    assert forall|k: int| 0 <= k < v@.len() implies items_view(out@)[k] == items_view(v@)[k] by {
                        assert(out@[k]@ == v@[k]@);
                    }
                    assert(items_view(out@) =~= items_view(v@));
                }
                r
            },
            Json::Object(m) => {
                let mut out: Vec<(String, Json)> = Vec::new();
                let mut i: usize = 0;
                assert forall|k: int| 0 <= k < m@.len() implies decreases_to!(*self => #[trigger] m@[k].1) by {
                    broadcast use vstd::std_specs::vec::axiom_vec_index_decreases;
                    assert(decreases_to!(*m => m[k]));
                    assert(decreases_to!(m[k] => m[k].1));
                }
                while i < m.len()
                    invariant
                        forall|k: int| 0 <= k < m@.len() ==> decreases_to!(*self => #[trigger] m@[k].1),
                        i <= m@.len(),
                        out@.len() == i,
                        forall|k: int| 0 <= k < i ==> #[trigger] out@[k].0@ == m@[k].0@ && out@[k].1@ == m@[k].1@,
                    decreases m@.len() - i,
                {
                    let c = m[i].1.deep_clone();
                    out.push((m[i].0.clone(), c));
                    i += 1;
                }
                let r = Json::Object(out);
                proof {
                    lemma_members_view(out@);
                    lemma_members_view(m@);
                    assert(members_view(out@) =~= members_view(m@));
                }
                r
            },
        }
    }
}

} // verus!

verus! {

// ---------- reading ----------

/// Index of the first member named `k`.
pub open spec fn find_key(ms: Seq<(Seq<char>, JsonV)>, k: Seq<char>) -> Option<int>
    decreases ms.len(),
{
    if ms.len() == 0 {
        None
    } else {
        match find_key(ms.drop_last(), k) {
            Some(i) => Some(i),
            None => if ms.last().0 == k { Some(ms.len() - 1) } else { None },
        }
    }
}

pub proof fn lemma_find_key(ms: Seq<(Seq<char>, JsonV)>, k: Seq<char>)
    ensures
        find_key(ms, k) matches Some(i) ==> 0 <= i < ms.len() && ms[i].0 == k
            && forall|j: int| 0 <= j < i ==> ms[j].0 != k,
        find_key(ms, k) is None ==> forall|j: int| 0 <= j < ms.len() ==> ms[j].0 != k,
    decreases ms.len(),
{
    if ms.len() > 0 {
        let p = ms.drop_last();
        lemma_find_key(p, k);
        assert forall|j: int| 0 <= j < p.len() implies #[trigger] ms[j] == p[j] by {}
        match find_key(p, k) {
            Some(i) => {
                assert(ms[i] == p[i]);
                assert forall|j: int| 0 <= j < i implies ms[j].0 != k by {
                    assert(ms[j] == p[j]);
                }
            },
            None => {
                assert forall|j: int| 0 <= j < ms.len() - 1 implies ms[j].0 != k by {
                    assert(ms[j] == p[j]);
                }
            },
        }
    }
}

/// The member `k` of an object (`Value::get`).
pub open spec fn jget(j: JsonV, k: Seq<char>) -> Option<JsonV> {
    match j {
        JsonV::Object(ms) => match find_key(ms, k) {
            Some(i) => Some(ms[i].1),
            None => None,
        },
        _ => None,
    }
}

/// `j[k]`: the member, or null.
pub open spec fn jat(j: JsonV, k: Seq<char>) -> JsonV {
    match jget(j, k) {
        Some(v) => v,
        None => JsonV::Null,
    }
}

/// The text of a string value.
pub open spec fn jstr(j: JsonV) -> Option<Seq<char>> {
    match j {
        JsonV::Str(s) => Some(s),
        _ => None,
    }
}

/// The items of an array value.
pub open spec fn jarr(j: JsonV) -> Option<Seq<JsonV>> {
    match j {
        JsonV::Array(a) => Some(a),
        _ => None,
    }
}

/// Whether two texts are equal.
pub fn text_eq(a: &str, b: &str) -> (r: bool)
    ensures
        r == (a@ == b@),
{
    crate::text::chars_eq(&crate::text::chars_of(a), &crate::text::chars_of(b))
}

/// Position of the first member named `key`.
fn find_member(m: &Vec<(String, Json)>, key: &str) -> (r: Option<usize>)
    ensures
        match r {
            Some(i) => find_key(members_view(m@), key@) == Some(i as int),
            None => find_key(members_view(m@), key@) is None,
        },
{
    proof { lemma_members_view(m@); }
    let ghost ms = members_view(m@);
    let mut i: usize = 0;
    while i < m.len()
        invariant
            i <= m@.len(),
            ms == members_view(m@),
            ms.len() == m@.len(),
            forall|k: int| 0 <= k < m@.len() ==> #[trigger] ms[k] == (m@[k].0@, json_view(m@[k].1)),
            forall|j: int| 0 <= j < i ==> ms[j].0 != key@,
        decreases m@.len() - i,
    {
        if text_eq(m[i].0.as_str(), key) {
            proof {
                lemma_find_key(ms, key@);
                assert(ms[i as int].0 == key@);
            }
            return Some(i);
        }
        i += 1;
    }
    proof { lemma_find_key(ms, key@); }
    None
}

impl Json {
    /// The member `key` of an object.
    pub fn get(&self, key: &str) -> (r: Option<&Json>)
        ensures
            match r {
                Some(x) => jget(self@, key@) == Some(x@),
                None => jget(self@, key@) is None,
            },
    {
        match self {
            Json::Object(m) => {
                proof { lemma_members_view(m@); }
                let found = find_member(m, key);
                proof { lemma_find_key(members_view(m@), key@); }
                match found {
                    Some(i) => Some(&m[i].1),
                    None => None,
                }
            },
            _ => None,
        }
    }

    /// The text of a string value.
    pub fn as_str(&self) -> (r: Option<&str>)
        ensures
            match r {
                Some(s) => jstr(self@) == Some(s@),
                None => jstr(self@) is None,
            },
    {
        match self {
            Json::Str(s) => Some(s.as_str()),
            _ => None,
        }
    }

    /// The items of an array value.
    pub fn as_array(&self) -> (r: Option<&Vec<Json>>)
        ensures
            match r {
                Some(v) => jarr(self@) == Some(items_view(v@)),
                None => jarr(self@) is None,
            },
    {
        match self {
            Json::Array(v) => Some(v),
            _ => None,
        }
    }

    /// `self[key].as_str()`.
    pub fn member_str(&self, key: &str) -> (r: Option<&str>)
        ensures
            match r {
                Some(s) => jstr(jat(self@, key@)) == Some(s@),
                None => jstr(jat(self@, key@)) is None,
            },
    {
        match self.get(key) {
            Some(v) => v.as_str(),
            None => None,
        }
    }

    /// `self[key]` copied (null when missing).
    pub fn member(&self, key: &str) -> (r: Json)
        ensures
            r@ == jat(self@, key@),
    {
        match self.get(key) {
            Some(v) => v.deep_clone(),
            None => Json::Null,
        }
    }
}

// ---------- building ----------

/// `j[k] = v` on an object (or null, which becomes an object).
pub open spec fn jset(j: JsonV, k: Seq<char>, v: JsonV) -> JsonV {
    match j {
        JsonV::Object(ms) => match find_key(ms, k) {
            Some(i) => JsonV::Object(ms.update(i, (k, v))),
            None => JsonV::Object(ms.push((k, v))),
        },
        JsonV::Null => JsonV::Object(seq![(k, v)]),
        _ => j,
    }
}

/// Objects and null can take a member.
pub open spec fn settable(j: JsonV) -> bool {
    j is Object || j is Null
}

impl Json {
    /// `self[key] = v` on an object or null; any other value is left as it is
    /// (indexing such a value for assignment is a fault, see `settable`).
    pub fn set(&mut self, key: &str, v: Json)
        ensures
            final(self)@ == jset(old(self)@, key@, v@),
    {
        let ghost vv = v@;
        match self {
            Json::Object(m) => {
                proof { lemma_members_view(m@); }
                let ghost ms = members_view(m@);
                let ghost old_m = m@;
                let found = find_member(m, key);
                proof { lemma_find_key(ms, key@); }
                match found {
                    Some(i) => {
                        m.set(i, (String::from_str(key), v));
                        proof {
                            lemma_members_view(m@);
                            lemma_find_key(ms, key@);
                            assert forall|k: int| 0 <= k < ms.len() implies #[trigger] members_view(m@)[k] == ms.update(i as int, (key@, vv))[k] by {
                                if k != i {
                                    assert(m@[k] == old_m[k]);
                                    assert(ms[k] == (old_m[k].0@, json_view(old_m[k].1)));
                                } else {
                                    assert(m@[k].0@ == key@);
                                    assert(json_view(m@[k].1) == vv);
                                }
                            }
                            assert(members_view(m@) =~= ms.update(i as int, (key@, vv)));
                        }
                    },
                    None => {
                        m.push((String::from_str(key), v));
                        proof {
                            lemma_members_view(m@);
                            assert forall|k: int| 0 <= k < ms.len() implies #[trigger] members_view(m@)[k] == ms.push((key@, vv))[k] by {
                                assert(m@[k] == old_m[k]);
                            }
                            assert(members_view(m@) =~= ms.push((key@, vv)));
                        }
                    },
                }
            },
            Json::Null => {
                let mut m: Vec<(String, Json)> = Vec::new();
                m.push((String::from_str(key), v));
                proof {
                    lemma_members_view(m@);
                    assert(members_view(m@) =~= seq![(key@, vv)]);
                }
                *self = Json::Object(m);
            },
            _ => {},
        }
    }

    /// Appends an item to an array.
    pub fn push_item(&mut self, v: Json)
        requires
            old(self)@ is Array,
        ensures
            final(self)@ == JsonV::Array(old(self)@->Array_0.push(v@)),
    {
        let ghost vv = v@;
        match self {
            Json::Array(a) => {
                proof { lemma_items_view(a@); }
                let ghost before = items_view(a@);
                a.push(v);
                proof {
                    lemma_items_view(a@);
                    assert(items_view(a@) =~= before.push(vv));
                }
            },
            _ => {},
        }
    }
}

/// A string value.
pub fn jtext(s: &str) -> (r: Json)
    ensures
        r@ == JsonV::Str(s@),
{
    Json::Str(String::from_str(s))
}

/// An empty object.
pub fn jobject() -> (r: Json)
    ensures
        r@ == JsonV::Object(Seq::<(Seq<char>, JsonV)>::empty()),
{
    let m: Vec<(String, Json)> = Vec::new();
    proof { lemma_members_view(m@); }
    let r = Json::Object(m);
    assert(members_view(m@) =~= Seq::<(Seq<char>, JsonV)>::empty());
    r
}

/// An array of the given items.
pub fn jarray(items: Vec<Json>) -> (r: Json)
    ensures
        r@ == JsonV::Array(items_view(items@)),
{
    Json::Array(items)
}

// ---------- more reading ----------

/// `j[i]`: the item of an array, or null.
pub open spec fn jidx(j: JsonV, i: int) -> JsonV {
    match j {
        JsonV::Array(a) => if 0 <= i < a.len() { a[i] } else { JsonV::Null },
        _ => JsonV::Null,
    }
}

/// `as_u64`: a number written as plain decimal digits that fits in 64 bits.
pub open spec fn jnum_u64(j: JsonV) -> Option<u64> {
    match j {
        JsonV::Number(t) => if t.len() > 0 && crate::text::lead_digits(t) == t.len()
            && crate::text::digits_value(t) <= u64::MAX {
            Some(crate::text::digits_value(t) as u64)
        } else {
            None
        },
        _ => None,
    }
}

/// A JSON object of the given members.
pub open spec fn jobj(ms: Seq<(Seq<char>, JsonV)>) -> JsonV {
    JsonV::Object(ms)
}

/// The value of a run of digits, when it fits in 64 bits.
fn parse_u64(v: &[char]) -> (r: Option<u64>)
    requires
        forall|k: int| 0 <= k < v@.len() ==> crate::text::is_digit(#[trigger] v@[k]),
    ensures
        r == (if crate::text::digits_value(v@) <= u64::MAX {
            Some(crate::text::digits_value(v@) as u64)
        } else {
            None::<u64>
        }),
{
    let mut acc: u64 = 0;
    let mut ok = true;
    let mut i: usize = 0;
    while i < v.len()
        invariant
            i <= v@.len(),
            forall|k: int| 0 <= k < v@.len() ==> crate::text::is_digit(#[trigger] v@[k]),
            ok ==> acc == crate::text::digits_value(v@.take(i as int)),
            !ok ==> crate::text::digits_value(v@.take(i as int)) > u64::MAX,
        decreases v@.len() - i,
    {
        let ghost pre = v@.take(i as int);
        let ghost next = v@.take(i + 1);
        assert(next.drop_last() == pre);
        assert(next.last() == v@[i as int]);
        assert(crate::text::is_digit(v@[i as int]));
        let d = (v[i] as u32 - '0' as u32) as u64;
        assert(crate::text::digits_value(next) == crate::text::digits_value(pre) * 10 + d);
        if ok {
            match acc.checked_mul(10) {
                Some(m) => match m.checked_add(d) {
                    Some(a) => { acc = a; }
                    None => { ok = false; }
                },
                None => {
                    ok = false;
                    assert(crate::text::digits_value(pre) * 10 > u64::MAX);
                }
            }
        } else {
            assert(crate::text::digits_value(pre) * 10 >= crate::text::digits_value(pre)) by (nonlinear_arith);
        }
        i += 1;
    }
    assert(v@.take(v@.len() as int) == v@);
    if ok { Some(acc) } else { None }
}

impl Json {
    /// `self[i]` copied (null when there is no such item).
    pub fn item(&self, i: usize) -> (r: Json)
        ensures
            r@ == jidx(self@, i as int),
    {
        match self {
            Json::Array(a) => {
                proof { lemma_items_view(a@); }
                if i < a.len() { a[i].deep_clone() } else { Json::Null }
            },
            _ => Json::Null,
        }
    }

    /// The number as an unsigned 64-bit integer.
    pub fn as_u64(&self) -> (r: Option<u64>)
        ensures
            r == jnum_u64(self@),
    {
        match self {
            Json::Number(t) => {
                let v = crate::text::chars_of(t.as_str());
                if v.len() == 0 {
                    return None;
                }
                let n = crate::text::count_digits(&v, 0);
                assert(v@.skip(0) == v@);
                if n != v.len() {
                    return None;
                }
                proof { crate::text::lemma_lead_digits(v@); }
                parse_u64(&v)
            },
            _ => None,
        }
    }

    /// Whether this is the string `t`.
    pub fn is_text(&self, t: &str) -> (r: bool)
        ensures
            r == (self@ == JsonV::Str(t@)),
    {
        match self {
            Json::Str(s) => text_eq(s.as_str(), t),
            _ => false,
        }
    }

    /// Whether this is a string.
    pub fn is_string(&self) -> (r: bool)
        ensures
            r == (self@ is Str),
    {
        match self {
            Json::Str(_) => true,
            _ => false,
        }
    }

    /// Whether this is null.
    pub fn is_null(&self) -> (r: bool)
        ensures
            r == (self@ is Null),
    {
        match self {
            Json::Null => true,
            _ => false,
        }
    }
}

/// The object of the given members.
pub fn obj_of(ms: Vec<(String, Json)>) -> (r: Json)
    ensures
        r@ == JsonV::Object(members_view(ms@)),
{
    Json::Object(ms)
}

/// `{k1: v1}`.
pub fn obj1(k1: &str, v1: Json) -> (r: Json)
    ensures
        r@ == jobj(seq![(k1@, v1@)]),
{
    let ghost g1 = v1@;
    let mut m: Vec<(String, Json)> = Vec::new();
    m.push((String::from_str(k1), v1));
    proof {
        lemma_members_view(m@);
        assert(members_view(m@) =~= seq![(k1@, g1)]);
    }
    Json::Object(m)
}

/// `{k1: v1, k2: v2}`.
pub fn obj2(k1: &str, v1: Json, k2: &str, v2: Json) -> (r: Json)
    ensures
        r@ == jobj(seq![(k1@, v1@), (k2@, v2@)]),
{
    let ghost g1 = v1@;
    let ghost g2 = v2@;
    let mut m: Vec<(String, Json)> = Vec::new();
    m.push((String::from_str(k1), v1));
    m.push((String::from_str(k2), v2));
    proof {
        lemma_members_view(m@);
        assert(members_view(m@) =~= seq![(k1@, g1), (k2@, g2)]);
    }
    Json::Object(m)
}

/// `{k1: v1, k2: v2, k3: v3}`.
pub fn obj3(k1: &str, v1: Json, k2: &str, v2: Json, k3: &str, v3: Json) -> (r: Json)
    ensures
        r@ == jobj(seq![(k1@, v1@), (k2@, v2@), (k3@, v3@)]),
{
    let ghost g1 = v1@;
    let ghost g2 = v2@;
    let ghost g3 = v3@;
    let mut m: Vec<(String, Json)> = Vec::new();
    m.push((String::from_str(k1), v1));
    m.push((String::from_str(k2), v2));
    m.push((String::from_str(k3), v3));
    proof {
        lemma_members_view(m@);
        assert(members_view(m@) =~= seq![(k1@, g1), (k2@, g2), (k3@, g3)]);
    }
    Json::Object(m)
}

/// `{k1: v1, k2: v2, k3: v3, k4: v4}`.
pub fn obj4(k1: &str, v1: Json, k2: &str, v2: Json, k3: &str, v3: Json, k4: &str, v4: Json) -> (r: Json)
    ensures
        r@ == jobj(seq![(k1@, v1@), (k2@, v2@), (k3@, v3@), (k4@, v4@)]),
{
    let ghost g1 = v1@;
    let ghost g2 = v2@;
    let ghost g3 = v3@;
    let ghost g4 = v4@;
    let mut m: Vec<(String, Json)> = Vec::new();
    m.push((String::from_str(k1), v1));
    m.push((String::from_str(k2), v2));
    m.push((String::from_str(k3), v3));
    m.push((String::from_str(k4), v4));
    proof {
        lemma_members_view(m@);
        assert(members_view(m@) =~= seq![(k1@, g1), (k2@, g2), (k3@, g3), (k4@, g4)]);
    }
    Json::Object(m)
}

/// A boolean value.
pub fn jbool(b: bool) -> (r: Json)
    ensures
        r@ == JsonV::Bool(b),
{
    Json::Bool(b)
}

/// A number given by its JSON text.
pub fn jnumber(t: &str) -> (r: Json)
    ensures
        r@ == JsonV::Number(t@),
{
    Json::Number(String::from_str(t))
}

// ---------- positions in a list of values ----------

/// The last position whose item satisfies `p`.
pub open spec fn last_where(a: Seq<JsonV>, p: spec_fn(JsonV) -> bool) -> Option<int>
    decreases a.len(),
{
    if a.len() == 0 {
        None
    } else if p(a.last()) {
        Some(a.len() - 1)
    } else {
        last_where(a.drop_last(), p)
    }
}

/// The positions whose items satisfy `p`, in order.
pub open spec fn indices_where(a: Seq<JsonV>, p: spec_fn(JsonV) -> bool) -> Seq<int>
    decreases a.len(),
{
    if a.len() == 0 {
        Seq::<int>::empty()
    } else if p(a.last()) {
        indices_where(a.drop_last(), p).push(a.len() - 1)
    } else {
        indices_where(a.drop_last(), p)
    }
}

pub proof fn lemma_last_where(a: Seq<JsonV>, p: spec_fn(JsonV) -> bool)
    ensures
        last_where(a, p) matches Some(k) ==> 0 <= k < a.len() && p(a[k])
            && forall|j: int| k < j < a.len() ==> !p(#[trigger] a[j]),
        last_where(a, p) is None ==> forall|j: int| 0 <= j < a.len() ==> !p(#[trigger] a[j]),
    decreases a.len(),
{
    if a.len() > 0 && !p(a.last()) {
        let d = a.drop_last();
        lemma_last_where(d, p);
        assert forall|j: int| 0 <= j < d.len() implies #[trigger] a[j] == d[j] by {}
    }
}

/// Scanning down from `i`: nothing at or above `i` satisfies `p`, so the answer lies below.
pub proof fn lemma_last_where_take(a: Seq<JsonV>, p: spec_fn(JsonV) -> bool, i: int)
    requires
        0 <= i <= a.len(),
        forall|j: int| i <= j < a.len() ==> !p(#[trigger] a[j]),
    ensures
        last_where(a, p) == last_where(a.take(i), p),
    decreases a.len() - i,
{
    if i < a.len() {
        let d = a.drop_last();
        assert forall|j: int| i <= j < d.len() implies !p(#[trigger] d[j]) by {
            assert(d[j] == a[j]);
        }
        lemma_last_where_take(d, p, i);
        assert(d.take(i) =~= a.take(i));
    } else {
        assert(a.take(i) =~= a);
    }
}

/// One more item taken into account.
pub proof fn lemma_indices_where_step(a: Seq<JsonV>, p: spec_fn(JsonV) -> bool, i: int)
    requires
        0 <= i < a.len(),
    ensures
        indices_where(a.take(i + 1), p) == if p(a[i]) {
            indices_where(a.take(i), p).push(i)
        } else {
            indices_where(a.take(i), p)
        },
{
    assert(a.take(i + 1).drop_last() =~= a.take(i));
    assert(a.take(i + 1).last() == a[i]);
}

pub proof fn lemma_indices_where(a: Seq<JsonV>, p: spec_fn(JsonV) -> bool)
    ensures
        forall|k: int| 0 <= k < indices_where(a, p).len() ==> 0 <= #[trigger] indices_where(a, p)[k] < a.len(),
    decreases a.len(),
{
    if a.len() > 0 {
        let d = a.drop_last();
        lemma_indices_where(d, p);
        let r = indices_where(a, p);
        let q = indices_where(d, p);
        assert forall|k: int| 0 <= k < r.len() implies 0 <= #[trigger] r[k] < a.len() by {
            if k < q.len() {
                assert(r[k] == q[k]);
            }
        }
    }
}

pub proof fn lemma_items_push(s: Seq<Json>, x: Json)
    ensures
        items_view(s.push(x)) == items_view(s).push(x@),
{
    assert(s.push(x).drop_last() =~= s);
}

pub proof fn lemma_items_update(s: Seq<Json>, i: int, x: Json)
    requires
        0 <= i < s.len(),
    ensures
        items_view(s.update(i, x)) == items_view(s).update(i, x@),
{
    lemma_items_view(s);
    lemma_items_view(s.update(i, x));
    assert(items_view(s.update(i, x)) =~= items_view(s).update(i, x@));
}

/// A list of values.
pub fn jarray_of(items: Vec<Json>) -> (r: Json)
    ensures
        r@ == JsonV::Array(items_view(items@)),
{
    Json::Array(items)
}

// ---------- JSON text ----------

#[verifier::external_type_specification]
#[verifier::external_body]
pub struct ExValue(serde_json::Value);

/// The text that serde_json's `Value::to_string` writes for the value (compact;
/// with serde_json's default map, an object's keys in sorted order, a repeated
/// key kept once with its last value).
pub uninterp spec fn value_text(j: JsonV) -> Seq<char>;

/// The value as serde_json's `Value`, one for one. A number's or an embedded
/// text's value is what serde_json reads from the text (`null` if it reads none).
#[verifier::external_body]
fn to_value(j: &Json) -> serde_json::Value {
    match j {
        Json::Null => serde_json::Value::Null,
        Json::Bool(b) => serde_json::Value::Bool(*b),
        Json::Number(t) | Json::Embedded(t) => serde_json::from_str(t).unwrap_or(serde_json::Value::Null),
        Json::Str(s) => serde_json::Value::String(s.clone()),
        Json::Array(a) => serde_json::Value::Array(a.iter().map(to_value).collect()),
        Json::Object(ms) => serde_json::Value::Object(ms.iter().map(|(k, v)| (k.clone(), to_value(v))).collect()),
    }
}

/// The value that `serde_json::from_str::<Value>` reads from the text, as the
/// library's JSON (numbers by their text, an object's members in the parser's
/// map order), or `None` when it reads none.
pub uninterp spec fn json_parse(s: Seq<char>) -> Option<JsonV>;

/// The message of the error that `serde_json::from_str::<Value>` gives for the text.
pub uninterp spec fn json_parse_error(s: Seq<char>) -> Seq<char>;

/// serde_json's `Value` as the library's JSON, one for one.
#[verifier::external_body]
fn from_value(v: &serde_json::Value) -> Json {
    match v {
        serde_json::Value::Null => Json::Null,
        serde_json::Value::Bool(b) => Json::Bool(*b),
        serde_json::Value::Number(n) => Json::Number(n.to_string()),
        serde_json::Value::String(s) => Json::Str(s.clone()),
        serde_json::Value::Array(a) => Json::Array(a.iter().map(from_value).collect()),
        serde_json::Value::Object(m) => Json::Object(m.iter().map(|(k, v)| (k.clone(), from_value(v))).collect()),
    }
}

/// `serde_json::from_str::<Value>`: claims only that the value read is named
/// `json_parse` of the text, and the error's message `json_parse_error` of it.
#[verifier::external_body]
pub fn parse_json_or_error(text: &str) -> (r: Result<Json, String>)
    ensures
        match r {
            Ok(j) => json_parse(text@) == Some(j@),
            Err(e) => json_parse(text@) is None && e@ == json_parse_error(text@),
        },
{
    serde_json::from_str::<serde_json::Value>(text).map(|v| from_value(&v)).map_err(|e| e.to_string())
}

/// The JSON value of a text, or `None` when it is not JSON.
pub fn parse_json(text: &str) -> (r: Option<Json>)
    ensures
        match r {
            Some(j) => json_parse(text@) == Some(j@),
            None => json_parse(text@) is None,
        },
{
    match parse_json_or_error(text) {
        Ok(j) => Some(j),
        Err(_) => None,
    }
}

impl Json {
    /// The value's JSON text, as serde_json's `Value::to_string` writes it:
    /// claims only that the text is named `value_text` of the value.
    #[verifier::external_body]
    pub(crate) fn to_text(&self) -> (r: String)
        ensures
            r@ == value_text(self@),
    {
        to_value(self).to_string()
    }
}

// ---------- removing a member ----------

/// The members without any named `k`.
pub open spec fn without_key(ms: Seq<(Seq<char>, JsonV)>, k: Seq<char>) -> Seq<(Seq<char>, JsonV)>
    decreases ms.len(),
{
    if ms.len() == 0 {
        ms
    } else if ms.last().0 == k {
        without_key(ms.drop_last(), k)
    } else {
        without_key(ms.drop_last(), k).push(ms.last())
    }
}

/// `j` without its member `k` (anything but an object stays as it is).
pub open spec fn jremove(j: JsonV, k: Seq<char>) -> JsonV {
    match j {
        JsonV::Object(ms) => JsonV::Object(without_key(ms, k)),
        _ => j,
    }
}

impl Json {
    /// Removes the member `key` of an object.
    pub fn remove_member(&mut self, key: &str)
        ensures
            final(self)@ == jremove(old(self)@, key@),
    {
        match self {
            Json::Object(m) => {
                proof { lemma_members_view(m@); }
                let ghost mv = members_view(m@);
                let mut out: Vec<(String, Json)> = Vec::new();
                let mut taken: Vec<(String, Json)> = Vec::new();
                std::mem::swap(&mut taken, m);
                let ghost orig = taken@;
                let ghost om = members_view(orig);
                let mut rest = taken;
                let mut i: usize = 0;
                let n = rest.len();
                proof { lemma_members_view(out@); }
                while rest.len() > 0
                    invariant
                        orig.len() == n,
                        rest@ == orig.skip(i as int),
                        i <= n,
                        om == members_view(orig),
                        om.len() == orig.len(),
                        forall|k: int| 0 <= k < orig.len() ==> #[trigger] om[k] == (orig[k].0@, json_view(orig[k].1)),
                        members_view(out@) == without_key(om.take(i as int), key@),
                    decreases rest@.len(),
                {
                    let x = rest.remove(0);
                    assert(orig.skip(i as int).drop_first() =~= orig.skip(i + 1));
                    assert(om.take(i + 1).drop_last() =~= om.take(i as int));
                    assert(om.take(i + 1).last() == om[i as int]);
                    assert(x == orig[i as int]);
                    if !text_eq(x.0.as_str(), key) {
                        let ghost before = out@;
                        out.push(x);
                        proof {
                            lemma_members_view(before);
                            lemma_members_view(out@);
                            assert(members_view(out@) =~= members_view(before).push(om[i as int]));
                        }
                    }
                    i += 1;
                }
                assert(om.take(n as int) =~= om);
                *m = out;
            },
            _ => {},
        }
    }
}

} // verus!
