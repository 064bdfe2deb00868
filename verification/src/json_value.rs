//! The JSON tree that the AST, the metadata and the data-file converters produce.
//!
//! Numbers are held as their JSON text (`"5"`, `"-12"`, `"1.5"`), so that no
//! floating-point value is needed here; `Float` holds the text of a YAML
//! scalar that only a floating-point parse can turn into a number.
use vstd::prelude::*;
use crate::text::own;

verus! {

/// A JSON value.
#[derive(Debug, PartialEq)]
pub enum Json {
    Null,
    Bool(bool),
    /// A JSON number, as its JSON text.
    Number(String),
    /// The text of a plain YAML scalar that reads as a floating-point literal;
    /// it becomes a JSON number when its value is finite, else a string.
    Float(String),
    Str(String),
    Array(Vec<Json>),
    /// Members in insertion order. The type does not keep keys distinct:
    /// `obj_insert` replaces a member of the same key, `push_member` does
    /// not, and a lookup (`members_get`) reads the first member of a key.
    Object(Vec<(String, Json)>),
}

/// The mathematical value of a [`Json`].
pub enum JsonV {
    Null,
    Bool(bool),
    Number(Seq<char>),
    Float(Seq<char>),
    Str(Seq<char>),
    Array(Seq<JsonV>),
    Object(Seq<(Seq<char>, JsonV)>),
}

impl View for Json {
    type V = JsonV;

    open spec fn view(&self) -> JsonV
        decreases self,
    {
        match self {
            Json::Null => JsonV::Null,
            Json::Bool(b) => JsonV::Bool(*b),
            Json::Number(s) => JsonV::Number(s@),
            Json::Float(s) => JsonV::Float(s@),
            Json::Str(s) => JsonV::Str(s@),
            Json::Array(v) => JsonV::Array(view_items(v@)),
            Json::Object(v) => JsonV::Object(view_members(v@)),
        }
    }
}

/// The values of a sequence of [`Json`] items.
pub open spec fn view_items(s: Seq<Json>) -> Seq<JsonV>
    decreases s,
{
    if s.len() == 0 {
        Seq::empty()
    } else {
        view_items(s.drop_last()).push(s.last().view())
    }
}

/// The values of a sequence of object members.
pub open spec fn view_members(s: Seq<(String, Json)>) -> Seq<(Seq<char>, JsonV)>
    decreases s,
{
    if s.len() == 0 {
        Seq::empty()
    } else {
        view_members(s.drop_last()).push((s.last().0@, s.last().1.view()))
    }
}

pub broadcast proof fn lemma_view_items(s: Seq<Json>)
    ensures
        #[trigger] view_items(s).len() == s.len(),
        forall|i: int| 0 <= i < s.len() ==> #[trigger] view_items(s)[i] == s[i]@,
    decreases s.len(),
{
    if s.len() > 0 {
        lemma_view_items(s.drop_last());
        assert(view_items(s) == view_items(s.drop_last()).push(s.last()@));
        assert forall|i: int| 0 <= i < s.len() implies #[trigger] view_items(s)[i] == s[i]@ by {
            if i < s.len() - 1 {
                assert(s[i] == s.drop_last()[i]);
            }
        }
    }
}

pub broadcast proof fn lemma_view_members(s: Seq<(String, Json)>)
    ensures
        #[trigger] view_members(s).len() == s.len(),
        forall|i: int|
            0 <= i < s.len() ==> #[trigger] view_members(s)[i] == (s[i].0@, s[i].1@),
    decreases s.len(),
{
    if s.len() > 0 {
        lemma_view_members(s.drop_last());
        assert(view_members(s) == view_members(s.drop_last()).push((s.last().0@, s.last().1@)));
        assert forall|i: int| 0 <= i < s.len() implies #[trigger] view_members(s)[i] == (
            s[i].0@,
            s[i].1@,
        ) by {
            if i < s.len() - 1 {
                assert(s[i] == s.drop_last()[i]);
            }
        }
    }
}

pub broadcast proof fn lemma_view_items_push(s: Seq<Json>, x: Json)
    ensures
        #[trigger] view_items(s.push(x)) == view_items(s).push(x@),
{
    assert(s.push(x).drop_last() =~= s);
}

pub broadcast proof fn lemma_view_members_push(s: Seq<(String, Json)>, x: (String, Json))
    ensures
        #[trigger] view_members(s.push(x)) == view_members(s).push((x.0@, x.1@)),
{
    assert(s.push(x).drop_last() =~= s);
}

pub proof fn lemma_view_members_concat(a: Seq<(String, Json)>, b: Seq<(String, Json)>)
    ensures
        view_members(a + b) == view_members(a) + view_members(b),
{
    lemma_view_members(a + b);
    lemma_view_members(a);
    lemma_view_members(b);
    assert(view_members(a + b) =~= view_members(a) + view_members(b));
}

pub broadcast group group_json_view {
    lemma_view_items,
    lemma_view_members,
    lemma_view_items_push,
    lemma_view_members_push,
}

/// Index of the member with key `k`, if any.
pub open spec fn key_index(m: Seq<(Seq<char>, JsonV)>, k: Seq<char>) -> Option<int>
    decreases m.len(),
{
    if m.len() == 0 {
        None
    } else {
        match key_index(m.drop_last(), k) {
            Some(i) => Some(i),
            None => if m.last().0 == k {
                Some(m.len() - 1)
            } else {
                None
            },
        }
    }
}

pub proof fn lemma_key_index(m: Seq<(Seq<char>, JsonV)>, k: Seq<char>)
    ensures
        key_index(m, k) matches Some(i) ==> 0 <= i < m.len() && m[i].0 == k && forall|j: int|
            0 <= j < i ==> m[j].0 != k,
        key_index(m, k) is None ==> forall|j: int| 0 <= j < m.len() ==> m[j].0 != k,
    decreases m.len(),
{
    if m.len() > 0 {
        lemma_key_index(m.drop_last(), k);
        assert forall|j: int| 0 <= j < m.len() - 1 implies m[j] == m.drop_last()[j] by {}
    }
}

/// Whether the keys of `m` are pairwise distinct.
pub open spec fn distinct_keys(m: Seq<(Seq<char>, JsonV)>) -> bool {
    forall|i: int, j: int| 0 <= i < j < m.len() ==> m[i].0 != m[j].0
}

/// `m` with `k` bound to `v`: the member with key `k` is replaced in place,
/// or a new member is appended when there is none (`Map::insert`).
pub open spec fn members_insert(m: Seq<(Seq<char>, JsonV)>, k: Seq<char>, v: JsonV) -> Seq<
    (Seq<char>, JsonV),
> {
    match key_index(m, k) {
        Some(i) => m.update(i, (k, v)),
        None => m.push((k, v)),
    }
}

/// The value bound to `k` in `m` (`Map::get`).
pub open spec fn members_get(m: Seq<(Seq<char>, JsonV)>, k: Seq<char>) -> Option<JsonV> {
    match key_index(m, k) {
        Some(i) => Some(m[i].1),
        None => None,
    }
}

/// Binding a key in an object keeps its keys distinct, and the key then
/// reads back the value bound to it.
pub proof fn lemma_insert_distinct(m: Seq<(Seq<char>, JsonV)>, k: Seq<char>, v: JsonV)
    requires
        distinct_keys(m),
    ensures
        distinct_keys(members_insert(m, k, v)),
        members_get(members_insert(m, k, v), k) == Some(v),
{
    let r = members_insert(m, k, v);
    lemma_key_index(m, k);
    lemma_key_index(r, k);
    match key_index(m, k) {
        Some(i) => {
            assert(r[i].0 == k);
            assert forall|a: int, b: int| 0 <= a < b < r.len() implies r[a].0 != r[b].0 by {
                if a != i && b != i {
                    assert(r[a] == m[a] && r[b] == m[b]);
                } else if a == i {
                    assert(r[b] == m[b]);
                } else {
                    assert(r[a] == m[a]);
                }
            }
            if let Some(j) = key_index(r, k) {
                if j != i {
                    assert(r[j] == m[j]);
                }
            }
        },
        None => {
            assert(r[m.len() as int].0 == k);
            assert forall|a: int, b: int| 0 <= a < b < r.len() implies r[a].0 != r[b].0 by {
                if b < m.len() {
                    assert(r[a] == m[a] && r[b] == m[b]);
                } else {
                    assert(r[a] == m[a]);
                }
            }
            if let Some(j) = key_index(r, k) {
                if j != m.len() {
                    assert(r[j] == m[j]);
                }
            }
        },
    }
}

/// Binds `key` to `val` in the object members `m`.
pub fn obj_insert(m: &mut Vec<(String, Json)>, key: String, val: Json)
    ensures
        view_members(final(m)@) == members_insert(view_members(old(m)@), key@, val@),
{
    broadcast use group_json_view;

    let ghost km = view_members(m@);
    proof {
        lemma_view_members(m@);
    }
    let mut i: usize = 0;
    while i < m.len()
        invariant
            i <= m.len(),
            m@ == old(m)@,
            km == view_members(m@),
            km.len() == m@.len(),
            forall|j: int| 0 <= j < m@.len() ==> km[j] == (m@[j].0@, m@[j].1@),
            forall|j: int| 0 <= j < i ==> km[j].0 != key@,
        decreases m.len() - i,
    {
        if m[i].0 == key {
            assert(km[i as int].0 == key@);
            assert(key_index(km, key@) == Some(i as int)) by {
                lemma_key_index(km, key@);
                if let Some(x) = key_index(km, key@) {
                    if x < i {
                        assert(km[x].0 != key@);
                    } else if x > i {
                        assert(km[i as int].0 != key@);
                    }
                }
            }
            let ghost old_m = m@;
            m.set(i, (key, val));
            proof {
                lemma_view_members(m@);
                assert forall|j: int| 0 <= j < m@.len() && j != i implies m@[j] == old_m[j] by {}
            }
            assert(view_members(m@) =~= km.update(i as int, (key@, val@)));
            return;
        }
        i = i + 1;
    }
    proof {
        lemma_key_index(km, key@);
    }
    m.push((key, val));
}

/// The value bound to `key` in the members `m` (`Map::get`).
pub fn members_lookup<'a>(m: &'a Vec<(String, Json)>, key: &str) -> (r: Option<&'a Json>)
    ensures
        match r {
            Some(j) => members_get(view_members(m@), key@) == Some(j@),
            None => members_get(view_members(m@), key@) is None,
        },
{
    let ghost km = view_members(m@);
    proof {
        lemma_view_members(m@);
    }
    let mut i: usize = 0;
    while i < m.len()
        invariant
            i <= m.len(),
            km == view_members(m@),
            km.len() == m@.len(),
            forall|j: int| 0 <= j < m@.len() ==> km[j] == (m@[j].0@, m@[j].1@),
            forall|j: int| 0 <= j < i ==> km[j].0 != key@,
        decreases m.len() - i,
    {
        if crate::text::str_eq(m[i].0.as_str(), key) {
            assert(km[i as int].0 == key@);
            assert(key_index(km, key@) == Some(i as int)) by {
                lemma_key_index(km, key@);
                if let Some(x) = key_index(km, key@) {
                    if x < i {
                        assert(km[x].0 != key@);
                    } else if x > i {
                        assert(km[i as int].0 != key@);
                    }
                }
            }
            return Some(&m[i].1);
        }
        i = i + 1;
    }
    proof {
        lemma_key_index(km, key@);
    }
    None
}

/// The member of `node` with key `key`, when `node` is an object that has one
/// (`Value::get`).
pub fn json_get<'a>(node: &'a Json, key: &str) -> (r: Option<&'a Json>)
    ensures
        match node@ {
            JsonV::Object(m) => match r {
                Some(j) => members_get(m, key@) == Some(j@),
                None => members_get(m, key@) is None,
            },
            _ => r is None,
        },
{
    match node {
        Json::Object(m) => members_lookup(m, key),
        _ => None,
    }
}

/// A copy of `j`.
pub fn clone_json(j: &Json) -> (r: Json)
    ensures
        r@ == j@,
    decreases j,
{
    match j {
        Json::Null => Json::Null,
        Json::Bool(b) => Json::Bool(*b),
        Json::Number(s) => Json::Number(s.clone()),
        Json::Float(s) => Json::Float(s.clone()),
        Json::Str(s) => Json::Str(s.clone()),
        Json::Array(v) => {
            let mut r: Vec<Json> = Vec::new();
            let mut i: usize = 0;
            while i < v.len()
                invariant
                    i <= v.len(),
                    *j == Json::Array(*v),
                    view_items(r@) == view_items(v@.subrange(0, i as int)),
                decreases v.len() - i,
            {
                assert(decreases_to!(*j => j->Array_0));
                assert(decreases_to!(*v => v@));
                assert(decreases_to!(v@ => v@[i as int]));
                let x = clone_json(&v[i]);
                let ghost r0 = r@;
                r.push(x);
                proof {
                    assert(r@ =~= r0.push(x));
                    lemma_view_items_push(r0, x);
                    assert(v@.subrange(0, i + 1) =~= v@.subrange(0, i as int).push(v@[i as int]));
                    lemma_view_items_push(v@.subrange(0, i as int), v@[i as int]);
                }
                i = i + 1;
            }
            assert(v@.subrange(0, v@.len() as int) =~= v@);
            Json::Array(r)
        },
        Json::Object(m) => Json::Object(clone_members_inner(m, j)),
    }
}

fn clone_members_inner(m: &Vec<(String, Json)>, whole: &Json) -> (r: Vec<(String, Json)>)
    requires
        *whole == Json::Object(*m),
    ensures
        view_members(r@) == view_members(m@),
    decreases whole, 0nat,
{
    let mut r: Vec<(String, Json)> = Vec::new();
    let mut i: usize = 0;
    while i < m.len()
        invariant
            i <= m.len(),
            *whole == Json::Object(*m),
            view_members(r@) == view_members(m@.subrange(0, i as int)),
        decreases m.len() - i,
    {
        assert(decreases_to!(*whole => whole->Object_0));
        assert(decreases_to!(*m => m@));
        assert(decreases_to!(m@ => m@[i as int]));
        assert(decreases_to!(m@[i as int] => m@[i as int].1));
        let x = clone_json(&m[i].1);
        let k = m[i].0.clone();
        let ghost r0 = r@;
        r.push((k, x));
        proof {
            assert(r@ =~= r0.push((k, x)));
            lemma_view_members_push(r0, (k, x));
            assert(m@.subrange(0, i + 1) =~= m@.subrange(0, i as int).push(m@[i as int]));
            lemma_view_members_push(m@.subrange(0, i as int), m@[i as int]);
        }
        i = i + 1;
    }
    assert(m@.subrange(0, m@.len() as int) =~= m@);
    r
}

/// A copy of the members `m`.
pub fn clone_members(m: &Vec<(String, Json)>) -> (r: Vec<(String, Json)>)
    ensures
        view_members(r@) == view_members(m@),
{
    let mut r: Vec<(String, Json)> = Vec::new();
    let mut i: usize = 0;
    while i < m.len()
        invariant
            i <= m.len(),
            view_members(r@) == view_members(m@.subrange(0, i as int)),
        decreases m.len() - i,
    {
        let x = clone_json(&m[i].1);
        let k = m[i].0.clone();
        let ghost r0 = r@;
        r.push((k, x));
        proof {
            assert(r@ =~= r0.push((k, x)));
            lemma_view_members_push(r0, (k, x));
            assert(m@.subrange(0, i + 1) =~= m@.subrange(0, i as int).push(m@[i as int]));
            lemma_view_members_push(m@.subrange(0, i as int), m@[i as int]);
        }
        i = i + 1;
    }
    assert(m@.subrange(0, m@.len() as int) =~= m@);
    r
}

/// A JSON string holding the characters of `s`.
pub fn jstr(s: &str) -> (r: Json)
    ensures
        r@ == JsonV::Str(s@),
{
    Json::Str(own(s))
}

/// Appends the member `key: val` (no other member of `m` may have that key).
pub fn push_member(m: &mut Vec<(String, Json)>, key: &str, val: Json)
    ensures
        view_members(final(m)@) == view_members(old(m)@).push((key@, val@)),
{
    broadcast use group_json_view;

    m.push((own(key), val));
}

/// Appends `x` to the items `v`.
pub fn push_item(v: &mut Vec<Json>, x: Json)
    ensures
        view_items(final(v)@) == view_items(old(v)@).push(x@),
{
    let ghost v0 = v@;
    let ghost x0 = x;
    v.push(x);
    proof {
        lemma_view_items_push(v0, x0);
    }
}

} // verus!
