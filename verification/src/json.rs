//! A JSON document model: the values that configuration files and request
//! arguments carry, with a mathematical view over which the transformations
//! of the library are stated.
//!
//! Objects keep their members in order; a lookup finds the first member of a
//! key, which is the only one in documents that came from a JSON map.
//! Objects with fixed members that the library builds list them by name,
//! as a JSON map ordered by key does; maps keyed by data list their
//! members in the order the keys were first met.

use vstd::prelude::*;
use crate::text::{chars_eq, chars_of, string_of};

verus! {

broadcast use vstd::string::group_string_axioms;

/// A JSON number: a non-negative integer, a negative integer, or a number
/// with a fraction or exponent, kept as its decimal text.
#[derive(Debug, Clone, PartialEq)]
pub enum JsonNumber {
    PosInt(u64),
    NegInt(i64),
    Float(String),
}

/// A JSON value.
#[derive(Debug, PartialEq)]
pub enum JsonValue {
    Null,
    Bool(bool),
    Number(JsonNumber),
    Str(String),
    Array(Vec<JsonValue>),
    Object(Vec<(String, JsonValue)>),
}

/// The view of a JSON number.
pub enum NumberView {
    PosInt(u64),
    NegInt(i64),
    Float(Seq<char>),
}

/// The view of a JSON value: strings as character sequences, arrays as
/// sequences, objects as sequences of members.
pub enum Json {
    Null,
    Bool(bool),
    Number(NumberView),
    Str(Seq<char>),
    Array(Seq<Json>),
    Object(Seq<(Seq<char>, Json)>),
}

impl View for JsonNumber {
    type V = NumberView;

    open spec fn view(&self) -> NumberView {
        match self {
            JsonNumber::PosInt(n) => NumberView::PosInt(*n),
            JsonNumber::NegInt(n) => NumberView::NegInt(*n),
            JsonNumber::Float(t) => NumberView::Float(t@),
        }
    }
}

pub open spec fn json_view(x: JsonValue) -> Json
    decreases x,
{
    match x {
        JsonValue::Null => Json::Null,
        JsonValue::Bool(b) => Json::Bool(b),
        JsonValue::Number(n) => Json::Number(n@),
        JsonValue::Str(s) => Json::Str(s@),
        JsonValue::Array(v) => Json::Array(
            Seq::new(
                v@.len(),
                |i: int|
                    if 0 <= i < v@.len() {
                        json_view(v@[i])
                    } else {
                        Json::Null
                    },
            ),
        ),
        JsonValue::Object(es) => Json::Object(
            Seq::new(
                es@.len(),
                |i: int|
                    if 0 <= i < es@.len() {
                        (es@[i].0@, json_view(es@[i].1))
                    } else {
                        (Seq::empty(), Json::Null)
                    },
            ),
        ),
    }
}

impl View for JsonValue {
    type V = Json;

    open spec fn view(&self) -> Json {
        json_view(*self)
    }
}

/// The views of a sequence of values.
pub open spec fn items_view(s: Seq<JsonValue>) -> Seq<Json> {
    s.map_values(|x: JsonValue| json_view(x))
}

/// The views of a sequence of object members.
pub open spec fn members_view(s: Seq<(String, JsonValue)>) -> Seq<(Seq<char>, Json)> {
    s.map_values(|e: (String, JsonValue)| (e.0@, json_view(e.1)))
}

/// An array is viewed as the views of its items.
pub proof fn lemma_array_view(v: Vec<JsonValue>)
    ensures
        JsonValue::Array(v)@ == Json::Array(items_view(v@)),
{
    if let Json::Array(s) = JsonValue::Array(v)@ {
        assert(s =~= items_view(v@));
    }
}

/// An object is viewed as the views of its members.
pub proof fn lemma_object_view(es: Vec<(String, JsonValue)>)
    ensures
        JsonValue::Object(es)@ == Json::Object(members_view(es@)),
{
    if let Json::Object(s) = JsonValue::Object(es)@ {
        assert(s =~= members_view(es@));
    }
}

/// Index of the first member named `key`.
pub open spec fn member_index(es: Seq<(Seq<char>, Json)>, key: Seq<char>) -> Option<int>
    decreases es.len(),
{
    if es.len() == 0 {
        None
    } else if es[0].0 == key {
        Some(0)
    } else {
        match member_index(es.drop_first(), key) {
            Some(i) => Some(i + 1),
            None => None,
        }
    }
}

pub proof fn lemma_member_index(es: Seq<(Seq<char>, Json)>, key: Seq<char>)
    ensures
        match member_index(es, key) {
            Some(i) => 0 <= i < es.len() && es[i].0 == key && forall|j: int|
                0 <= j < i ==> es[j].0 != key,
            None => forall|j: int| 0 <= j < es.len() ==> es[j].0 != key,
        },
    decreases es.len(),
{
    if es.len() > 0 && es[0].0 != key {
        lemma_member_index(es.drop_first(), key);
        match member_index(es.drop_first(), key) {
            Some(i) => {
                assert forall|j: int| 0 <= j < i + 1 implies es[j].0 != key by {
                    if j > 0 {
                        assert(es[j] == es.drop_first()[j - 1]);
                    }
                }
            },
            None => {
                assert forall|j: int| 0 <= j < es.len() implies es[j].0 != key by {
                    if j > 0 {
                        assert(es[j] == es.drop_first()[j - 1]);
                    }
                }
            },
        }
    }
}

/// The value of the first member named `key`.
pub open spec fn member(es: Seq<(Seq<char>, Json)>, key: Seq<char>) -> Option<Json> {
    match member_index(es, key) {
        Some(i) => Some(es[i].1),
        None => None,
    }
}

/// `value[key]` of a JSON document: the member of an object, nothing for
/// any other value.
pub open spec fn json_get(v: Json, key: Seq<char>) -> Option<Json> {
    match v {
        Json::Object(es) => member(es, key),
        _ => None,
    }
}

/// The object members with the value at `i` replaced.
pub open spec fn set_member(es: Seq<(Seq<char>, Json)>, i: int, v: Json) -> Seq<(Seq<char>, Json)> {
    es.update(i, (es[i].0, v))
}

/// Two member lists with the same names in the same places find the same
/// first member of every name.
pub proof fn lemma_member_index_same_names(
    a: Seq<(Seq<char>, Json)>,
    b: Seq<(Seq<char>, Json)>,
    key: Seq<char>,
)
    requires
        a.len() == b.len(),
        forall|j: int| 0 <= j < a.len() ==> (#[trigger] a[j]).0 == b[j].0,
    ensures
        member_index(a, key) == member_index(b, key),
{
    lemma_member_index(a, key);
    lemma_member_index(b, key);
    match (member_index(a, key), member_index(b, key)) {
        (Some(x), Some(y)) => {
            if x < y {
                assert(a[x].0 == b[x].0);
            } else if y < x {
                assert(a[y].0 == b[y].0);
            }
        },
        (Some(x), None) => {
            assert(a[x].0 == b[x].0);
        },
        (None, Some(y)) => {
            assert(a[y].0 == b[y].0);
        },
        (None, None) => {},
    }
}

/// Replacing a member's value keeps the position of every name.
pub proof fn lemma_set_member_index(es: Seq<(Seq<char>, Json)>, i: int, v: Json, key: Seq<char>)
    requires
        0 <= i < es.len(),
    ensures
        member_index(set_member(es, i, v), key) == member_index(es, key),
{
    lemma_member_index_same_names(set_member(es, i, v), es, key);
}

/// Every object of the document, at any depth, has distinct member names,
/// as a document read from JSON text has.
pub open spec fn distinct_names(j: Json) -> bool
    decreases j,
{
    match j {
        Json::Object(es) => {
            &&& forall|a: int, b: int|
                0 <= a < b < es.len() ==> (#[trigger] es[a]).0 != (#[trigger] es[b]).0
            &&& forall|a: int| 0 <= a < es.len() ==> distinct_names(#[trigger] es[a].1)
        },
        Json::Array(s) => forall|a: int| 0 <= a < s.len() ==> distinct_names(#[trigger] s[a]),
        _ => true,
    }
}

/// `map.insert(key, value)` on object members: the value of the first
/// member named `key` is replaced, or a member is added at the end.
pub open spec fn insert_member(es: Seq<(Seq<char>, Json)>, key: Seq<char>, v: Json) -> Seq<
    (Seq<char>, Json),
> {
    match member_index(es, key) {
        Some(i) => set_member(es, i, v),
        None => es.push((key, v)),
    }
}

/// Members inserted one after the other, the later ones winning.
pub open spec fn insert_all(es: Seq<(Seq<char>, Json)>, more: Seq<(Seq<char>, Json)>) -> Seq<
    (Seq<char>, Json),
>
    decreases more.len(),
{
    if more.len() == 0 {
        es
    } else {
        let prev = insert_all(es, more.drop_last());
        insert_member(prev, more.last().0, more.last().1)
    }
}

/// Inserts a member into object members (`map.insert`).
pub fn object_insert(es: &mut Vec<(String, JsonValue)>, key: String, v: JsonValue)
    ensures
        members_view(final(es)@) == insert_member(members_view(old(es)@), key@, v@),
{
    let ghost before = members_view(es@);
    proof {
        lemma_member_index(before, key@);
    }
    match find_member(es, key.as_str()) {
        Some(i) => {
            let _ = es.remove(i);
            es.insert(i, (key, v));
            assert(members_view(es@) =~= set_member(before, i as int, v@));
        },
        None => {
            es.push((key, v));
            assert(members_view(es@) =~= before.push((key@, v@)));
        },
    }
}

/// Inserts members one after the other (`map.insert` for each).
pub fn object_insert_all(es: &mut Vec<(String, JsonValue)>, more: Vec<(String, JsonValue)>)
    ensures
        members_view(final(es)@) == insert_all(members_view(old(es)@), members_view(more@)),
{
    let ghost start = members_view(es@);
    let ghost orig = more@;
    let mut rest = more;
    let mut n: usize = 0;
    assert(orig.len() == rest.len());
    assert(members_view(orig.take(0)) =~= Seq::<(Seq<char>, Json)>::empty());
    while rest.len() > 0
        invariant
            n <= orig.len() <= usize::MAX,
            rest@ == orig.skip(n as int),
            members_view(es@) == insert_all(start, members_view(orig.take(n as int))),
        decreases rest.len(),
    {
        let (k, v) = rest.remove(0);
        assert((k, v) == orig[n as int]);
        object_insert(es, k, v);
        let ghost t = members_view(orig.take(n + 1));
        assert(t.drop_last() =~= members_view(orig.take(n as int)));
        n += 1;
        assert(rest@ =~= orig.skip(n as int));
    }
    assert(orig.take(n as int) =~= orig);
}

/// A member name equals the given text.
pub fn key_is(k: &String, lit: &str) -> (b: bool)
    ensures
        b == (k@ == lit@),
{
    chars_eq(&chars_of(k.as_str()), &chars_of(lit))
}

/// Index of the first member named `key`.
pub fn find_member(es: &Vec<(String, JsonValue)>, key: &str) -> (r: Option<usize>)
    ensures
        match r {
            Some(i) => member_index(members_view(es@), key@) == Some(i as int),
            None => member_index(members_view(es@), key@) is None,
        },
{
    let ghost ms = members_view(es@);
    proof {
        lemma_member_index(ms, key@);
    }
    let mut i: usize = 0;
    while i < es.len()
        invariant
            i <= es.len(),
            ms == members_view(es@),
            forall|j: int| 0 <= j < i ==> ms[j].0 != key@,
            match member_index(ms, key@) {
                Some(m) => 0 <= m < ms.len() && ms[m].0 == key@ && forall|j: int|
                    0 <= j < m ==> ms[j].0 != key@,
                None => forall|j: int| 0 <= j < ms.len() ==> ms[j].0 != key@,
            },
        decreases es.len() - i,
    {
        if key_is(&es[i].0, key) {
            assert(ms[i as int].0 == key@);
            return Some(i);
        }
        assert(ms[i as int].0 != key@);
        i += 1;
    }
    None
}

impl JsonValue {
    /// `self[key]`: the value of the member named `key` of an object; `None`
    /// for a missing member or a value that is not an object.
    pub fn get(&self, key: &str) -> (r: Option<&JsonValue>)
        ensures
            match r {
                Some(v) => json_get(self@, key@) == Some(v@),
                None => json_get(self@, key@) is None,
            },
    {
        match self {
            JsonValue::Object(es) => {
                proof {
                    lemma_object_view(*es);
                    lemma_member_index(members_view(es@), key@);
                }
                match find_member(es, key) {
                    Some(i) => {
                        assert(members_view(es@)[i as int] == (es@[i as int].0@, json_view(
                            es@[i as int].1,
                        )));
                        Some(&es[i].1)
                    },
                    None => None,
                }
            },
            _ => None,
        }
    }
}


/// A copy of a JSON value.
pub fn copy_json(v: &JsonValue) -> (r: JsonValue)
    ensures
        r@ == v@,
    decreases v,
{
    match v {
        JsonValue::Null => JsonValue::Null,
        JsonValue::Bool(b) => JsonValue::Bool(*b),
        JsonValue::Number(n) => JsonValue::Number(
            match n {
                JsonNumber::PosInt(x) => JsonNumber::PosInt(*x),
                JsonNumber::NegInt(x) => JsonNumber::NegInt(*x),
                JsonNumber::Float(t) => JsonNumber::Float(string_of(chars_of(t.as_str()).as_slice())),
            },
        ),
        JsonValue::Str(t) => JsonValue::Str(string_of(chars_of(t.as_str()).as_slice())),
        JsonValue::Array(items) => {
            let mut out: Vec<JsonValue> = Vec::new();
            for i in 0..items.len()
                invariant
                    *v == JsonValue::Array(*items),
                    items_view(out@) == items_view(items@).take(i as int),
            {
                assert(decreases_to!(*v => (*v)->Array_0));
                assert(decreases_to!(*items => items@));
                assert(decreases_to!(items@ => items@[i as int]));
                assert(decreases_to!(*v => items@[i as int]));
                let c = copy_json(&items[i]);
                let ghost before = items_view(out@);
                out.push(c);
                assert(items_view(out@) =~= before.push(items@[i as int]@));
                assert(items_view(items@).take(i + 1) =~= items_view(items@).take(i as int).push(
                    items@[i as int]@,
                ));
            }
            assert(items_view(items@).take(items.len() as int) =~= items_view(items@));
            proof {
                lemma_array_view(out);
                lemma_array_view(*items);
            }
            JsonValue::Array(out)
        },
        JsonValue::Object(es) => {
            let mut out: Vec<(String, JsonValue)> = Vec::new();
            for i in 0..es.len()
                invariant
                    *v == JsonValue::Object(*es),
                    members_view(out@) == members_view(es@).take(i as int),
            {
                assert(decreases_to!(*v => (*v)->Object_0));
                assert(decreases_to!(*es => es@));
                assert(decreases_to!(es@ => es@[i as int]));
                assert(decreases_to!(es@[i as int] => es@[i as int].1));
                assert(decreases_to!(*v => es@[i as int].1));
                let c = copy_json(&es[i].1);
                let k = string_of(chars_of(es[i].0.as_str()).as_slice());
                let ghost before = members_view(out@);
                out.push((k, c));
                assert(members_view(out@) =~= before.push((es@[i as int].0@, es@[i as int].1@)));
                assert(members_view(es@).take(i + 1) =~= members_view(es@).take(i as int).push(
                    (es@[i as int].0@, es@[i as int].1@),
                ));
            }
            assert(members_view(es@).take(es.len() as int) =~= members_view(es@));
            proof {
                lemma_object_view(out);
                lemma_object_view(*es);
            }
            JsonValue::Object(out)
        },
    }
}

} // verus!
