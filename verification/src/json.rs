//! JSON values of the broker: an executable tree (`Json`) and its
//! mathematical view (`JsonV`), member access, and the JSON helpers of the
//! broker (reserved members, comma-separated lists, fragments, merge patch).
use vstd::prelude::*;
use crate::text::{chars_eq, chars_of, csv_chars, csv_items, string_of, strings_of, views};

verus! {

/// A JSON value. Objects keep their members in insertion order, without
/// duplicate keys; numbers keep their JSON text.
#[derive(Debug, PartialEq)]
pub enum Json {
    Null,
    Bool(bool),
    Number(String),
    Str(String),
    Array(Vec<Json>),
    Object(Vec<(String, Json)>),
}

/// Mathematical view of a JSON value.
pub enum JsonV {
    Null,
    Bool(bool),
    Number(Seq<char>),
    Str(Seq<char>),
    Array(Seq<JsonV>),
    Object(Seq<(Seq<char>, JsonV)>),
}

/// View of a JSON value.
pub open spec fn json_view(j: Json) -> JsonV
    decreases j,
{
    match j {
        Json::Null => JsonV::Null,
        Json::Bool(b) => JsonV::Bool(b),
        Json::Number(n) => JsonV::Number(n@),
        Json::Str(s) => JsonV::Str(s@),
        Json::Array(items) => JsonV::Array(
            Seq::new(
                items@.len(),
                |i: int|
                    if 0 <= i < items@.len() {
                        json_view(items@[i])
                    } else {
                        JsonV::Null
                    },
            ),
        ),
        Json::Object(entries) => JsonV::Object(
            Seq::new(
                entries@.len(),
                |i: int|
                    if 0 <= i < entries@.len() {
                        (entries@[i].0@, json_view(entries@[i].1))
                    } else {
                        (Seq::empty(), JsonV::Null)
                    },
            ),
        ),
    }
}

impl View for Json {
    type V = JsonV;

    open spec fn view(&self) -> JsonV {
        json_view(*self)
    }
}

/// Views of a sequence of JSON values.
pub open spec fn json_views(items: Seq<Json>) -> Seq<JsonV> {
    items.map_values(|j: Json| j@)
}

/// Index of the first member named `key` at or after position `i`.
pub open spec fn member_index_from(entries: Seq<(Seq<char>, JsonV)>, key: Seq<char>, i: int) -> Option<int>
    decreases entries.len() - i,
{
    if i < 0 || i >= entries.len() {
        None
    } else if entries[i].0 == key {
        Some(i)
    } else {
        member_index_from(entries, key, i + 1)
    }
}

/// Index of the first member named `key`.
pub open spec fn member_index(entries: Seq<(Seq<char>, JsonV)>, key: Seq<char>) -> Option<int> {
    member_index_from(entries, key, 0)
}

/// Equality of JSON values as `serde_json::Value` compares them: objects
/// as maps (as many members, and the value of each member equal to the
/// value under its name in the other object, whatever the order), arrays
/// item by item, scalars by value (numbers by their text).
pub open spec fn json_same(a: JsonV, b: JsonV) -> bool
    decreases a,
{
    match a {
        JsonV::Null => b is Null,
        JsonV::Bool(x) => b == JsonV::Bool(x),
        JsonV::Number(x) => b == JsonV::Number(x),
        JsonV::Str(x) => b == JsonV::Str(x),
        JsonV::Array(xs) => match b {
            JsonV::Array(ys) => xs.len() == ys.len() && forall|i: int|
                0 <= i < xs.len() ==> json_same(#[trigger] xs[i], ys[i]),
            _ => false,
        },
        JsonV::Object(ms) => match b {
            JsonV::Object(ns) => ms.len() == ns.len() && forall|i: int|
                0 <= i < ms.len() ==> match member_index(ns, #[trigger] ms[i].0) {
                    Some(j) => json_same(ms[i].1, ns[j].1),
                    None => false,
                },
            _ => false,
        },
    }
}

/// Equality of optional JSON values: both absent, or both present and
/// `json_same`.
pub open spec fn opt_json_same(a: Option<JsonV>, b: Option<JsonV>) -> bool {
    match (a, b) {
        (Some(x), Some(y)) => json_same(x, y),
        (None, None) => true,
        _ => false,
    }
}

impl JsonV {
    /// Member `key` of an object (the first one with that key); `None` for
    /// other values or an absent member.
    pub open spec fn get(self, key: Seq<char>) -> Option<JsonV> {
        match self {
            JsonV::Object(entries) => match member_index(entries, key) {
                Some(i) => Some(entries[i].1),
                None => None,
            },
            _ => None,
        }
    }

    /// Text of a string value.
    pub open spec fn as_str(self) -> Option<Seq<char>> {
        match self {
            JsonV::Str(s) => Some(s),
            _ => None,
        }
    }

    /// Member `key` as text, when it is a string.
    pub open spec fn get_str(self, key: Seq<char>) -> Option<Seq<char>> {
        match self.get(key) {
            Some(JsonV::Str(s)) => Some(s),
            _ => None,
        }
    }

    /// The value is an object.
    pub open spec fn is_object(self) -> bool {
        self is Object
    }

    /// Keys of an object, in order; empty for other values.
    pub open spec fn keys(self) -> Seq<Seq<char>> {
        match self {
            JsonV::Object(entries) => entries.map_values(|e: (Seq<char>, JsonV)| e.0),
            _ => Seq::empty(),
        }
    }
}

/// Indexing facts about the view of an array.
pub proof fn lemma_array_view(items: Vec<Json>)
    ensures
        Json::Array(items)@ == JsonV::Array(json_views(items@)),
{
    reveal_with_fuel(json_view, 2);
    let jv = json_views(items@);
    match json_view(Json::Array(items)) {
        JsonV::Array(s) => {
            assert forall|i: int| 0 <= i < jv.len() implies #[trigger] s[i] == jv[i] by {
                assert(s[i] == json_view(items@[i]));
            }
            assert(s =~= jv);
        },
        _ => {},
    }
}

/// The view of an object's entries.
pub open spec fn entry_views(entries: Seq<(String, Json)>) -> Seq<(Seq<char>, JsonV)> {
    entries.map_values(|e: (String, Json)| (e.0@, e.1@))
}

/// Indexing facts about the view of an object.
pub proof fn lemma_object_view(entries: Vec<(String, Json)>)
    ensures
        Json::Object(entries)@ == JsonV::Object(entry_views(entries@)),
{
    reveal_with_fuel(json_view, 2);
    let ev = entry_views(entries@);
    match json_view(Json::Object(entries)) {
        JsonV::Object(s) => {
            assert forall|i: int| 0 <= i < ev.len() implies #[trigger] s[i] == ev[i] by {
                assert(s[i] == (entries@[i].0@, json_view(entries@[i].1)));
            }
            assert(s =~= ev);
        },
        _ => {},
    }
}

impl Json {
    /// Member `key` of an object.
    pub fn get<'a>(&'a self, key: &Vec<char>) -> (r: Option<&'a Json>)
        ensures
            match r {
                Some(v) => self@.get(key@) == Some(v@),
                None => self@.get(key@) is None,
            },
    {
        match self {
            Json::Object(entries) => {
                proof {
                    lemma_object_view(*entries);
                }
                let ghost ev = entry_views(entries@);
                let mut i: usize = 0;
                while i < entries.len()
                    invariant
                        i <= entries.len(),
                        *self == Json::Object(*entries),
                        ev == entry_views(entries@),
                        self@ == JsonV::Object(ev),
                        member_index(ev, key@) == member_index_from(ev, key@, i as int),
                    decreases entries.len() - i,
                {
                    let k = chars_of(entries[i].0.as_str());
                    if chars_eq(&k, key) {
                        assert(ev[i as int].0 == key@);
                        return Some(&entries[i].1);
                    }
                    i += 1;
                }
                None
            },
            _ => None,
        }
    }

    /// Member `key` of an object, by a string slice.
    pub fn get_member<'a>(&'a self, key: &str) -> (r: Option<&'a Json>)
        ensures
            match r {
                Some(v) => self@.get(key@) == Some(v@),
                None => self@.get(key@) is None,
            },
    {
        let k = chars_of(key);
        self.get(&k)
    }

    /// Member `key` as a string, when it is one.
    pub fn get_str<'a>(&'a self, key: &str) -> (r: Option<&'a String>)
        ensures
            match r {
                Some(s) => self@.get_str(key@) == Some(s@),
                None => self@.get_str(key@) is None,
            },
    {
        match self.get_member(key) {
            Some(Json::Str(s)) => Some(s),
            _ => None,
        }
    }

    /// The value is an object.
    pub fn is_object(&self) -> (r: bool)
        ensures
            r == self@.is_object(),
    {
        match self {
            Json::Object(_) => true,
            _ => false,
        }
    }

    /// Keys of an object, in order.
    pub fn keys(&self) -> (r: Vec<String>)
        ensures
            views(r@) == self@.keys(),
    {
        let mut r: Vec<String> = Vec::new();
        match self {
            Json::Object(entries) => {
                proof {
                    lemma_object_view(*entries);
                }
                let mut i: usize = 0;
                while i < entries.len()
                    invariant
                        i <= entries.len(),
                        r.len() == i,
                        views(r@) == entry_views(entries@).map_values(
                            |e: (Seq<char>, JsonV)| e.0,
                        ).take(i as int),
                    decreases entries.len() - i,
                {
                    r.push(entries[i].0.clone());
                    assert(views(r@) =~= entry_views(entries@).map_values(
                        |e: (Seq<char>, JsonV)| e.0,
                    ).take(i + 1));
                    i += 1;
                }
                assert(entry_views(entries@).map_values(|e: (Seq<char>, JsonV)| e.0).take(
                    entries.len() as int,
                ) =~= entry_views(entries@).map_values(|e: (Seq<char>, JsonV)| e.0));
            },
            _ => {
                assert(views(r@) =~= Seq::<Seq<char>>::empty());
            },
        }
        r
    }
}

/// Declares `serde_json::Value` so that its conversion can be named.
#[verifier::external_type_specification]
#[verifier::external_body]
pub struct ExSerdeValue(serde_json::Value);

/// The value that `serde_json::from_str::<serde_json::Value>` parses from a
/// text, as a JSON value of this library; `None` when the text is no JSON.
pub uninterp spec fn json_text_value(text: Seq<char>) -> Option<JsonV>;

/// The string that `serde_json::from_str::<String>` parses from a text;
/// `None` when the text is no JSON string literal.
pub uninterp spec fn json_text_string(text: Seq<char>) -> Option<Seq<char>>;

/// Converts a `serde_json::Value` into a `Json`, variant by variant (maps
/// keep serde_json's member order, numbers keep their text).
#[verifier::external_body]
fn json_from_serde(v: serde_json::Value) -> Json {
    match v {
        serde_json::Value::Null => Json::Null,
        serde_json::Value::Bool(b) => Json::Bool(b),
        serde_json::Value::Number(n) => Json::Number(n.to_string()),
        serde_json::Value::String(s) => Json::Str(s),
        serde_json::Value::Array(a) => Json::Array(a.into_iter().map(json_from_serde).collect()),
        serde_json::Value::Object(o) => Json::Object(
            o.into_iter().map(|(k, v)| (k, json_from_serde(v))).collect(),
        ),
    }
}

/// Converts a `Json` into a `serde_json::Value`, variant by variant (a
/// number whose text `serde_json::Number` does not read stays a string).
#[verifier::external_body]
pub(crate) fn json_to_serde(j: &Json) -> serde_json::Value {
    match j {
        Json::Null => serde_json::Value::Null,
        Json::Bool(b) => serde_json::Value::Bool(*b),
        Json::Number(n) => match n.parse::<serde_json::Number>() {
            Ok(x) => serde_json::Value::Number(x),
            Err(_) => serde_json::Value::String(n.clone()),
        },
        Json::Str(s) => serde_json::Value::String(s.clone()),
        Json::Array(a) => serde_json::Value::Array(a.iter().map(json_to_serde).collect()),
        Json::Object(o) => serde_json::Value::Object(
            o.iter().map(|(k, v)| (k.clone(), json_to_serde(v))).collect(),
        ),
    }
}

/// Parses JSON text with `serde_json::from_str` into a `serde_json::Value`
/// and converts it; on failure returns the error's display text. The
/// contract ties the result to the name `json_text_value` of the text and
/// says nothing of the error text.
#[verifier::external_body]
pub(crate) fn parse_json_text(text: &str) -> (r: Result<Json, String>)
    ensures
        match r {
            Ok(j) => json_text_value(text@) == Some(j@),
            Err(_) => json_text_value(text@) is None,
        },
{
    match serde_json::from_str::<serde_json::Value>(text) {
        Ok(v) => Ok(json_from_serde(v)),
        Err(e) => Err(e.to_string()),
    }
}

/// Parses a JSON string literal with `serde_json::from_str::<String>`; the
/// contract ties the result to the name `json_text_string` of the text; on
/// failure it returns the error's display text, of which nothing is said.
#[verifier::external_body]
pub(crate) fn parse_json_string(text: &str) -> (r: Result<String, String>)
    ensures
        match r {
            Ok(s) => json_text_string(text@) == Some(s@),
            Err(_) => json_text_string(text@) is None,
        },
{
    serde_json::from_str::<String>(text).map_err(|e| e.to_string())
}

/// The NGSI-LD reserved top-level member names.
pub open spec fn is_reserved_member(key: Seq<char>) -> bool {
    key == "id"@ || key == "type"@ || key == "scope"@ || key == "@context"@ || key
        == "createdAt"@ || key == "modifiedAt"@ || key == "deletedAt"@
}

/// Returns true for NGSI-LD reserved top-level members.
pub fn reserved_member(key: &str) -> (r: bool)
    ensures
        r == is_reserved_member(key@),
{
    let k = chars_of(key);
    reserved_chars(&k)
}

/// Reserved-member test on a character vector.
pub fn reserved_chars(k: &Vec<char>) -> (r: bool)
    ensures
        r == is_reserved_member(k@),
{
    let id = chars_of("id");
    let ty = chars_of("type");
    let scope = chars_of("scope");
    let ctx = chars_of("@context");
    let created = chars_of("createdAt");
    let modified = chars_of("modifiedAt");
    let deleted = chars_of("deletedAt");
    chars_eq(k, &id) || chars_eq(k, &ty) || chars_eq(k, &scope) || chars_eq(k, &ctx)
        || chars_eq(k, &created) || chars_eq(k, &modified) || chars_eq(k, &deleted)
}

/// Parses comma-separated query string into trimmed values.
pub fn parse_csv(value: Option<&str>) -> (r: Vec<String>)
    ensures
        match value {
            Some(v) => views(r@) == csv_items(v@),
            None => r@.len() == 0,
        },
{
    match value {
        Some(v) => {
            let cs = chars_of(v);
            let items = csv_chars(&cs);
            let r = strings_of(&items);
            r
        },
        None => Vec::new(),
    }
}

/// Members of an object that are not reserved, in order.
pub open spec fn editable_members(entries: Seq<(Seq<char>, JsonV)>) -> Seq<(Seq<char>, JsonV)>
    decreases entries.len(),
{
    if entries.len() == 0 {
        Seq::empty()
    } else if is_reserved_member(entries.last().0) {
        editable_members(entries.drop_last())
    } else {
        editable_members(entries.drop_last()).push(entries.last())
    }
}

/// Editable members of a fragment: the non-reserved members of an object,
/// nothing for other values.
pub open spec fn fragment_members(fragment: JsonV) -> Seq<(Seq<char>, JsonV)> {
    match fragment {
        JsonV::Object(entries) => editable_members(entries),
        _ => Seq::empty(),
    }
}

/// Returns editable fragment members excluding reserved fields.
pub fn editable_fragment_members(fragment: &Json) -> (r: Vec<(String, Json)>)
    ensures
        entry_views(r@) == fragment_members(fragment@),
{
    let mut r: Vec<(String, Json)> = Vec::new();
    match fragment {
        Json::Object(entries) => {
            proof {
                lemma_object_view(*entries);
            }
            let ghost ev = entry_views(entries@);
            let mut i: usize = 0;
            while i < entries.len()
                invariant
                    i <= entries.len(),
                    ev == entry_views(entries@),
                    entry_views(r@) == editable_members(ev.take(i as int)),
                decreases entries.len() - i,
            {
                let k = chars_of(entries[i].0.as_str());
                assert(ev.take(i + 1).drop_last() =~= ev.take(i as int));
                assert(ev.take(i + 1).last() == ev[i as int]);
                if !reserved_chars(&k) {
                    let key = entries[i].0.clone();
                    let value = clone_json(&entries[i].1);
                    r.push((key, value));
                    assert(entry_views(r@) =~= editable_members(ev.take(i as int)).push(
                        ev[i as int],
                    ));
                }
                i += 1;
            }
            assert(ev.take(entries.len() as int) =~= ev);
        },
        _ => {
            assert(entry_views(r@) =~= Seq::<(Seq<char>, JsonV)>::empty());
        },
    }
    r
}

/// Attribute names of an entity: its non-reserved keys, in order.
pub open spec fn attribute_names(entity: JsonV) -> Seq<Seq<char>> {
    fragment_members(entity).map_values(|e: (Seq<char>, JsonV)| e.0)
}

/// Returns attribute names from entity excluding reserved fields.
pub fn entity_attribute_names(entity: &Json) -> (r: Vec<String>)
    ensures
        views(r@) == attribute_names(entity@),
{
    let members = editable_fragment_members(entity);
    let mut r: Vec<String> = Vec::new();
    let mut i: usize = 0;
    while i < members.len()
        invariant
            i <= members.len(),
            r.len() == i,
            views(r@) == entry_views(members@).map_values(|e: (Seq<char>, JsonV)| e.0).take(
                i as int,
            ),
        decreases members.len() - i,
    {
        r.push(members[i].0.clone());
        assert(views(r@) =~= entry_views(members@).map_values(|e: (Seq<char>, JsonV)| e.0).take(
            i + 1,
        ));
        i += 1;
    }
    assert(entry_views(members@).map_values(|e: (Seq<char>, JsonV)| e.0).take(
        members.len() as int,
    ) =~= entry_views(members@).map_values(|e: (Seq<char>, JsonV)| e.0));
    r
}

/// An item of an array is smaller than the array.
pub proof fn lemma_item_decreases(items: Vec<Json>, i: int)
    requires
        0 <= i < items.len(),
    ensures
        decreases_to!(Json::Array(items) => items[i]),
{
    vstd::std_specs::vec::axiom_vec_index_decreases(items, i);
    let j = Json::Array(items);
    assert(decreases_to!(j => j->Array_0));
}

/// A member value of an object is smaller than the object.
pub proof fn lemma_entry_decreases(entries: Vec<(String, Json)>, i: int)
    requires
        0 <= i < entries.len(),
    ensures
        decreases_to!(Json::Object(entries) => entries[i].1),
{
    vstd::std_specs::vec::axiom_vec_index_decreases(entries, i);
    let j = Json::Object(entries);
    assert(decreases_to!(j => j->Object_0));
    assert(decreases_to!(entries[i] => entries[i].1));
}

/// Deep copy of a JSON value.
pub fn clone_json(j: &Json) -> (r: Json)
    ensures
        r@ == j@,
    decreases j,
{
    match j {
        Json::Null => Json::Null,
        Json::Bool(b) => Json::Bool(*b),
        Json::Number(n) => Json::Number(n.clone()),
        Json::Str(s) => Json::Str(s.clone()),
        Json::Array(items) => {
            let mut r: Vec<Json> = Vec::new();
            let mut i: usize = 0;
            while i < items.len()
                invariant
                    i <= items.len(),
                    *j == Json::Array(*items),
                    r.len() == i,
                    forall|k: int| 0 <= k < i ==> #[trigger] r@[k]@ == items@[k]@,
                decreases items.len() - i,
            {
                proof {
                    lemma_item_decreases(*items, i as int);
                    assert(decreases_to!(*j => items[i as int]));
                }
                let c = clone_json(&items[i]);
                r.push(c);
                i += 1;
            }
            proof {
                lemma_array_view(r);
                lemma_array_view(*items);
                assert(json_views(r@) =~= json_views(items@));
            }
            Json::Array(r)
        },
        Json::Object(entries) => {
            let mut r: Vec<(String, Json)> = Vec::new();
            let mut i: usize = 0;
            while i < entries.len()
                invariant
                    i <= entries.len(),
                    *j == Json::Object(*entries),
                    r.len() == i,
                    forall|k: int|
                        0 <= k < i ==> #[trigger] r@[k].0@ == entries@[k].0@ && r@[k].1@
                            == entries@[k].1@,
                decreases entries.len() - i,
            {
                proof {
                    lemma_entry_decreases(*entries, i as int);
                    assert(decreases_to!(*j => entries[i as int].1));
                }
                let c = clone_json(&entries[i].1);
                r.push((entries[i].0.clone(), c));
                i += 1;
            }
            proof {
                lemma_object_view(r);
                lemma_object_view(*entries);
                assert(entry_views(r@) =~= entry_views(entries@));
            }
            Json::Object(r)
        },
    }
}

impl Clone for Json {
    /// A deep copy.
    fn clone(&self) -> (r: Self)
        ensures
            r@ == self@,
    {
        clone_json(self)
    }
}

/// A JSON string value built from characters.
pub fn json_str(cs: &Vec<char>) -> (r: Json)
    ensures
        r@ == JsonV::Str(cs@),
{
    Json::Str(string_of(cs))
}

/// Members after setting `key` to `v`: the value replaced in place when the
/// key is present, else the member appended (an insertion-ordered map).
pub open spec fn object_insert(entries: Seq<(Seq<char>, JsonV)>, key: Seq<char>, v: JsonV) -> Seq<(Seq<char>, JsonV)> {
    match member_index(entries, key) {
        Some(i) => entries.update(i, (key, v)),
        None => entries.push((key, v)),
    }
}

/// The search finds the first member named `key` at or after `from`.
pub proof fn lemma_member_index_from(m: Seq<(Seq<char>, JsonV)>, key: Seq<char>, from: int)
    requires
        0 <= from,
    ensures
        match member_index_from(m, key, from) {
            Some(i) => from <= i < m.len() && m[i].0 == key && forall|j: int| from <= j < i ==> #[trigger] m[j].0 != key,
            None => forall|j: int| from <= j < m.len() ==> #[trigger] m[j].0 != key,
        },
    decreases m.len() - from,
{
    if from < m.len() && m[from].0 != key {
        lemma_member_index_from(m, key, from + 1);
    }
}

/// No two members share a key.
pub open spec fn distinct_members(m: Seq<(Seq<char>, JsonV)>) -> bool {
    forall|i: int, j: int| 0 <= i < j < m.len() ==> #[trigger] m[i].0 != #[trigger] m[j].0
}

/// After removing member `k` from members with distinct keys, no member
/// `k` is left.
pub proof fn lemma_object_remove_get(m: Seq<(Seq<char>, JsonV)>, k: Seq<char>)
    requires
        distinct_members(m),
    ensures
        JsonV::Object(object_remove(m, k)).get(k) is None,
{
    let r = object_remove(m, k);
    lemma_member_index_from(m, k, 0);
    lemma_member_index_from(r, k, 0);
    match member_index(m, k) {
        Some(i) => {
            let last = m.len() - 1;
            assert(r == m.update(i, m.last()).drop_last());
            match member_index(r, k) {
                Some(j) => {
                    if j != i {
                        assert(r[j] == m[j]);
                    } else {
                        assert(r[j] == m[last]);
                        assert(m[last].0 == k);
                    }
                },
                None => {},
            }
        },
        None => {},
    }
}

/// After setting member `k`, member `k` is the value set and every other
/// member reads as before.
pub proof fn lemma_object_insert_get(m: Seq<(Seq<char>, JsonV)>, k: Seq<char>, v: JsonV, k2: Seq<char>)
    ensures
        JsonV::Object(object_insert(m, k, v)).get(k2) == if k2 == k {
            Some(v)
        } else {
            JsonV::Object(m).get(k2)
        },
{
    let m2 = object_insert(m, k, v);
    lemma_member_index_from(m, k, 0);
    lemma_member_index_from(m, k2, 0);
    lemma_member_index_from(m2, k2, 0);
    assert forall|j: int| 0 <= j < m.len() implies #[trigger] m2[j].0 == m[j].0 by {}
    let a = member_index(m, k2);
    let b = member_index(m2, k2);
    match b {
        Some(y) => {
            match member_index(m, k) {
                Some(i) => {
                    assert(m2 == m.update(i, (k, v)));
                    if y != i {
                        assert(m2[y] == m[y]);
                    }
                },
                None => {
                    assert(m2 == m.push((k, v)));
                    if y < m.len() {
                        assert(m2[y] == m[y]);
                    }
                },
            }
            match a {
                Some(x) => {
                    if x < y {
                        assert(m2[x].0 == k2);
                    } else if y < x {
                        if y < m.len() {
                            assert(m[y].0 == k2);
                        }
                    }
                    assert(x == y);
                },
                None => {
                    if y < m.len() {
                        assert(m[y].0 == k2);
                    }
                    assert(y == m.len());
                },
            }
            assert(JsonV::Object(m2).get(k2) == Some(m2[y].1));
            if k2 == k {
                assert(m2[y].1 == v);
            } else {
                assert(a == Some(y));
                assert(m2[y].1 == m[y].1);
                assert(JsonV::Object(m).get(k2) == Some(m[y].1));
            }
        },
        None => {
            match a {
                Some(x) => {
                    assert(m2[x].0 == k2);
                },
                None => {},
            }
            match member_index(m, k) {
                Some(i) => {
                    assert(m2 == m.update(i, (k, v)));
                    assert(m2[i].0 == k);
                },
                None => {
                    assert(m2 == m.push((k, v)));
                    assert(m2[m.len() as int].0 == k);
                },
            }
        },
    }
}

/// Members after removing `key`: its place taken by the last member (a
/// swap removal), unchanged when absent.
pub open spec fn object_remove(entries: Seq<(Seq<char>, JsonV)>, key: Seq<char>) -> Seq<(Seq<char>, JsonV)> {
    match member_index(entries, key) {
        Some(i) => entries.update(i, entries.last()).drop_last(),
        None => entries,
    }
}

/// Position of member `key`, by the same search as `member_index`.
pub fn member_position(entries: &Vec<(String, Json)>, key: &str) -> (r: Option<usize>)
    ensures
        match r {
            Some(i) => member_index(entry_views(entries@), key@) == Some(i as int) && i < entries.len(),
            None => member_index(entry_views(entries@), key@) is None,
        },
{
    let ghost ev = entry_views(entries@);
    let k = chars_of(key);
    let mut i: usize = 0;
    while i < entries.len()
        invariant
            i <= entries.len(),
            ev == entry_views(entries@),
            k@ == key@,
            member_index(ev, key@) == member_index_from(ev, key@, i as int),
        decreases entries.len() - i,
    {
        let ek = chars_of(entries[i].0.as_str());
        assert(ev[i as int].0 == ek@);
        if chars_eq(&ek, &k) {
            return Some(i);
        }
        i += 1;
    }
    None
}

/// Sets member `key` of an object's members to a value.
pub fn map_insert(entries: &mut Vec<(String, Json)>, key: String, value: Json)
    ensures
        entry_views(final(entries)@) == object_insert(entry_views(old(entries)@), key@, value@),
{
    let ghost ev = entry_views(entries@);
    match member_position(entries, key.as_str()) {
        Some(i) => {
            let ghost kv = key@;
            let ghost vv = value@;
            entries.set(i, (key, value));
            assert(entry_views(entries@) =~= ev.update(i as int, (kv, vv)));
        },
        None => {
            let ghost kv = key@;
            let ghost vv = value@;
            entries.push((key, value));
            assert(entry_views(entries@) =~= ev.push((kv, vv)));
        },
    }
}

/// Removes member `key` of an object's members, returning its value.
pub fn map_remove(entries: &mut Vec<(String, Json)>, key: &str) -> (r: Option<Json>)
    ensures
        entry_views(final(entries)@) == object_remove(entry_views(old(entries)@), key@),
        match r {
            Some(v) => member_index(entry_views(old(entries)@), key@) matches Some(i) && v@ == entry_views(
                old(entries)@,
            )[i].1,
            None => member_index(entry_views(old(entries)@), key@) is None,
        },
{
    let ghost ev = entry_views(entries@);
    match member_position(entries, key) {
        Some(i) => {
            let removed = entries.swap_remove(i);
            assert(entry_views(entries@) =~= ev.update(i as int, ev.last()).drop_last());
            Some(removed.1)
        },
        None => None,
    }
}

/// RFC 7386 merge patch of a value: an object patch sets its members on
/// the target's members (the target counts as empty when it is no object),
/// other patches replace the target.
pub open spec fn merge_patched(target: JsonV, patch: JsonV) -> JsonV
    decreases patch, 0int,
{
    match patch {
        JsonV::Object(pm) => JsonV::Object(
            merged_members(
                match target {
                    JsonV::Object(tm) => tm,
                    _ => Seq::empty(),
                },
                pm,
                pm.len() as int,
            ),
        ),
        _ => patch,
    }
}

/// The target members after the first `n` patch members, in order: a null
/// removes the member, another value is merged into the member (a null
/// member appended when absent).
pub open spec fn merged_members(tm: Seq<(Seq<char>, JsonV)>, pm: Seq<(Seq<char>, JsonV)>, n: int) -> Seq<(Seq<char>, JsonV)>
    decreases pm, n,
{
    if n <= 0 || n > pm.len() {
        tm
    } else {
        let acc = merged_members(tm, pm, n - 1);
        let key = pm[n - 1].0;
        let value = pm[n - 1].1;
        if value is Null {
            object_remove(acc, key)
        } else {
            match member_index(acc, key) {
                Some(j) => acc.update(j, (key, merge_patched(acc[j].1, value))),
                None => acc.push((key, merge_patched(JsonV::Null, value))),
            }
        }
    }
}

/// Applies an RFC 7386 JSON merge patch in place.
pub fn apply_merge_patch(target: &mut Json, patch: &Json)
    ensures
        final(target)@ == merge_patched(old(target)@, patch@),
    decreases patch,
{
    match patch {
        Json::Object(pm) => {
            proof {
                lemma_object_view(*pm);
            }
            let ghost pv = entry_views(pm@);
            let mut taken = Json::Null;
            std::mem::swap(&mut taken, target);
            let mut entries: Vec<(String, Json)> = match taken {
                Json::Object(tm) => tm,
                _ => Vec::new(),
            };
            proof {
                lemma_object_view(entries);
            }
            let ghost t0 = entry_views(entries@);
            assert(t0 == match old(target)@ {
                JsonV::Object(tm) => tm,
                _ => Seq::<(Seq<char>, JsonV)>::empty(),
            });
            let mut i: usize = 0;
            while i < pm.len()
                invariant
                    i <= pm.len(),
                    *patch == Json::Object(*pm),
                    pv == entry_views(pm@),
                    patch@ == JsonV::Object(pv),
                    entry_views(entries@) == merged_members(t0, pv, i as int),
                decreases pm.len() - i,
            {
                proof {
                    lemma_entry_decreases(*pm, i as int);
                    assert(decreases_to!(*patch => pm[i as int].1));
                }
                let key = &pm[i].0;
                let value = &pm[i].1;
                assert(pv[i as int] == (key@, value@));
                match value {
                    Json::Null => {
                        let _ = map_remove(&mut entries, key.as_str());
                    },
                    _ => {
                        assert(!(value@ is Null));
                        match member_position(&entries, key.as_str()) {
                            Some(j) => {
                                let mut cur = clone_json(&entries[j].1);
                                apply_merge_patch(&mut cur, value);
                                let ghost ev = entry_views(entries@);
                                let ghost cv = cur@;
                                entries.set(j, (key.clone(), cur));
                                assert(entry_views(entries@) =~= ev.update(j as int, (key@, cv)));
                            },
                            None => {
                                let mut cur = Json::Null;
                                apply_merge_patch(&mut cur, value);
                                let ghost ev = entry_views(entries@);
                                let ghost cv = cur@;
                                entries.push((key.clone(), cur));
                                assert(entry_views(entries@) =~= ev.push((key@, cv)));
                            },
                        }
                    },
                }
                i += 1;
            }
            proof {
                lemma_object_view(entries);
            }
            *target = Json::Object(entries);
        },
        _ => {
            *target = clone_json(patch);
        },
    }
}

} // verus!
