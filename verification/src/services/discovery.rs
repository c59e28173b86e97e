//! Discovery of entity types and attributes from stored entities: names in
//! sorted order, with counts, attribute types and type names.
use vstd::prelude::*;
use crate::domain::{AttributeInfo, AttributeList, EntityTypeInfo, EntityTypeList};
use crate::error::{BrokerError, error_message};
use crate::json::{Json, JsonV, attribute_names, entity_attribute_names, json_views, lemma_array_view, lemma_item_decreases};
use crate::services::common::{entity_primary_type, id_text, primary_type};
use crate::store::{MemoryEntityRepository, StoredV};
use crate::text::{chars_of, string_from, text_around, views};

verus! {

/// Text order: character by character by code point, a proper prefix
/// first (the order of `String`, whose UTF-8 bytes order as code points).
pub open spec fn text_before(a: Seq<char>, b: Seq<char>) -> bool
    decreases a.len(),
{
    if b.len() == 0 {
        false
    } else if a.len() == 0 {
        true
    } else if a[0] != b[0] {
        a[0] < b[0]
    } else {
        text_before(a.drop_first(), b.drop_first())
    }
}

/// No text comes before itself.
pub proof fn lemma_before_irreflexive(a: Seq<char>)
    ensures
        !text_before(a, a),
    decreases a.len(),
{
    if a.len() > 0 {
        lemma_before_irreflexive(a.drop_first());
    }
}

/// Of two different texts, exactly one comes first.
pub proof fn lemma_before_total(a: Seq<char>, b: Seq<char>)
    ensures
        a != b ==> (text_before(a, b) || text_before(b, a)),
        !(text_before(a, b) && text_before(b, a)),
    decreases a.len(),
{
    if a.len() > 0 && b.len() > 0 {
        if a[0] == b[0] {
            lemma_before_total(a.drop_first(), b.drop_first());
            if a != b {
                assert(a =~= seq![a[0]] + a.drop_first());
                assert(b =~= seq![b[0]] + b.drop_first());
            }
        } else {
        }
    } else if a.len() == 0 && b.len() == 0 {
        assert(a =~= b);
    }
}

/// The text order is transitive.
pub proof fn lemma_before_transitive(a: Seq<char>, b: Seq<char>, c: Seq<char>)
    requires
        text_before(a, b),
        text_before(b, c),
    ensures
        text_before(a, c),
    decreases a.len(),
{
    if a.len() > 0 && a[0] == b[0] && b[0] == c[0] {
        lemma_before_transitive(a.drop_first(), b.drop_first(), c.drop_first());
    }
}

/// The set of a sequence after a push holds the pushed item besides.
pub proof fn lemma_push_to_set(s: Seq<Seq<char>>, x: Seq<char>)
    ensures
        s.push(x).to_set() == s.to_set().insert(x),
{
    assert forall|y: Seq<char>| #[trigger] s.push(x).to_set().contains(y) <==> s.to_set().insert(x).contains(y) by {
        if s.push(x).contains(y) {
            let k = choose|k: int| 0 <= k < s.push(x).len() && s.push(x)[k] == y;
            if k < s.len() {
                assert(s[k] == y);
            }
        }
        if s.contains(y) {
            let k = choose|k: int| 0 <= k < s.len() && s[k] == y;
            assert(s.push(x)[k] == y);
        }
        if y == x {
            assert(s.push(x)[s.len() as int] == y);
        }
    }
    assert(s.push(x).to_set() =~= s.to_set().insert(x));
}

/// Strictly increasing texts: sorted, without duplicates.
pub open spec fn strictly_sorted(s: Seq<Seq<char>>) -> bool {
    forall|i: int, j: int| 0 <= i < j < s.len() ==> text_before(#[trigger] s[i], #[trigger] s[j])
}

/// Tests whether `a` comes before `b` in text order.
pub fn text_precedes(a: &str, b: &str) -> (r: bool)
    ensures
        r == text_before(a@, b@),
{
    let x = chars_of(a);
    let y = chars_of(b);
    let mut i: usize = 0;
    assert(a@.skip(0) =~= a@);
    assert(b@.skip(0) =~= b@);
    while i < x.len() && i < y.len() && x[i] == y[i]
        invariant
            i <= x.len(),
            i <= y.len(),
            x@ == a@,
            y@ == b@,
            text_before(a@, b@) == text_before(a@.skip(i as int), b@.skip(i as int)),
        decreases x.len() - i,
    {
        assert(a@.skip(i as int).drop_first() =~= a@.skip(i + 1));
        assert(b@.skip(i as int).drop_first() =~= b@.skip(i + 1));
        i += 1;
    }
    if i == y.len() {
        assert(b@.skip(i as int).len() == 0);
        false
    } else if i == x.len() {
        assert(a@.skip(i as int).len() == 0);
        true
    } else {
        assert(a@.skip(i as int)[0] == x@[i as int]);
        assert(b@.skip(i as int)[0] == y@[i as int]);
        x[i] < y[i]
    }
}

/// Inserts a text into a strictly sorted vector, unless present.
pub fn insert_sorted(v: &mut Vec<String>, x: &str)
    requires
        strictly_sorted(views(old(v)@)),
    ensures
        strictly_sorted(views(final(v)@)),
        views(final(v)@).to_set() == views(old(v)@).to_set().insert(x@),
{
    let ghost s = views(v@);
    let mut p: usize = 0;
    while p < v.len() && text_precedes(v[p].as_str(), x)
        invariant
            p <= v.len(),
            s == views(v@),
            forall|k: int| 0 <= k < p ==> text_before(#[trigger] s[k], x@),
        decreases v.len() - p,
    {
        assert(s[p as int] == v@[p as int]@);
        p += 1;
    }
    if p < v.len() && crate::text::str_eq(v[p].as_str(), x) {
        assert(s[p as int] == x@);
        assert(s.to_set().insert(x@) =~= s.to_set());
        return;
    }
    proof {
        if p < s.len() {
            assert(s[p as int] == v@[p as int]@);
            lemma_before_total(s[p as int], x@);
        }
    }
    v.insert(p, string_from(x));
    let ghost t = views(v@);
    assert(t =~= s.insert(p as int, x@));
    proof {
        assert forall|i: int, j: int| 0 <= i < j < t.len() implies text_before(#[trigger] t[i], #[trigger] t[j]) by {
            if j < p {
                assert(t[i] == s[i] && t[j] == s[j]);
            } else if j == p {
                assert(t[j] == x@);
                assert(t[i] == s[i]);
            } else if i < p {
                assert(t[i] == s[i] && t[j] == s[j - 1]);
                assert(text_before(s[i], x@));
                if j - 1 == p {
                } else {
                    assert(text_before(s[p as int], s[j - 1]));
                    lemma_before_transitive(x@, s[p as int], s[j - 1]);
                }
                lemma_before_transitive(s[i], x@, s[j - 1]);
            } else if i == p {
                assert(t[i] == x@ && t[j] == s[j - 1]);
                if j - 1 > p {
                    assert(text_before(s[p as int], s[j - 1]));
                    lemma_before_transitive(x@, s[p as int], s[j - 1]);
                }
            } else {
                assert(t[i] == s[i - 1] && t[j] == s[j - 1]);
            }
        }
        assert forall|y: Seq<char>| #[trigger] t.to_set().contains(y) <==> s.to_set().insert(x@).contains(y) by {
            if t.contains(y) {
                let k = choose|k: int| 0 <= k < t.len() && t[k] == y;
                if k < p {
                    assert(s[k] == y);
                } else if k > p {
                    assert(s[k - 1] == y);
                }
            }
            if s.contains(y) {
                let k = choose|k: int| 0 <= k < s.len() && s[k] == y;
                if k < p {
                    assert(t[k] == y);
                } else {
                    assert(t[k + 1] == y);
                }
            }
            if y == x@ {
                assert(t[p as int] == y);
            }
        }
        assert(t.to_set() =~= s.to_set().insert(x@));
    }
}

/// The types named by the `type` members of an attribute value: an
/// object's own type, or those of an array's items, recursively.
pub open spec fn collected_types(v: JsonV) -> Set<Seq<char>>
    decreases v, 0int,
{
    match v {
        JsonV::Object(m) => match JsonV::Object(m).get_str("type"@) {
            Some(t) => set![t],
            None => Set::empty(),
        },
        JsonV::Array(items) => collected_items(items, items.len() as int),
        _ => Set::empty(),
    }
}

/// The types named by the first `n` items of an array.
pub open spec fn collected_items(items: Seq<JsonV>, n: int) -> Set<Seq<char>>
    decreases items, n,
{
    if n <= 0 || n > items.len() {
        Set::empty()
    } else {
        collected_items(items, n - 1).union(collected_types(items[n - 1]))
    }
}

/// The attribute types of an attribute value: the collected types, or
/// `Property` when there are none.
pub open spec fn attribute_types_of(v: Option<JsonV>) -> Set<Seq<char>> {
    let c = match v {
        Some(x) => collected_types(x),
        None => Set::empty(),
    };
    if c == Set::<Seq<char>>::empty() {
        set!["Property"@]
    } else {
        c
    }
}

/// Adds the types named in an attribute value to a sorted set.
fn collect_types(value: &Json, out: &mut Vec<String>)
    requires
        strictly_sorted(views(old(out)@)),
    ensures
        strictly_sorted(views(final(out)@)),
        views(final(out)@).to_set() == views(old(out)@).to_set().union(collected_types(value@)),
    decreases value,
{
    match value {
        Json::Object(_) => {
            match value.get_str("type") {
                Some(t) => {
                    insert_sorted(out, t.as_str());
                    assert(views(out@).to_set() =~= views(old(out)@).to_set().union(collected_types(value@)));
                },
                None => {
                    assert(views(out@).to_set() =~= views(old(out)@).to_set().union(collected_types(value@)));
                },
            }
        },
        Json::Array(items) => {
            proof {
                lemma_array_view(*items);
            }
            let ghost iv = json_views(items@);
            let ghost o0 = views(out@).to_set();
            let mut i: usize = 0;
            assert(o0.union(collected_items(iv, 0)) =~= o0);
            while i < items.len()
                invariant
                    i <= items.len(),
                    *value == Json::Array(*items),
                    iv == json_views(items@),
                    value@ == JsonV::Array(iv),
                    strictly_sorted(views(out@)),
                    views(out@).to_set() == o0.union(collected_items(iv, i as int)),
                decreases items.len() - i,
            {
                proof {
                    lemma_item_decreases(*items, i as int);
                    assert(decreases_to!(*value => items[i as int]));
                }
                assert(iv[i as int] == items@[i as int]@);
                collect_types(&items[i], out);
                assert(views(out@).to_set() =~= o0.union(collected_items(iv, i + 1)));
                i += 1;
            }
        },
        _ => {
            assert(views(out@).to_set() =~= views(old(out)@).to_set().union(collected_types(value@)));
        },
    }
}

/// The attribute types of an attribute value, sorted.
fn attribute_type_names(value: Option<&Json>) -> (r: Vec<String>)
    ensures
        strictly_sorted(views(r@)),
        views(r@).to_set() == attribute_types_of(
            match value {
                Some(v) => Some(v@),
                None => None,
            },
        ),
{
    let mut out: Vec<String> = Vec::new();
    assert(views(out@).to_set() =~= Set::<Seq<char>>::empty());
    match value {
        Some(v) => {
            collect_types(v, &mut out);
            assert(views(out@).to_set() =~= collected_types(v@));
        },
        None => {},
    }
    if out.len() == 0 {
        assert(views(out@).to_set() =~= Set::<Seq<char>>::empty());
        insert_sorted(&mut out, "Property");
        assert(views(out@).to_set() =~= set!["Property"@]);
    } else {
        assert(views(out@).to_set().contains(views(out@)[0]));
    }
    out
}

/// An entity counts for discovery under a type filter: it has a primary
/// type, equal to the filter's when given.
pub open spec fn counted(e: JsonV, filter: Option<Seq<char>>) -> bool {
    match primary_type(e) {
        Some(t) => match filter {
            Some(f) => t == f,
            None => true,
        },
        None => false,
    }
}

/// The primary types of entities.
pub open spec fn type_names_of(es: Seq<JsonV>) -> Set<Seq<char>>
    decreases es.len(),
{
    if es.len() == 0 {
        Set::empty()
    } else {
        type_names_of(es.drop_last()).union(
            match primary_type(es.last()) {
                Some(t) => set![t],
                None => Set::empty(),
            },
        )
    }
}

/// The number of entities of a type.
pub open spec fn type_count(es: Seq<JsonV>, t: Seq<char>) -> nat
    decreases es.len(),
{
    if es.len() == 0 {
        0
    } else {
        type_count(es.drop_last(), t) + if primary_type(es.last()) == Some(t) {
            1nat
        } else {
            0nat
        }
    }
}

/// The attribute names of the counted entities.
pub open spec fn attr_names_of(es: Seq<JsonV>, filter: Option<Seq<char>>) -> Set<Seq<char>>
    decreases es.len(),
{
    if es.len() == 0 {
        Set::empty()
    } else {
        attr_names_of(es.drop_last(), filter).union(
            if counted(es.last(), filter) {
                attribute_names(es.last()).to_set()
            } else {
                Set::empty()
            },
        )
    }
}

/// The number of counted entities having an attribute.
pub open spec fn attr_count(es: Seq<JsonV>, filter: Option<Seq<char>>, a: Seq<char>) -> nat
    decreases es.len(),
{
    if es.len() == 0 {
        0
    } else {
        attr_count(es.drop_last(), filter, a) + if counted(es.last(), filter) && attribute_names(es.last()).contains(a) {
            1nat
        } else {
            0nat
        }
    }
}

/// The attribute types of an attribute over the counted entities having
/// it.
pub open spec fn attr_types(es: Seq<JsonV>, filter: Option<Seq<char>>, a: Seq<char>) -> Set<Seq<char>>
    decreases es.len(),
{
    if es.len() == 0 {
        Set::empty()
    } else {
        attr_types(es.drop_last(), filter, a).union(
            if counted(es.last(), filter) && attribute_names(es.last()).contains(a) {
                attribute_types_of(es.last().get(a))
            } else {
                Set::empty()
            },
        )
    }
}

/// The primary types of the counted entities having an attribute.
pub open spec fn attr_type_names(es: Seq<JsonV>, filter: Option<Seq<char>>, a: Seq<char>) -> Set<Seq<char>>
    decreases es.len(),
{
    if es.len() == 0 {
        Set::empty()
    } else {
        attr_type_names(es.drop_last(), filter, a).union(
            if counted(es.last(), filter) && attribute_names(es.last()).contains(a) {
                set![primary_type(es.last())->Some_0]
            } else {
                Set::empty()
            },
        )
    }
}

/// A counted entity's primary type under a filter.
fn counted_type(e: &Json, filter: Option<&str>) -> (r: Option<String>)
    ensures
        match r {
            Some(t) => counted(e@, crate::query::planner::opt_str(filter)) && primary_type(e@) == Some(t@),
            None => !counted(e@, crate::query::planner::opt_str(filter)),
        },
{
    match entity_primary_type(e) {
        Some(t) => match filter {
            Some(f) => if crate::text::str_eq(t.as_str(), f) {
                Some(t)
            } else {
                None
            },
            None => Some(t),
        },
        None => None,
    }
}

/// The primary types of entities, sorted.
fn discovery_types(es: &Vec<Json>) -> (r: Vec<String>)
    ensures
        strictly_sorted(views(r@)),
        views(r@).to_set() == type_names_of(json_views(es@)),
{
    let ghost ev = json_views(es@);
    let mut out: Vec<String> = Vec::new();
    assert(views(out@).to_set() =~= Set::<Seq<char>>::empty());
    let mut i: usize = 0;
    while i < es.len()
        invariant
            i <= es.len(),
            ev == json_views(es@),
            strictly_sorted(views(out@)),
            views(out@).to_set() == type_names_of(ev.take(i as int)),
        decreases es.len() - i,
    {
        assert(ev.take(i + 1).drop_last() =~= ev.take(i as int));
        assert(ev.take(i + 1).last() == es@[i as int]@);
        match entity_primary_type(&es[i]) {
            Some(t) => {
                insert_sorted(&mut out, t.as_str());
                assert(views(out@).to_set() =~= type_names_of(ev.take(i + 1)));
            },
            None => {
                assert(views(out@).to_set() =~= type_names_of(ev.take(i + 1)));
            },
        }
        i += 1;
    }
    assert(ev.take(es.len() as int) =~= ev);
    out
}

/// The number of entities of a type.
fn count_type(es: &Vec<Json>, t: &str) -> (r: u64)
    ensures
        r == type_count(json_views(es@), t@),
{
    let ghost ev = json_views(es@);
    let mut n: u64 = 0;
    let mut i: usize = 0;
    while i < es.len()
        invariant
            i <= es.len(),
            ev == json_views(es@),
            n == type_count(ev.take(i as int), t@),
            n <= i,
        decreases es.len() - i,
    {
        assert(ev.take(i + 1).drop_last() =~= ev.take(i as int));
        assert(ev.take(i + 1).last() == es@[i as int]@);
        match entity_primary_type(&es[i]) {
            Some(x) => {
                if crate::text::str_eq(x.as_str(), t) {
                    n = n + 1;
                }
            },
            None => {},
        }
        i += 1;
    }
    assert(ev.take(es.len() as int) =~= ev);
    n
}

/// The attribute names of the counted entities, sorted.
fn discovery_attribute_names(es: &Vec<Json>, filter: Option<&str>) -> (r: Vec<String>)
    ensures
        strictly_sorted(views(r@)),
        views(r@).to_set() == attr_names_of(json_views(es@), crate::query::planner::opt_str(filter)),
{
    let ghost ev = json_views(es@);
    let ghost f = crate::query::planner::opt_str(filter);
    let mut out: Vec<String> = Vec::new();
    assert(views(out@).to_set() =~= Set::<Seq<char>>::empty());
    let mut i: usize = 0;
    while i < es.len()
        invariant
            i <= es.len(),
            ev == json_views(es@),
            f == crate::query::planner::opt_str(filter),
            strictly_sorted(views(out@)),
            views(out@).to_set() == attr_names_of(ev.take(i as int), f),
        decreases es.len() - i,
    {
        assert(ev.take(i + 1).drop_last() =~= ev.take(i as int));
        assert(ev.take(i + 1).last() == es@[i as int]@);
        let ghost before = views(out@).to_set();
        if counted_type(&es[i], filter).is_some() {
            let names = entity_attribute_names(&es[i]);
            let mut k: usize = 0;
            while k < names.len()
                invariant
                    k <= names.len(),
                    strictly_sorted(views(out@)),
                    views(out@).to_set() == before.union(views(names@).take(k as int).to_set()),
                decreases names.len() - k,
            {
                insert_sorted(&mut out, names[k].as_str());
                assert(views(names@).take(k + 1) =~= views(names@).take(k as int).push(names@[k as int]@));
                proof {
                    lemma_push_to_set(views(names@).take(k as int), names@[k as int]@);
                }
                assert(views(out@).to_set() =~= before.union(views(names@).take(k + 1).to_set()));
                k += 1;
            }
            assert(views(names@).take(names.len() as int) =~= views(names@));
            assert(views(out@).to_set() =~= attr_names_of(ev.take(i + 1), f));
        } else {
            assert(views(out@).to_set() =~= attr_names_of(ev.take(i + 1), f));
        }
        i += 1;
    }
    assert(ev.take(es.len() as int) =~= ev);
    out
}

/// Membership of a name among an entity's attribute names.
fn has_attribute(e: &Json, a: &str) -> (r: bool)
    ensures
        r == attribute_names(e@).contains(a@),
{
    let names = entity_attribute_names(e);
    let mut k: usize = 0;
    while k < names.len()
        invariant
            k <= names.len(),
            views(names@) == attribute_names(e@),
            forall|m: int| 0 <= m < k ==> views(names@)[m] != a@,
        decreases names.len() - k,
    {
        if crate::text::str_eq(names[k].as_str(), a) {
            assert(views(names@)[k as int] == a@);
            return true;
        }
        k += 1;
    }
    false
}

/// A record of one attribute holds its name, count, attribute types and
/// type names over the counted entities.
pub open spec fn attribute_info_of(info: AttributeInfo, es: Seq<JsonV>, filter: Option<Seq<char>>, a: Seq<char>) -> bool {
    &&& info.id@ == a
    &&& info.info_type@ == "Attribute"@
    &&& info.attribute_name@ == a
    &&& info.attribute_count == attr_count(es, filter, a)
    &&& strictly_sorted(views(info.attribute_types@))
    &&& views(info.attribute_types@).to_set() == attr_types(es, filter, a)
    &&& strictly_sorted(views(info.type_names@))
    &&& views(info.type_names@).to_set() == attr_type_names(es, filter, a)
}

/// Builds the detailed record of an attribute over the counted entities.
pub fn attribute_info(es: &Vec<Json>, filter: Option<&str>, attribute_name: &str) -> (r: AttributeInfo)
    ensures
        attribute_info_of(r, json_views(es@), crate::query::planner::opt_str(filter), attribute_name@),
{
    let ghost ev = json_views(es@);
    let ghost f = crate::query::planner::opt_str(filter);
    let ghost a = attribute_name@;
    let mut count: u64 = 0;
    let mut types: Vec<String> = Vec::new();
    let mut type_names: Vec<String> = Vec::new();
    assert(views(types@).to_set() =~= Set::<Seq<char>>::empty());
    assert(views(type_names@).to_set() =~= Set::<Seq<char>>::empty());
    let mut i: usize = 0;
    while i < es.len()
        invariant
            i <= es.len(),
            ev == json_views(es@),
            f == crate::query::planner::opt_str(filter),
            a == attribute_name@,
            count == attr_count(ev.take(i as int), f, a),
            count <= i,
            strictly_sorted(views(types@)),
            views(types@).to_set() == attr_types(ev.take(i as int), f, a),
            strictly_sorted(views(type_names@)),
            views(type_names@).to_set() == attr_type_names(ev.take(i as int), f, a),
        decreases es.len() - i,
    {
        assert(ev.take(i + 1).drop_last() =~= ev.take(i as int));
        assert(ev.take(i + 1).last() == es@[i as int]@);
        let ghost tb = views(types@).to_set();
        let ghost nb = views(type_names@).to_set();
        match counted_type(&es[i], filter) {
            Some(t) => {
                if has_attribute(&es[i], attribute_name) {
                    count = count + 1;
                    insert_sorted(&mut type_names, t.as_str());
                    let found = attribute_type_names(es[i].get_member(attribute_name));
                    let mut k: usize = 0;
                    while k < found.len()
                        invariant
                            k <= found.len(),
                            strictly_sorted(views(types@)),
                            views(types@).to_set() == tb.union(views(found@).take(k as int).to_set()),
                        decreases found.len() - k,
                    {
                        insert_sorted(&mut types, found[k].as_str());
                        assert(views(found@).take(k + 1) =~= views(found@).take(k as int).push(found@[k as int]@));
                        proof {
                            lemma_push_to_set(views(found@).take(k as int), found@[k as int]@);
                        }
                        assert(views(types@).to_set() =~= tb.union(views(found@).take(k + 1).to_set()));
                        k += 1;
                    }
                    assert(views(found@).take(found.len() as int) =~= views(found@));
                    assert(views(types@).to_set() =~= attr_types(ev.take(i + 1), f, a));
                    assert(views(type_names@).to_set() =~= attr_type_names(ev.take(i + 1), f, a));
                } else {
                    assert(views(types@).to_set() =~= attr_types(ev.take(i + 1), f, a));
                    assert(views(type_names@).to_set() =~= attr_type_names(ev.take(i + 1), f, a));
                }
            },
            None => {
                assert(views(types@).to_set() =~= attr_types(ev.take(i + 1), f, a));
                assert(views(type_names@).to_set() =~= attr_type_names(ev.take(i + 1), f, a));
            },
        }
        i += 1;
    }
    assert(ev.take(es.len() as int) =~= ev);
    AttributeInfo {
        id: string_from(attribute_name),
        info_type: string_from("Attribute"),
        attribute_name: string_from(attribute_name),
        attribute_count: count,
        attribute_types: types,
        type_names,
    }
}

/// The attribute names of records, in order.
pub open spec fn detail_names(details: Seq<AttributeInfo>) -> Seq<Seq<char>> {
    details.map_values(|d: AttributeInfo| d.attribute_name@)
}

/// Records of attributes: one per name of the counted entities, in sorted
/// order, each built over the counted entities.
pub open spec fn attribute_details_of(details: Seq<AttributeInfo>, es: Seq<JsonV>, filter: Option<Seq<char>>) -> bool {
    &&& strictly_sorted(detail_names(details))
    &&& detail_names(details).to_set() == attr_names_of(es, filter)
    &&& forall|i: int|
        0 <= i < details.len() ==> attribute_info_of(#[trigger] details[i], es, filter, details[i].attribute_name@)
}

/// A record of one entity type holds its name, its number of entities,
/// and the records of its attributes.
pub open spec fn type_info_of(info: EntityTypeInfo, es: Seq<JsonV>, t: Seq<char>) -> bool {
    &&& info.id@ == t
    &&& info.info_type@ == "EntityTypeInfo"@
    &&& info.entity_type_name@ == t
    &&& info.entity_count == type_count(es, t)
    &&& attribute_details_of(info.attribute_details@, es, Some(t))
}

/// Builds the records of the attributes of the counted entities.
fn attribute_details(es: &Vec<Json>, filter: Option<&str>) -> (r: Vec<AttributeInfo>)
    ensures
        attribute_details_of(r@, json_views(es@), crate::query::planner::opt_str(filter)),
{
    let names = discovery_attribute_names(es, filter);
    let mut out: Vec<AttributeInfo> = Vec::new();
    let mut k: usize = 0;
    while k < names.len()
        invariant
            k <= names.len(),
            detail_names(out@) == views(names@).take(k as int),
            forall|i: int|
                0 <= i < out@.len() ==> attribute_info_of(
                    #[trigger] out@[i],
                    json_views(es@),
                    crate::query::planner::opt_str(filter),
                    out@[i].attribute_name@,
                ),
        decreases names.len() - k,
    {
        let info = attribute_info(es, filter, names[k].as_str());
        let ghost before = detail_names(out@);
        out.push(info);
        assert(detail_names(out@) =~= before.push(names@[k as int]@));
        assert(views(names@).take(k + 1) =~= views(names@).take(k as int).push(names@[k as int]@));
        k += 1;
    }
    assert(views(names@).take(names.len() as int) =~= views(names@));
    out
}

/// Builds the detailed record of an entity type.
pub fn type_info(es: &Vec<Json>, entity_type: &str) -> (r: EntityTypeInfo)
    ensures
        type_info_of(r, json_views(es@), entity_type@),
{
    EntityTypeInfo {
        id: string_from(entity_type),
        info_type: string_from("EntityTypeInfo"),
        entity_type_name: string_from(entity_type),
        entity_count: count_type(es, entity_type),
        attribute_details: attribute_details(es, Some(entity_type)),
    }
}

/// Entity types as listed: their names, or their detailed records.
#[derive(Clone, Debug)]
pub enum TypeListing {
    Names(EntityTypeList),
    Details(Vec<EntityTypeInfo>),
}

/// The type names of records, in order.
pub open spec fn info_names(infos: Seq<EntityTypeInfo>) -> Seq<Seq<char>> {
    infos.map_values(|i: EntityTypeInfo| i.entity_type_name@)
}

/// Lists the entity types of entities: the sorted names, or (with
/// `details`) a record per type in the same order.
pub fn list_types(es: &Vec<Json>, details: bool) -> (r: TypeListing)
    ensures
        match r {
            TypeListing::Names(l) => !details && l.id@ == "urn:ngsi-ld:EntityTypeList"@ && l.list_type@
                == "EntityTypeList"@ && strictly_sorted(views(l.type_list@)) && views(l.type_list@).to_set()
                == type_names_of(json_views(es@)),
            TypeListing::Details(v) => details && strictly_sorted(info_names(v@)) && info_names(v@).to_set()
                == type_names_of(json_views(es@)) && forall|i: int|
                0 <= i < v@.len() ==> type_info_of(#[trigger] v@[i], json_views(es@), v@[i].entity_type_name@),
        },
{
    let types = discovery_types(es);
    if details {
        let mut out: Vec<EntityTypeInfo> = Vec::new();
        let mut k: usize = 0;
        while k < types.len()
            invariant
                k <= types.len(),
                info_names(out@) == views(types@).take(k as int),
                forall|i: int|
                    0 <= i < out@.len() ==> type_info_of(#[trigger] out@[i], json_views(es@), out@[i].entity_type_name@),
            decreases types.len() - k,
        {
            let info = type_info(es, types[k].as_str());
            let ghost before = info_names(out@);
            out.push(info);
            assert(info_names(out@) =~= before.push(types@[k as int]@));
            assert(views(types@).take(k + 1) =~= views(types@).take(k as int).push(types@[k as int]@));
            k += 1;
        }
        assert(views(types@).take(types.len() as int) =~= views(types@));
        TypeListing::Details(out)
    } else {
        TypeListing::Names(
            EntityTypeList {
                id: string_from("urn:ngsi-ld:EntityTypeList"),
                list_type: string_from("EntityTypeList"),
                type_list: types,
            },
        )
    }
}

/// Membership of a text in a vector of strings.
fn contains_text(items: &Vec<String>, s: &str) -> (r: bool)
    ensures
        r == views(items@).contains(s@),
{
    let mut i: usize = 0;
    while i < items.len()
        invariant
            i <= items.len(),
            forall|k: int| 0 <= k < i ==> views(items@)[k] != s@,
        decreases items.len() - i,
    {
        if crate::text::str_eq(items[i].as_str(), s) {
            assert(views(items@)[i as int] == s@);
            return true;
        }
        i += 1;
    }
    false
}

/// Returns the detailed record of one entity type; a type no entity has
/// is not found.
pub fn get_type(es: &Vec<Json>, entity_type: &str) -> (r: Result<EntityTypeInfo, BrokerError>)
    ensures
        match r {
            Ok(info) => type_names_of(json_views(es@)).contains(entity_type@) && type_info_of(info, json_views(es@), entity_type@),
            Err(e) => !type_names_of(json_views(es@)).contains(entity_type@) && e is NotFound && error_message(e)
                == "entity type "@ + entity_type@ + " was not found"@,
        },
{
    let types = discovery_types(es);
    if !contains_text(&types, entity_type) {
        let t = chars_of(entity_type);
        assert(!views(types@).to_set().contains(entity_type@));
        return Err(BrokerError::NotFound(text_around("entity type ", &t, " was not found")));
    }
    assert(views(types@).to_set().contains(entity_type@));
    Ok(type_info(es, entity_type))
}

/// Attributes as listed: their names, or their detailed records.
#[derive(Clone, Debug)]
pub enum AttributeListing {
    Names(AttributeList),
    Details(Vec<AttributeInfo>),
}

/// Lists the attributes of typed entities: the sorted names, or (with
/// `details`) a record per attribute in the same order.
pub fn list_attributes(es: &Vec<Json>, details: bool) -> (r: AttributeListing)
    ensures
        match r {
            AttributeListing::Names(l) => !details && l.id@ == "urn:ngsi-ld:AttributeList"@ && l.list_type@
                == "AttributeList"@ && strictly_sorted(views(l.attribute_list@)) && views(l.attribute_list@).to_set()
                == attr_names_of(json_views(es@), None),
            AttributeListing::Details(v) => details && attribute_details_of(v@, json_views(es@), None),
        },
{
    if details {
        AttributeListing::Details(attribute_details(es, None))
    } else {
        AttributeListing::Names(
            AttributeList {
                id: string_from("urn:ngsi-ld:AttributeList"),
                list_type: string_from("AttributeList"),
                attribute_list: discovery_attribute_names(es, None),
            },
        )
    }
}

/// Returns the detailed record of one attribute; an attribute no typed
/// entity has is not found.
pub fn get_attribute(es: &Vec<Json>, attribute_name: &str) -> (r: Result<AttributeInfo, BrokerError>)
    ensures
        match r {
            Ok(info) => attr_names_of(json_views(es@), None).contains(attribute_name@) && attribute_info_of(
                info,
                json_views(es@),
                None,
                attribute_name@,
            ),
            Err(e) => !attr_names_of(json_views(es@), None).contains(attribute_name@) && e is NotFound
                && error_message(e) == "attribute "@ + attribute_name@ + " was not found"@,
        },
{
    let names = discovery_attribute_names(es, None);
    if !contains_text(&names, attribute_name) {
        let a = chars_of(attribute_name);
        assert(!views(names@).to_set().contains(attribute_name@));
        return Err(BrokerError::NotFound(text_around("attribute ", &a, " was not found")));
    }
    assert(views(names@).to_set().contains(attribute_name@));
    Ok(attribute_info(es, None, attribute_name))
}

/// Entities without repeated ids: the first entity of each id (entities
/// without a string id share the empty id), in order.
pub open spec fn deduped(es: Seq<JsonV>) -> Seq<JsonV>
    decreases es.len(),
{
    if es.len() == 0 {
        Seq::empty()
    } else {
        let d = deduped(es.drop_last());
        if d.map_values(|e: JsonV| id_text(e)).contains(id_text(es.last())) {
            d
        } else {
            d.push(es.last())
        }
    }
}

/// Removes entities with an id seen before.
pub fn dedupe(items: Vec<Json>) -> (r: Vec<Json>)
    ensures
        json_views(r@) == deduped(json_views(items@)),
{
    let ghost ev = json_views(items@);
    let mut seen: Vec<String> = Vec::new();
    let mut out: Vec<Json> = Vec::new();
    let mut i: usize = 0;
    while i < items.len()
        invariant
            i <= items.len(),
            ev == json_views(items@),
            json_views(out@) == deduped(ev.take(i as int)),
            views(seen@) == deduped(ev.take(i as int)).map_values(|e: JsonV| id_text(e)),
        decreases items.len() - i,
    {
        assert(ev.take(i + 1).drop_last() =~= ev.take(i as int));
        assert(ev.take(i + 1).last() == items@[i as int]@);
        let id = match items[i].get_str("id") {
            Some(s) => s.clone(),
            None => String::new(),
        };
        assert(id@ == id_text(items@[i as int]@));
        if !contains_text(&seen, id.as_str()) {
            let ghost ob = json_views(out@);
            let ghost sb = views(seen@);
            let ghost idv = id@;
            out.push(crate::json::clone_json(&items[i]));
            seen.push(id);
            assert(json_views(out@) =~= ob.push(items@[i as int]@));
            assert(deduped(ev.take(i + 1)) == deduped(ev.take(i as int)).push(items@[i as int]@));
            assert(deduped(ev.take(i as int)).push(items@[i as int]@).map_values(|e: JsonV| id_text(e))
                =~= deduped(ev.take(i as int)).map_values(|e: JsonV| id_text(e)).push(idv));
            assert(views(seen@) =~= sb.push(idv));
        }
        i += 1;
    }
    assert(ev.take(items.len() as int) =~= ev);
    out
}

/// The entities of a tenant considered by discovery: its stored entities
/// without repeated ids.
pub fn discovery_entities(store: &MemoryEntityRepository, tenant: &str) -> (r: Vec<Json>)
    ensures
        json_views(r@) == deduped(store@.filter(|d: StoredV| d.tenant == tenant@).map_values(|d: StoredV| d.doc)),
{
    let docs = store.tenant_documents(tenant);
    dedupe(docs)
}

} // verus!
