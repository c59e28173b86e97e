//! Request metadata from HTTP headers: tenant, `Via` hops, and the `Link`
//! header that can supply a JSON-LD `@context`.
use vstd::prelude::*;
use crate::config::AppConfig;
use crate::json::{Json, JsonV, json_views, entry_views, lemma_array_view, lemma_object_view, member_index, member_position, map_insert, object_insert};
use crate::query::types::Representation;
use crate::text::{
    chars_eq, chars_of, contains_chars, csv_chars, csv_items, has_infix, split_chars, split_on,
    string_from, string_of, strings_of, str_contains, sub_chars, trim, trim_chars, views,
};

verus! {

/// Request-derived metadata shared across service calls.
#[derive(Clone, Debug)]
pub struct RequestContext {
    pub tenant: String,
    pub via: Vec<String>,
    pub link_header: Option<String>,
}

/// The effective tenant: the header's value unless absent or empty, else
/// `default`.
pub open spec fn effective_tenant(header: Option<Seq<char>>) -> Seq<char> {
    match header {
        Some(t) => if t.len() > 0 {
            t
        } else {
            "default"@
        },
        None => "default"@,
    }
}

impl RequestContext {
    /// Builds the context from the raw `NGSILD-Tenant`, `Via` and `Link`
    /// header values, when present.
    pub fn from_headers(tenant: Option<&str>, via: Option<&str>, link: Option<&str>) -> (r: Self)
        ensures
            r.tenant@ == effective_tenant(
                match tenant {
                    Some(t) => Some(t@),
                    None => None,
                },
            ),
            views(r.via@) == match via {
                Some(v) => csv_items(v@),
                None => Seq::empty(),
            },
            r.link_header matches Some(l) ==> link matches Some(x) && l@ == x@,
            r.link_header is None ==> link is None,
    {
        let t = match tenant {
            Some(t) => {
                let tc = chars_of(t);
                if tc.len() > 0 {
                    string_from(t)
                } else {
                    string_from("default")
                }
            },
            None => string_from("default"),
        };
        let v = match via {
            Some(v) => parse_via(v),
            None => {
                let e: Vec<String> = Vec::new();
                assert(views(e@) =~= Seq::<Seq<char>>::empty());
                e
            },
        };
        let l = match link {
            Some(x) => Some(string_from(x)),
            None => None,
        };
        RequestContext { tenant: t, via: v, link_header: l }
    }
}

/// Parses comma-separated Via header into hop markers.
pub fn parse_via(value: &str) -> (r: Vec<String>)
    ensures
        views(r@) == csv_items(value@),
{
    let cs = chars_of(value);
    let items = csv_chars(&cs);
    strings_of(&items)
}

/// The chain with the broker's id and public endpoint appended, each when
/// it is not already there.
pub open spec fn extended_via(existing: Seq<Seq<char>>, broker_id: Seq<char>, endpoint: Seq<char>) -> Seq<Seq<char>> {
    let a = if existing.contains(broker_id) {
        existing
    } else {
        existing.push(broker_id)
    };
    if a.contains(endpoint) {
        a
    } else {
        a.push(endpoint)
    }
}

/// Membership of a marker in a chain.
fn chain_holds(chain: &Vec<String>, marker: &String) -> (r: bool)
    ensures
        r == views(chain@).contains(marker@),
{
    let m = chars_of(marker.as_str());
    let mut i: usize = 0;
    while i < chain.len()
        invariant
            i <= chain.len(),
            m@ == marker@,
            forall|k: int| 0 <= k < i ==> views(chain@)[k] != marker@,
        decreases chain.len() - i,
    {
        let c = chars_of(chain[i].as_str());
        assert(views(chain@)[i as int] == c@);
        if chars_eq(&c, &m) {
            return true;
        }
        i += 1;
    }
    false
}

/// Appends local broker markers to outgoing Via chain.
pub fn extend_via(existing: &[String], config: &AppConfig) -> (r: Vec<String>)
    ensures
        views(r@) == extended_via(views(existing@), config.broker_id@, config.public_endpoint@),
{
    let mut via: Vec<String> = Vec::new();
    let mut i: usize = 0;
    while i < existing.len()
        invariant
            i <= existing.len(),
            views(via@) == views(existing@).take(i as int),
        decreases existing.len() - i,
    {
        let ghost before = via@;
        let s = existing[i].clone();
        via.push(s);
        assert(views(via@) =~= views(before).push(s@));
        assert(views(existing@).take(i + 1) =~= views(existing@).take(i as int).push(existing@[i as int]@));
        i += 1;
    }
    assert(views(existing@).take(existing.len() as int) =~= views(existing@));
    if !chain_holds(&via, &config.broker_id) {
        let ghost before = via@;
        let s = config.broker_id.clone();
        via.push(s);
        assert(views(via@) =~= views(before).push(s@));
    }
    if !chain_holds(&via, &config.public_endpoint) {
        let ghost before = via@;
        let s = config.public_endpoint.clone();
        via.push(s);
        assert(views(via@) =~= views(before).push(s@));
    }
    via
}

/// First position of a character at or after `from`.
pub open spec fn find_char_from(s: Seq<char>, c: char, from: int) -> Option<int>
    decreases s.len() - from,
{
    if from < 0 || from >= s.len() {
        None
    } else if s[from] == c {
        Some(from)
    } else {
        find_char_from(s, c, from + 1)
    }
}

/// The target between `<` and the next `>` of a link entry.
pub open spec fn link_target(entry: Seq<char>) -> Option<Seq<char>> {
    match find_char_from(entry, '<', 0) {
        Some(open) => match find_char_from(entry, '>', open + 1) {
            Some(close) => Some(entry.subrange(open + 1, close)),
            None => None,
        },
        None => None,
    }
}

/// The JSON-LD context targets of the entries of a `Link` header, in order;
/// `None` when a context entry has no `<...>` target.
pub open spec fn context_targets(entries: Seq<Seq<char>>) -> Option<Seq<Seq<char>>>
    decreases entries.len(),
{
    if entries.len() == 0 {
        Some(Seq::empty())
    } else {
        match context_targets(entries.drop_last()) {
            None => None,
            Some(ts) => {
                let e = trim(entries.last());
                if !has_infix(e, "json-ld#context"@) {
                    Some(ts)
                } else {
                    match link_target(e) {
                        Some(t) => Some(ts.push(t)),
                        None => None,
                    }
                }
            },
        }
    }
}

/// The `@context` value of a `Link` header: one target as a string,
/// several as an array, none as absent.
pub open spec fn context_of_link(link: Seq<char>) -> Option<JsonV> {
    match context_targets(split_on(link, ',')) {
        Some(ts) => if ts.len() == 0 {
            None
        } else if ts.len() == 1 {
            Some(JsonV::Str(ts[0]))
        } else {
            Some(JsonV::Array(ts.map_values(|t: Seq<char>| JsonV::Str(t))))
        },
        None => None,
    }
}

/// Finds a character at or after a position.
fn find_char(s: &Vec<char>, c: char, from: usize) -> (r: Option<usize>)
    ensures
        match r {
            Some(k) => find_char_from(s@, c, from as int) == Some(k as int) && k < s.len(),
            None => find_char_from(s@, c, from as int) is None,
        },
{
    let mut i = from;
    while i < s.len()
        invariant
            from <= i,
            find_char_from(s@, c, from as int) == find_char_from(s@, c, i as int),
        decreases s.len() - i,
    {
        if s[i] == c {
            return Some(i);
        }
        i += 1;
    }
    None
}

/// Extracts JSON-LD context targets from Link header value.
pub fn parse_context_link(link_header: &str) -> (r: Option<Json>)
    ensures
        match r {
            Some(v) => context_of_link(link_header@) == Some(v@),
            None => context_of_link(link_header@) is None,
        },
{
    let cs = chars_of(link_header);
    let entries = split_chars(&cs, ',');
    let ghost ev = split_on(link_header@, ',');
    let mut contexts: Vec<Vec<char>> = Vec::new();
    let needle = chars_of("json-ld#context");
    let mut i: usize = 0;
    assert(ev.take(0) =~= Seq::<Seq<char>>::empty());
    while i < entries.len()
        invariant
            i <= entries.len(),
            entries@.map_values(|v: Vec<char>| v@) == ev,
            ev == split_on(link_header@, ','),
            needle@ == "json-ld#context"@,
            context_targets(ev.take(i as int)) == Some(contexts@.map_values(|v: Vec<char>| v@)),
        decreases entries.len() - i,
    {
        assert(ev.take(i + 1).drop_last() =~= ev.take(i as int));
        assert(ev.take(i + 1).last() == entries@[i as int]@);
        let e = trim_chars(&entries[i]);
        if contains_chars(&e, &needle) {
            let open = match find_char(&e, '<', 0) {
                Some(k) => k,
                None => {
                    assert(link_target(e@) is None);
                    assert(context_targets(ev.take(i + 1)) is None);
                    proof {
                        lemma_context_targets_none(ev, i as int);
                    }
                    return None;
                },
            };
            let close = match find_char(&e, '>', open + 1) {
                Some(k) => k,
                None => {
                    assert(link_target(e@) is None);
                    assert(context_targets(ev.take(i + 1)) is None);
                    proof {
                        lemma_context_targets_none(ev, i as int);
                    }
                    return None;
                },
            };
            proof {
                lemma_find_bounds(e@, '>', open + 1);
            }
            let t = sub_chars(&e, open + 1, close);
            let ghost before = contexts@;
            contexts.push(t);
            assert(contexts@.map_values(|v: Vec<char>| v@) =~= before.map_values(|v: Vec<char>| v@).push(t@));
        }
        i += 1;
    }
    assert(ev.take(entries.len() as int) =~= ev);
    let ghost ts = contexts@.map_values(|v: Vec<char>| v@);
    if contexts.len() == 0 {
        None
    } else if contexts.len() == 1 {
        let s = string_of(&contexts[0]);
        Some(Json::Str(s))
    } else {
        let mut items: Vec<Json> = Vec::new();
        let mut k: usize = 0;
        while k < contexts.len()
            invariant
                k <= contexts.len(),
                ts == contexts@.map_values(|v: Vec<char>| v@),
                json_views(items@) == ts.map_values(|t: Seq<char>| JsonV::Str(t)).take(k as int),
            decreases contexts.len() - k,
        {
            let s = string_of(&contexts[k]);
            let ghost before = items@;
            items.push(Json::Str(s));
            assert(json_views(items@) =~= json_views(before).push(JsonV::Str(s@)));
            assert(ts.map_values(|t: Seq<char>| JsonV::Str(t)).take(k + 1) =~= ts.map_values(
                |t: Seq<char>| JsonV::Str(t),
            ).take(k as int).push(JsonV::Str(ts[k as int])));
            k += 1;
        }
        assert(ts.map_values(|t: Seq<char>| JsonV::Str(t)).take(contexts.len() as int) =~= ts.map_values(
            |t: Seq<char>| JsonV::Str(t),
        ));
        proof {
            lemma_array_view(items);
        }
        Some(Json::Array(items))
    }
}

/// A found position lies at or after the start.
proof fn lemma_find_bounds(s: Seq<char>, c: char, from: int)
    ensures
        find_char_from(s, c, from) matches Some(k) ==> from <= k < s.len(),
    decreases s.len() - from,
{
    if 0 <= from < s.len() && s[from] != c {
        lemma_find_bounds(s, c, from + 1);
    }
}

/// A failing entry makes the whole header fail.
proof fn lemma_context_targets_none(ev: Seq<Seq<char>>, i: int)
    requires
        0 <= i < ev.len(),
        context_targets(ev.take(i + 1)) is None,
    ensures
        context_targets(ev) is None,
    decreases ev.len() - i,
{
    if i + 1 < ev.len() {
        assert(ev.take(i + 2).drop_last() =~= ev.take(i + 1));
        lemma_context_targets_none(ev, i + 1);
    } else {
        assert(ev.take(i + 1) =~= ev);
    }
}

/// The response content type for a representation and `Accept` header.
pub open spec fn content_type_of(accept: Seq<char>, representation: Representation) -> Seq<char> {
    if representation == Representation::GeoJson {
        "application/geo+json"@
    } else if has_infix(accept, "application/ld+json"@) {
        "application/ld+json"@
    } else if has_infix(accept, "application/json+ld"@) {
        "application/json+ld"@
    } else {
        "application/json"@
    }
}

/// Chooses response content type for requested representation, given the
/// `Accept` header's value (empty when absent).
pub fn content_type_for_representation(accept: &str, representation: Representation) -> (r: &'static str)
    ensures
        r@ == content_type_of(accept@, representation),
{
    if representation == Representation::GeoJson {
        return "application/geo+json";
    }
    if str_contains(accept, "application/ld+json") {
        "application/ld+json"
    } else if str_contains(accept, "application/json+ld") {
        "application/json+ld"
    } else {
        "application/json"
    }
}

/// The members of a document after backfilling `@context` from a `Link`
/// header: unchanged when the document has one or the header gives none.
pub open spec fn with_context_link(doc: Seq<(Seq<char>, JsonV)>, link: Option<Seq<char>>) -> Seq<(Seq<char>, JsonV)> {
    if member_index(doc, "@context"@) is Some {
        doc
    } else {
        match link {
            Some(l) => match context_of_link(l) {
                Some(c) => object_insert(doc, "@context"@, c),
                None => doc,
            },
            None => doc,
        }
    }
}

/// Backfills `@context` from Link header when payload omits it.
pub fn apply_context_link(document: &mut Vec<(String, Json)>, link_header: Option<&str>)
    ensures
        entry_views(final(document)@) == with_context_link(
            entry_views(old(document)@),
            match link_header {
                Some(l) => Some(l@),
                None => None,
            },
        ),
{
    if member_position(document, "@context").is_some() {
        return;
    }
    match link_header {
        Some(l) => match parse_context_link(l) {
            Some(c) => {
                map_insert(document, string_from("@context"), c);
            },
            None => {},
        },
        None => {},
    }
}

} // verus!
