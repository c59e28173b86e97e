//! Entity queries: the graph of linked entities that `q` may traverse, and
//! the response built from the candidate entities once each has its match
//! options.
use vstd::prelude::*;
use crate::json::{
    Json, JsonV, clone_json, entry_views, json_views, lemma_array_view, lemma_object_view, map_insert,
    member_index, member_position, object_insert,
};
use crate::query::eval::{OptionsV, QueryMatchOptions, expression_uses_linked};
use crate::query::language::q_expression;
use crate::query::planner::{opt_as_str, opt_text};
use crate::query::types::{EntityQuery, QueryResult, Representation};
use crate::services::common::{entity_matches, entity_matches_query_with_options, project_entity, projected, query_needs_linked_graph};
use crate::text::string_from;

verus! {

/// Stored entities keyed by their string id; a later entity with the same
/// id replaces an earlier one.
pub open spec fn collected_graph(docs: Seq<JsonV>) -> Seq<(Seq<char>, JsonV)>
    decreases docs.len(),
{
    if docs.len() == 0 {
        Seq::empty()
    } else {
        let g = collected_graph(docs.drop_last());
        match docs.last().get_str("id"@) {
            Some(id) => object_insert(g, id, docs.last()),
            None => g,
        }
    }
}

/// The graph with the candidate entities whose id it lacks added.
pub open spec fn with_missing(g: Seq<(Seq<char>, JsonV)>, entities: Seq<JsonV>) -> Seq<(Seq<char>, JsonV)>
    decreases entities.len(),
{
    if entities.len() == 0 {
        g
    } else {
        let before = with_missing(g, entities.drop_last());
        match entities.last().get_str("id"@) {
            Some(id) => if member_index(before, id) is Some {
                before
            } else {
                before.push((id, entities.last()))
            },
            None => before,
        }
    }
}

/// The linked-entity graph of a query: empty unless its `q` reaches into
/// linked entities, else every stored entity of the tenant by id, with the
/// candidates that are not stored.
pub open spec fn query_graph(query: EntityQuery, stored: Seq<JsonV>, entities: Seq<JsonV>) -> Seq<(Seq<char>, JsonV)> {
    let needed = match q_expression(opt_text(query.q)) {
        Some(Some(e)) => expression_uses_linked(e),
        _ => false,
    };
    if needed {
        with_missing(collected_graph(stored), entities)
    } else {
        Seq::empty()
    }
}

/// Stored entities keyed by id, a later one replacing an earlier one.
fn collect_graph(stored: &Vec<Json>) -> (r: Vec<(String, Json)>)
    ensures
        entry_views(r@) == collected_graph(json_views(stored@)),
{
    let ghost sv = json_views(stored@);
    let mut graph: Vec<(String, Json)> = Vec::new();
    assert(entry_views(graph@) =~= collected_graph(sv.take(0)));
    let mut i: usize = 0;
    while i < stored.len()
        invariant
            i <= stored.len(),
            sv == json_views(stored@),
            entry_views(graph@) == collected_graph(sv.take(i as int)),
        decreases stored.len() - i,
    {
        assert(sv.take(i + 1).drop_last() =~= sv.take(i as int));
        assert(sv.take(i + 1).last() == stored@[i as int]@);
        match stored[i].get_str("id") {
            Some(id) => {
                map_insert(&mut graph, string_from(id.as_str()), clone_json(&stored[i]));
            },
            None => {},
        }
        i += 1;
    }
    assert(sv.take(stored.len() as int) =~= sv);
    graph
}

/// Adds the candidates whose id the graph lacks.
fn add_missing(graph: &mut Vec<(String, Json)>, entities: &Vec<Json>)
    ensures
        entry_views(final(graph)@) == with_missing(entry_views(old(graph)@), json_views(entities@)),
{
    let ghost ev = json_views(entities@);
    let ghost g0 = entry_views(graph@);
    assert(with_missing(g0, ev.take(0)) == g0);
    let mut k: usize = 0;
    while k < entities.len()
        invariant
            k <= entities.len(),
            ev == json_views(entities@),
            g0 == entry_views(old(graph)@),
            entry_views(graph@) == with_missing(g0, ev.take(k as int)),
        decreases entities.len() - k,
    {
        assert(ev.take(k + 1).drop_last() =~= ev.take(k as int));
        assert(ev.take(k + 1).last() == entities@[k as int]@);
        match entities[k].get_str("id") {
            Some(id) => {
                match member_position(graph, id.as_str()) {
                    Some(_) => {},
                    None => {
                        let ghost before = entry_views(graph@);
                        let pair = (string_from(id.as_str()), clone_json(&entities[k]));
                        let ghost pv = (pair.0@, pair.1@);
                        graph.push(pair);
                        assert(entry_views(graph@) =~= before.push(pv));
                    },
                }
            },
            None => {},
        }
        k += 1;
    }
    assert(ev.take(entities.len() as int) =~= ev);
}

/// Builds the linked-entity graph of a query from the tenant's stored
/// entities and the candidate entities.
pub fn entity_query_linked_graph(query: &EntityQuery, stored: &Vec<Json>, entities: &Vec<Json>) -> (r: Vec<(String, Json)>)
    ensures
        entry_views(r@) == query_graph(*query, json_views(stored@), json_views(entities@)),
{
    if !query_needs_linked_graph(query) {
        let graph: Vec<(String, Json)> = Vec::new();
        assert(entry_views(graph@) =~= Seq::<(Seq<char>, JsonV)>::empty());
        return graph;
    }
    let mut graph = collect_graph(stored);
    add_missing(&mut graph, entities);
    graph
}

/// The candidate entities that match the query, each under its own match
/// options, in order.
pub open spec fn matching(es: Seq<JsonV>, query: EntityQuery, opts: Seq<OptionsV>) -> Seq<JsonV>
    decreases es.len(),
{
    if es.len() == 0 {
        Seq::empty()
    } else {
        let m = matching(es.drop_last(), query, opts.take(es.len() - 1));
        if entity_matches(es.last(), query, opts[es.len() - 1]) {
            m.push(es.last())
        } else {
            m
        }
    }
}

/// How many matches the response holds: all, or at most the query's
/// `limit`.
pub open spec fn shown(query: EntityQuery, matches: nat) -> nat {
    match query.limit {
        Some(l) => if (l as nat) < matches {
            l as nat
        } else {
            matches
        },
        None => matches,
    }
}

/// The body of a query response: the first matches, projected, as an array
/// or, for GeoJSON, as a feature collection.
pub open spec fn query_body(matches: Seq<JsonV>, query: EntityQuery, representation: Representation) -> JsonV {
    let items = matches.take(shown(query, matches.len()) as int).map_values(
        |e: JsonV| projected(e, opt_text(query.attrs), opt_text(query.pick), opt_text(query.omit), representation),
    );
    if representation == Representation::GeoJson {
        JsonV::Object(seq![("type"@, JsonV::Str("FeatureCollection"@)), ("features"@, JsonV::Array(items))])
    } else {
        JsonV::Array(items)
    }
}

/// The views of a list of match options.
pub open spec fn options_views(options: Seq<QueryMatchOptions>) -> Seq<OptionsV> {
    options.map_values(|o: QueryMatchOptions| o@)
}

/// The candidates that match, each under its own options.
fn matching_entities(entities: &Vec<Json>, query: &EntityQuery, options: &Vec<QueryMatchOptions>) -> (r: Vec<Json>)
    requires
        options.len() == entities.len(),
    ensures
        json_views(r@) == matching(json_views(entities@), *query, options_views(options@)),
{
    let ghost ev = json_views(entities@);
    let ghost ov = options_views(options@);
    let mut matched: Vec<Json> = Vec::new();
    assert(json_views(matched@) =~= matching(ev.take(0), *query, ov.take(0)));
    let mut i: usize = 0;
    while i < entities.len()
        invariant
            i <= entities.len(),
            options.len() == entities.len(),
            ev == json_views(entities@),
            ov == options_views(options@),
            json_views(matched@) == matching(ev.take(i as int), *query, ov.take(i as int)),
        decreases entities.len() - i,
    {
        let ghost before = json_views(matched@);
        assert(ev.take(i + 1).drop_last() =~= ev.take(i as int));
        assert(ov.take(i + 1).take(i as int) =~= ov.take(i as int));
        assert(ev.take(i + 1).last() == entities@[i as int]@);
        assert(ov.take(i + 1)[i as int] == options@[i as int]@);
        if entity_matches_query_with_options(&entities[i], query, &options[i]) {
            matched.push(clone_json(&entities[i]));
            assert(json_views(matched@) =~= before.push(entities@[i as int]@));
        }
        i += 1;
    }
    assert(ev.take(entities.len() as int) =~= ev);
    assert(ov.take(entities.len() as int) =~= ov);
    matched
}

/// The first `count` matches, projected.
fn projected_matches(matched: &Vec<Json>, query: &EntityQuery, representation: Representation, count: usize) -> (r: Vec<Json>)
    requires
        count <= matched.len(),
    ensures
        json_views(r@) == json_views(matched@).take(count as int).map_values(
            |e: JsonV| projected(e, opt_text(query.attrs), opt_text(query.pick), opt_text(query.omit), representation),
        ),
{
    let ghost mv = json_views(matched@);
    let ghost items = mv.take(count as int).map_values(
        |e: JsonV| projected(e, opt_text(query.attrs), opt_text(query.pick), opt_text(query.omit), representation),
    );
    let mut out: Vec<Json> = Vec::new();
    let mut k: usize = 0;
    while k < count
        invariant
            k <= count,
            count <= matched.len(),
            mv == json_views(matched@),
            items == mv.take(count as int).map_values(
                |e: JsonV| projected(e, opt_text(query.attrs), opt_text(query.pick), opt_text(query.omit), representation),
            ),
            json_views(out@) == items.take(k as int),
        decreases count - k,
    {
        let p = project_entity(
            &matched[k],
            opt_as_str(&query.attrs),
            opt_as_str(&query.pick),
            opt_as_str(&query.omit),
            representation,
        );
        let ghost before = json_views(out@);
        out.push(p);
        assert(json_views(out@) =~= before.push(items[k as int]));
        assert(items.take(k + 1) =~= items.take(k as int).push(items[k as int]));
        k += 1;
    }
    assert(items.take(count as int) =~= items);
    out
}

/// Builds the response of an entity query from its candidate entities,
/// given the match options of each candidate (same position): the total
/// counts every match, the body holds the first matches up to the limit.
pub fn query_response(
    entities: &Vec<Json>,
    query: &EntityQuery,
    options: &Vec<QueryMatchOptions>,
    representation: Representation,
) -> (r: QueryResult)
    requires
        options.len() == entities.len(),
    ensures
        r.total_count == matching(json_views(entities@), *query, options_views(options@)).len(),
        r.body@ == query_body(matching(json_views(entities@), *query, options_views(options@)), *query, representation),
{
    let matched = matching_entities(entities, query, options);
    let total_count = matched.len();
    let count = match query.limit {
        Some(l) => if l < total_count {
            l
        } else {
            total_count
        },
        None => total_count,
    };
    let out = projected_matches(&matched, query, representation, count);
    let ghost items = json_views(out@);
    proof {
        lemma_array_view(out);
    }
    let array = Json::Array(out);
    let body = match representation {
        Representation::GeoJson => {
            let entries: Vec<(String, Json)> = vec![
                (string_from("type"), Json::Str(string_from("FeatureCollection"))),
                (string_from("features"), array),
            ];
            proof {
                lemma_object_view(entries);
                assert(entry_views(entries@) =~= seq![("type"@, JsonV::Str("FeatureCollection"@)), ("features"@, JsonV::Array(items))]);
            }
            Json::Object(entries)
        },
        _ => array,
    };
    QueryResult { body, total_count }
}

/// The response body holds the matches up to the limit: as many items as
/// the total count, or the limit when that is smaller.
pub proof fn law_query_body_within_limit(matches: Seq<JsonV>, query: EntityQuery, representation: Representation)
    ensures
        shown(query, matches.len()) <= matches.len(),
        query.limit matches Some(l) ==> shown(query, matches.len()) <= l,
        (query.limit is None) ==> shown(query, matches.len()) == matches.len(),
        representation != Representation::GeoJson ==> query_body(matches, query, representation)->Array_0.len() == shown(
            query,
            matches.len(),
        ),
{
}

} // verus!
