//! Replicated temporal mutations: how a mutation received from a peer
//! changes the temporal repository, and the recorded history a snapshot
//! carries.
use vstd::prelude::*;
use crate::domain::{RecordV, TemporalAttributeRecord, TemporalEntityDocument, TemporalV, record_views};
use crate::federation::version_not_older;
use crate::json::{Json, JsonV, clone_json, entry_views, json_views, lemma_array_view, lemma_object_view, map_remove, object_remove};
use crate::persistence::memory::{
    MemoryTemporalRepository, distinct_temporal, lemma_temporal_put_remove_lookup, temporal_lookup, temporal_put, temporal_remove,
};
use crate::services::entities::{EntityMutation, SwarmOperation};
use crate::text::string_from;

verus! {

/// A snapshot without its embedded history member.
pub open spec fn without_history(doc: JsonV) -> JsonV {
    match doc {
        JsonV::Object(m) => JsonV::Object(object_remove(m, "__swarmHistory"@)),
        _ => doc,
    }
}

/// The recorded instances a snapshot carries in its `__swarmHistory`
/// member: the items of that array, none when it is absent or no array.
pub open spec fn history_items(snapshot: JsonV) -> Seq<JsonV> {
    match snapshot.get("__swarmHistory"@) {
        Some(JsonV::Array(items)) => items,
        _ => Seq::empty(),
    }
}

/// The items of a snapshot's embedded history; each is read as a recorded
/// instance by the caller, and items that do not read as one are dropped.
pub fn swarm_history_items(snapshot: &Json) -> (r: Vec<Json>)
    ensures
        json_views(r@) == history_items(snapshot@),
{
    match snapshot.get_member("__swarmHistory") {
        Some(Json::Array(items)) => {
            proof {
                lemma_array_view(*items);
            }
            let mut r: Vec<Json> = Vec::new();
            let mut i: usize = 0;
            while i < items.len()
                invariant
                    i <= items.len(),
                    json_views(r@) == json_views(items@).take(i as int),
                decreases items.len() - i,
            {
                let ghost before = json_views(r@);
                r.push(clone_json(&items[i]));
                assert(json_views(r@) =~= before.push(items@[i as int]@));
                assert(json_views(items@).take(i + 1) =~= json_views(items@).take(i as int).push(items@[i as int]@));
                i += 1;
            }
            assert(json_views(items@).take(items.len() as int) =~= json_views(items@));
            r
        },
        _ => {
            let r: Vec<Json> = Vec::new();
            assert(json_views(r@) =~= Seq::<JsonV>::empty());
            r
        },
    }
}

/// The mutation is not older than the stored temporal document (always
/// true when none is stored).
pub open spec fn temporal_mutation_applies(s: Seq<TemporalV>, tenant: Seq<char>, m: EntityMutation) -> bool {
    match temporal_lookup(s, tenant, m.entity_id@) {
        Some(d) => version_not_older(d.doc.get("modifiedAt"@), m.version_at@),
        None => true,
    }
}

/// Applying a replicated temporal mutation with the history read from its
/// snapshot: a delete or an upsert with a snapshot takes effect unless the
/// stored document is newer; an upsert stores the snapshot without its
/// history member, with the history.
pub open spec fn apply_temporal_spec(s: Seq<TemporalV>, tenant: Seq<char>, m: EntityMutation, history: Seq<RecordV>) -> Seq<TemporalV> {
    match m.operation {
        SwarmOperation::Delete => if temporal_mutation_applies(s, tenant, m) {
            temporal_remove(s, tenant, m.entity_id@)
        } else {
            s
        },
        SwarmOperation::Upsert => match m.snapshot {
            None => s,
            Some(doc) => if temporal_mutation_applies(s, tenant, m) {
                temporal_put(s, TemporalV { tenant, id: m.entity_id@, doc: without_history(doc@), history })
            } else {
                s
            },
        },
    }
}

/// Applies a replicated temporal mutation locally, given the instances
/// read from its snapshot's history.
pub fn apply_temporal_mutation(
    repository: &mut MemoryTemporalRepository,
    tenant: &str,
    mutation: &EntityMutation,
    history: Vec<TemporalAttributeRecord>,
)
    requires
        old(repository).wf(),
    ensures
        final(repository).wf(),
        final(repository)@ == apply_temporal_spec(old(repository)@, tenant@, *mutation, record_views(history@)),
{
    let applies = match repository.get(tenant, mutation.entity_id.as_str()) {
        Some(existing) => crate::federation::mutation_is_newer(existing.doc.get_member("modifiedAt"), mutation.version_at.as_str()),
        None => true,
    };
    if !applies {
        return;
    }
    match mutation.operation {
        SwarmOperation::Delete => {
            let _ = repository.delete(tenant, mutation.entity_id.as_str());
        },
        SwarmOperation::Upsert => match &mutation.snapshot {
            None => {},
            Some(snapshot) => {
                let doc = match clone_json(snapshot) {
                    Json::Object(mut entries) => {
                        proof {
                            lemma_object_view(entries);
                        }
                        let _ = map_remove(&mut entries, "__swarmHistory");
                        proof {
                            lemma_object_view(entries);
                        }
                        Json::Object(entries)
                    },
                    other => other,
                };
                let _ = repository.upsert(
                    TemporalEntityDocument {
                        tenant: string_from(tenant),
                        ngsi_id: string_from(mutation.entity_id.as_str()),
                        doc,
                        history,
                    },
                );
            },
        },
    }
}

/// A replicated temporal mutation older than the stored document changes
/// nothing.
pub proof fn law_older_temporal_mutation_ignored(s: Seq<TemporalV>, tenant: Seq<char>, m: EntityMutation, history: Seq<RecordV>)
    requires
        !temporal_mutation_applies(s, tenant, m),
    ensures
        apply_temporal_spec(s, tenant, m, history) == s,
{
}

/// An applied replicated temporal upsert reads back as its snapshot
/// without the history member, with the history; an applied delete leaves
/// no document.
pub proof fn law_applied_temporal_mutation_then_read(s: Seq<TemporalV>, tenant: Seq<char>, m: EntityMutation, history: Seq<RecordV>)
    requires
        distinct_temporal(s),
        temporal_mutation_applies(s, tenant, m),
    ensures
        (m.operation == SwarmOperation::Upsert && m.snapshot is Some) ==> temporal_lookup(
            apply_temporal_spec(s, tenant, m, history),
            tenant,
            m.entity_id@,
        ) == Some(TemporalV { tenant, id: m.entity_id@, doc: without_history(m.snapshot->0@), history }),
        m.operation == SwarmOperation::Delete ==> temporal_lookup(apply_temporal_spec(s, tenant, m, history), tenant, m.entity_id@)
            is None,
{
    let d = match m.snapshot {
        Some(doc) => TemporalV { tenant, id: m.entity_id@, doc: without_history(doc@), history },
        None => TemporalV { tenant, id: m.entity_id@, doc: JsonV::Null, history },
    };
    lemma_temporal_put_remove_lookup(s, d, tenant, m.entity_id@);
}

} // verus!
