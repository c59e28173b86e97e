//! Recording local writes in the swarm mutation log, so that the peers
//! of a swarm can pull them.
use vstd::prelude::*;
use crate::domain::{EntityChange, EntityEventKind};
use crate::error::BrokerError;
use crate::federation::{timestamp_nanos, timestamp_to_nanos};
use crate::json::{Json, JsonV, clone_json, entry_views, lemma_object_view};
use crate::persistence::swarm::{
    MemorySwarmMutationRepository, SwarmMutationRecord, SwarmRecordV, log_insert, logged,
};
use crate::query::planner::{signed_decimal, signed_text, str_array, string_array};
use crate::services::entities::{ChangeV, SwarmOperation, change_view};
use crate::text::{chars_of, string_from, string_of, views};

verus! {

/// Kinds of replicated resources.
#[derive(PartialEq, Eq, Structural, Clone, Copy, Debug)]
pub enum SwarmResourceKind {
    Entity,
    TemporalEntity,
}

/// What a local write asks the swarm to replicate.
#[derive(Debug)]
pub struct SwarmMutationInput {
    pub tenant: String,
    pub resource_kind: SwarmResourceKind,
    pub operation: SwarmOperation,
    pub entity_id: String,
    pub version_at: String,
    pub source_peer_id: String,
    pub event_kind: EntityEventKind,
    pub changed_attributes: Vec<String>,
    pub snapshot: Option<Json>,
}

/// The view of a replication request.
pub struct SwarmMutationInputV {
    pub tenant: Seq<char>,
    pub resource_kind: SwarmResourceKind,
    pub operation: SwarmOperation,
    pub entity_id: Seq<char>,
    pub version_at: Seq<char>,
    pub source_peer_id: Seq<char>,
    pub event_kind: EntityEventKind,
    pub changed_attributes: Seq<Seq<char>>,
    pub snapshot: Option<JsonV>,
}

impl View for SwarmMutationInput {
    type V = SwarmMutationInputV;

    open spec fn view(&self) -> SwarmMutationInputV {
        SwarmMutationInputV {
            tenant: self.tenant@,
            resource_kind: self.resource_kind,
            operation: self.operation,
            entity_id: self.entity_id@,
            version_at: self.version_at@,
            source_peer_id: self.source_peer_id@,
            event_kind: self.event_kind,
            changed_attributes: views(self.changed_attributes@),
            snapshot: match self.snapshot {
                Some(d) => Some(d@),
                None => None,
            },
        }
    }
}

/// The wire name of a resource kind.
pub open spec fn resource_kind_text(k: SwarmResourceKind) -> Seq<char> {
    match k {
        SwarmResourceKind::Entity => "entity"@,
        SwarmResourceKind::TemporalEntity => "temporal_entity"@,
    }
}

/// The wire name of an operation.
pub open spec fn operation_text(o: SwarmOperation) -> Seq<char> {
    match o {
        SwarmOperation::Upsert => "upsert"@,
        SwarmOperation::Delete => "delete"@,
    }
}

/// The wire name of an event kind.
pub open spec fn event_kind_text(k: EntityEventKind) -> Seq<char> {
    match k {
        EntityEventKind::Created => "created"@,
        EntityEventKind::Updated => "updated"@,
        EntityEventKind::Deleted => "deleted"@,
    }
}

/// The id of a local mutation: the source peer and a random part.
pub open spec fn local_mutation_id(source_peer_id: Seq<char>, random: Seq<char>) -> Seq<char> {
    "urn:ngsi-ld:SwarmMutation:"@ + source_peer_id + ":"@ + random
}

/// The time of a mutation's version in nanoseconds: that of its version
/// timestamp, or the recording time when the timestamp does not parse.
pub open spec fn version_nanos(version_at: Seq<char>, now_nanos: i64) -> i64 {
    match timestamp_nanos(version_at) {
        Some(n) => n,
        None => now_nanos,
    }
}

/// The swarm mutation document of a replication request, with its id and
/// the time it was recorded.
pub open spec fn swarm_doc(input: SwarmMutationInputV, mutation_id: Seq<char>, now: Seq<char>, now_nanos: i64) -> JsonV {
    JsonV::Object(
        seq![
            ("tenant"@, JsonV::Str(input.tenant)),
            ("mutationId"@, JsonV::Str(mutation_id)),
            ("resourceKind"@, JsonV::Str(resource_kind_text(input.resource_kind))),
            ("operation"@, JsonV::Str(operation_text(input.operation))),
            ("entityId"@, JsonV::Str(input.entity_id)),
            ("versionAt"@, JsonV::Str(input.version_at)),
            ("versionAtNanos"@, JsonV::Number(signed_text(version_nanos(input.version_at, now_nanos) as int))),
            ("recordedAt"@, JsonV::Str(now)),
            ("recordedAtNanos"@, JsonV::Number(signed_text(now_nanos as int))),
            ("sourcePeerId"@, JsonV::Str(input.source_peer_id)),
            ("eventKind"@, JsonV::Str(event_kind_text(input.event_kind))),
            ("changedAttributes"@, str_array(input.changed_attributes)),
            (
                "snapshot"@,
                match input.snapshot {
                    Some(d) => d,
                    None => JsonV::Null,
                },
            ),
        ],
    )
}

/// The log record of a local mutation made with a random id part at a
/// time.
pub open spec fn local_record(input: SwarmMutationInputV, random: Seq<char>, now: Seq<char>, now_nanos: i64) -> SwarmRecordV {
    let id = local_mutation_id(input.source_peer_id, random);
    SwarmRecordV { tenant: input.tenant, mutation_id: id, recorded_at_nanos: now_nanos, doc: swarm_doc(input, id, now, now_nanos) }
}

/// The replication request of a local entity change: a deletion deletes,
/// any other change upserts the written document.
pub open spec fn entity_input(tenant: Seq<char>, source_peer_id: Seq<char>, c: ChangeV) -> SwarmMutationInputV {
    SwarmMutationInputV {
        tenant,
        resource_kind: SwarmResourceKind::Entity,
        operation: if c.kind == EntityEventKind::Deleted {
            SwarmOperation::Delete
        } else {
            SwarmOperation::Upsert
        },
        entity_id: c.entity_id,
        version_at: c.version_at,
        source_peer_id,
        event_kind: c.kind,
        changed_attributes: c.changed,
        snapshot: if c.kind == EntityEventKind::Deleted {
            None
        } else {
            Some(c.document)
        },
    }
}

/// The replication request of a local entity change of a tenant, made by
/// the broker `source_peer_id`.
pub fn entity_swarm_input(tenant: &str, source_peer_id: &str, change: &EntityChange) -> (r: SwarmMutationInput)
    ensures
        r@ == entity_input(tenant@, source_peer_id@, change_view(*change)),
{
    let deleted = match change.event.kind {
        EntityEventKind::Deleted => true,
        _ => false,
    };
    let r = SwarmMutationInput {
        tenant: string_from(tenant),
        resource_kind: SwarmResourceKind::Entity,
        operation: if deleted {
            SwarmOperation::Delete
        } else {
            SwarmOperation::Upsert
        },
        entity_id: change.entity_id.clone(),
        version_at: change.version_at.clone(),
        source_peer_id: string_from(source_peer_id),
        event_kind: change.event.kind,
        changed_attributes: change.event.changed_attributes.clone(),
        snapshot: if deleted {
            None
        } else {
            Some(clone_json(&change.document))
        },
    };
    assert(r@.changed_attributes =~= change_view(*change).changed);
    r
}

/// Appends a member to the entries of an object.
fn push_member(entries: &mut Vec<(String, Json)>, key: &str, value: Json)
    ensures
        entry_views(final(entries)@) == entry_views(old(entries)@).push((key@, value@)),
{
    let ghost before = entries@;
    entries.push((string_from(key), value));
    assert(entry_views(entries@) =~= entry_views(before).push((key@, value@)));
}

/// The text of a string as a JSON string.
fn text_json(s: &String) -> (r: Json)
    ensures
        r@ == JsonV::Str(s@),
{
    Json::Str(s.clone())
}

/// A signed integer as a JSON number.
fn number_json(n: i64) -> (r: Json)
    ensures
        r@ == JsonV::Number(signed_text(n as int)),
{
    Json::Number(string_of(&signed_decimal(n)))
}

/// A literal text as a JSON string.
fn literal_json(s: &str) -> (r: Json)
    ensures
        r@ == JsonV::Str(s@),
{
    Json::Str(string_from(s))
}

/// Builds the swarm mutation document of a request.
fn swarm_document(input: &SwarmMutationInput, mutation_id: &String, now: &str, now_nanos: i64) -> (r: Json)
    ensures
        r@ == swarm_doc(input@, mutation_id@, now@, now_nanos),
{
    let version = match timestamp_to_nanos(input.version_at.as_str()) {
        Some(n) => n,
        None => now_nanos,
    };
    let kind = match input.resource_kind {
        SwarmResourceKind::Entity => "entity",
        SwarmResourceKind::TemporalEntity => "temporal_entity",
    };
    let operation = match input.operation {
        SwarmOperation::Upsert => "upsert",
        SwarmOperation::Delete => "delete",
    };
    let event = match input.event_kind {
        EntityEventKind::Created => "created",
        EntityEventKind::Updated => "updated",
        EntityEventKind::Deleted => "deleted",
    };
    let snapshot = match &input.snapshot {
        Some(d) => clone_json(d),
        None => Json::Null,
    };
    let mut e: Vec<(String, Json)> = Vec::new();
    let ghost e0 = entry_views(e@);
    push_member(&mut e, "tenant", text_json(&input.tenant));
    push_member(&mut e, "mutationId", text_json(mutation_id));
    push_member(&mut e, "resourceKind", literal_json(kind));
    push_member(&mut e, "operation", literal_json(operation));
    push_member(&mut e, "entityId", text_json(&input.entity_id));
    push_member(&mut e, "versionAt", text_json(&input.version_at));
    push_member(&mut e, "versionAtNanos", number_json(version));
    push_member(&mut e, "recordedAt", literal_json(now));
    push_member(&mut e, "recordedAtNanos", number_json(now_nanos));
    push_member(&mut e, "sourcePeerId", text_json(&input.source_peer_id));
    push_member(&mut e, "eventKind", literal_json(event));
    push_member(&mut e, "changedAttributes", string_array(&input.changed_attributes));
    push_member(&mut e, "snapshot", snapshot);
    proof {
        lemma_object_view(e);
        assert(e0 =~= Seq::<(Seq<char>, JsonV)>::empty());
        match swarm_doc(input@, mutation_id@, now@, now_nanos) {
            JsonV::Object(m) => {
                assert(entry_views(e@) =~= m);
            },
            _ => {},
        }
    }
    Json::Object(e)
}

/// Builds the log record of a local mutation made with a random id part
/// at a time.
pub fn local_swarm_record(input: &SwarmMutationInput, random: &str, now: &str, now_nanos: i64) -> (r: SwarmMutationRecord)
    ensures
        r@ == local_record(input@, random@, now@, now_nanos),
{
    let prefix = chars_of("urn:ngsi-ld:SwarmMutation:");
    let peer = chars_of(input.source_peer_id.as_str());
    let colon = chars_of(":");
    let rand = chars_of(random);
    let a = crate::text::join_chars(&prefix, &peer);
    let b = crate::text::join_chars(&a, &colon);
    let c = crate::text::join_chars(&b, &rand);
    let mutation_id = string_of(&c);
    assert(mutation_id@ == local_mutation_id(input@.source_peer_id, random@));
    let doc = swarm_document(input, &mutation_id, now, now_nanos);
    SwarmMutationRecord { tenant: input.tenant.clone(), mutation_id, recorded_at_nanos: now_nanos, doc }
}

/// Records a local mutation made with a random id part at a time in the
/// log, and returns its document; a mutation id already logged is refused
/// and the log kept.
pub fn record_local_swarm_mutation_at(
    log: &mut MemorySwarmMutationRepository,
    input: &SwarmMutationInput,
    random: &str,
    now: &str,
    now_nanos: i64,
) -> (r: Result<Json, BrokerError>)
    requires
        old(log).wf(),
    ensures
        final(log).wf(),
        ({
            let rec = local_record(input@, random@, now@, now_nanos);
            match r {
                Ok(d) => d@ == rec.doc && !logged(old(log)@, rec.tenant, rec.mutation_id) && final(log)@
                    == log_insert(old(log)@, rec),
                Err(e) => e is Internal && logged(old(log)@, rec.tenant, rec.mutation_id) && final(log)@
                    == old(log)@,
            }
        }),
{
    let record = local_swarm_record(input, random, now, now_nanos);
    let doc = clone_json(&record.doc);
    match log.insert(record) {
        Ok(()) => Ok(doc),
        Err(e) => Err(e),
    }
}

/// Records a local mutation in the log now, with a fresh random id part,
/// and returns its document.
pub fn record_local_swarm_mutation(log: &mut MemorySwarmMutationRepository, input: &SwarmMutationInput) -> (r: Result<Json, BrokerError>)
    requires
        old(log).wf(),
    ensures
        final(log).wf(),
        exists|random: Seq<char>, now: Seq<char>, now_nanos: i64| {
            let rec = #[trigger] local_record(input@, random, now, now_nanos);
            match r {
                Ok(d) => d@ == rec.doc && !logged(old(log)@, rec.tenant, rec.mutation_id) && final(log)@
                    == log_insert(old(log)@, rec),
                Err(e) => e is Internal && logged(old(log)@, rec.tenant, rec.mutation_id) && final(log)@
                    == old(log)@,
            }
        },
{
    let now = crate::time::now_timestamp();
    let random = crate::services::common::new_uuid();
    let now_nanos = match timestamp_to_nanos(now.as_str()) {
        Some(n) => n,
        None => 0,
    };
    let r = record_local_swarm_mutation_at(log, input, random.as_str(), now.as_str(), now_nanos);
    assert({
        let rec = local_record(input@, random@, now@, now_nanos);
        match r {
            Ok(d) => d@ == rec.doc && !logged(old(log)@, rec.tenant, rec.mutation_id) && log@ == log_insert(
                old(log)@,
                rec,
            ),
            Err(e) => e is Internal && logged(old(log)@, rec.tenant, rec.mutation_id) && log@ == old(log)@,
        }
    });
    r
}

} // verus!
