//! Entity operations on an entity store: create, delete, merge, replace,
//! attribute appends and updates, and the batch operations. Each returns
//! its outcome and the entity changes that the caller notifies and
//! replicates.
use vstd::prelude::*;
use crate::domain::{
    BatchEntityError, BatchOperationResult, BatchUpsertOutcome, EntityChange, EntityEvent,
    EntityEventKind, NotUpdatedDetails, UpdateResult, batch_error, batch_error_for, batch_error_of,
    not_updated, not_updated_of,
};
use crate::error::{BrokerError, error_message, error_status};
use crate::headers::RequestContext;
use crate::json::{
    Json, JsonV, apply_merge_patch, attribute_names, clone_json, editable_fragment_members,
    entity_attribute_names, entry_views, fragment_members, lemma_object_view, map_insert,
    member_index, member_position, merge_patched, object_insert, lemma_object_insert_get,
};
use crate::query::planner::opt_text;
use crate::services::common::{
    create_preparation, ensure_fragment_id_matches, ensure_requested_type, id_outcome,
    prepare_entity_for_create_at, prepare_entity_for_replace_at, replace_preparation, type_matches,
    unit_outcome, entity_problem, validate_entity,
};
use crate::store::{
    MemoryEntityRepository, StoredDocument, StoredV, distinct_keys, lemma_put_lookup, lemma_put_other,
    lemma_remove_lookup, lemma_remove_other, lookup, store_put, store_remove,
};
use crate::federation::{mutation_is_newer, version_not_older};
use crate::text::{chars_of, string_from, text_around};

verus! {

/// The view of a broker error: its status and message.
pub open spec fn err_view(e: BrokerError) -> (u16, Seq<char>) {
    (error_status(e), error_message(e))
}

/// The view of an entity change.
pub struct ChangeV {
    pub kind: EntityEventKind,
    pub changed: Seq<Seq<char>>,
    pub entity_id: Seq<char>,
    pub document: JsonV,
    pub version_at: Seq<char>,
    pub notify: bool,
}

/// The view of an entity change.
pub open spec fn change_view(c: EntityChange) -> ChangeV {
    ChangeV {
        kind: c.event.kind,
        changed: crate::text::views(c.event.changed_attributes@),
        entity_id: c.entity_id@,
        document: c.document@,
        version_at: c.version_at@,
        notify: c.notify,
    }
}

/// The views of entity changes.
pub open spec fn change_views(cs: Seq<EntityChange>) -> Seq<ChangeV> {
    cs.map_values(|c: EntityChange| change_view(c))
}

/// The modification stamp of a document (empty when it has none).
pub open spec fn modified_text(doc: JsonV) -> Seq<char> {
    match doc.get_str("modifiedAt"@) {
        Some(s) => s,
        None => Seq::empty(),
    }
}

/// The change that a document's write makes, stamped by the document.
pub open spec fn write_change(kind: EntityEventKind, changed: Seq<Seq<char>>, id: Seq<char>, doc: JsonV, notify: bool) -> ChangeV {
    ChangeV { kind, changed, entity_id: id, document: doc, version_at: modified_text(doc), notify }
}

/// The message of an absent entity.
pub open spec fn not_found_message(id: Seq<char>) -> Seq<char> {
    "entity "@ + id + " was not found"@
}

/// The message of a type selector that the stored entity does not have.
pub open spec fn type_mismatch_message(t: Seq<char>) -> Seq<char> {
    "entity type "@ + t + " does not match the stored entity"@
}

/// A stored document found for a key, checked against a type selector.
pub open spec fn found_document(
    s: Seq<StoredV>,
    tenant: Seq<char>,
    id: Seq<char>,
    requested_type: Option<Seq<char>>,
) -> Result<JsonV, (u16, Seq<char>)> {
    match lookup(s, tenant, id) {
        None => Err((404, not_found_message(id))),
        Some(doc) => match requested_type {
            Some(t) => if type_matches(doc.get("type"@), t) {
                Ok(doc)
            } else {
                Err((404, type_mismatch_message(t)))
            },
            None => Ok(doc),
        },
    }
}

/// The fragment's id, when it has one, is the entity id.
pub open spec fn fragment_id_ok(fragment: JsonV, id: Seq<char>) -> bool {
    match fragment.get_str("id"@) {
        Some(x) => x == id,
        None => true,
    }
}

/// Builds the error of an absent entity.
fn not_found(entity_id: &str) -> (r: BrokerError)
    ensures
        err_view(r) == (404u16, not_found_message(entity_id@)),
{
    let id = chars_of(entity_id);
    BrokerError::NotFound(text_around("entity ", &id, " was not found"))
}

/// Retrieves the stored document of a key, checked against a type
/// selector.
fn find_checked(store: &MemoryEntityRepository, tenant: &str, entity_id: &str, requested_type: Option<&str>) -> (r: Result<Json, BrokerError>)
    ensures
        match r {
            Ok(d) => found_document(store@, tenant@, entity_id@, crate::query::planner::opt_str(requested_type))
                == Ok::<JsonV, (u16, Seq<char>)>(d@),
            Err(e) => found_document(store@, tenant@, entity_id@, crate::query::planner::opt_str(requested_type))
                == Err::<JsonV, (u16, Seq<char>)>(err_view(e)),
        },
{
    match store.get(tenant, entity_id) {
        None => Err(not_found(entity_id)),
        Some(d) => {
            match ensure_requested_type(&d.doc, requested_type) {
                Ok(()) => Ok(clone_json(&d.doc)),
                Err(e) => Err(e),
            }
        },
    }
}

/// Writes a document under the context's tenant.
fn put_document(store: &mut MemoryEntityRepository, tenant: &String, entity_id: &str, doc: Json)
    requires
        old(store).wf(),
    ensures
        final(store).wf(),
        final(store)@ == store_put(old(store)@, tenant@, entity_id@, doc@),
{
    store.replace(StoredDocument { tenant: tenant.clone(), ngsi_id: string_from(entity_id), doc });
}

/// Builds an entity change.
fn make_change(kind: EntityEventKind, changed: Vec<String>, entity_id: &str, document: Json, version_at: String, notify: bool) -> (r: EntityChange)
    ensures
        change_view(r) == (ChangeV {
            kind,
            changed: crate::text::views(changed@),
            entity_id: entity_id@,
            document: document@,
            version_at: version_at@,
            notify,
        }),
{
    EntityChange {
        event: EntityEvent { kind, changed_attributes: changed },
        entity_id: string_from(entity_id),
        document,
        version_at,
        notify,
    }
}

/// The modification stamp of a document.
fn modified_of(doc: &Json) -> (r: String)
    ensures
        r@ == modified_text(doc@),
{
    match doc.get_str("modifiedAt") {
        Some(s) => s.clone(),
        None => String::new(),
    }
}

/// The change a document's write makes.
fn write_change_of(kind: EntityEventKind, changed: Vec<String>, entity_id: &str, doc: &Json, notify: bool) -> (r: EntityChange)
    ensures
        change_view(r) == write_change(kind, crate::text::views(changed@), entity_id@, doc@, notify),
{
    let version = modified_of(doc);
    make_change(kind, changed, entity_id, clone_json(doc), version, notify)
}

/// Creating an entity at `now`: the store afterwards, the id or the error,
/// and the changes.
pub open spec fn create_spec(s: Seq<StoredV>, tenant: Seq<char>, link: Option<Seq<char>>, now: Seq<char>, entity: JsonV) -> (
    Seq<StoredV>,
    Result<Seq<char>, (u16, Seq<char>)>,
    Seq<ChangeV>,
) {
    let (doc, prep) = create_preparation(entity, link, now);
    match prep {
        Err(m) => (s, Err((400u16, m)), Seq::empty()),
        Ok(id) => if lookup(s, tenant, id) is Some {
            (s, Err((409u16, "entity "@ + id + " already exists"@)), Seq::empty())
        } else {
            (
                store_put(s, tenant, id, doc),
                Ok(id),
                seq![write_change(EntityEventKind::Created, attribute_names(doc), id, doc, true)],
            )
        },
    }
}

/// Creates a new entity at a given time.
pub fn create(store: &mut MemoryEntityRepository, context: &RequestContext, entity: Json, now: &str) -> (r: (
    Result<String, BrokerError>,
    Vec<EntityChange>,
))
    requires
        old(store).wf(),
    ensures
        final(store).wf(),
        create_spec(old(store)@, context.tenant@, opt_text(context.link_header), now@, entity@) == (
            final(store)@,
            match r.0 {
                Ok(id) => Ok(id@),
                Err(e) => Err(err_view(e)),
            },
            change_views(r.1@),
        ),
{
    let mut changes: Vec<EntityChange> = Vec::new();
    let mut doc = entity;
    let id = match prepare_entity_for_create_at(&mut doc, context, now) {
        Ok(id) => id,
        Err(e) => {
            assert(change_views(changes@) =~= Seq::<ChangeV>::empty());
            return (Err(e), changes);
        },
    };
    if store.get(context.tenant.as_str(), id.as_str()).is_some() {
        let idc = chars_of(id.as_str());
        assert(change_views(changes@) =~= Seq::<ChangeV>::empty());
        return (Err(BrokerError::Conflict(text_around("entity ", &idc, " already exists"))), changes);
    }
    let change = write_change_of(EntityEventKind::Created, entity_attribute_names(&doc), id.as_str(), &doc, true);
    put_document(store, &context.tenant, id.as_str(), doc);
    let ghost cv = change_view(change);
    changes.push(change);
    assert(change_views(changes@) =~= seq![cv]);
    (Ok(id), changes)
}

/// Deleting an entity: the store afterwards, nothing or the error, and
/// the changes.
pub open spec fn delete_spec(s: Seq<StoredV>, tenant: Seq<char>, id: Seq<char>, requested_type: Option<Seq<char>>) -> (
    Seq<StoredV>,
    Result<(), (u16, Seq<char>)>,
    Seq<ChangeV>,
) {
    match found_document(s, tenant, id, requested_type) {
        Err(e) => (s, Err(e), Seq::empty()),
        Ok(doc) => (
            store_remove(s, tenant, id),
            Ok(()),
            seq![write_change(EntityEventKind::Deleted, attribute_names(doc), id, doc, true)],
        ),
    }
}

/// The view of a unit outcome.
pub open spec fn unit_view(r: Result<(), BrokerError>) -> Result<(), (u16, Seq<char>)> {
    match r {
        Ok(()) => Ok(()),
        Err(e) => Err(err_view(e)),
    }
}

/// Deletes an entity.
pub fn delete(store: &mut MemoryEntityRepository, context: &RequestContext, entity_id: &str, requested_type: Option<&str>) -> (r: (
    Result<(), BrokerError>,
    Vec<EntityChange>,
))
    requires
        old(store).wf(),
    ensures
        final(store).wf(),
        delete_spec(old(store)@, context.tenant@, entity_id@, crate::query::planner::opt_str(requested_type)) == (
            final(store)@,
            unit_view(r.0),
            change_views(r.1@),
        ),
{
    let mut changes: Vec<EntityChange> = Vec::new();
    let doc = match find_checked(store, context.tenant.as_str(), entity_id, requested_type) {
        Ok(d) => d,
        Err(e) => {
            assert(change_views(changes@) =~= Seq::<ChangeV>::empty());
            return (Err(e), changes);
        },
    };
    let _ = store.delete(context.tenant.as_str(), entity_id);
    let change = write_change_of(EntityEventKind::Deleted, entity_attribute_names(&doc), entity_id, &doc, true);
    let ghost cv = change_view(change);
    changes.push(change);
    assert(change_views(changes@) =~= seq![cv]);
    (Ok(()), changes)
}

/// A merged document: the merge patch applied, then (for an object) the
/// entity id and the modification time set.
pub open spec fn merged_document(doc: JsonV, patch: JsonV, id: Seq<char>, now: Seq<char>) -> JsonV {
    match merge_patched(doc, patch) {
        JsonV::Object(m) => JsonV::Object(
            object_insert(object_insert(m, "id"@, JsonV::Str(id)), "modifiedAt"@, JsonV::Str(now)),
        ),
        other => other,
    }
}

/// Merging a patch into an entity at `now`.
pub open spec fn merge_spec(
    s: Seq<StoredV>,
    tenant: Seq<char>,
    id: Seq<char>,
    requested_type: Option<Seq<char>>,
    patch: JsonV,
    now: Seq<char>,
) -> (Seq<StoredV>, Result<(), (u16, Seq<char>)>, Seq<ChangeV>) {
    if !fragment_id_ok(patch, id) {
        (s, Err((400u16, "payload id must match the entity id in the path"@)), Seq::empty())
    } else {
        match found_document(s, tenant, id, requested_type) {
            Err(e) => (s, Err(e), Seq::empty()),
            Ok(doc) => {
                let merged = merged_document(doc, patch, id, now);
                (
                    store_put(s, tenant, id, merged),
                    Ok(()),
                    seq![write_change(EntityEventKind::Updated, attribute_names(patch), id, merged, true)],
                )
            },
        }
    }
}

/// Sets member `key` of an object held in a `Json` to a string; other
/// values stay.
fn set_member_text(doc: &mut Json, key: &str, value: &str)
    ensures
        final(doc)@ == match old(doc)@ {
            JsonV::Object(m) => JsonV::Object(object_insert(m, key@, JsonV::Str(value@))),
            other => other,
        },
{
    let mut taken = Json::Null;
    std::mem::swap(&mut taken, doc);
    match taken {
        Json::Object(mut entries) => {
            proof {
                lemma_object_view(entries);
            }
            map_insert(&mut entries, string_from(key), Json::Str(string_from(value)));
            proof {
                lemma_object_view(entries);
            }
            *doc = Json::Object(entries);
        },
        other => {
            *doc = other;
        },
    }
}

/// Merges a patch into an entity at a given time.
pub fn merge(
    store: &mut MemoryEntityRepository,
    context: &RequestContext,
    entity_id: &str,
    requested_type: Option<&str>,
    patch: &Json,
    now: &str,
) -> (r: (Result<(), BrokerError>, Vec<EntityChange>))
    requires
        old(store).wf(),
    ensures
        final(store).wf(),
        merge_spec(old(store)@, context.tenant@, entity_id@, crate::query::planner::opt_str(requested_type), patch@, now@) == (
            final(store)@,
            unit_view(r.0),
            change_views(r.1@),
        ),
{
    let mut changes: Vec<EntityChange> = Vec::new();
    match ensure_fragment_id_matches(patch, entity_id) {
        Ok(()) => {},
        Err(e) => {
            assert(change_views(changes@) =~= Seq::<ChangeV>::empty());
            return (Err(e), changes);
        },
    }
    let mut doc = match find_checked(store, context.tenant.as_str(), entity_id, requested_type) {
        Ok(d) => d,
        Err(e) => {
            assert(change_views(changes@) =~= Seq::<ChangeV>::empty());
            return (Err(e), changes);
        },
    };
    apply_merge_patch(&mut doc, patch);
    set_member_text(&mut doc, "id", entity_id);
    set_member_text(&mut doc, "modifiedAt", now);
    let change = write_change_of(EntityEventKind::Updated, entity_attribute_names(patch), entity_id, &doc, true);
    put_document(store, &context.tenant, entity_id, doc);
    let ghost cv = change_view(change);
    changes.push(change);
    assert(change_views(changes@) =~= seq![cv]);
    (Ok(()), changes)
}

/// Replacing an entity at `now`.
pub open spec fn replace_spec(
    s: Seq<StoredV>,
    tenant: Seq<char>,
    id: Seq<char>,
    requested_type: Option<Seq<char>>,
    link: Option<Seq<char>>,
    entity: JsonV,
    now: Seq<char>,
) -> (Seq<StoredV>, Result<(), (u16, Seq<char>)>, Seq<ChangeV>) {
    match found_document(s, tenant, id, requested_type) {
        Err(e) => (s, Err(e), Seq::empty()),
        Ok(existing) => {
            let (doc, prep) = replace_preparation(entity, id, link, existing.get("createdAt"@), now);
            match prep {
                Err(m) => (s, Err((400u16, m)), Seq::empty()),
                Ok(()) => (
                    store_put(s, tenant, id, doc),
                    Ok(()),
                    seq![write_change(EntityEventKind::Updated, attribute_names(doc), id, doc, true)],
                ),
            }
        },
    }
}

/// Replaces an entire entity at a given time, keeping its creation time.
pub fn replace(
    store: &mut MemoryEntityRepository,
    context: &RequestContext,
    entity_id: &str,
    requested_type: Option<&str>,
    entity: Json,
    now: &str,
) -> (r: (Result<(), BrokerError>, Vec<EntityChange>))
    requires
        old(store).wf(),
    ensures
        final(store).wf(),
        replace_spec(
            old(store)@,
            context.tenant@,
            entity_id@,
            crate::query::planner::opt_str(requested_type),
            opt_text(context.link_header),
            entity@,
            now@,
        ) == (final(store)@, unit_view(r.0), change_views(r.1@)),
{
    let mut changes: Vec<EntityChange> = Vec::new();
    let existing = match find_checked(store, context.tenant.as_str(), entity_id, requested_type) {
        Ok(d) => d,
        Err(e) => {
            assert(change_views(changes@) =~= Seq::<ChangeV>::empty());
            return (Err(e), changes);
        },
    };
    let mut doc = entity;
    match prepare_entity_for_replace_at(&mut doc, entity_id, context, existing.get_member("createdAt"), now) {
        Ok(()) => {},
        Err(e) => {
            assert(change_views(changes@) =~= Seq::<ChangeV>::empty());
            return (Err(e), changes);
        },
    }
    let change = write_change_of(EntityEventKind::Updated, entity_attribute_names(&doc), entity_id, &doc, true);
    put_document(store, &context.tenant, entity_id, doc);
    let ghost cv = change_view(change);
    changes.push(change);
    assert(change_views(changes@) =~= seq![cv]);
    (Ok(()), changes)
}

/// An attribute that an update left unchanged, as a view.
pub struct NotUpdatedV {
    pub name: Seq<char>,
    pub status: u16,
    pub detail: Seq<char>,
}

/// The attribute members after setting the fragment's members in turn:
/// when `updating`, only members that exist are set (others are reported
/// absent); otherwise all are set, except existing ones under
/// `no_overwrite` (reported as conflicts).
pub open spec fn attr_fold(
    m: Seq<(Seq<char>, JsonV)>,
    attrs: Seq<(Seq<char>, JsonV)>,
    updating: bool,
    no_overwrite: bool,
) -> (Seq<(Seq<char>, JsonV)>, Seq<Seq<char>>, Seq<NotUpdatedV>)
    decreases attrs.len(),
{
    if attrs.len() == 0 {
        (m, Seq::empty(), Seq::empty())
    } else {
        let (acc, up, nu) = attr_fold(m, attrs.drop_last(), updating, no_overwrite);
        let k = attrs.last().0;
        let v = attrs.last().1;
        let present = member_index(acc, k) is Some;
        if updating {
            if present {
                (object_insert(acc, k, v), up.push(k), nu)
            } else {
                (acc, up, nu.push(NotUpdatedV { name: k, status: 404, detail: "attribute "@ + k + " does not exist"@ }))
            }
        } else {
            if no_overwrite && present {
                (acc, up, nu.push(NotUpdatedV { name: k, status: 409, detail: "attribute "@ + k + " already exists"@ }))
            } else {
                (object_insert(acc, k, v), up.push(k), nu)
            }
        }
    }
}

/// The value that a list of attribute assignments gives a name last, if
/// it names it at all.
pub open spec fn last_assigned(attrs: Seq<(Seq<char>, JsonV)>, k: Seq<char>) -> Option<JsonV>
    decreases attrs.len(),
{
    if attrs.len() == 0 {
        None
    } else if attrs.last().0 == k {
        Some(attrs.last().1)
    } else {
        last_assigned(attrs.drop_last(), k)
    }
}

/// Appending without noOverwrite sets every attribute: each name reads
/// back with the last value assigned to it, names not assigned keep their
/// values, every assignment is reported updated in order, and none is
/// reported not updated.
pub proof fn law_attr_fold_append(m: Seq<(Seq<char>, JsonV)>, attrs: Seq<(Seq<char>, JsonV)>)
    ensures
        attr_fold(m, attrs, false, false).2.len() == 0,
        attr_fold(m, attrs, false, false).1 == attrs.map_values(|a: (Seq<char>, JsonV)| a.0),
        forall|k: Seq<char>|
            #[trigger] JsonV::Object(attr_fold(m, attrs, false, false).0).get(k) == match last_assigned(attrs, k) {
                Some(v) => Some(v),
                None => JsonV::Object(m).get(k),
            },
    decreases attrs.len(),
{
    if attrs.len() > 0 {
        let rest = attrs.drop_last();
        law_attr_fold_append(m, rest);
        let (acc, up, nu) = attr_fold(m, rest, false, false);
        let k0 = attrs.last().0;
        let v0 = attrs.last().1;
        assert(attrs.map_values(|a: (Seq<char>, JsonV)| a.0) =~= rest.map_values(|a: (Seq<char>, JsonV)| a.0).push(k0));
        assert forall|k: Seq<char>|
            #[trigger] JsonV::Object(attr_fold(m, attrs, false, false).0).get(k) == match last_assigned(attrs, k) {
                Some(v) => Some(v),
                None => JsonV::Object(m).get(k),
            } by {
            lemma_object_insert_get(acc, k0, v0, k);
            assert(JsonV::Object(acc).get(k) == match last_assigned(rest, k) {
                Some(v) => Some(v),
                None => JsonV::Object(m).get(k),
            });
        }
    }
}

/// Updating sets only attributes the entity has: each such name reads
/// back with the last value assigned to it, a name the entity lacks is
/// not added, and names not assigned keep their values.
pub proof fn law_attr_fold_update(m: Seq<(Seq<char>, JsonV)>, attrs: Seq<(Seq<char>, JsonV)>, no_overwrite: bool)
    ensures
        forall|k: Seq<char>|
            #[trigger] JsonV::Object(attr_fold(m, attrs, true, no_overwrite).0).get(k) == if JsonV::Object(m).get(k) is Some {
                match last_assigned(attrs, k) {
                    Some(v) => Some(v),
                    None => JsonV::Object(m).get(k),
                }
            } else {
                None
            },
    decreases attrs.len(),
{
    if attrs.len() > 0 {
        let rest = attrs.drop_last();
        law_attr_fold_update(m, rest, no_overwrite);
        let (acc, up, nu) = attr_fold(m, rest, true, no_overwrite);
        let k0 = attrs.last().0;
        let v0 = attrs.last().1;
        assert forall|k: Seq<char>|
            #[trigger] JsonV::Object(attr_fold(m, attrs, true, no_overwrite).0).get(k) == if JsonV::Object(m).get(k) is Some {
                match last_assigned(attrs, k) {
                    Some(v) => Some(v),
                    None => JsonV::Object(m).get(k),
                }
            } else {
                None
            } by {
            lemma_object_insert_get(acc, k0, v0, k);
            assert(JsonV::Object(acc).get(k0) is Some <==> JsonV::Object(m).get(k0) is Some);
        }
    }
}

/// With noOverwrite, appending never changes an attribute the entity
/// already has.
pub proof fn law_attr_fold_no_overwrite(m: Seq<(Seq<char>, JsonV)>, attrs: Seq<(Seq<char>, JsonV)>)
    ensures
        forall|k: Seq<char>|
            (#[trigger] JsonV::Object(m).get(k)) is Some ==> JsonV::Object(attr_fold(m, attrs, false, true).0).get(k)
                == JsonV::Object(m).get(k),
    decreases attrs.len(),
{
    if attrs.len() > 0 {
        let rest = attrs.drop_last();
        law_attr_fold_no_overwrite(m, rest);
        let (acc, up, nu) = attr_fold(m, rest, false, true);
        let k0 = attrs.last().0;
        let v0 = attrs.last().1;
        assert forall|k: Seq<char>| (#[trigger] JsonV::Object(m).get(k)) is Some implies JsonV::Object(
            attr_fold(m, attrs, false, true).0,
        ).get(k) == JsonV::Object(m).get(k) by {
            assert(JsonV::Object(acc).get(k) == JsonV::Object(m).get(k));
            lemma_object_insert_get(acc, k0, v0, k);
        }
    }
}

/// Appending attributes without noOverwrite to a stored entity sets every
/// attribute of the fragment: afterwards each reads back from the store
/// with the last value the fragment gives it, every fragment attribute is
/// reported updated and none not updated, and the attributes the fragment
/// does not name (other than `modifiedAt`) keep their values.
pub proof fn law_append_sets_every_attribute(
    s: Seq<StoredV>,
    tenant: Seq<char>,
    id: Seq<char>,
    requested_type: Option<Seq<char>>,
    fragment: JsonV,
    now: Seq<char>,
)
    requires
        distinct_keys(s),
    ensures
        ({
            let (s2, out, _c) = attrs_spec(s, tenant, id, requested_type, fragment, false, false, now);
            let attrs = fragment_members(fragment);
            out is Ok ==> match found_document(s, tenant, id, requested_type) {
                Ok(JsonV::Object(m)) => {
                    &&& out matches Ok((up, nu)) && nu.len() == 0 && up == attrs.map_values(|a: (Seq<char>, JsonV)| a.0)
                    &&& lookup(s2, tenant, id) matches Some(d) && forall|k: Seq<char>|
                        k != "modifiedAt"@ ==> #[trigger] d.get(k) == match last_assigned(attrs, k) {
                            Some(v) => Some(v),
                            None => JsonV::Object(m).get(k),
                        }
                },
                _ => true,
            }
        }),
{
    let attrs = fragment_members(fragment);
    match found_document(s, tenant, id, requested_type) {
        Ok(JsonV::Object(m)) => {
            law_attr_fold_append(m, attrs);
            let (acc, up, nu) = attr_fold(m, attrs, false, false);
            let newdoc = JsonV::Object(object_insert(acc, "modifiedAt"@, JsonV::Str(now)));
            lemma_put_lookup(s, tenant, id, newdoc);
            assert forall|k: Seq<char>| k != "modifiedAt"@ implies #[trigger] newdoc.get(k) == match last_assigned(attrs, k) {
                Some(v) => Some(v),
                None => JsonV::Object(m).get(k),
            } by {
                lemma_object_insert_get(acc, "modifiedAt"@, JsonV::Str(now), k);
            }
        },
        _ => {},
    }
}

/// Appending (or, when `updating`, updating) attributes of an entity at
/// `now`.
pub open spec fn attrs_spec(
    s: Seq<StoredV>,
    tenant: Seq<char>,
    id: Seq<char>,
    requested_type: Option<Seq<char>>,
    fragment: JsonV,
    updating: bool,
    no_overwrite: bool,
    now: Seq<char>,
) -> (Seq<StoredV>, Result<(Seq<Seq<char>>, Seq<NotUpdatedV>), (u16, Seq<char>)>, Seq<ChangeV>) {
    if !fragment_id_ok(fragment, id) {
        (s, Err((400u16, "payload id must match the entity id in the path"@)), Seq::empty())
    } else {
        match found_document(s, tenant, id, requested_type) {
            Err(e) => (s, Err(e), Seq::empty()),
            Ok(doc) => match doc {
                JsonV::Object(m) => {
                    let (acc, up, nu) = attr_fold(m, fragment_members(fragment), updating, no_overwrite);
                    let newdoc = JsonV::Object(object_insert(acc, "modifiedAt"@, JsonV::Str(now)));
                    (
                        store_put(s, tenant, id, newdoc),
                        Ok((up, nu)),
                        if up.len() > 0 {
                            seq![write_change(EntityEventKind::Updated, up, id, newdoc, true)]
                        } else {
                            Seq::empty()
                        },
                    )
                },
                _ => (store_put(s, tenant, id, doc), Ok((Seq::empty(), Seq::empty())), Seq::empty()),
            },
        }
    }
}

/// The report holds the updated names and the unchanged attributes.
pub open spec fn update_report(r: UpdateResult, up: Seq<Seq<char>>, nu: Seq<NotUpdatedV>) -> bool {
    &&& crate::text::views(r.updated@) == up
    &&& r.not_updated@.len() == nu.len()
    &&& forall|i: int|
        0 <= i < nu.len() ==> not_updated_of(#[trigger] r.not_updated@[i], nu[i].name, nu[i].status, nu[i].detail)
}

/// The outcome of an attribute operation as views.
pub open spec fn attrs_outcome(r: Result<UpdateResult, BrokerError>, out: Result<(Seq<Seq<char>>, Seq<NotUpdatedV>), (u16, Seq<char>)>) -> bool {
    match r {
        Ok(u) => out matches Ok(x) && update_report(u, x.0, x.1),
        Err(e) => out == Err::<(Seq<Seq<char>>, Seq<NotUpdatedV>), (u16, Seq<char>)>(err_view(e)),
    }
}

/// Sets the fragment's attributes on an entity's members.
fn fold_attributes(
    entries: &mut Vec<(String, Json)>,
    attrs: &Vec<(String, Json)>,
    updating: bool,
    no_overwrite: bool,
) -> (r: UpdateResult)
    ensures
        ({
            let (acc, up, nu) = attr_fold(entry_views(old(entries)@), entry_views(attrs@), updating, no_overwrite);
            entry_views(final(entries)@) == acc && update_report(r, up, nu)
        }),
{
    let ghost m0 = entry_views(entries@);
    let ghost av = entry_views(attrs@);
    let mut result = UpdateResult::new();
    let mut i: usize = 0;
    assert(crate::text::views(result.updated@) =~= Seq::<Seq<char>>::empty());
    while i < attrs.len()
        invariant
            i <= attrs.len(),
            av == entry_views(attrs@),
            ({
                let (acc, up, nu) = attr_fold(m0, av.take(i as int), updating, no_overwrite);
                entry_views(entries@) == acc && update_report(result, up, nu)
            }),
        decreases attrs.len() - i,
    {
        let ghost prev = attr_fold(m0, av.take(i as int), updating, no_overwrite);
        assert(av.take(i + 1).drop_last() =~= av.take(i as int));
        assert(av.take(i + 1).last() == av[i as int]);
        assert(av[i as int] == (attrs@[i as int].0@, attrs@[i as int].1@));
        let key = &attrs[i].0;
        let present = member_position(entries, key.as_str()).is_some();
        let kc = chars_of(key.as_str());
        if (updating && present) || (!updating && !(no_overwrite && present)) {
            map_insert(entries, key.clone(), clone_json(&attrs[i].1));
            let ghost before = crate::text::views(result.updated@);
            result.updated.push(key.clone());
            assert(crate::text::views(result.updated@) =~= before.push(key@));
        } else {
            let detail = if updating {
                text_around("attribute ", &kc, " does not exist")
            } else {
                text_around("attribute ", &kc, " already exists")
            };
            let status: u16 = if updating { 404 } else { 409 };
            let n = not_updated(key.as_str(), status, detail);
            result.not_updated.push(n);
        }
        i += 1;
    }
    assert(av.take(attrs.len() as int) =~= av);
    result
}

/// Appends or updates attributes of an entity at a given time.
fn change_attributes(
    store: &mut MemoryEntityRepository,
    context: &RequestContext,
    entity_id: &str,
    requested_type: Option<&str>,
    fragment: &Json,
    updating: bool,
    no_overwrite: bool,
    now: &str,
) -> (r: (Result<UpdateResult, BrokerError>, Vec<EntityChange>))
    requires
        old(store).wf(),
    ensures
        final(store).wf(),
        ({
            let (st, out, cs) = attrs_spec(
                old(store)@,
                context.tenant@,
                entity_id@,
                crate::query::planner::opt_str(requested_type),
                fragment@,
                updating,
                no_overwrite,
                now@,
            );
            st == final(store)@ && attrs_outcome(r.0, out) && cs == change_views(r.1@)
        }),
{
    let mut changes: Vec<EntityChange> = Vec::new();
    assert(change_views(changes@) =~= Seq::<ChangeV>::empty());
    match ensure_fragment_id_matches(fragment, entity_id) {
        Ok(()) => {},
        Err(e) => {
            return (Err(e), changes);
        },
    }
    let existing = match find_checked(store, context.tenant.as_str(), entity_id, requested_type) {
        Ok(d) => d,
        Err(e) => {
            return (Err(e), changes);
        },
    };
    let attrs = editable_fragment_members(fragment);
    match existing {
        Json::Object(mut entries) => {
            proof {
                lemma_object_view(entries);
            }
            let result = fold_attributes(&mut entries, &attrs, updating, no_overwrite);
            map_insert(&mut entries, string_from("modifiedAt"), Json::Str(string_from(now)));
            proof {
                lemma_object_view(entries);
            }
            let doc = Json::Object(entries);
            if result.updated.len() > 0 {
                let mut names: Vec<String> = Vec::new();
                let mut k: usize = 0;
                while k < result.updated.len()
                    invariant
                        k <= result.updated.len(),
                        crate::text::views(names@) == crate::text::views(result.updated@).take(k as int),
                    decreases result.updated.len() - k,
                {
                    let ghost before = crate::text::views(names@);
                    names.push(result.updated[k].clone());
                    assert(crate::text::views(names@) =~= before.push(result.updated@[k as int]@));
                    assert(crate::text::views(result.updated@).take(k + 1) =~= crate::text::views(
                        result.updated@,
                    ).take(k as int).push(result.updated@[k as int]@));
                    k += 1;
                }
                assert(crate::text::views(result.updated@).take(result.updated.len() as int)
                    =~= crate::text::views(result.updated@));
                let change = write_change_of(EntityEventKind::Updated, names, entity_id, &doc, true);
                let ghost cv = change_view(change);
                changes.push(change);
                assert(change_views(changes@) =~= seq![cv]);
            }
            put_document(store, &context.tenant, entity_id, doc);
            (Ok(result), changes)
        },
        other => {
            let result = UpdateResult::new();
            assert(crate::text::views(result.updated@) =~= Seq::<Seq<char>>::empty());
            put_document(store, &context.tenant, entity_id, other);
            (Ok(result), changes)
        },
    }
}

/// Appends attributes to an entity at a given time; under `no_overwrite`
/// existing attributes are reported as conflicts and kept.
pub fn append_attrs(
    store: &mut MemoryEntityRepository,
    context: &RequestContext,
    entity_id: &str,
    requested_type: Option<&str>,
    fragment: &Json,
    no_overwrite: bool,
    now: &str,
) -> (r: (Result<UpdateResult, BrokerError>, Vec<EntityChange>))
    requires
        old(store).wf(),
    ensures
        final(store).wf(),
        ({
            let (st, out, cs) = attrs_spec(
                old(store)@,
                context.tenant@,
                entity_id@,
                crate::query::planner::opt_str(requested_type),
                fragment@,
                false,
                no_overwrite,
                now@,
            );
            st == final(store)@ && attrs_outcome(r.0, out) && cs == change_views(r.1@)
        }),
{
    change_attributes(store, context, entity_id, requested_type, fragment, false, no_overwrite, now)
}

/// Updates only the attributes that an entity already has, at a given
/// time; the others are reported absent.
pub fn update_attrs(
    store: &mut MemoryEntityRepository,
    context: &RequestContext,
    entity_id: &str,
    requested_type: Option<&str>,
    fragment: &Json,
    now: &str,
) -> (r: (Result<UpdateResult, BrokerError>, Vec<EntityChange>))
    requires
        old(store).wf(),
    ensures
        final(store).wf(),
        ({
            let (st, out, cs) = attrs_spec(
                old(store)@,
                context.tenant@,
                entity_id@,
                crate::query::planner::opt_str(requested_type),
                fragment@,
                true,
                false,
                now@,
            );
            st == final(store)@ && attrs_outcome(r.0, out) && cs == change_views(r.1@)
        }),
{
    change_attributes(store, context, entity_id, requested_type, fragment, true, false, now)
}

/// A failed batch item, as a view.
pub struct BatchErrV {
    pub entity_id: Seq<char>,
    pub status: u16,
    pub detail: Seq<char>,
}

/// The state of a batch after some items: the store, the ids that
/// succeeded, the items that failed, and the changes.
pub struct BatchV {
    pub store: Seq<StoredV>,
    pub success: Seq<Seq<char>>,
    pub errors: Seq<BatchErrV>,
    pub changes: Seq<ChangeV>,
}

/// The report holds the successes and the failures.
pub open spec fn batch_report(r: BatchOperationResult, success: Seq<Seq<char>>, errors: Seq<BatchErrV>) -> bool {
    &&& crate::text::views(r.success@) == success
    &&& r.errors@.len() == errors.len()
    &&& forall|i: int|
        0 <= i < errors.len() ==> batch_error_of(
            #[trigger] r.errors@[i],
            errors[i].entity_id,
            errors[i].status,
            errors[i].detail,
        )
}

/// A batch outcome: the list of succeeded ids when nothing failed, else
/// the full report.
pub open spec fn batch_outcome(r: Result<Vec<String>, BatchOperationResult>, b: BatchV) -> bool {
    match r {
        Ok(ids) => b.errors.len() == 0 && crate::text::views(ids@) == b.success,
        Err(report) => b.errors.len() > 0 && batch_report(report, b.success, b.errors),
    }
}

/// A batch outcome without a payload on success.
pub open spec fn batch_unit_outcome(r: Result<(), BatchOperationResult>, b: BatchV) -> bool {
    match r {
        Ok(()) => b.errors.len() == 0,
        Err(report) => b.errors.len() > 0 && batch_report(report, b.success, b.errors),
    }
}

/// Creating a batch of entities at `now`: each is prepared and stored
/// unless its id is taken (a conflict) or it is invalid (reported under
/// the id `unknown`).
pub open spec fn batch_create_fold(s: Seq<StoredV>, tenant: Seq<char>, link: Option<Seq<char>>, now: Seq<char>, entities: Seq<JsonV>) -> BatchV
    decreases entities.len(),
{
    if entities.len() == 0 {
        BatchV { store: s, success: Seq::empty(), errors: Seq::empty(), changes: Seq::empty() }
    } else {
        let b = batch_create_fold(s, tenant, link, now, entities.drop_last());
        let (doc, prep) = create_preparation(entities.last(), link, now);
        match prep {
            Err(m) => BatchV { errors: b.errors.push(BatchErrV { entity_id: "unknown"@, status: 400, detail: m }), ..b },
            Ok(id) => if lookup(b.store, tenant, id) is Some {
                BatchV {
                    errors: b.errors.push(
                        BatchErrV { entity_id: id, status: 409, detail: "entity "@ + id + " already exists"@ },
                    ),
                    ..b
                }
            } else {
                BatchV {
                    store: store_put(b.store, tenant, id, doc),
                    success: b.success.push(id),
                    errors: b.errors,
                    changes: b.changes.push(write_change(EntityEventKind::Created, attribute_names(doc), id, doc, true)),
                }
            },
        }
    }
}

/// Records a failed batch item.
fn push_error(errors: &mut Vec<BatchEntityError>, entity_id: &str, status: u16, detail: String)
    ensures
        final(errors)@.len() == old(errors)@.len() + 1,
        forall|i: int| 0 <= i < old(errors)@.len() ==> #[trigger] final(errors)@[i] == old(errors)@[i],
        batch_error_of(final(errors)@[old(errors)@.len() as int], entity_id@, status, detail@),
{
    errors.push(batch_error(entity_id, status, detail));
}

/// The views of a batch in progress match its state.
pub open spec fn batch_state(store: Seq<StoredV>, success: Seq<String>, errors: Seq<BatchEntityError>, changes: Seq<EntityChange>, b: BatchV) -> bool {
    &&& store == b.store
    &&& crate::text::views(success) == b.success
    &&& errors.len() == b.errors.len()
    &&& (forall|i: int|
        0 <= i < errors.len() ==> batch_error_of(
            #[trigger] errors[i],
            b.errors[i].entity_id,
            b.errors[i].status,
            b.errors[i].detail,
        ))
    &&& change_views(changes) == b.changes
}

/// What batch creation promises: every item gives exactly one success or
/// one error; each id created is stored afterwards, with the document it
/// was created with; and an entity stored before the batch is never
/// changed by it (an item with its id is refused with 409).
pub proof fn law_batch_create(
    s: Seq<StoredV>,
    tenant: Seq<char>,
    link: Option<Seq<char>>,
    now: Seq<char>,
    entities: Seq<JsonV>,
)
    requires
        distinct_keys(s),
    ensures
        ({
            let b = batch_create_fold(s, tenant, link, now, entities);
            &&& b.success.len() + b.errors.len() == entities.len()
            &&& distinct_keys(b.store)
            &&& forall|k: int| 0 <= k < b.success.len() ==> (#[trigger] lookup(b.store, tenant, b.success[k])) is Some
            &&& forall|t: Seq<char>, id: Seq<char>|
                (#[trigger] lookup(s, t, id)) is Some ==> lookup(b.store, t, id) == lookup(s, t, id)
        }),
    decreases entities.len(),
{
    if entities.len() > 0 {
        let rest = entities.drop_last();
        law_batch_create(s, tenant, link, now, rest);
        let b = batch_create_fold(s, tenant, link, now, rest);
        let (doc, prep) = create_preparation(entities.last(), link, now);
        match prep {
            Err(m) => {},
            Ok(id) => if lookup(b.store, tenant, id) is None {
                let nb = batch_create_fold(s, tenant, link, now, entities);
                lemma_put_lookup(b.store, tenant, id, doc);
                assert forall|k: int| 0 <= k < nb.success.len() implies (#[trigger] lookup(nb.store, tenant, nb.success[k])) is Some by {
                    if k < b.success.len() {
                        assert(nb.success[k] == b.success[k]);
                        assert(lookup(b.store, tenant, b.success[k]) is Some);
                        lemma_put_other(b.store, tenant, id, doc, tenant, b.success[k]);
                    }
                }
                assert forall|t: Seq<char>, i2: Seq<char>| (#[trigger] lookup(s, t, i2)) is Some implies lookup(nb.store, t, i2)
                    == lookup(s, t, i2) by {
                    assert(lookup(b.store, t, i2) == lookup(s, t, i2));
                    lemma_put_other(b.store, tenant, id, doc, t, i2);
                }
            },
        }
    }
}

/// Creates a batch of entities at a given time.
pub fn batch_create(store: &mut MemoryEntityRepository, context: &RequestContext, entities: &Vec<Json>, now: &str) -> (r: (
    Result<Vec<String>, BatchOperationResult>,
    Vec<EntityChange>,
))
    requires
        old(store).wf(),
    ensures
        final(store).wf(),
        ({
            let b = batch_create_fold(
                old(store)@,
                context.tenant@,
                opt_text(context.link_header),
                now@,
                crate::json::json_views(entities@),
            );
            final(store)@ == b.store && batch_outcome(r.0, b) && change_views(r.1@) == b.changes
        }),
{
    let ghost s0 = store@;
    let ghost ev = crate::json::json_views(entities@);
    let ghost link = opt_text(context.link_header);
    let mut success: Vec<String> = Vec::new();
    let mut errors: Vec<BatchEntityError> = Vec::new();
    let mut changes: Vec<EntityChange> = Vec::new();
    let mut i: usize = 0;
    assert(crate::text::views(success@) =~= Seq::<Seq<char>>::empty());
    assert(change_views(changes@) =~= Seq::<ChangeV>::empty());
    while i < entities.len()
        invariant
            i <= entities.len(),
            store.wf(),
            ev == crate::json::json_views(entities@),
            link == opt_text(context.link_header),
            batch_state(store@, success@, errors@, changes@, batch_create_fold(s0, context.tenant@, link, now@, ev.take(i as int))),
        decreases entities.len() - i,
    {
        assert(ev.take(i + 1).drop_last() =~= ev.take(i as int));
        assert(ev.take(i + 1).last() == entities@[i as int]@);
        let ghost b = batch_create_fold(s0, context.tenant@, link, now@, ev.take(i as int));
        let mut doc = clone_json(&entities[i]);
        match prepare_entity_for_create_at(&mut doc, context, now) {
            Err(e) => {
                push_error(&mut errors, "unknown", e.status_code(), e.message());
                proof {
                    reveal_strlit("unknown");
                }
            },
            Ok(id) => {
                if store.get(context.tenant.as_str(), id.as_str()).is_some() {
                    let idc = chars_of(id.as_str());
                    push_error(&mut errors, id.as_str(), 409, text_around("entity ", &idc, " already exists"));
                } else {
                    let change = write_change_of(
                        EntityEventKind::Created,
                        entity_attribute_names(&doc),
                        id.as_str(),
                        &doc,
                        true,
                    );
                    put_document(store, &context.tenant, id.as_str(), doc);
                    let ghost cb = change_views(changes@);
                    let ghost cv = change_view(change);
                    changes.push(change);
                    assert(change_views(changes@) =~= cb.push(cv));
                    let ghost sb = crate::text::views(success@);
                    let ghost idv = id@;
                    success.push(id);
                    assert(crate::text::views(success@) =~= sb.push(idv));
                }
            },
        }
        i += 1;
    }
    assert(ev.take(entities.len() as int) =~= ev);
    if errors.len() == 0 {
        (Ok(success), changes)
    } else {
        (Err(BatchOperationResult { success, errors }), changes)
    }
}

/// The state of a batch upsert: the batch, the ids created, and whether an
/// existing entity was updated.
pub struct UpsertV {
    pub b: BatchV,
    pub created: Seq<Seq<char>>,
    pub had_updates: bool,
}

/// Upserting a batch of entities at `now`: each valid entity is stored;
/// an existing one is merged into (`update_mode`) or replaced keeping its
/// creation time. A replacement that fails stops the batch, with the store
/// as it then is.
pub open spec fn batch_upsert_fold(
    s: Seq<StoredV>,
    tenant: Seq<char>,
    link: Option<Seq<char>>,
    now: Seq<char>,
    update_mode: bool,
    entities: Seq<JsonV>,
) -> Result<UpsertV, (Seq<StoredV>, (u16, Seq<char>))>
    decreases entities.len(),
{
    if entities.len() == 0 {
        Ok(
            UpsertV {
                b: BatchV { store: s, success: Seq::empty(), errors: Seq::empty(), changes: Seq::empty() },
                created: Seq::empty(),
                had_updates: false,
            },
        )
    } else {
        match batch_upsert_fold(s, tenant, link, now, update_mode, entities.drop_last()) {
            Err(e) => Err(e),
            Ok(u) => {
                let (doc, prep) = create_preparation(entities.last(), link, now);
                match prep {
                    Err(m) => Ok(
                        UpsertV {
                            b: BatchV {
                                errors: u.b.errors.push(BatchErrV { entity_id: "unknown"@, status: 400, detail: m }),
                                ..u.b
                            },
                            ..u
                        },
                    ),
                    Ok(id) => match lookup(u.b.store, tenant, id) {
                        Some(existing) => {
                            let (nd, failure) = if update_mode {
                                (merge_patched(existing, doc), None)
                            } else {
                                let (rd, rp) = replace_preparation(doc, id, link, existing.get("createdAt"@), now);
                                match rp {
                                    Ok(()) => (rd, None),
                                    Err(m) => (rd, Some(m)),
                                }
                            };
                            match failure {
                                Some(m) => Err((u.b.store, (400u16, m))),
                                None => Ok(
                                    UpsertV {
                                        b: BatchV {
                                            store: store_put(u.b.store, tenant, id, nd),
                                            success: u.b.success.push(id),
                                            errors: u.b.errors,
                                            changes: u.b.changes.push(
                                                write_change(EntityEventKind::Updated, attribute_names(nd), id, nd, false),
                                            ),
                                        },
                                        created: u.created,
                                        had_updates: true,
                                    },
                                ),
                            }
                        },
                        None => Ok(
                            UpsertV {
                                b: BatchV {
                                    store: store_put(u.b.store, tenant, id, doc),
                                    success: u.b.success.push(id),
                                    errors: u.b.errors,
                                    changes: u.b.changes.push(
                                        write_change(EntityEventKind::Updated, attribute_names(doc), id, doc, false),
                                    ),
                                },
                                created: u.created.push(id),
                                had_updates: u.had_updates,
                            },
                        ),
                    },
                }
            },
        }
    }
}

/// What batch upsert promises when it runs to the end: every item gives
/// exactly one success or one error; every id that succeeded is stored
/// afterwards; the ids reported created are among them and were not
/// stored before the batch; and no entity stored before is removed.
pub proof fn law_batch_upsert(
    s: Seq<StoredV>,
    tenant: Seq<char>,
    link: Option<Seq<char>>,
    now: Seq<char>,
    update_mode: bool,
    entities: Seq<JsonV>,
)
    requires
        distinct_keys(s),
    ensures
        batch_upsert_fold(s, tenant, link, now, update_mode, entities) matches Ok(u) ==> {
            &&& u.b.success.len() + u.b.errors.len() == entities.len()
            &&& distinct_keys(u.b.store)
            &&& forall|k: int| 0 <= k < u.b.success.len() ==> (#[trigger] lookup(u.b.store, tenant, u.b.success[k])) is Some
            &&& forall|k: int| 0 <= k < u.created.len() ==> (#[trigger] lookup(s, tenant, u.created[k])) is None
                && u.b.success.contains(u.created[k])
            &&& forall|t: Seq<char>, id: Seq<char>| (#[trigger] lookup(s, t, id)) is Some ==> lookup(u.b.store, t, id) is Some
        },
    decreases entities.len(),
{
    if entities.len() > 0 {
        let rest = entities.drop_last();
        law_batch_upsert(s, tenant, link, now, update_mode, rest);
        match batch_upsert_fold(s, tenant, link, now, update_mode, rest) {
            Err(_) => {},
            Ok(u) => {
                let (doc, prep) = create_preparation(entities.last(), link, now);
                match prep {
                    Err(m) => {},
                    Ok(id) => {
                        let nd = match lookup(u.b.store, tenant, id) {
                            Some(existing) => if update_mode {
                                merge_patched(existing, doc)
                            } else {
                                replace_preparation(doc, id, link, existing.get("createdAt"@), now).0
                            },
                            None => doc,
                        };
                        match batch_upsert_fold(s, tenant, link, now, update_mode, entities) {
                            Ok(nu) => {
                                assert(nu.b.store == store_put(u.b.store, tenant, id, nd));
                                assert(nu.b.success == u.b.success.push(id));
                                lemma_put_lookup(u.b.store, tenant, id, nd);
                                assert forall|k: int| 0 <= k < nu.b.success.len() implies (#[trigger] lookup(
                                    nu.b.store,
                                    tenant,
                                    nu.b.success[k],
                                )) is Some by {
                                    if k < u.b.success.len() {
                                        assert(nu.b.success[k] == u.b.success[k]);
                                        assert(lookup(u.b.store, tenant, u.b.success[k]) is Some);
                                        if u.b.success[k] != id {
                                            lemma_put_other(u.b.store, tenant, id, nd, tenant, u.b.success[k]);
                                        }
                                    }
                                }
                                assert forall|k: int| 0 <= k < nu.created.len() implies (#[trigger] lookup(s, tenant, nu.created[k])) is None
                                    && nu.b.success.contains(nu.created[k]) by {
                                    if k < u.created.len() {
                                        assert(nu.created[k] == u.created[k]);
                                        let j = choose|j: int| 0 <= j < u.b.success.len() && u.b.success[j] == u.created[k];
                                        assert(nu.b.success[j] == u.created[k]);
                                    } else {
                                        assert(nu.created[k] == id);
                                        assert(lookup(u.b.store, tenant, id) is None);
                                        assert(nu.b.success[u.b.success.len() as int] == id);
                                    }
                                }
                                assert forall|t: Seq<char>, i2: Seq<char>| (#[trigger] lookup(s, t, i2)) is Some implies lookup(
                                    nu.b.store,
                                    t,
                                    i2,
                                ) is Some by {
                                    if !(t == tenant && i2 == id) {
                                        lemma_put_other(u.b.store, tenant, id, nd, t, i2);
                                    }
                                }
                            },
                            Err(_) => {},
                        }
                    },
                }
            },
        }
    }
}

/// A stopped batch upsert stays stopped, with the same outcome, whatever
/// entities follow.
pub proof fn lemma_upsert_stop_stays(
    s: Seq<StoredV>,
    tenant: Seq<char>,
    link: Option<Seq<char>>,
    now: Seq<char>,
    update_mode: bool,
    es: Seq<JsonV>,
    k: int,
)
    requires
        0 <= k <= es.len(),
        batch_upsert_fold(s, tenant, link, now, update_mode, es.take(k)) is Err,
    ensures
        batch_upsert_fold(s, tenant, link, now, update_mode, es) == batch_upsert_fold(
            s,
            tenant,
            link,
            now,
            update_mode,
            es.take(k),
        ),
    decreases es.len() - k,
{
    if es.len() == k {
        assert(es.take(k) =~= es);
    } else {
        assert(es.drop_last().take(k) =~= es.take(k));
        lemma_upsert_stop_stays(s, tenant, link, now, update_mode, es.drop_last(), k);
    }
}

/// Upserts a batch of entities at a given time, merging into existing ones
/// (`update_mode`) or replacing them.
pub fn batch_upsert(
    store: &mut MemoryEntityRepository,
    context: &RequestContext,
    entities: &Vec<Json>,
    update_mode: bool,
    now: &str,
) -> (r: (Result<Result<BatchUpsertOutcome, BatchOperationResult>, BrokerError>, Vec<EntityChange>))
    requires
        old(store).wf(),
    ensures
        final(store).wf(),
        match batch_upsert_fold(
            old(store)@,
            context.tenant@,
            opt_text(context.link_header),
            now@,
            update_mode,
            crate::json::json_views(entities@),
        ) {
            Err((st, e)) => final(store)@ == st && (r.0 matches Err(x) && err_view(x) == e) && r.1@.len() == 0,
            Ok(u) => final(store)@ == u.b.store && change_views(r.1@) == u.b.changes && match r.0 {
                Ok(Ok(o)) => u.b.errors.len() == 0 && crate::text::views(o.created_ids@) == u.created
                    && o.had_updates == u.had_updates,
                Ok(Err(report)) => u.b.errors.len() > 0 && batch_report(report, u.b.success, u.b.errors),
                Err(_) => false,
            },
        },
{
    let ghost s0 = store@;
    let ghost ev = crate::json::json_views(entities@);
    let ghost link = opt_text(context.link_header);
    let mut success: Vec<String> = Vec::new();
    let mut created: Vec<String> = Vec::new();
    let mut had_updates = false;
    let mut errors: Vec<BatchEntityError> = Vec::new();
    let mut changes: Vec<EntityChange> = Vec::new();
    let mut i: usize = 0;
    assert(crate::text::views(success@) =~= Seq::<Seq<char>>::empty());
    assert(crate::text::views(created@) =~= Seq::<Seq<char>>::empty());
    assert(change_views(changes@) =~= Seq::<ChangeV>::empty());
    while i < entities.len()
        invariant
            i <= entities.len(),
            store.wf(),
            ev == crate::json::json_views(entities@),
            link == opt_text(context.link_header),
            s0 == old(store)@,
            batch_upsert_fold(s0, context.tenant@, link, now@, update_mode, ev.take(i as int)) matches Ok(u)
                && batch_state(store@, success@, errors@, changes@, u.b) && crate::text::views(created@)
                == u.created && had_updates == u.had_updates,
        decreases entities.len() - i,
    {
        assert(ev.take(i + 1).drop_last() =~= ev.take(i as int));
        assert(ev.take(i + 1).last() == entities@[i as int]@);
        let mut doc = clone_json(&entities[i]);
        match prepare_entity_for_create_at(&mut doc, context, now) {
            Err(e) => {
                push_error(&mut errors, "unknown", e.status_code(), e.message());
                proof {
                    reveal_strlit("unknown");
                }
            },
            Ok(id) => {
                let found = match store.get(context.tenant.as_str(), id.as_str()) {
                    Some(d) => Some(clone_json(&d.doc)),
                    None => None,
                };
                match found {
                    Some(existing) => {
                        let nd = if update_mode {
                            let mut merged = existing;
                            apply_merge_patch(&mut merged, &doc);
                            merged
                        } else {
                            let mut replaced = doc;
                            match prepare_entity_for_replace_at(
                                &mut replaced,
                                id.as_str(),
                                context,
                                existing.get_member("createdAt"),
                                now,
                            ) {
                                Ok(()) => {},
                                Err(e) => {
                                    let no_changes: Vec<EntityChange> = Vec::new();
                                    assert(batch_upsert_fold(
                                        s0,
                                        context.tenant@,
                                        link,
                                        now@,
                                        update_mode,
                                        ev.take(i + 1),
                                    ) == Err::<UpsertV, (Seq<StoredV>, (u16, Seq<char>))>((store@, err_view(e))));
                                    proof {
                                        lemma_upsert_stop_stays(
                                            s0,
                                            context.tenant@,
                                            link,
                                            now@,
                                            update_mode,
                                            ev,
                                            i + 1,
                                        );
                                    }
                                    assert(batch_upsert_fold(
                                        old(store)@,
                                        context.tenant@,
                                        opt_text(context.link_header),
                                        now@,
                                        update_mode,
                                        crate::json::json_views(entities@),
                                    ) == Err::<UpsertV, (Seq<StoredV>, (u16, Seq<char>))>((store@, err_view(e))));
                                    return (Err(e), no_changes);
                                },
                            }
                            replaced
                        };
                        had_updates = true;
                        let change = write_change_of(
                            EntityEventKind::Updated,
                            entity_attribute_names(&nd),
                            id.as_str(),
                            &nd,
                            false,
                        );
                        put_document(store, &context.tenant, id.as_str(), nd);
                        let ghost cb = change_views(changes@);
                        let ghost cv = change_view(change);
                        changes.push(change);
                        assert(change_views(changes@) =~= cb.push(cv));
                        let ghost sb = crate::text::views(success@);
                        let ghost idv = id@;
                        success.push(id);
                        assert(crate::text::views(success@) =~= sb.push(idv));
                    },
                    None => {
                        let change = write_change_of(
                            EntityEventKind::Updated,
                            entity_attribute_names(&doc),
                            id.as_str(),
                            &doc,
                            false,
                        );
                        put_document(store, &context.tenant, id.as_str(), doc);
                        let ghost cb = change_views(changes@);
                        let ghost cv = change_view(change);
                        changes.push(change);
                        assert(change_views(changes@) =~= cb.push(cv));
                        let ghost crb = crate::text::views(created@);
                        created.push(id.clone());
                        assert(crate::text::views(created@) =~= crb.push(id@));
                        let ghost sb = crate::text::views(success@);
                        let ghost idv = id@;
                        success.push(id);
                        assert(crate::text::views(success@) =~= sb.push(idv));
                    },
                }
            },
        }
        i += 1;
    }
    assert(ev.take(entities.len() as int) =~= ev);
    if errors.len() == 0 {
        (Ok(Ok(BatchUpsertOutcome { created_ids: created, had_updates })), changes)
    } else {
        (Ok(Err(BatchOperationResult { success, errors })), changes)
    }
}

/// Updating a batch of existing entities at `now`: the fragment's
/// attributes are set (existing ones kept under `no_overwrite`) and the
/// modification time stamped; an item without id or whose entity is absent
/// fails.
pub open spec fn batch_update_fold(
    s: Seq<StoredV>,
    tenant: Seq<char>,
    now: Seq<char>,
    no_overwrite: bool,
    entities: Seq<JsonV>,
) -> BatchV
    decreases entities.len(),
{
    if entities.len() == 0 {
        BatchV { store: s, success: Seq::empty(), errors: Seq::empty(), changes: Seq::empty() }
    } else {
        let b = batch_update_fold(s, tenant, now, no_overwrite, entities.drop_last());
        let e = entities.last();
        match e.get_str("id"@) {
            None => BatchV {
                errors: b.errors.push(
                    BatchErrV { entity_id: "unknown"@, status: 400, detail: "payload entity must include an id"@ },
                ),
                ..b
            },
            Some(id) => match lookup(b.store, tenant, id) {
                None => BatchV {
                    errors: b.errors.push(BatchErrV { entity_id: id, status: 404, detail: not_found_message(id) }),
                    ..b
                },
                Some(doc) => {
                    let nd = match doc {
                        JsonV::Object(m) => JsonV::Object(
                            object_insert(
                                attr_fold(m, fragment_members(e), false, no_overwrite).0,
                                "modifiedAt"@,
                                JsonV::Str(now),
                            ),
                        ),
                        _ => doc,
                    };
                    BatchV {
                        store: store_put(b.store, tenant, id, nd),
                        success: b.success.push(id),
                        errors: b.errors,
                        changes: b.changes.push(
                            write_change(EntityEventKind::Updated, attribute_names(nd), id, nd, false),
                        ),
                    }
                },
            },
        }
    }
}

/// What batch update promises: every item gives exactly one success or
/// one error; only entities stored before the batch are updated (the
/// batch neither adds nor removes an entity); and entities of other
/// tenants are left as they were.
pub proof fn law_batch_update(s: Seq<StoredV>, tenant: Seq<char>, now: Seq<char>, no_overwrite: bool, entities: Seq<JsonV>)
    requires
        distinct_keys(s),
    ensures
        ({
            let b = batch_update_fold(s, tenant, now, no_overwrite, entities);
            &&& b.success.len() + b.errors.len() == entities.len()
            &&& distinct_keys(b.store)
            &&& forall|k: int| 0 <= k < b.success.len() ==> (#[trigger] lookup(s, tenant, b.success[k])) is Some
            &&& forall|t: Seq<char>, id: Seq<char>|
                (#[trigger] lookup(b.store, t, id)) is Some <==> lookup(s, t, id) is Some
            &&& forall|t: Seq<char>, id: Seq<char>| t != tenant ==> #[trigger] lookup(b.store, t, id) == lookup(s, t, id)
        }),
    decreases entities.len(),
{
    if entities.len() > 0 {
        let rest = entities.drop_last();
        law_batch_update(s, tenant, now, no_overwrite, rest);
        let b = batch_update_fold(s, tenant, now, no_overwrite, rest);
        let e = entities.last();
        match e.get_str("id"@) {
            None => {},
            Some(id) => match lookup(b.store, tenant, id) {
                None => {},
                Some(doc) => {
                    let nb = batch_update_fold(s, tenant, now, no_overwrite, entities);
                    let nd = match doc {
                        JsonV::Object(m) => JsonV::Object(
                            object_insert(
                                attr_fold(m, fragment_members(e), false, no_overwrite).0,
                                "modifiedAt"@,
                                JsonV::Str(now),
                            ),
                        ),
                        _ => doc,
                    };
                    assert(nb.store == store_put(b.store, tenant, id, nd));
                    lemma_put_lookup(b.store, tenant, id, nd);
                    assert forall|k: int| 0 <= k < nb.success.len() implies (#[trigger] lookup(s, tenant, nb.success[k])) is Some by {
                        if k < b.success.len() {
                            assert(nb.success[k] == b.success[k]);
                        } else {
                            assert(nb.success[k] == id);
                        }
                    }
                    assert forall|t: Seq<char>, i2: Seq<char>| (#[trigger] lookup(nb.store, t, i2)) is Some <==> lookup(s, t, i2) is Some by {
                        if !(t == tenant && i2 == id) {
                            lemma_put_other(b.store, tenant, id, nd, t, i2);
                        }
                    }
                    assert forall|t: Seq<char>, i2: Seq<char>| t != tenant implies #[trigger] lookup(nb.store, t, i2) == lookup(s, t, i2) by {
                        lemma_put_other(b.store, tenant, id, nd, t, i2);
                    }
                },
            },
        }
    }
}

/// Applies partial updates to a batch of existing entities at a given
/// time.
pub fn batch_update(
    store: &mut MemoryEntityRepository,
    context: &RequestContext,
    entities: &Vec<Json>,
    no_overwrite: bool,
    now: &str,
) -> (r: (Result<(), BatchOperationResult>, Vec<EntityChange>))
    requires
        old(store).wf(),
    ensures
        final(store).wf(),
        ({
            let b = batch_update_fold(old(store)@, context.tenant@, now@, no_overwrite, crate::json::json_views(entities@));
            final(store)@ == b.store && batch_unit_outcome(r.0, b) && change_views(r.1@) == b.changes
        }),
{
    let ghost s0 = store@;
    let ghost ev = crate::json::json_views(entities@);
    let mut success: Vec<String> = Vec::new();
    let mut errors: Vec<BatchEntityError> = Vec::new();
    let mut changes: Vec<EntityChange> = Vec::new();
    let mut i: usize = 0;
    assert(crate::text::views(success@) =~= Seq::<Seq<char>>::empty());
    assert(change_views(changes@) =~= Seq::<ChangeV>::empty());
    while i < entities.len()
        invariant
            i <= entities.len(),
            store.wf(),
            ev == crate::json::json_views(entities@),
            batch_state(store@, success@, errors@, changes@, batch_update_fold(s0, context.tenant@, now@, no_overwrite, ev.take(i as int))),
        decreases entities.len() - i,
    {
        assert(ev.take(i + 1).drop_last() =~= ev.take(i as int));
        assert(ev.take(i + 1).last() == entities@[i as int]@);
        let entity = &entities[i];
        match entity.get_str("id") {
            None => {
                push_error(&mut errors, "unknown", 400, string_from("payload entity must include an id"));
                proof {
                    reveal_strlit("unknown");
                }
            },
            Some(id) => {
                let found = match store.get(context.tenant.as_str(), id.as_str()) {
                    Some(d) => Some(clone_json(&d.doc)),
                    None => None,
                };
                match found {
                    None => {
                        let e = not_found(id.as_str());
                        push_error(&mut errors, id.as_str(), 404, e.message());
                    },
                    Some(existing) => {
                        let nd = match existing {
                            Json::Object(mut entries) => {
                                proof {
                                    lemma_object_view(entries);
                                }
                                let attrs = editable_fragment_members(entity);
                                let _ = fold_attributes(&mut entries, &attrs, false, no_overwrite);
                                map_insert(&mut entries, string_from("modifiedAt"), Json::Str(string_from(now)));
                                proof {
                                    lemma_object_view(entries);
                                }
                                Json::Object(entries)
                            },
                            other => other,
                        };
                        let change = write_change_of(
                            EntityEventKind::Updated,
                            entity_attribute_names(&nd),
                            id.as_str(),
                            &nd,
                            false,
                        );
                        put_document(store, &context.tenant, id.as_str(), nd);
                        let ghost cb = change_views(changes@);
                        let ghost cv = change_view(change);
                        changes.push(change);
                        assert(change_views(changes@) =~= cb.push(cv));
                        let ghost sb = crate::text::views(success@);
                        success.push(id.clone());
                        assert(crate::text::views(success@) =~= sb.push(id@));
                    },
                }
            },
        }
        i += 1;
    }
    assert(ev.take(entities.len() as int) =~= ev);
    if errors.len() == 0 {
        (Ok(()), changes)
    } else {
        (Err(BatchOperationResult { success, errors }), changes)
    }
}

/// Deleting a batch of entities at `now`: each stored one is removed, an
/// absent one fails.
pub open spec fn batch_delete_fold(s: Seq<StoredV>, tenant: Seq<char>, now: Seq<char>, ids: Seq<Seq<char>>) -> BatchV
    decreases ids.len(),
{
    if ids.len() == 0 {
        BatchV { store: s, success: Seq::empty(), errors: Seq::empty(), changes: Seq::empty() }
    } else {
        let b = batch_delete_fold(s, tenant, now, ids.drop_last());
        let id = ids.last();
        match lookup(b.store, tenant, id) {
            Some(doc) => BatchV {
                store: store_remove(b.store, tenant, id),
                success: b.success.push(id),
                errors: b.errors,
                changes: b.changes.push(
                    ChangeV {
                        kind: EntityEventKind::Deleted,
                        changed: Seq::empty(),
                        entity_id: id,
                        document: doc,
                        version_at: now,
                        notify: false,
                    },
                ),
            },
            None => BatchV {
                errors: b.errors.push(BatchErrV { entity_id: id, status: 404, detail: not_found_message(id) }),
                ..b
            },
        }
    }
}

/// Deletes a batch of entities at a given time.
pub fn batch_delete(store: &mut MemoryEntityRepository, context: &RequestContext, entity_ids: &Vec<String>, now: &str) -> (r: (
    Result<(), BatchOperationResult>,
    Vec<EntityChange>,
))
    requires
        old(store).wf(),
    ensures
        final(store).wf(),
        ({
            let b = batch_delete_fold(old(store)@, context.tenant@, now@, crate::text::views(entity_ids@));
            final(store)@ == b.store && batch_unit_outcome(r.0, b) && change_views(r.1@) == b.changes
        }),
{
    let ghost s0 = store@;
    let ghost iv = crate::text::views(entity_ids@);
    let mut success: Vec<String> = Vec::new();
    let mut errors: Vec<BatchEntityError> = Vec::new();
    let mut changes: Vec<EntityChange> = Vec::new();
    let mut i: usize = 0;
    assert(crate::text::views(success@) =~= Seq::<Seq<char>>::empty());
    assert(change_views(changes@) =~= Seq::<ChangeV>::empty());
    while i < entity_ids.len()
        invariant
            i <= entity_ids.len(),
            store.wf(),
            iv == crate::text::views(entity_ids@),
            batch_state(store@, success@, errors@, changes@, batch_delete_fold(s0, context.tenant@, now@, iv.take(i as int))),
        decreases entity_ids.len() - i,
    {
        assert(iv.take(i + 1).drop_last() =~= iv.take(i as int));
        assert(iv.take(i + 1).last() == entity_ids@[i as int]@);
        let id = &entity_ids[i];
        match store.delete(context.tenant.as_str(), id.as_str()) {
            Some(d) => {
                let no_names: Vec<String> = Vec::new();
                assert(crate::text::views(no_names@) =~= Seq::<Seq<char>>::empty());
                let change = make_change(EntityEventKind::Deleted, no_names, id.as_str(), d.doc, string_from(now), false);
                let ghost cb = change_views(changes@);
                let ghost cv = change_view(change);
                changes.push(change);
                assert(change_views(changes@) =~= cb.push(cv));
                let ghost sb = crate::text::views(success@);
                success.push(id.clone());
                assert(crate::text::views(success@) =~= sb.push(id@));
            },
            None => {
                let e = not_found(id.as_str());
                push_error(&mut errors, id.as_str(), 404, e.message());
            },
        }
        i += 1;
    }
    assert(iv.take(entity_ids.len() as int) =~= iv);
    if errors.len() == 0 {
        (Ok(()), changes)
    } else {
        (Err(BatchOperationResult { success, errors }), changes)
    }
}

/// Merging a batch of entities at `now`: each valid entity is merged into
/// the stored entity of its id; an invalid entity, or a failed merge,
/// fails with the entity's id (`unknown` when it has none).
pub open spec fn batch_merge_fold(s: Seq<StoredV>, tenant: Seq<char>, now: Seq<char>, entities: Seq<JsonV>) -> BatchV
    decreases entities.len(),
{
    if entities.len() == 0 {
        BatchV { store: s, success: Seq::empty(), errors: Seq::empty(), changes: Seq::empty() }
    } else {
        let b = batch_merge_fold(s, tenant, now, entities.drop_last());
        let e = entities.last();
        let eid = match e.get_str("id"@) {
            Some(x) => x,
            None => "unknown"@,
        };
        match entity_problem(e) {
            Some(m) => BatchV { errors: b.errors.push(BatchErrV { entity_id: eid, status: 400, detail: m }), ..b },
            None => {
                let (st, out, cs) = merge_spec(b.store, tenant, eid, None, e, now);
                match out {
                    Err((status, m)) => BatchV {
                        errors: b.errors.push(BatchErrV { entity_id: eid, status, detail: m }),
                        ..b
                    },
                    Ok(()) => BatchV {
                        store: st,
                        success: b.success.push(eid),
                        errors: b.errors,
                        changes: b.changes + cs,
                    },
                }
            },
        }
    }
}

/// Applies JSON merge patches to a batch of existing entities at a given
/// time.
pub fn batch_merge(store: &mut MemoryEntityRepository, context: &RequestContext, entities: &Vec<Json>, now: &str) -> (r: (
    Result<(), BatchOperationResult>,
    Vec<EntityChange>,
))
    requires
        old(store).wf(),
    ensures
        final(store).wf(),
        ({
            let b = batch_merge_fold(old(store)@, context.tenant@, now@, crate::json::json_views(entities@));
            final(store)@ == b.store && batch_unit_outcome(r.0, b) && change_views(r.1@) == b.changes
        }),
{
    let ghost s0 = store@;
    let ghost ev = crate::json::json_views(entities@);
    let mut success: Vec<String> = Vec::new();
    let mut errors: Vec<BatchEntityError> = Vec::new();
    let mut changes: Vec<EntityChange> = Vec::new();
    let mut i: usize = 0;
    assert(crate::text::views(success@) =~= Seq::<Seq<char>>::empty());
    assert(change_views(changes@) =~= Seq::<ChangeV>::empty());
    while i < entities.len()
        invariant
            i <= entities.len(),
            store.wf(),
            ev == crate::json::json_views(entities@),
            batch_state(store@, success@, errors@, changes@, batch_merge_fold(s0, context.tenant@, now@, ev.take(i as int))),
        decreases entities.len() - i,
    {
        assert(ev.take(i + 1).drop_last() =~= ev.take(i as int));
        assert(ev.take(i + 1).last() == entities@[i as int]@);
        let entity = &entities[i];
        let eid = match entity.get_str("id") {
            Some(x) => x.clone(),
            None => string_from("unknown"),
        };
        proof {
            reveal_strlit("unknown");
        }
        match validate_entity(entity) {
            Err(e) => {
                push_error(&mut errors, eid.as_str(), e.status_code(), e.message());
            },
            Ok(()) => {
                let (outcome, mut more) = merge(store, context, eid.as_str(), None, entity, now);
                match outcome {
                    Err(e) => {
                        push_error(&mut errors, eid.as_str(), e.status_code(), e.message());
                    },
                    Ok(()) => {
                        let ghost cb = change_views(changes@);
                        let ghost mb = change_views(more@);
                        changes.append(&mut more);
                        assert(change_views(changes@) =~= cb + mb);
                        let ghost sb = crate::text::views(success@);
                        success.push(eid.clone());
                        assert(crate::text::views(success@) =~= sb.push(eid@));
                    },
                }
            },
        }
        i += 1;
    }
    assert(ev.take(entities.len() as int) =~= ev);
    if errors.len() == 0 {
        (Ok(()), changes)
    } else {
        (Err(BatchOperationResult { success, errors }), changes)
    }
}

/// Operations of a replicated entity mutation.
#[derive(PartialEq, Eq, Structural, Clone, Copy, Debug)]
pub enum SwarmOperation {
    Upsert,
    Delete,
}

/// A replicated entity mutation received from a peer.
#[derive(Clone, Debug)]
pub struct EntityMutation {
    pub operation: SwarmOperation,
    pub entity_id: String,
    pub version_at: String,
    pub event_kind: EntityEventKind,
    pub changed_attributes: Vec<String>,
    pub snapshot: Option<Json>,
}

/// The mutation is not older than the stored entity (always true when none
/// is stored).
pub open spec fn mutation_applies(s: Seq<StoredV>, tenant: Seq<char>, m: EntityMutation) -> bool {
    match lookup(s, tenant, m.entity_id@) {
        Some(d) => version_not_older(d.get("modifiedAt"@), m.version_at@),
        None => true,
    }
}

/// Applying a replicated entity mutation: a delete or an upsert with a
/// snapshot takes effect unless the stored entity is newer; an applied
/// upsert notifies subscriptions with the mutation's event.
pub open spec fn apply_mutation_spec(s: Seq<StoredV>, tenant: Seq<char>, m: EntityMutation) -> (Seq<StoredV>, Seq<ChangeV>) {
    match m.operation {
        SwarmOperation::Delete => if mutation_applies(s, tenant, m) {
            (store_remove(s, tenant, m.entity_id@), Seq::empty())
        } else {
            (s, Seq::empty())
        },
        SwarmOperation::Upsert => match m.snapshot {
            None => (s, Seq::empty()),
            Some(doc) => if mutation_applies(s, tenant, m) {
                (
                    store_put(s, tenant, m.entity_id@, doc@),
                    seq![
                        ChangeV {
                            kind: m.event_kind,
                            changed: crate::text::views(m.changed_attributes@),
                            entity_id: m.entity_id@,
                            document: doc@,
                            version_at: m.version_at@,
                            notify: true,
                        },
                    ],
                )
            } else {
                (s, Seq::empty())
            },
        },
    }
}

/// Applies a replicated entity mutation locally.
pub fn apply_entity_mutation(store: &mut MemoryEntityRepository, tenant: &str, mutation: &EntityMutation) -> (r: Vec<EntityChange>)
    requires
        old(store).wf(),
    ensures
        final(store).wf(),
        apply_mutation_spec(old(store)@, tenant@, *mutation) == (final(store)@, change_views(r@)),
{
    let mut changes: Vec<EntityChange> = Vec::new();
    assert(change_views(changes@) =~= Seq::<ChangeV>::empty());
    let applies = match store.get(tenant, mutation.entity_id.as_str()) {
        Some(existing) => mutation_is_newer(existing.doc.get_member("modifiedAt"), mutation.version_at.as_str()),
        None => true,
    };
    match mutation.operation {
        SwarmOperation::Delete => {
            if applies {
                let _ = store.delete(tenant, mutation.entity_id.as_str());
            }
        },
        SwarmOperation::Upsert => {
            match &mutation.snapshot {
                None => {},
                Some(doc) => {
                    if applies {
                        store.replace(
                            StoredDocument {
                                tenant: string_from(tenant),
                                ngsi_id: mutation.entity_id.clone(),
                                doc: clone_json(doc),
                            },
                        );
                        let mut names: Vec<String> = Vec::new();
                        let mut k: usize = 0;
                        while k < mutation.changed_attributes.len()
                            invariant
                                k <= mutation.changed_attributes.len(),
                                crate::text::views(names@) == crate::text::views(
                                    mutation.changed_attributes@,
                                ).take(k as int),
                            decreases mutation.changed_attributes.len() - k,
                        {
                            let ghost before = crate::text::views(names@);
                            names.push(mutation.changed_attributes[k].clone());
                            assert(crate::text::views(names@) =~= before.push(
                                mutation.changed_attributes@[k as int]@,
                            ));
                            assert(crate::text::views(mutation.changed_attributes@).take(k + 1)
                                =~= crate::text::views(mutation.changed_attributes@).take(k as int).push(
                                mutation.changed_attributes@[k as int]@,
                            ));
                            k += 1;
                        }
                        assert(crate::text::views(mutation.changed_attributes@).take(
                            mutation.changed_attributes.len() as int,
                        ) =~= crate::text::views(mutation.changed_attributes@));
                        let change = make_change(
                            mutation.event_kind,
                            names,
                            mutation.entity_id.as_str(),
                            clone_json(doc),
                            mutation.version_at.clone(),
                            true,
                        );
                        let ghost cv = change_view(change);
                        changes.push(change);
                        assert(change_views(changes@) =~= seq![cv]);
                    }
                },
            }
        },
    }
    changes
}

/// A created entity reads back as the prepared document under its id.
pub proof fn law_create_then_read(s: Seq<StoredV>, tenant: Seq<char>, link: Option<Seq<char>>, now: Seq<char>, entity: JsonV)
    requires
        distinct_keys(s),
    ensures
        create_spec(s, tenant, link, now, entity).1 matches Ok(id) ==> lookup(
            create_spec(s, tenant, link, now, entity).0,
            tenant,
            id,
        ) == Some(create_preparation(entity, link, now).0),
{
    let (doc, prep) = create_preparation(entity, link, now);
    if let Ok(id) = prep {
        lemma_put_lookup(s, tenant, id, doc);
    }
}

/// Creating an entity whose id is taken is refused as a conflict and
/// leaves the store and the changes empty-handed.
pub proof fn law_create_taken_conflicts(s: Seq<StoredV>, tenant: Seq<char>, link: Option<Seq<char>>, now: Seq<char>, entity: JsonV)
    requires
        create_preparation(entity, link, now).1 matches Ok(id) && lookup(s, tenant, id) is Some,
    ensures
        create_spec(s, tenant, link, now, entity) == (
            s,
            Err::<Seq<char>, (u16, Seq<char>)>(
                (409u16, "entity "@ + create_preparation(entity, link, now).1->Ok_0 + " already exists"@),
            ),
            Seq::<ChangeV>::empty(),
        ),
{
}

/// A refused create, delete, merge or replace leaves the store unchanged
/// and reports no change.
pub proof fn law_refusals_leave_store(
    s: Seq<StoredV>,
    tenant: Seq<char>,
    id: Seq<char>,
    requested_type: Option<Seq<char>>,
    link: Option<Seq<char>>,
    now: Seq<char>,
    payload: JsonV,
)
    ensures
        create_spec(s, tenant, link, now, payload).1 is Err ==> create_spec(s, tenant, link, now, payload).0
            == s && create_spec(s, tenant, link, now, payload).2.len() == 0,
        delete_spec(s, tenant, id, requested_type).1 is Err ==> delete_spec(s, tenant, id, requested_type).0
            == s && delete_spec(s, tenant, id, requested_type).2.len() == 0,
        merge_spec(s, tenant, id, requested_type, payload, now).1 is Err ==> merge_spec(
            s,
            tenant,
            id,
            requested_type,
            payload,
            now,
        ).0 == s && merge_spec(s, tenant, id, requested_type, payload, now).2.len() == 0,
        replace_spec(s, tenant, id, requested_type, link, payload, now).1 is Err ==> replace_spec(
            s,
            tenant,
            id,
            requested_type,
            link,
            payload,
            now,
        ).0 == s && replace_spec(s, tenant, id, requested_type, link, payload, now).2.len() == 0,
{
}

/// Creating an entity leaves every other key, of any tenant, as it was.
pub proof fn law_create_keeps_others(
    s: Seq<StoredV>,
    tenant: Seq<char>,
    link: Option<Seq<char>>,
    now: Seq<char>,
    entity: JsonV,
    tenant2: Seq<char>,
    id2: Seq<char>,
)
    requires
        distinct_keys(s),
        create_spec(s, tenant, link, now, entity).1 matches Ok(id) && !(tenant2 == tenant && id2 == id),
    ensures
        lookup(create_spec(s, tenant, link, now, entity).0, tenant2, id2) == lookup(s, tenant2, id2),
{
    let (doc, prep) = create_preparation(entity, link, now);
    if let Ok(id) = prep {
        lemma_put_other(s, tenant, id, doc, tenant2, id2);
    }
}

/// A deleted entity is gone, and every other key stays as it was.
pub proof fn law_delete_then_absent(
    s: Seq<StoredV>,
    tenant: Seq<char>,
    id: Seq<char>,
    requested_type: Option<Seq<char>>,
    tenant2: Seq<char>,
    id2: Seq<char>,
)
    requires
        distinct_keys(s),
        delete_spec(s, tenant, id, requested_type).1 is Ok,
    ensures
        lookup(delete_spec(s, tenant, id, requested_type).0, tenant, id) is None,
        !(tenant2 == tenant && id2 == id) ==> lookup(delete_spec(s, tenant, id, requested_type).0, tenant2, id2)
            == lookup(s, tenant2, id2),
{
    lemma_remove_lookup(s, tenant, id);
    if !(tenant2 == tenant && id2 == id) {
        lemma_remove_other(s, tenant, id, tenant2, id2);
    }
}

/// A merged entity reads back as the stored document with the patch
/// merged in, its id and modification time set.
pub proof fn law_merge_then_read(
    s: Seq<StoredV>,
    tenant: Seq<char>,
    id: Seq<char>,
    requested_type: Option<Seq<char>>,
    patch: JsonV,
    now: Seq<char>,
)
    requires
        distinct_keys(s),
        merge_spec(s, tenant, id, requested_type, patch, now).1 is Ok,
    ensures
        lookup(s, tenant, id) matches Some(doc) && lookup(merge_spec(s, tenant, id, requested_type, patch, now).0, tenant, id)
            == Some(merged_document(doc, patch, id, now)),
{
    let doc = lookup(s, tenant, id)->Some_0;
    lemma_put_lookup(s, tenant, id, merged_document(doc, patch, id, now));
}

/// A replaced entity reads back as the prepared replacement.
pub proof fn law_replace_then_read(
    s: Seq<StoredV>,
    tenant: Seq<char>,
    id: Seq<char>,
    requested_type: Option<Seq<char>>,
    link: Option<Seq<char>>,
    entity: JsonV,
    now: Seq<char>,
)
    requires
        distinct_keys(s),
        replace_spec(s, tenant, id, requested_type, link, entity, now).1 is Ok,
    ensures
        lookup(s, tenant, id) matches Some(existing) && lookup(
            replace_spec(s, tenant, id, requested_type, link, entity, now).0,
            tenant,
            id,
        ) == Some(replace_preparation(entity, id, link, existing.get("createdAt"@), now).0),
{
    let existing = lookup(s, tenant, id)->Some_0;
    lemma_put_lookup(s, tenant, id, replace_preparation(entity, id, link, existing.get("createdAt"@), now).0);
}

/// Every item of a batch create is reported once: as a success or as a
/// failure, and the store keeps distinct keys.
pub proof fn law_batch_create_accounts(s: Seq<StoredV>, tenant: Seq<char>, link: Option<Seq<char>>, now: Seq<char>, entities: Seq<JsonV>)
    requires
        distinct_keys(s),
    ensures
        batch_create_fold(s, tenant, link, now, entities).success.len() + batch_create_fold(
            s,
            tenant,
            link,
            now,
            entities,
        ).errors.len() == entities.len(),
        distinct_keys(batch_create_fold(s, tenant, link, now, entities).store),
    decreases entities.len(),
{
    if entities.len() > 0 {
        law_batch_create_accounts(s, tenant, link, now, entities.drop_last());
        let b = batch_create_fold(s, tenant, link, now, entities.drop_last());
        let (doc, prep) = create_preparation(entities.last(), link, now);
        if let Ok(id) = prep {
            lemma_put_lookup(b.store, tenant, id, doc);
        }
    }
}

/// Every id of a batch delete is reported once, and none of the deleted
/// ids remains stored.
pub proof fn law_batch_delete_removes(s: Seq<StoredV>, tenant: Seq<char>, now: Seq<char>, ids: Seq<Seq<char>>)
    requires
        distinct_keys(s),
    ensures
        batch_delete_fold(s, tenant, now, ids).success.len() + batch_delete_fold(s, tenant, now, ids).errors.len()
            == ids.len(),
        distinct_keys(batch_delete_fold(s, tenant, now, ids).store),
        forall|k: int|
            0 <= k < batch_delete_fold(s, tenant, now, ids).success.len() ==> lookup(
                batch_delete_fold(s, tenant, now, ids).store,
                tenant,
                #[trigger] batch_delete_fold(s, tenant, now, ids).success[k],
            ) is None,
    decreases ids.len(),
{
    if ids.len() > 0 {
        law_batch_delete_removes(s, tenant, now, ids.drop_last());
        let b = batch_delete_fold(s, tenant, now, ids.drop_last());
        let id = ids.last();
        if lookup(b.store, tenant, id) is Some {
            lemma_remove_lookup(b.store, tenant, id);
            let nb = batch_delete_fold(s, tenant, now, ids);
            assert forall|k: int| 0 <= k < nb.success.len() implies lookup(nb.store, tenant, #[trigger] nb.success[k])
                is None by {
                if k < b.success.len() {
                    let x = b.success[k];
                    assert(nb.success[k] == x);
                    if x != id {
                        lemma_remove_other(b.store, tenant, id, tenant, x);
                    }
                }
            }
        }
    }
}

/// An edit of one attribute.
pub enum AttrEditV {
    Patch(JsonV),
    Delete,
    Replace(JsonV),
}

/// The members after editing attribute `attr` (present at `i`).
pub open spec fn edited_members(m: Seq<(Seq<char>, JsonV)>, attr: Seq<char>, edit: AttrEditV) -> Seq<(Seq<char>, JsonV)> {
    match edit {
        AttrEditV::Patch(p) => match member_index(m, attr) {
            Some(i) => m.update(i, (attr, merge_patched(m[i].1, p))),
            None => m,
        },
        AttrEditV::Delete => crate::json::object_remove(m, attr),
        AttrEditV::Replace(v) => object_insert(m, attr, v),
    }
}

/// Editing one attribute of an entity at `now`: the entity must exist, have
/// the requested type and the attribute; the edited entity is stamped.
pub open spec fn attr_edit_spec(
    s: Seq<StoredV>,
    tenant: Seq<char>,
    id: Seq<char>,
    requested_type: Option<Seq<char>>,
    attr: Seq<char>,
    edit: AttrEditV,
    now: Seq<char>,
) -> (Seq<StoredV>, Result<(), (u16, Seq<char>)>, Seq<ChangeV>) {
    match found_document(s, tenant, id, requested_type) {
        Err(e) => (s, Err(e), Seq::empty()),
        Ok(doc) => if doc.get(attr) is None {
            (s, Err((404u16, "attribute "@ + attr + " was not found"@)), Seq::empty())
        } else {
            let nd = match doc {
                JsonV::Object(m) => JsonV::Object(object_insert(edited_members(m, attr, edit), "modifiedAt"@, JsonV::Str(now))),
                _ => doc,
            };
            (
                store_put(s, tenant, id, nd),
                Ok(()),
                seq![write_change(EntityEventKind::Updated, seq![attr], id, nd, true)],
            )
        },
    }
}

/// An edit of one attribute, as carried out.
enum AttrEdit<'a> {
    Patch(&'a Json),
    Delete,
    Replace(&'a Json),
}

/// The view of an edit.
spec fn edit_view(e: AttrEdit) -> AttrEditV {
    match e {
        AttrEdit::Patch(p) => AttrEditV::Patch(p@),
        AttrEdit::Delete => AttrEditV::Delete,
        AttrEdit::Replace(v) => AttrEditV::Replace(v@),
    }
}

/// Edits one attribute of an entity at a given time.
fn edit_attribute(
    store: &mut MemoryEntityRepository,
    context: &RequestContext,
    entity_id: &str,
    attr_id: &str,
    requested_type: Option<&str>,
    edit: AttrEdit,
    now: &str,
) -> (r: (Result<(), BrokerError>, Vec<EntityChange>))
    requires
        old(store).wf(),
    ensures
        final(store).wf(),
        attr_edit_spec(
            old(store)@,
            context.tenant@,
            entity_id@,
            crate::query::planner::opt_str(requested_type),
            attr_id@,
            edit_view(edit),
            now@,
        ) == (final(store)@, unit_view(r.0), change_views(r.1@)),
{
    let mut changes: Vec<EntityChange> = Vec::new();
    assert(change_views(changes@) =~= Seq::<ChangeV>::empty());
    let existing = match find_checked(store, context.tenant.as_str(), entity_id, requested_type) {
        Ok(d) => d,
        Err(e) => {
            return (Err(e), changes);
        },
    };
    match crate::services::common::ensure_attribute_exists(&existing, attr_id) {
        Ok(()) => {},
        Err(e) => {
            return (Err(e), changes);
        },
    }
    let nd = match existing {
        Json::Object(mut entries) => {
            proof {
                lemma_object_view(entries);
            }
            match edit {
                AttrEdit::Patch(p) => {
                    match member_position(&entries, attr_id) {
                        Some(i) => {
                            let mut cur = clone_json(&entries[i].1);
                            apply_merge_patch(&mut cur, p);
                            let ghost ev = entry_views(entries@);
                            let ghost cv = cur@;
                            entries.set(i, (string_from(attr_id), cur));
                            assert(entry_views(entries@) =~= ev.update(i as int, (attr_id@, cv)));
                        },
                        None => {},
                    }
                },
                AttrEdit::Delete => {
                    let _ = crate::json::map_remove(&mut entries, attr_id);
                },
                AttrEdit::Replace(v) => {
                    map_insert(&mut entries, string_from(attr_id), clone_json(v));
                },
            }
            map_insert(&mut entries, string_from("modifiedAt"), Json::Str(string_from(now)));
            proof {
                lemma_object_view(entries);
            }
            Json::Object(entries)
        },
        other => other,
    };
    let mut names: Vec<String> = Vec::new();
    names.push(string_from(attr_id));
    assert(crate::text::views(names@) =~= seq![attr_id@]);
    let change = write_change_of(EntityEventKind::Updated, names, entity_id, &nd, true);
    put_document(store, &context.tenant, entity_id, nd);
    let ghost cv = change_view(change);
    changes.push(change);
    assert(change_views(changes@) =~= seq![cv]);
    (Ok(()), changes)
}

/// Patches one attribute of an entity in place with a merge patch, at a
/// given time.
pub fn patch_attr(
    store: &mut MemoryEntityRepository,
    context: &RequestContext,
    entity_id: &str,
    attr_id: &str,
    requested_type: Option<&str>,
    patch: &Json,
    now: &str,
) -> (r: (Result<(), BrokerError>, Vec<EntityChange>))
    requires
        old(store).wf(),
    ensures
        final(store).wf(),
        attr_edit_spec(
            old(store)@,
            context.tenant@,
            entity_id@,
            crate::query::planner::opt_str(requested_type),
            attr_id@,
            AttrEditV::Patch(patch@),
            now@,
        ) == (final(store)@, unit_view(r.0), change_views(r.1@)),
{
    edit_attribute(store, context, entity_id, attr_id, requested_type, AttrEdit::Patch(patch), now)
}

/// Deletes one attribute of an entity, at a given time.
pub fn delete_attr(
    store: &mut MemoryEntityRepository,
    context: &RequestContext,
    entity_id: &str,
    attr_id: &str,
    requested_type: Option<&str>,
    now: &str,
) -> (r: (Result<(), BrokerError>, Vec<EntityChange>))
    requires
        old(store).wf(),
    ensures
        final(store).wf(),
        attr_edit_spec(
            old(store)@,
            context.tenant@,
            entity_id@,
            crate::query::planner::opt_str(requested_type),
            attr_id@,
            AttrEditV::Delete,
            now@,
        ) == (final(store)@, unit_view(r.0), change_views(r.1@)),
{
    edit_attribute(store, context, entity_id, attr_id, requested_type, AttrEdit::Delete, now)
}

/// Replaces the value of one attribute of an entity, at a given time.
pub fn replace_attr(
    store: &mut MemoryEntityRepository,
    context: &RequestContext,
    entity_id: &str,
    attr_id: &str,
    requested_type: Option<&str>,
    value: &Json,
    now: &str,
) -> (r: (Result<(), BrokerError>, Vec<EntityChange>))
    requires
        old(store).wf(),
    ensures
        final(store).wf(),
        attr_edit_spec(
            old(store)@,
            context.tenant@,
            entity_id@,
            crate::query::planner::opt_str(requested_type),
            attr_id@,
            AttrEditV::Replace(value@),
            now@,
        ) == (final(store)@, unit_view(r.0), change_views(r.1@)),
{
    edit_attribute(store, context, entity_id, attr_id, requested_type, AttrEdit::Replace(value), now)
}

/// Retrieving an entity: the stored entity of the requested type,
/// projected onto the query's attributes in the representation.
pub open spec fn get_spec(
    s: Seq<StoredV>,
    tenant: Seq<char>,
    id: Seq<char>,
    query: crate::query::types::EntityQuery,
    accept: Seq<char>,
) -> Result<JsonV, (u16, Seq<char>)> {
    match found_document(s, tenant, id, opt_text(query.entity_type)) {
        Err(e) => Err(e),
        Ok(doc) => Ok(
            crate::services::common::projected(
                doc,
                opt_text(query.attrs),
                opt_text(query.pick),
                opt_text(query.omit),
                crate::services::common::request_repr(accept, opt_text(query.format), opt_text(query.options)),
            ),
        ),
    }
}

/// Retrieves one entity of a tenant, projected as the query asks, given the
/// `Accept` header's value (empty when absent).
pub fn get(store: &MemoryEntityRepository, context: &RequestContext, entity_id: &str, query: &crate::query::types::EntityQuery, accept: &str) -> (r: Result<Json, BrokerError>)
    ensures
        get_spec(store@, context.tenant@, entity_id@, *query, accept@) == match r {
            Ok(d) => Ok::<JsonV, (u16, Seq<char>)>(d@),
            Err(e) => Err(err_view(e)),
        },
{
    let representation = crate::services::common::representation_from_request(
        accept,
        crate::query::planner::opt_as_str(&query.format),
        crate::query::planner::opt_as_str(&query.options),
    );
    let doc = find_checked(store, context.tenant.as_str(), entity_id, crate::query::planner::opt_as_str(&query.entity_type))?;
    Ok(
        crate::services::common::project_entity(
            &doc,
            crate::query::planner::opt_as_str(&query.attrs),
            crate::query::planner::opt_as_str(&query.pick),
            crate::query::planner::opt_as_str(&query.omit),
            representation,
        ),
    )
}

/// A replicated mutation older than the stored entity changes nothing and
/// notifies nobody.
pub proof fn law_older_mutation_ignored(s: Seq<StoredV>, tenant: Seq<char>, m: EntityMutation)
    requires
        !mutation_applies(s, tenant, m),
    ensures
        apply_mutation_spec(s, tenant, m) == (s, Seq::<ChangeV>::empty()),
{
}

/// An applied replicated upsert reads back as its snapshot, and a delete
/// that applies leaves the entity absent.
pub proof fn law_applied_mutation_then_read(s: Seq<StoredV>, tenant: Seq<char>, m: EntityMutation)
    requires
        distinct_keys(s),
        mutation_applies(s, tenant, m),
    ensures
        (m.operation == SwarmOperation::Upsert && m.snapshot is Some) ==> lookup(
            apply_mutation_spec(s, tenant, m).0,
            tenant,
            m.entity_id@,
        ) == Some(m.snapshot->0@),
        m.operation == SwarmOperation::Delete ==> lookup(apply_mutation_spec(s, tenant, m).0, tenant, m.entity_id@) is None,
{
    match m.snapshot {
        Some(doc) => lemma_put_lookup(s, tenant, m.entity_id@, doc@),
        None => {},
    }
    lemma_remove_lookup(s, tenant, m.entity_id@);
}

/// What an attribute edit that succeeds leaves behind: a replaced
/// attribute reads as the value given, a patched one as the merge patch of
/// its former value, a deleted one (of an entity without repeated members)
/// is gone, and the entity is stamped with the time of the edit.
pub proof fn law_attr_edit_then_read(
    s: Seq<StoredV>,
    tenant: Seq<char>,
    id: Seq<char>,
    requested_type: Option<Seq<char>>,
    attr: Seq<char>,
    edit: AttrEditV,
    now: Seq<char>,
)
    requires
        distinct_keys(s),
        attr != "modifiedAt"@,
    ensures
        attr_edit_spec(s, tenant, id, requested_type, attr, edit, now).1 is Ok ==> {
            let after = lookup(attr_edit_spec(s, tenant, id, requested_type, attr, edit, now).0, tenant, id);
            &&& lookup(s, tenant, id) matches Some(JsonV::Object(m))
            &&& after matches Some(nd)
            &&& nd.get("modifiedAt"@) == Some(JsonV::Str(now))
            &&& (edit matches AttrEditV::Replace(v) ==> nd.get(attr) == Some(v))
            &&& (edit matches AttrEditV::Patch(p) ==> nd.get(attr) == Some(merge_patched(JsonV::Object(m).get(attr)->0, p)))
            &&& ((edit is Delete && crate::json::distinct_members(m)) ==> nd.get(attr) is None)
        },
{
    match found_document(s, tenant, id, requested_type) {
        Ok(doc) => {
            if doc.get(attr) is Some {
                match doc {
                    JsonV::Object(m) => {
                        let e = edited_members(m, attr, edit);
                        let nd = JsonV::Object(object_insert(e, "modifiedAt"@, JsonV::Str(now)));
                        lemma_put_lookup(s, tenant, id, nd);
                        crate::json::lemma_object_insert_get(e, "modifiedAt"@, JsonV::Str(now), "modifiedAt"@);
                        crate::json::lemma_object_insert_get(e, "modifiedAt"@, JsonV::Str(now), attr);
                        match edit {
                            AttrEditV::Replace(v) => {
                                crate::json::lemma_object_insert_get(m, attr, v, attr);
                            },
                            AttrEditV::Patch(p) => {
                                let i = member_index(m, attr)->0;
                                let v = merge_patched(m[i].1, p);
                                assert(e == object_insert(m, attr, v));
                                crate::json::lemma_object_insert_get(m, attr, v, attr);
                            },
                            AttrEditV::Delete => {
                                if crate::json::distinct_members(m) {
                                    crate::json::lemma_object_remove_get(m, attr);
                                }
                            },
                        }
                    },
                    _ => {},
                }
            }
        },
        Err(_) => {},
    }
}

} // verus!
