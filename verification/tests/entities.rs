use cognets_broker::domain::EntityEventKind;
use cognets_broker::error::BrokerError;
use cognets_broker::headers::RequestContext;
use cognets_broker::json::Json;
use cognets_broker::services::entities::{
    append_attrs, apply_entity_mutation, batch_create, batch_delete, batch_merge, batch_update, batch_upsert, create,
    delete, merge, replace, update_attrs, EntityMutation, SwarmOperation,
};
use cognets_broker::store::{MemoryEntityRepository, StoredDocument};

fn conv(v: &serde_json::Value) -> Json {
    match v {
        serde_json::Value::Null => Json::Null,
        serde_json::Value::Bool(b) => Json::Bool(*b),
        serde_json::Value::Number(n) => Json::Number(n.to_string()),
        serde_json::Value::String(s) => Json::Str(s.clone()),
        serde_json::Value::Array(a) => Json::Array(a.iter().map(conv).collect()),
        serde_json::Value::Object(o) => Json::Object(o.iter().map(|(k, v)| (k.clone(), conv(v))).collect()),
    }
}

fn j(text: &str) -> Json {
    conv(&serde_json::from_str::<serde_json::Value>(text).unwrap())
}

fn context(tenant: &str) -> RequestContext {
    RequestContext { tenant: tenant.to_string(), via: Vec::new(), link_header: None }
}

const NOW: &str = "2024-05-01T00:00:00Z";

fn stored(store: &MemoryEntityRepository, tenant: &str, id: &str) -> Option<Json> {
    store.get(tenant, id).map(|d| d.doc.clone())
}

#[test]
fn create_then_read_returns_stamped_entity() {
    let mut store = MemoryEntityRepository::new();
    let entity = j(r#"{"id": "urn:ngsi-ld:Vehicle:1", "type": "Vehicle", "speed": {"type": "Property", "value": 1}, "deletedAt": "x"}"#);
    let (result, changes) = create(&mut store, &context("t"), entity, NOW);
    assert_eq!(result, Ok("urn:ngsi-ld:Vehicle:1".to_string()));
    let doc = stored(&store, "t", "urn:ngsi-ld:Vehicle:1").unwrap();
    assert_eq!(doc.get_str("createdAt").map(|s| s.as_str()), Some(NOW));
    assert_eq!(doc.get_str("modifiedAt").map(|s| s.as_str()), Some(NOW));
    assert!(doc.get_member("deletedAt").is_none());
    assert_eq!(changes.len(), 1);
    assert_eq!(changes[0].event.kind, EntityEventKind::Created);
    assert_eq!(changes[0].event.changed_attributes, vec!["speed".to_string()]);
    assert_eq!(changes[0].version_at, NOW);
    assert!(stored(&store, "other", "urn:ngsi-ld:Vehicle:1").is_none());
}

#[test]
fn create_entity_returns_problem_details_for_invalid_id() {
    let mut store = MemoryEntityRepository::new();
    let (result, changes) = create(&mut store, &context("t"), j(r#"{"id": "vehicle-1", "type": "Vehicle"}"#), NOW);
    let error = result.unwrap_err();
    assert_eq!(error, BrokerError::BadRequest("entity id must be a URI".to_string()));
    let details = error.details();
    assert_eq!(details.title.as_deref(), Some("InvalidRequest"));
    assert_eq!(details.detail, "entity id must be a URI");
    assert_eq!(details.status, 400);
    assert!(changes.is_empty());
}

#[test]
fn creating_a_taken_id_is_a_conflict() {
    let mut store = MemoryEntityRepository::new();
    let entity = j(r#"{"id": "urn:a", "type": "T"}"#);
    let _ = create(&mut store, &context("t"), entity.clone(), NOW);
    let (result, changes) = create(&mut store, &context("t"), entity, "2024-06-01T00:00:00Z");
    assert_eq!(result, Err(BrokerError::Conflict("entity urn:a already exists".to_string())));
    assert!(changes.is_empty());
    assert_eq!(stored(&store, "t", "urn:a").unwrap().get_str("createdAt").map(|s| s.as_str()), Some(NOW));
}

#[test]
fn invalid_payloads_are_rejected_with_their_reason() {
    let mut store = MemoryEntityRepository::new();
    let cases = [
        ("[1]", "entity payload must be a JSON object"),
        (r#"{"type": "T"}"#, "entity id is required"),
        (r#"{"id": "urn:a"}"#, "entity type is required"),
        (r#"{"id": "urn:a", "type": 5}"#, "entity type must be a string or an array of strings"),
    ];
    for (text, message) in cases {
        let (result, _) = create(&mut store, &context("t"), j(text), NOW);
        assert_eq!(result, Err(BrokerError::BadRequest(message.to_string())));
    }
}

#[test]
fn context_link_is_backfilled_on_create() {
    let mut store = MemoryEntityRepository::new();
    let ctx = RequestContext {
        tenant: "t".to_string(),
        via: Vec::new(),
        link_header: Some("<https://example.org/ctx.jsonld>; rel=\"http://www.w3.org/ns/json-ld#context\"".to_string()),
    };
    let (result, _) = create(&mut store, &ctx, j(r#"{"id": "urn:a", "type": "T"}"#), NOW);
    assert!(result.is_ok());
    let doc = stored(&store, "t", "urn:a").unwrap();
    assert_eq!(doc.get_str("@context").map(|s| s.as_str()), Some("https://example.org/ctx.jsonld"));
}

#[test]
fn delete_removes_and_reports_missing_entities() {
    let mut store = MemoryEntityRepository::new();
    let _ = create(&mut store, &context("t"), j(r#"{"id": "urn:a", "type": "T"}"#), NOW);
    let (wrong_type, _) = delete(&mut store, &context("t"), "urn:a", Some("Other"));
    assert_eq!(wrong_type, Err(BrokerError::NotFound("entity type Other does not match the stored entity".to_string())));
    let (result, changes) = delete(&mut store, &context("t"), "urn:a", Some("T"));
    assert_eq!(result, Ok(()));
    assert_eq!(changes[0].event.kind, EntityEventKind::Deleted);
    assert!(stored(&store, "t", "urn:a").is_none());
    let (again, _) = delete(&mut store, &context("t"), "urn:a", None);
    assert_eq!(again, Err(BrokerError::NotFound("entity urn:a was not found".to_string())));
}

#[test]
fn merge_patches_sets_id_and_stamp() {
    let mut store = MemoryEntityRepository::new();
    let _ = create(&mut store, &context("t"), j(r#"{"id": "urn:a", "type": "T", "speed": 1, "brand": "Fiat"}"#), NOW);
    let patch = j(r#"{"speed": 2, "brand": null, "color": {"value": "red"}}"#);
    let (result, changes) = merge(&mut store, &context("t"), "urn:a", None, &patch, "2024-06-01T00:00:00Z");
    assert_eq!(result, Ok(()));
    let doc = stored(&store, "t", "urn:a").unwrap();
    assert_eq!(doc.get_member("speed"), Some(&Json::Number("2".to_string())));
    assert!(doc.get_member("brand").is_none());
    assert_eq!(doc.get_member("color"), Some(&j(r#"{"value": "red"}"#)));
    assert_eq!(doc.get_str("modifiedAt").map(|s| s.as_str()), Some("2024-06-01T00:00:00Z"));
    assert_eq!(changes[0].event.changed_attributes, vec!["speed".to_string(), "brand".to_string(), "color".to_string()]);
    let (mismatch, _) = merge(&mut store, &context("t"), "urn:a", None, &j(r#"{"id": "urn:b"}"#), NOW);
    assert_eq!(mismatch, Err(BrokerError::BadRequest("payload id must match the entity id in the path".to_string())));
}

#[test]
fn replace_keeps_creation_time() {
    let mut store = MemoryEntityRepository::new();
    let _ = create(&mut store, &context("t"), j(r#"{"id": "urn:a", "type": "T", "speed": 1}"#), NOW);
    let (result, _) = replace(&mut store, &context("t"), "urn:a", None, j(r#"{"type": "T", "color": "red"}"#), "2024-07-01T00:00:00Z");
    assert_eq!(result, Ok(()));
    let doc = stored(&store, "t", "urn:a").unwrap();
    assert_eq!(doc.get_str("id").map(|s| s.as_str()), Some("urn:a"));
    assert_eq!(doc.get_str("createdAt").map(|s| s.as_str()), Some(NOW));
    assert_eq!(doc.get_str("modifiedAt").map(|s| s.as_str()), Some("2024-07-01T00:00:00Z"));
    assert!(doc.get_member("speed").is_none());
}

#[test]
fn append_and_update_attributes_report_unchanged_ones() {
    let mut store = MemoryEntityRepository::new();
    let _ = create(&mut store, &context("t"), j(r#"{"id": "urn:a", "type": "T", "speed": 1}"#), NOW);
    let fragment = j(r#"{"speed": 2, "color": "red", "type": "X"}"#);
    let (result, changes) = append_attrs(&mut store, &context("t"), "urn:a", None, &fragment, true, NOW);
    let report = result.unwrap();
    assert_eq!(report.updated, vec!["color".to_string()]);
    assert_eq!(report.not_updated.len(), 1);
    assert_eq!(report.not_updated[0].attribute_name, "speed");
    assert_eq!(report.not_updated[0].reason.status, 409);
    assert_eq!(report.not_updated[0].reason.detail, "attribute speed already exists");
    assert_eq!(changes.len(), 1);

    let fragment = j(r#"{"speed": 3, "weight": 9}"#);
    let (result, _) = update_attrs(&mut store, &context("t"), "urn:a", None, &fragment, NOW);
    let report = result.unwrap();
    assert_eq!(report.updated, vec!["speed".to_string()]);
    assert_eq!(report.not_updated[0].reason.status, 404);
    assert_eq!(report.not_updated[0].reason.detail, "attribute weight does not exist");
    let doc = stored(&store, "t", "urn:a").unwrap();
    assert_eq!(doc.get_member("speed"), Some(&Json::Number("3".to_string())));
    assert_eq!(doc.get_str("type").map(|s| s.as_str()), Some("T"));
}

#[test]
fn batch_create_reports_conflicts_and_invalid_items() {
    let mut store = MemoryEntityRepository::new();
    let entities = vec![
        j(r#"{"id": "urn:a", "type": "T"}"#),
        j(r#"{"id": "urn:a", "type": "T"}"#),
        j(r#"{"id": "bad", "type": "T"}"#),
        j(r#"{"id": "urn:b", "type": "T"}"#),
    ];
    let (result, changes) = batch_create(&mut store, &context("t"), &entities, NOW);
    let report = result.unwrap_err();
    assert_eq!(report.success, vec!["urn:a".to_string(), "urn:b".to_string()]);
    assert_eq!(report.errors.len(), 2);
    assert_eq!(report.errors[0].entity_id, "urn:a");
    assert_eq!(report.errors[0].error.status, 409);
    assert_eq!(report.errors[0].error.title.as_deref(), Some("BatchOperationFailed"));
    assert_eq!(report.errors[1].entity_id, "unknown");
    assert_eq!(report.errors[1].error.detail, "entity id must be a URI");
    assert_eq!(changes.len(), 2);
    let (ok, _) = batch_create(&mut store, &context("t"), &vec![j(r#"{"id": "urn:c", "type": "T"}"#)], NOW);
    assert_eq!(ok.unwrap(), vec!["urn:c".to_string()]);
}

#[test]
fn batch_upsert_creates_or_updates() {
    let mut store = MemoryEntityRepository::new();
    let _ = create(&mut store, &context("t"), j(r#"{"id": "urn:a", "type": "T", "speed": 1, "brand": "Fiat"}"#), NOW);
    let entities = vec![j(r#"{"id": "urn:a", "type": "T", "speed": 2}"#), j(r#"{"id": "urn:b", "type": "T"}"#)];
    let (result, changes) = batch_upsert(&mut store, &context("t"), &entities, true, "2024-08-01T00:00:00Z");
    let outcome = result.unwrap().unwrap();
    assert_eq!(outcome.created_ids, vec!["urn:b".to_string()]);
    assert!(outcome.had_updates);
    assert_eq!(changes.len(), 2);
    let doc = stored(&store, "t", "urn:a").unwrap();
    assert_eq!(doc.get_member("speed"), Some(&Json::Number("2".to_string())));
    assert_eq!(doc.get_str("brand").map(|s| s.as_str()), Some("Fiat"));

    let (result, _) = batch_upsert(&mut store, &context("t"), &vec![j(r#"{"id": "urn:a", "type": "T"}"#)], false, NOW);
    assert!(!result.unwrap().unwrap().created_ids.contains(&"urn:a".to_string()));
    let doc = stored(&store, "t", "urn:a").unwrap();
    assert!(doc.get_member("brand").is_none());
    assert_eq!(doc.get_str("createdAt").map(|s| s.as_str()), Some("2024-08-01T00:00:00Z"));
}

#[test]
fn batch_update_and_delete_report_missing_entities() {
    let mut store = MemoryEntityRepository::new();
    let _ = create(&mut store, &context("t"), j(r#"{"id": "urn:a", "type": "T", "speed": 1}"#), NOW);
    let entities = vec![j(r#"{"id": "urn:a", "speed": 5, "color": "red"}"#), j(r#"{"speed": 1}"#), j(r#"{"id": "urn:z"}"#)];
    let (result, changes) = batch_update(&mut store, &context("t"), &entities, true, NOW);
    let report = result.unwrap_err();
    assert_eq!(report.success, vec!["urn:a".to_string()]);
    assert_eq!(report.errors[0].entity_id, "unknown");
    assert_eq!(report.errors[0].error.detail, "payload entity must include an id");
    assert_eq!(report.errors[1].error.status, 404);
    assert_eq!(changes.len(), 1);
    let doc = stored(&store, "t", "urn:a").unwrap();
    assert_eq!(doc.get_member("speed"), Some(&Json::Number("1".to_string())));
    assert_eq!(doc.get_str("color").map(|s| s.as_str()), Some("red"));

    let (result, changes) = batch_delete(&mut store, &context("t"), &vec!["urn:a".to_string(), "urn:a".to_string()], NOW);
    let report = result.unwrap_err();
    assert_eq!(report.success, vec!["urn:a".to_string()]);
    assert_eq!(report.errors[0].error.detail, "entity urn:a was not found");
    assert_eq!(changes[0].version_at, NOW);
    assert!(stored(&store, "t", "urn:a").is_none());
}

#[test]
fn merge_batch_updates_and_deletes_attributes() {
    let mut store = MemoryEntityRepository::new();
    store.replace(StoredDocument {
        tenant: "default".to_string(),
        ngsi_id: "urn:ngsi-ld:Vehicle:merge-1".to_string(),
        doc: j(r#"{"id": "urn:ngsi-ld:Vehicle:merge-1", "type": "Vehicle", "speed": {"type": "Property", "value": 42},
                  "brand": {"type": "Property", "value": "Fiat"}, "createdAt": "2024-01-01T00:00:00Z", "modifiedAt": "2024-01-01T00:00:00Z"}"#),
    });
    let patch = j(r#"{"id": "urn:ngsi-ld:Vehicle:merge-1", "type": "Vehicle", "speed": {"type": "Property", "value": 84}, "brand": null}"#);
    let (result, _) = batch_merge(&mut store, &context("default"), &vec![patch], NOW);
    assert_eq!(result.map_err(|r| r.errors.len()), Ok(()));
    let doc = stored(&store, "default", "urn:ngsi-ld:Vehicle:merge-1").unwrap();
    assert_eq!(doc.get_member("speed").unwrap().get_member("value"), Some(&Json::Number("84".to_string())));
    assert!(doc.get_member("brand").is_none());
}

#[test]
fn merge_batch_returns_multi_status_for_missing_entities() {
    let mut store = MemoryEntityRepository::new();
    let _ = create(&mut store, &context("default"), j(r#"{"id": "urn:ngsi-ld:Vehicle:merge-2", "type": "Vehicle"}"#), NOW);
    let entities = vec![
        j(r#"{"id": "urn:ngsi-ld:Vehicle:merge-2", "type": "Vehicle", "speed": {"type": "Property", "value": 21}}"#),
        j(r#"{"id": "urn:ngsi-ld:Vehicle:merge-missing", "type": "Vehicle", "speed": {"type": "Property", "value": 22}}"#),
    ];
    let (result, _) = batch_merge(&mut store, &context("default"), &entities, NOW);
    let report = result.unwrap_err();
    assert_eq!(report.success, vec!["urn:ngsi-ld:Vehicle:merge-2".to_string()]);
    assert_eq!(report.errors.len(), 1);
    assert_eq!(report.errors[0].entity_id, "urn:ngsi-ld:Vehicle:merge-missing");
    assert_eq!(report.errors[0].error.status, 404);
}

#[test]
fn replicated_mutations_apply_unless_older() {
    let mut store = MemoryEntityRepository::new();
    let mutation = EntityMutation {
        operation: SwarmOperation::Upsert,
        entity_id: "urn:a".to_string(),
        version_at: "2024-01-01T00:00:01Z".to_string(),
        event_kind: EntityEventKind::Created,
        changed_attributes: vec!["speed".to_string()],
        snapshot: Some(j(r#"{"id": "urn:a", "modifiedAt": "2024-01-01T00:00:01Z", "speed": 1}"#)),
    };
    let changes = apply_entity_mutation(&mut store, "t", &mutation);
    assert_eq!(changes.len(), 1);
    assert!(changes[0].notify);
    let older = EntityMutation {
        operation: SwarmOperation::Delete,
        entity_id: "urn:a".to_string(),
        version_at: "2024-01-01T00:00:00Z".to_string(),
        event_kind: EntityEventKind::Deleted,
        changed_attributes: Vec::new(),
        snapshot: None,
    };
    assert!(apply_entity_mutation(&mut store, "t", &older).is_empty());
    assert!(stored(&store, "t", "urn:a").is_some());
    let newer = EntityMutation { version_at: "2024-01-02T00:00:00Z".to_string(), ..older };
    let _ = apply_entity_mutation(&mut store, "t", &newer);
    assert!(stored(&store, "t", "urn:a").is_none());
}

#[test]
fn store_insert_conflicts_and_lists_tenant_documents() {
    let mut store = MemoryEntityRepository::new();
    let doc = StoredDocument { tenant: "t".to_string(), ngsi_id: "urn:a".to_string(), doc: j(r#"{"id": "urn:a"}"#) };
    assert_eq!(store.insert(doc.clone()), Ok(()));
    assert_eq!(store.insert(doc), Err(BrokerError::Conflict("entity urn:a already exists".to_string())));
    store.replace(StoredDocument { tenant: "u".to_string(), ngsi_id: "urn:b".to_string(), doc: j(r#"{"id": "urn:b"}"#) });
    assert_eq!(store.tenant_documents("t"), vec![j(r#"{"id": "urn:a"}"#)]);
    assert_eq!(store.delete("u", "urn:b").map(|d| d.ngsi_id), Some("urn:b".to_string()));
    assert!(store.tenant_documents("u").is_empty());
}
