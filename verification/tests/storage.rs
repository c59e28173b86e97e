use cognets_broker::domain::{EntityEventKind, SubscriptionDocument, TemporalAttributeRecord, TemporalEntityDocument};
use cognets_broker::error::BrokerError;
use cognets_broker::headers::RequestContext;
use cognets_broker::json::Json;
use cognets_broker::services::swarm::{
    entity_swarm_input, local_swarm_record, record_local_swarm_mutation, record_local_swarm_mutation_at, SwarmMutationInput,
};
use cognets_broker::domain::{EntityChange, EntityEvent};
use cognets_broker::persistence::swarm::{MemorySwarmMutationRepository, SwarmMutationRecord};
use cognets_broker::persistence::memory::{
    EntityMutationDocument, EntityMutationRepository, MemoryEntityMutationRepository, MemorySubscriptionRepository,
    MemoryTemporalRepository,
};
use cognets_broker::services::entities::{EntityMutation, SwarmOperation};
use cognets_broker::services::federation::{apply_temporal_mutation, swarm_history_items};
use cognets_broker::persistence::repository::{
    filter_entity_documents, filter_temporal_documents, update_delivery_fields, update_status_field,
};
use cognets_broker::query::planner::QueryPlan;
use cognets_broker::query::types::SubscriptionQuery;
use cognets_broker::services::subscriptions;
use cognets_broker::store::StoredDocument;

fn conv(v: &serde_json::Value) -> Json {
    match v {
        serde_json::Value::Null => Json::Null,
        serde_json::Value::Bool(b) => Json::Bool(*b),
        serde_json::Value::Number(n) => Json::Number(n.to_string()),
        serde_json::Value::String(s) => Json::Str(s.clone()),
        serde_json::Value::Array(a) => Json::Array(a.iter().map(conv).collect()),
        serde_json::Value::Object(o) => Json::Object(o.iter().map(|(k, v)| (k.clone(), conv(v))).collect()),
    }
}

fn j(text: &str) -> Json {
    conv(&serde_json::from_str::<serde_json::Value>(text).unwrap())
}

fn context(tenant: &str) -> RequestContext {
    RequestContext { tenant: tenant.to_string(), via: Vec::new(), link_header: None }
}

fn plan() -> QueryPlan {
    QueryPlan {
        ids: Vec::new(),
        entity_types: Vec::new(),
        id_pattern: None,
        attrs: Vec::new(),
        q_expression: None,
        geo: None,
        limit: None,
    }
}

fn stored(id: &str, doc: &str) -> StoredDocument {
    StoredDocument { tenant: "t".to_string(), ngsi_id: id.to_string(), doc: j(doc) }
}

fn ids(docs: &[StoredDocument]) -> Vec<String> {
    docs.iter().map(|d| d.ngsi_id.clone()).collect()
}

#[test]
fn status_field_is_set_on_objects_only() {
    let mut doc = j(r#"{"id": "urn:s", "status": "active"}"#);
    update_status_field(&mut doc, "status", Json::Str("paused".to_string()));
    assert_eq!(doc, j(r#"{"id": "urn:s", "status": "paused"}"#));
    update_status_field(&mut doc, "modifiedAt", Json::Str("now".to_string()));
    assert_eq!(doc, j(r#"{"id": "urn:s", "status": "paused", "modifiedAt": "now"}"#));
    let mut text = Json::Str("x".to_string());
    update_status_field(&mut text, "status", Json::Null);
    assert_eq!(text, Json::Str("x".to_string()));
}

#[test]
fn delivery_counters_accumulate() {
    let mut doc = j(r#"{"id": "urn:s", "notification": {"timesSent": 2, "status": "ok"}}"#);
    update_delivery_fields(&mut doc, 3, 1, "T1");
    assert_eq!(
        doc,
        j(r#"{"id": "urn:s", "notification": {"timesSent": 6, "status": "failed", "lastNotification": "T1", "lastSuccess": "T1", "timesFailed": 1, "lastFailure": "T1"}, "modifiedAt": "T1"}"#)
    );
    update_delivery_fields(&mut doc, 1, 0, "T2");
    assert_eq!(doc.get_member("notification").unwrap().get_member("timesSent"), Some(&Json::Number("7".to_string())));
    assert_eq!(doc.get_member("notification").unwrap().get_str("status").map(|s| s.as_str()), Some("ok"));
    assert_eq!(doc.get_member("notification").unwrap().get_member("timesFailed"), Some(&Json::Number("1".to_string())));
}

#[test]
fn no_delivery_changes_nothing() {
    let mut doc = j(r#"{"id": "urn:s", "notification": {}}"#);
    let before = doc.clone();
    update_delivery_fields(&mut doc, 0, 0, "T");
    assert_eq!(doc, before);
    let mut bare = j(r#"{"id": "urn:s"}"#);
    update_delivery_fields(&mut bare, 1, 0, "T");
    assert_eq!(bare, j(r#"{"id": "urn:s", "modifiedAt": "T"}"#));
}

#[test]
fn plan_filters_ids_types_pattern_attrs_and_limit() {
    let docs = vec![
        stored("urn:a:1", r#"{"id": "urn:a:1", "type": "A", "speed": 1}"#),
        stored("urn:b:2", r#"{"id": "urn:b:2", "type": ["B", "A"]}"#),
        stored("urn:a:3", r#"{"id": "urn:a:3", "type": "C", "speed": 2}"#),
    ];
    let mut p = plan();
    p.entity_types = vec!["A".to_string()];
    assert_eq!(ids(&filter_entity_documents(docs.clone(), &p).unwrap()), vec!["urn:a:1", "urn:b:2"]);
    p.attrs = vec!["speed".to_string()];
    assert_eq!(ids(&filter_entity_documents(docs.clone(), &p).unwrap()), vec!["urn:a:1"]);
    let mut p = plan();
    p.id_pattern = Some("^urn:a".to_string());
    assert_eq!(ids(&filter_entity_documents(docs.clone(), &p).unwrap()), vec!["urn:a:1", "urn:a:3"]);
    p.limit = Some(1);
    assert_eq!(ids(&filter_entity_documents(docs.clone(), &p).unwrap()), vec!["urn:a:1"]);
    let mut p = plan();
    p.ids = vec!["urn:a:3".to_string(), "urn:x".to_string()];
    assert_eq!(ids(&filter_entity_documents(docs.clone(), &p).unwrap()), vec!["urn:a:3"]);
}

#[test]
fn invalid_id_pattern_is_a_bad_request() {
    let mut p = plan();
    p.id_pattern = Some("(".to_string());
    match filter_entity_documents(vec![stored("urn:a", r#"{"id": "urn:a"}"#)], &p) {
        Err(BrokerError::BadRequest(message)) => assert!(message.starts_with("invalid idPattern: ")),
        other => panic!("unexpected {other:?}"),
    }
}

#[test]
fn temporal_documents_are_filtered_with_their_history() {
    let docs = vec![
        TemporalEntityDocument { tenant: "t".to_string(), ngsi_id: "urn:a".to_string(), doc: j(r#"{"id": "urn:a", "type": "A"}"#), history: Vec::new() },
        TemporalEntityDocument { tenant: "t".to_string(), ngsi_id: "urn:b".to_string(), doc: j(r#"{"id": "urn:b", "type": "B"}"#), history: Vec::new() },
    ];
    let mut p = plan();
    p.entity_types = vec!["B".to_string()];
    let kept = filter_temporal_documents(docs, &p).unwrap();
    assert_eq!(kept.len(), 1);
    assert_eq!(kept[0].ngsi_id, "urn:b");
}

fn subscription(id: &str) -> Json {
    j(&format!(
        r#"{{"id": "{id}", "type": "Subscription", "isActive": false, "notification": {{"endpoint": {{"uri": "http://example.org/notify"}}, "timesSent": 9}}}}"#
    ))
}

#[test]
fn subscription_lifecycle() {
    let mut repository = MemorySubscriptionRepository::new();
    let ctx = context("t");
    let id = subscriptions::create_at(&mut repository, &ctx, subscription("urn:sub:1"), "T0", "g").unwrap();
    assert_eq!(id, "urn:sub:1");
    let stored = subscriptions::get(&repository, &ctx, "urn:sub:1").unwrap();
    assert_eq!(stored.get_str("status").map(|s| s.as_str()), Some("paused"));
    assert_eq!(stored.get_str("createdAt").map(|s| s.as_str()), Some("T0"));
    assert_eq!(stored.get_member("notification").unwrap().get_member("timesSent"), Some(&Json::Number("0".to_string())));

    let again = subscriptions::create_at(&mut repository, &ctx, subscription("urn:sub:1"), "T1", "g");
    assert_eq!(again, Err(BrokerError::Conflict("subscription urn:sub:1 already exists".to_string())));

    subscriptions::patch(&mut repository, &ctx, "urn:sub:1", &j(r#"{"id": "other", "q": "speed>1"}"#), "T2").unwrap();
    let patched = subscriptions::get(&repository, &ctx, "urn:sub:1").unwrap();
    assert_eq!(patched.get_str("id").map(|s| s.as_str()), Some("urn:sub:1"));
    assert_eq!(patched.get_str("q").map(|s| s.as_str()), Some("speed>1"));
    assert_eq!(patched.get_str("modifiedAt").map(|s| s.as_str()), Some("T2"));

    let listed = subscriptions::list(&repository, &ctx, &SubscriptionQuery { limit: None, count: None, local: None });
    assert_eq!(listed.total_count, 1);
    assert!(subscriptions::list(&repository, &context("other"), &SubscriptionQuery { limit: None, count: None, local: None }).total_count == 0);

    assert_eq!(subscriptions::delete(&mut repository, &ctx, "urn:sub:1"), Ok(()));
    assert_eq!(
        subscriptions::get(&repository, &ctx, "urn:sub:1"),
        Err(BrokerError::NotFound("subscription urn:sub:1 was not found".to_string()))
    );
    assert_eq!(
        subscriptions::delete(&mut repository, &ctx, "urn:sub:1"),
        Err(BrokerError::NotFound("subscription urn:sub:1 was not found".to_string()))
    );
    assert_eq!(
        subscriptions::patch(&mut repository, &ctx, "urn:sub:1", &j("{}"), "T3"),
        Err(BrokerError::NotFound("subscription urn:sub:1 was not found".to_string()))
    );
}

#[test]
fn subscription_without_id_gets_a_generated_one() {
    let mut repository = MemorySubscriptionRepository::new();
    let payload = j(r#"{"type": "Subscription", "notification": {"endpoint": {"uri": "http://example.org/n"}}}"#);
    let id = subscriptions::create_at(&mut repository, &context("t"), payload, "T", "abc").unwrap();
    assert_eq!(id, "urn:ngsi-ld:Subscription:abc");
    let bad = subscriptions::create_at(&mut repository, &context("t"), j(r#"{"id": "urn:x", "type": "Subscription"}"#), "T", "abc");
    assert_eq!(bad, Err(BrokerError::BadRequest("subscription notification.endpoint.uri is required".to_string())));
}

#[test]
fn subscription_listing_limits_and_tenants_are_sorted() {
    let mut repository = MemorySubscriptionRepository::new();
    for (tenant, id) in [("zeta", "urn:1"), ("alpha", "urn:2"), ("zeta", "urn:3"), ("mid", "urn:4")] {
        repository
            .insert(SubscriptionDocument { tenant: tenant.to_string(), ngsi_id: id.to_string(), doc: j(&format!(r#"{{"id": "{id}"}}"#)) })
            .unwrap();
    }
    let listed = repository.list("zeta", Some(1));
    assert_eq!(listed.len(), 1);
    assert_eq!(listed[0].ngsi_id, "urn:1");
    assert_eq!(repository.list("zeta", None).len(), 2);
    assert_eq!(repository.list_tenants(), vec!["alpha", "mid", "zeta"]);
}

#[test]
fn delivery_marks_update_the_stored_subscription() {
    let mut repository = MemorySubscriptionRepository::new();
    let ctx = context("t");
    subscriptions::create_at(&mut repository, &ctx, subscription("urn:sub:2"), "T0", "g").unwrap();
    repository.mark_delivery(&ctx.tenant, "urn:sub:2", true, "T1");
    repository.mark_delivery_batch(&ctx.tenant, "urn:sub:2", 0, 2, "T2");
    repository.mark_delivery(&ctx.tenant, "urn:missing", false, "T3");
    let doc = subscriptions::get(&repository, &ctx, "urn:sub:2").unwrap();
    let notification = doc.get_member("notification").unwrap();
    assert_eq!(notification.get_member("timesSent"), Some(&Json::Number("3".to_string())));
    assert_eq!(notification.get_member("timesFailed"), Some(&Json::Number("2".to_string())));
    assert_eq!(notification.get_str("lastSuccess").map(|s| s.as_str()), Some("T1"));
    assert_eq!(notification.get_str("lastFailure").map(|s| s.as_str()), Some("T2"));
    assert_eq!(notification.get_str("status").map(|s| s.as_str()), Some("failed"));
    assert_eq!(doc.get_str("modifiedAt").map(|s| s.as_str()), Some("T2"));
}

fn event(id: &str, at: i64) -> EntityMutationDocument {
    EntityMutationDocument { event_id: id.to_string(), created_at_millis: at, doc: j(&format!(r#"{{"event": "{id}"}}"#)) }
}

#[test]
fn mutation_log_lists_events_in_order_after_a_time() {
    let mut log = MemoryEntityMutationRepository::new();
    log.insert(event("e3", 30)).unwrap();
    log.insert_many(vec![event("e1", 10), event("e2b", 20), event("e2a", 20)]).unwrap();
    log.insert(event("e1", 25)).unwrap();
    let listed: Vec<(String, i64)> = log.list_after(20).unwrap().into_iter().map(|d| (d.event_id, d.created_at_millis)).collect();
    assert_eq!(
        listed,
        vec![("e2a".to_string(), 20), ("e2b".to_string(), 20), ("e1".to_string(), 25), ("e3".to_string(), 30)]
    );
    assert_eq!(log.list_after(31).unwrap().len(), 0);
    assert_eq!(log.list_after(i64::MIN).unwrap().len(), 4);
}

fn temporal(tenant: &str, id: &str, doc: &str) -> TemporalEntityDocument {
    TemporalEntityDocument { tenant: tenant.to_string(), ngsi_id: id.to_string(), doc: j(doc), history: Vec::new() }
}

#[test]
fn temporal_repository_upserts_and_deletes_by_key() {
    let mut repository = MemoryTemporalRepository::new();
    assert!(repository.upsert(temporal("t", "urn:a", r#"{"id": "urn:a", "v": 1}"#)));
    assert!(repository.upsert(temporal("u", "urn:a", r#"{"id": "urn:a", "v": 9}"#)));
    assert!(!repository.upsert(temporal("t", "urn:a", r#"{"id": "urn:a", "v": 2}"#)));
    assert_eq!(repository.get("t", "urn:a").unwrap().doc, j(r#"{"id": "urn:a", "v": 2}"#));
    assert_eq!(repository.tenant_documents("t").len(), 1);
    assert!(repository.delete("t", "urn:a"));
    assert!(!repository.delete("t", "urn:a"));
    assert!(repository.get("t", "urn:a").is_none());
    assert!(repository.get("u", "urn:a").is_some());
}

fn mutation(operation: SwarmOperation, version_at: &str, snapshot: Option<&str>) -> EntityMutation {
    EntityMutation {
        operation,
        entity_id: "urn:a".to_string(),
        version_at: version_at.to_string(),
        event_kind: EntityEventKind::Updated,
        changed_attributes: Vec::new(),
        snapshot: snapshot.map(j),
    }
}

fn record(instance: &str) -> TemporalAttributeRecord {
    TemporalAttributeRecord {
        attr_id: "speed".to_string(),
        instance_id: instance.to_string(),
        observed_at: None,
        created_at: None,
        modified_at: None,
        deleted_at: None,
        value: Json::Number("1".to_string()),
    }
}

#[test]
fn temporal_mutations_apply_unless_older() {
    let mut repository = MemoryTemporalRepository::new();
    let snapshot = r#"{"id": "urn:a", "modifiedAt": "2024-01-02T00:00:00Z", "__swarmHistory": [{"attrId": "speed"}, 3]}"#;
    let items = swarm_history_items(&j(snapshot));
    assert_eq!(items, vec![j(r#"{"attrId": "speed"}"#), Json::Number("3".to_string())]);
    apply_temporal_mutation(&mut repository, "t", &mutation(SwarmOperation::Upsert, "2024-01-02T00:00:00Z", Some(snapshot)), vec![record("i1")]);
    let stored = repository.get("t", "urn:a").unwrap();
    assert_eq!(stored.doc, j(r#"{"id": "urn:a", "modifiedAt": "2024-01-02T00:00:00Z"}"#));
    assert_eq!(stored.history.len(), 1);
    apply_temporal_mutation(&mut repository, "t", &mutation(SwarmOperation::Delete, "2024-01-01T00:00:00Z", None), Vec::new());
    assert!(repository.get("t", "urn:a").is_some());
    apply_temporal_mutation(&mut repository, "t", &mutation(SwarmOperation::Upsert, "2024-01-03T00:00:00Z", None), Vec::new());
    assert_eq!(repository.get("t", "urn:a").unwrap().history.len(), 1);
    apply_temporal_mutation(&mut repository, "t", &mutation(SwarmOperation::Delete, "2024-01-03T00:00:00Z", None), Vec::new());
    assert!(repository.get("t", "urn:a").is_none());
    assert!(swarm_history_items(&j(r#"{"__swarmHistory": {}}"#)).is_empty());
}

#[test]
fn entity_store_query_filters_one_tenant() {
    let mut store = cognets_broker::store::MemoryEntityRepository::new();
    store.insert(StoredDocument { tenant: "b".to_string(), ngsi_id: "urn:1".to_string(), doc: j(r#"{"id": "urn:1", "type": "A"}"#) }).unwrap();
    store.insert(StoredDocument { tenant: "a".to_string(), ngsi_id: "urn:1".to_string(), doc: j(r#"{"id": "urn:1", "type": "A"}"#) }).unwrap();
    store.insert(StoredDocument { tenant: "a".to_string(), ngsi_id: "urn:2".to_string(), doc: j(r#"{"id": "urn:2", "type": "B"}"#) }).unwrap();
    let mut p = plan();
    p.entity_types = vec!["A".to_string()];
    let found = store.query("a", &p).unwrap();
    assert_eq!(found.len(), 1);
    assert_eq!(found[0].tenant, "a");
    assert_eq!(found[0].ngsi_id, "urn:1");
    assert_eq!(store.query("a", &plan()).unwrap().len(), 2);
    let mut bad = plan();
    bad.id_pattern = Some("[".to_string());
    assert!(matches!(store.query("a", &bad), Err(BrokerError::BadRequest(_))));
    assert_eq!(store.list_tenants(), vec!["a", "b"]);
}

#[test]
fn subscription_created_now_gets_an_id_and_timestamps() {
    let mut repository = MemorySubscriptionRepository::new();
    let payload = j(r#"{"type": "Subscription", "notification": {"endpoint": {"uri": "http://example.org/n"}}}"#);
    let id = subscriptions::create(&mut repository, &context("t"), payload).unwrap();
    assert!(id.starts_with("urn:ngsi-ld:Subscription:"));
    let stored = subscriptions::get(&repository, &context("t"), &id).unwrap();
    assert!(stored.get_str("createdAt").is_some());
    assert_eq!(stored.get_str("createdAt"), stored.get_str("modifiedAt"));
}

#[test]
fn entity_store_insert_many_is_all_or_nothing() {
    let mut store = cognets_broker::store::MemoryEntityRepository::new();
    store.insert(stored("urn:2", r#"{"id": "urn:2"}"#)).unwrap();
    let conflict = store.insert_many(vec![stored("urn:1", r#"{"id": "urn:1"}"#), stored("urn:2", r#"{"id": "urn:2", "v": 1}"#)]);
    assert_eq!(conflict, Err(BrokerError::Conflict("entity urn:2 already exists".to_string())));
    assert!(store.get("t", "urn:1").is_none());
    store.insert_many(vec![stored("urn:1", r#"{"id": "urn:1"}"#), stored("urn:3", r#"{"id": "urn:3"}"#)]).unwrap();
    assert!(store.get("t", "urn:1").is_some());
    assert!(store.get("t", "urn:3").is_some());
    assert_eq!(store.tenant_documents("t").len(), 3);
}

fn swarm_record(tenant: &str, id: &str, at: i64, n: &str) -> SwarmMutationRecord {
    SwarmMutationRecord {
        tenant: tenant.to_string(),
        mutation_id: id.to_string(),
        recorded_at_nanos: at,
        doc: Json::Object(vec![("mutationId".to_string(), Json::Str(id.to_string())), ("n".to_string(), Json::Number(n.to_string()))]),
    }
}

#[test]
fn swarm_log_keeps_each_mutation_once_in_recording_order() {
    let mut log = MemorySwarmMutationRepository::new();
    assert!(log.insert(swarm_record("t", "m2", 20, "2")).is_ok());
    assert!(log.insert(swarm_record("t", "m1", 10, "1")).is_ok());
    assert!(log.insert(swarm_record("u", "m1", 15, "9")).is_ok());
    assert!(log.insert(swarm_record("t", "m3", 20, "3")).is_ok());
    match log.insert(swarm_record("t", "m1", 30, "4")) {
        Err(BrokerError::Internal(m)) => assert_eq!(m, "swarm mutation already recorded: m1"),
        other => panic!("unexpected {other:?}"),
    }
    assert_eq!(log.get("t", "m1").map(|d| matches!(d.get_member("n"), Some(Json::Number(x)) if x == "1")), Some(true));
    assert_eq!(log.get("u", "m1").map(|d| matches!(d.get_member("n"), Some(Json::Number(x)) if x == "9")), Some(true));
    assert!(log.get("t", "m9").is_none());
    let ids = |docs: Vec<Json>| -> Vec<String> {
        docs.iter().map(|d| d.get_str("mutationId").cloned().unwrap_or_default()).collect()
    };
    assert_eq!(ids(log.list_since("t", None, 0)), vec!["m1", "m2", "m3"]);
    assert_eq!(ids(log.list_since("t", Some(10), 0)), vec!["m2", "m3"]);
    assert_eq!(ids(log.list_since("t", None, 2)), vec!["m1", "m2"]);
    assert_eq!(ids(log.list_since("u", None, 5)), vec!["m1"]);
    assert!(log.list_since("t", Some(20), 5).is_empty());
}

fn swarm_input(deleted: bool) -> SwarmMutationInput {
    let change = EntityChange {
        event: EntityEvent {
            kind: if deleted { EntityEventKind::Deleted } else { EntityEventKind::Updated },
            changed_attributes: vec!["speed".to_string()],
        },
        entity_id: "urn:ngsi-ld:Vehicle:1".to_string(),
        document: Json::Object(vec![("id".to_string(), Json::Str("urn:ngsi-ld:Vehicle:1".to_string()))]),
        version_at: "2024-01-01T00:00:01Z".to_string(),
        notify: true,
    };
    entity_swarm_input("t", "peer-a", &change)
}

fn member<'a>(doc: &'a Json, key: &str) -> &'a Json {
    doc.get_member(key).expect("member")
}

#[test]
fn local_writes_become_swarm_mutation_records() {
    let input = swarm_input(false);
    assert_eq!(input.operation, SwarmOperation::Upsert);
    let record = local_swarm_record(&input, "u-1", "2024-01-02T00:00:00Z", 1_704_153_600_000_000_000);
    assert_eq!(record.tenant, "t");
    assert_eq!(record.mutation_id, "urn:ngsi-ld:SwarmMutation:peer-a:u-1");
    assert_eq!(record.recorded_at_nanos, 1_704_153_600_000_000_000);
    let doc = &record.doc;
    assert_eq!(member(doc, "mutationId"), &Json::Str("urn:ngsi-ld:SwarmMutation:peer-a:u-1".to_string()));
    assert_eq!(member(doc, "resourceKind"), &Json::Str("entity".to_string()));
    assert_eq!(member(doc, "operation"), &Json::Str("upsert".to_string()));
    assert_eq!(member(doc, "eventKind"), &Json::Str("updated".to_string()));
    assert_eq!(member(doc, "versionAtNanos"), &Json::Number("1704067201000000000".to_string()));
    assert_eq!(member(doc, "recordedAtNanos"), &Json::Number("1704153600000000000".to_string()));
    assert_eq!(member(doc, "changedAttributes"), &Json::Array(vec![Json::Str("speed".to_string())]));
    assert!(matches!(member(doc, "snapshot"), Json::Object(_)));

    let deletion = swarm_input(true);
    assert_eq!(deletion.operation, SwarmOperation::Delete);
    let mut bad_version = swarm_input(true);
    bad_version.version_at = "not a time".to_string();
    let record = local_swarm_record(&bad_version, "u-2", "now", -5);
    assert_eq!(member(&record.doc, "snapshot"), &Json::Null);
    assert_eq!(member(&record.doc, "versionAtNanos"), &Json::Number("-5".to_string()));

    let mut log = MemorySwarmMutationRepository::new();
    assert!(record_local_swarm_mutation_at(&mut log, &input, "u-1", "2024-01-02T00:00:00Z", 10).is_ok());
    assert!(matches!(
        record_local_swarm_mutation_at(&mut log, &input, "u-1", "2024-01-02T00:00:00Z", 20),
        Err(BrokerError::Internal(_))
    ));
    assert!(record_local_swarm_mutation(&mut log, &deletion).is_ok());
    let listed = log.list_since("t", None, 0);
    assert_eq!(listed.len(), 2);
    assert_eq!(member(&listed[0], "mutationId"), &Json::Str("urn:ngsi-ld:SwarmMutation:peer-a:u-1".to_string()));
    assert!(log.list_since("other", None, 0).is_empty());
}
