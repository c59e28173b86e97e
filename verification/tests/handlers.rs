use cognets_broker::api::apply_source_identity_context;
use cognets_broker::config::AppConfig;
use cognets_broker::error::BrokerError;
use cognets_broker::headers::RequestContext;
use cognets_broker::json::Json;
use cognets_broker::query::context::{ContextResolution, ResolutionStep};
use cognets_broker::query::planner::{QueryPlan, TemporalFilter};
use cognets_broker::query::types::{EntityQuery, Representation, TemporalEntityQuery};
use cognets_broker::services::common::{build_query_match_options, response_content_type};
use cognets_broker::services::discovery::dedupe;
use cognets_broker::services::entity_query::{entity_query_linked_graph, query_response};
use cognets_broker::services::info::source_identity;
use cognets_broker::store::{MemoryEntityRepository, StoredDocument};

fn conv(v: &serde_json::Value) -> Json {
    match v {
        serde_json::Value::Null => Json::Null,
        serde_json::Value::Bool(b) => Json::Bool(*b),
        serde_json::Value::Number(n) => Json::Number(n.to_string()),
        serde_json::Value::String(s) => Json::Str(s.clone()),
        serde_json::Value::Array(a) => Json::Array(a.iter().map(conv).collect()),
        serde_json::Value::Object(o) => Json::Object(o.iter().map(|(k, v)| (k.clone(), conv(v))).collect()),
    }
}

fn j(text: &str) -> Json {
    conv(&serde_json::from_str::<serde_json::Value>(text).unwrap())
}

#[test]
fn temporal_query_requires_end_time_for_between() {
    let query = TemporalEntityQuery {
        entity: EntityQuery::default(),
        time_property: None,
        time_rel: Some("between".to_string()),
        time_at: Some("2024-01-01T00:00:00Z".to_string()),
        end_time_at: None,
        last_n: None,
        aggr_methods: None,
        aggr_period_duration: None,
    };
    let error = TemporalFilter::from_query(&query).unwrap_err();
    assert_eq!(error.status_code(), 400);
    assert_eq!(error.details().detail, "endTimeAt is required when timerel=between");
}

/// Runs an entity query as the server does, with contexts that need no fetch.
fn run_query(store: &MemoryEntityRepository, context: &RequestContext, query: &EntityQuery) -> Vec<Json> {
    let plan = QueryPlan::from_entity_query(query).unwrap();
    let candidates = dedupe(store.query(&context.tenant, &plan).unwrap().into_iter().map(|d| d.doc).collect());
    let stored = store.tenant_documents(&context.tenant);
    let graph = entity_query_linked_graph(query, &stored, &candidates);
    let mut options = Vec::new();
    for entity in &candidates {
        let mut resolution = ContextResolution::start(entity.get_member("@context"), context.link_header.as_deref());
        let terms = loop {
            match resolution.step() {
                ResolutionStep::Pending => {},
                ResolutionStep::Fetch(url) => panic!("unexpected fetch of {url}"),
                ResolutionStep::Done => break resolution.terms(),
            }
        };
        options.push(build_query_match_options(query, terms, graph.clone()));
    }
    match query_response(&candidates, query, &options, Representation::Normalized).body {
        Json::Array(items) => items,
        other => panic!("unexpected {other:?}"),
    }
}

#[test]
fn entity_query_supports_expand_values_and_linked_entity_resolution() {
    let mut store = MemoryEntityRepository::new();
    store
        .insert(StoredDocument {
            tenant: "default".to_string(),
            ngsi_id: "urn:ngsi-ld:Vehicle:linked-1".to_string(),
            doc: j(r#"{
                "id": "urn:ngsi-ld:Vehicle:linked-1",
                "type": "Vehicle",
                "@context": {"MercedesBrand": "https://example.org/brands/Mercedes"},
                "brandCode": {"type": "Property", "value": "MercedesBrand"},
                "sensor": {"type": "Relationship", "object": "urn:ngsi-ld:Device:linked-1"}
            }"#),
        })
        .unwrap();
    store
        .insert(StoredDocument {
            tenant: "default".to_string(),
            ngsi_id: "urn:ngsi-ld:Device:linked-1".to_string(),
            doc: j(r#"{"id": "urn:ngsi-ld:Device:linked-1", "type": "Device", "humidity": {"type": "Property", "value": 40}}"#),
        })
        .unwrap();
    let context = RequestContext::from_headers(None, None, None);
    let query = EntityQuery {
        entity_type: Some("Vehicle".to_string()),
        q: Some("brandCode==https://example.org/brands/Mercedes;sensor{Device:humidity}==40".to_string()),
        expand_values: Some("brandCode".to_string()),
        ..Default::default()
    };
    let items = run_query(&store, &context, &query);
    assert_eq!(items.len(), 1);
    assert_eq!(items[0].get_str("id").map(|s| s.as_str()), Some("urn:ngsi-ld:Vehicle:linked-1"));
}

#[test]
fn retrieves_source_identity_as_jsonld_for_tenant() {
    let config = AppConfig::for_tests();
    let context = RequestContext::from_headers(Some("tenant-a"), None, None);
    let content_type = response_content_type("application/json+ld", Representation::Normalized);
    assert!(content_type.starts_with("application/json+ld"));
    assert_eq!(context.tenant, "tenant-a");
    let identity = source_identity(&config, &context, 12, "2024-01-01T00:00:00Z").unwrap();
    let mut body = Json::Object(vec![
        ("id".to_string(), Json::Str(identity.id.clone())),
        ("type".to_string(), Json::Str(identity.kind.clone())),
        ("contextSourceAlias".to_string(), Json::Str(identity.context_source_alias.clone())),
        ("contextSourceUpTime".to_string(), Json::Str(identity.context_source_up_time.clone())),
        ("contextSourceTimeAt".to_string(), Json::Str(identity.context_source_time_at.clone())),
    ]);
    if content_type != "application/json" {
        apply_source_identity_context(&mut body);
    }
    assert_eq!(body.get_str("type").map(|s| s.as_str()), Some("ContextSourceIdentity"));
    assert_eq!(body.get_str("contextSourceAlias").map(|s| s.as_str()), Some("test-broker-tenant-a"));
    assert!(body.get_str("id").unwrap().contains("/ngsi-ld/v1/info/sourceIdentity?tenant=tenant-a"));
    assert!(body.get_str("contextSourceUpTime").unwrap().starts_with('P'));
    assert!(body.get_member("@context").is_some());
    assert!(matches!(source_identity(&config, &context, 0, "T"), Ok(_)));
}

#[test]
fn source_identity_needs_a_valid_public_endpoint() {
    let mut config = AppConfig::for_tests();
    config.public_endpoint = "not a url".to_string();
    let context = RequestContext::from_headers(Some("t"), None, None);
    assert!(matches!(source_identity(&config, &context, 0, "T"), Err(BrokerError::Internal(_))));
}
