use cognets_broker::config::AppConfig;
use cognets_broker::error::BrokerError;
use cognets_broker::federation::{
    mutation_cursor, peer_expiry, seed_peer_document, swim_event_plan, synced_peer, PeerDocument, PeerStatus, SwimEventEnvelope,
    SwimEventKind, SwimEventPlan, SwimPeer,
};
use cognets_broker::headers::RequestContext;
use cognets_broker::json::Json;
use cognets_broker::query::context::{ContextResolution, ResolutionStep};
use cognets_broker::query::eval::QueryMatchOptions;
use cognets_broker::query::types::{EntityQuery, Representation};
use cognets_broker::services::entities::{create, delete_attr, get, patch_attr, replace_attr};
use cognets_broker::services::info::source_identity;
use cognets_broker::services::entity_query::{entity_query_linked_graph, query_response};
use cognets_broker::store::MemoryEntityRepository;

fn conv(v: &serde_json::Value) -> Json {
    match v {
        serde_json::Value::Null => Json::Null,
        serde_json::Value::Bool(b) => Json::Bool(*b),
        serde_json::Value::Number(n) => Json::Number(n.to_string()),
        serde_json::Value::String(s) => Json::Str(s.clone()),
        serde_json::Value::Array(a) => Json::Array(a.iter().map(conv).collect()),
        serde_json::Value::Object(o) => Json::Object(o.iter().map(|(k, v)| (k.clone(), conv(v))).collect()),
    }
}

fn j(text: &str) -> Json {
    conv(&serde_json::from_str::<serde_json::Value>(text).unwrap())
}

fn context(tenant: &str) -> RequestContext {
    RequestContext { tenant: tenant.to_string(), via: Vec::new(), link_header: None }
}

fn run(resolution: &mut ContextResolution, documents: &[(&str, &str)], fetched: &mut Vec<String>) -> Vec<(String, String)> {
    loop {
        match resolution.step() {
            ResolutionStep::Pending => {},
            ResolutionStep::Fetch(url) => {
                fetched.push(url.clone());
                let body = documents.iter().find(|(u, _)| *u == url).map(|(_, b)| *b).unwrap_or("{}");
                resolution.supply(j(body));
            },
            ResolutionStep::Done => return resolution.terms(),
        }
    }
}

#[test]
fn inline_context_terms_are_resolved() {
    let inline = j(r#"{"speed": "https://schema.org/speed", "brand": {"@id": "https://schema.org/brand"}, "skip": 3, "@context": {"speed": "https://other.org/speed"}}"#);
    let mut resolution = ContextResolution::start(Some(&inline), None);
    let mut fetched = Vec::new();
    let terms = run(&mut resolution, &[], &mut fetched);
    assert!(fetched.is_empty());
    assert_eq!(
        terms,
        vec![
            ("speed".to_string(), "https://other.org/speed".to_string()),
            ("brand".to_string(), "https://schema.org/brand".to_string()),
        ]
    );
}

#[test]
fn remote_contexts_are_fetched_once_and_local_references_skipped() {
    let inline = j(r#"["https://example.org/ctx.jsonld", "urn:local:ctx", "https://example.org/ctx.jsonld"]"#);
    let link = r#"<https://example.org/linked.jsonld>; rel="http://www.w3.org/ns/json-ld#context""#;
    let mut resolution = ContextResolution::start(Some(&inline), Some(link));
    let mut fetched = Vec::new();
    let terms = run(
        &mut resolution,
        &[
            ("https://example.org/ctx.jsonld", r#"{"@context": {"a": "https://a.org/a"}}"#),
            ("https://example.org/linked.jsonld", r#"{"@context": ["https://example.org/ctx.jsonld", {"b": "https://b.org/b"}]}"#),
        ],
        &mut fetched,
    );
    assert_eq!(fetched, vec!["https://example.org/linked.jsonld".to_string(), "https://example.org/ctx.jsonld".to_string()]);
    assert_eq!(
        terms,
        vec![("a".to_string(), "https://a.org/a".to_string()), ("b".to_string(), "https://b.org/b".to_string())]
    );
}

#[test]
fn nothing_to_resolve_is_done_at_once() {
    let mut resolution = ContextResolution::start(None, None);
    assert!(matches!(resolution.step(), ResolutionStep::Done));
    assert!(resolution.terms().is_empty());
}

fn entities() -> Vec<Json> {
    vec![
        j(r#"{"id": "urn:v:1", "type": "Vehicle", "speed": {"type": "Property", "value": 5}, "location": {"type": "GeoProperty", "value": {"type": "Point", "coordinates": [1, 2]}}}"#),
        j(r#"{"id": "urn:v:2", "type": "Vehicle", "speed": {"type": "Property", "value": 50}}"#),
        j(r#"{"id": "urn:v:3", "type": "Vehicle", "speed": {"type": "Property", "value": 70}}"#),
    ]
}

fn options(n: usize) -> Vec<QueryMatchOptions> {
    (0..n).map(|_| QueryMatchOptions::new()).collect()
}

#[test]
fn query_response_counts_all_matches_and_limits_the_body() {
    let mut query = EntityQuery::default();
    query.q = Some("speed>10".to_string());
    query.limit = Some(1);
    let es = entities();
    let result = query_response(&es, &query, &options(es.len()), Representation::Normalized);
    assert_eq!(result.total_count, 2);
    match result.body {
        Json::Array(items) => {
            assert_eq!(items.len(), 1);
            assert_eq!(items[0].get_str("id").map(|s| s.as_str()), Some("urn:v:2"));
        },
        other => panic!("unexpected {other:?}"),
    }
}

#[test]
fn geojson_query_response_is_a_feature_collection() {
    let mut query = EntityQuery::default();
    query.id = Some("urn:v:1".to_string());
    let es = entities();
    let result = query_response(&es, &query, &options(es.len()), Representation::GeoJson);
    assert_eq!(result.total_count, 1);
    assert_eq!(result.body.get_str("type").map(|s| s.as_str()), Some("FeatureCollection"));
    match result.body.get_member("features") {
        Some(Json::Array(features)) => {
            assert_eq!(features.len(), 1);
            assert_eq!(features[0].get_str("type").map(|s| s.as_str()), Some("Feature"));
            assert_eq!(features[0].get_str("id").map(|s| s.as_str()), Some("urn:v:1"));
        },
        other => panic!("unexpected {other:?}"),
    }
}

#[test]
fn linked_graph_is_built_only_when_q_reaches_linked_entities() {
    let stored = vec![j(r#"{"id": "urn:o:1", "type": "Owner", "name": "x"}"#), j(r#"{"id": "urn:o:1", "type": "Owner", "name": "y"}"#)];
    let candidates = vec![j(r#"{"id": "urn:o:1", "type": "Owner", "name": "z"}"#), j(r#"{"id": "urn:v:9", "type": "Vehicle"}"#)];
    let mut query = EntityQuery::default();
    query.q = Some("speed>1".to_string());
    assert!(entity_query_linked_graph(&query, &stored, &candidates).is_empty());
    query.q = Some("owner{Owner:name}==\"y\"".to_string());
    let graph = entity_query_linked_graph(&query, &stored, &candidates);
    let keys: Vec<&str> = graph.iter().map(|(k, _)| k.as_str()).collect();
    assert_eq!(keys, vec!["urn:o:1", "urn:v:9"]);
    assert_eq!(graph[0].1.get_str("name").map(|s| s.as_str()), Some("y"));
}

const NOW: &str = "2024-05-01T00:00:00Z";

#[test]
fn attribute_patch_delete_and_replace() {
    let mut store = MemoryEntityRepository::new();
    let ctx = context("t");
    let entity = j(r#"{"id": "urn:v:1", "type": "Vehicle", "speed": {"type": "Property", "value": 1, "unitCode": "KMH"}, "brand": {"type": "Property", "value": "x"}}"#);
    let _ = create(&mut store, &ctx, entity, NOW);

    let (result, changes) = patch_attr(&mut store, &ctx, "urn:v:1", "speed", None, &j(r#"{"value": 2, "unitCode": null}"#), "T1");
    assert_eq!(result, Ok(()));
    assert_eq!(changes.len(), 1);
    assert_eq!(changes[0].event.changed_attributes, vec!["speed".to_string()]);
    assert_eq!(changes[0].version_at, "T1");
    let doc = store.get("t", "urn:v:1").unwrap().doc.clone();
    assert_eq!(doc.get_member("speed"), Some(&j(r#"{"type": "Property", "value": 2}"#)));
    assert_eq!(doc.get_str("modifiedAt").map(|s| s.as_str()), Some("T1"));

    let (result, _) = replace_attr(&mut store, &ctx, "urn:v:1", "brand", None, &j(r#"{"type": "Property", "value": "y"}"#), "T2");
    assert_eq!(result, Ok(()));
    assert_eq!(store.get("t", "urn:v:1").unwrap().doc.get_member("brand"), Some(&j(r#"{"type": "Property", "value": "y"}"#)));

    let (result, _) = delete_attr(&mut store, &ctx, "urn:v:1", "brand", None, "T3");
    assert_eq!(result, Ok(()));
    assert!(store.get("t", "urn:v:1").unwrap().doc.get_member("brand").is_none());

    let (result, changes) = delete_attr(&mut store, &ctx, "urn:v:1", "brand", None, "T4");
    assert_eq!(result, Err(BrokerError::NotFound("attribute brand was not found".to_string())));
    assert!(changes.is_empty());
    let (result, _) = patch_attr(&mut store, &ctx, "urn:v:9", "speed", None, &j("{}"), "T5");
    assert_eq!(result, Err(BrokerError::NotFound("entity urn:v:9 was not found".to_string())));
}

#[test]
fn get_projects_the_requested_attributes() {
    let mut store = MemoryEntityRepository::new();
    let ctx = context("t");
    let entity = j(r#"{"id": "urn:v:1", "type": "Vehicle", "speed": {"type": "Property", "value": 1}, "brand": {"type": "Property", "value": "x"}}"#);
    let _ = create(&mut store, &ctx, entity, NOW);
    let mut query = EntityQuery::default();
    query.attrs = Some("speed".to_string());
    let doc = get(&store, &ctx, "urn:v:1", &query, "").unwrap();
    assert!(doc.get_member("speed").is_some());
    assert!(doc.get_member("brand").is_none());
    query.attrs = None;
    query.options = Some("keyValues".to_string());
    let simplified = get(&store, &ctx, "urn:v:1", &query, "").unwrap();
    assert_eq!(simplified.get_member("speed"), Some(&Json::Number("1".to_string())));
    assert_eq!(
        get(&store, &ctx, "urn:v:2", &EntityQuery::default(), ""),
        Err(BrokerError::NotFound("entity urn:v:2 was not found".to_string()))
    );
}

fn peer(status: PeerStatus, updated_at: &str) -> PeerDocument {
    PeerDocument {
        tenant: "t".to_string(),
        peer_id: "peer-a".to_string(),
        endpoint: "http://peer-a:1026/ngsi-ld/v1".to_string(),
        aliases: Vec::new(),
        capabilities: Vec::new(),
        neighbors: Vec::new(),
        status,
        incarnation: 4,
        updated_at: updated_at.to_string(),
        last_synced_at: None,
        last_synced_at_nanos: None,
        last_mutation_cursor_nanos: Some(7),
    }
}

#[test]
fn peers_expire_from_alive_to_suspect_to_dead() {
    let config = AppConfig::for_tests();
    let base = 1_700_000_000_000_000_000i64;
    let at = "2023-11-14T22:13:20Z";
    assert_eq!(peer_expiry(&peer(PeerStatus::Alive, at), &config, base + 999_000_000, 1000), None);
    assert_eq!(peer_expiry(&peer(PeerStatus::Alive, at), &config, base + 1_000_000_000, 1000), Some(PeerStatus::Suspect));
    assert_eq!(peer_expiry(&peer(PeerStatus::Suspect, at), &config, base + 1_500_000_000, 1000), None);
    assert_eq!(peer_expiry(&peer(PeerStatus::Suspect, at), &config, base + 2_000_000_000, 1000), Some(PeerStatus::Dead));
    assert_eq!(peer_expiry(&peer(PeerStatus::Dead, at), &config, base + 9_000_000_000, 1000), None);
    assert_eq!(peer_expiry(&peer(PeerStatus::Alive, "not a time"), &config, base, 0), None);
    let mut local = peer(PeerStatus::Alive, at);
    local.peer_id = config.broker_id.clone();
    assert_eq!(peer_expiry(&local, &config, base + 9_000_000_000, 1000), None);
}

fn swim_peer(peer_id: &str, incarnation: u64) -> SwimPeer {
    SwimPeer {
        peer_id: peer_id.to_string(),
        endpoint: "http://elsewhere:1026/ngsi-ld/v1".to_string(),
        aliases: Vec::new(),
        capabilities: Vec::new(),
        neighbors: Vec::new(),
        status: PeerStatus::Suspect,
        incarnation,
        tenant: None,
    }
}

fn envelope(kind: SwimEventKind, peer: SwimPeer, mutation: Option<Json>) -> SwimEventEnvelope {
    SwimEventEnvelope { kind, source: swim_peer("src", 1), peer, mutation, recorded_at: "T".to_string() }
}

#[test]
fn swim_events_about_the_local_broker_are_refuted() {
    let config = AppConfig::for_tests();
    let plan = swim_event_plan(&envelope(SwimEventKind::Suspect, swim_peer("test-broker", 5), None), &config);
    assert!(matches!(plan, SwimEventPlan::AnnounceLocal(6)));
    let plan = swim_event_plan(&envelope(SwimEventKind::Dead, swim_peer("test-broker", u64::MAX), None), &config);
    assert!(matches!(plan, SwimEventPlan::AnnounceLocal(u64::MAX)));
    let plan = swim_event_plan(&envelope(SwimEventKind::Alive, swim_peer("test-broker", 5), None), &config);
    assert!(matches!(plan, SwimEventPlan::RecordPeer { replay: false }));
    let plan = swim_event_plan(&envelope(SwimEventKind::Mutation, swim_peer("other", 5), Some(j("{}"))), &config);
    assert!(matches!(plan, SwimEventPlan::RecordPeer { replay: true }));
    let plan = swim_event_plan(&envelope(SwimEventKind::Mutation, swim_peer("other", 5), None), &config);
    assert!(matches!(plan, SwimEventPlan::RecordPeer { replay: false }));
}

#[test]
fn mutation_cursor_takes_the_latest_time() {
    assert_eq!(mutation_cursor(None, &vec![]), None);
    assert_eq!(mutation_cursor(Some(5), &vec![]), Some(5));
    assert_eq!(mutation_cursor(Some(5), &vec![3, 9, 4]), Some(9));
    assert_eq!(mutation_cursor(None, &vec![3, 2]), Some(3));
}

#[test]
fn synced_peer_is_alive_and_stamped() {
    let synced = synced_peer(&peer(PeerStatus::Suspect, "old"), "2023-11-14T22:13:20Z", None);
    assert_eq!(synced.status, PeerStatus::Alive);
    assert_eq!(synced.updated_at, "2023-11-14T22:13:20Z");
    assert_eq!(synced.last_synced_at.as_deref(), Some("2023-11-14T22:13:20Z"));
    assert_eq!(synced.last_synced_at_nanos, Some(1_700_000_000_000_000_000));
    assert_eq!(synced.last_mutation_cursor_nanos, Some(7));
    assert_eq!(synced_peer(&peer(PeerStatus::Alive, "old"), "x", Some(11)).last_mutation_cursor_nanos, Some(11));
}

#[test]
fn seed_peers_keep_existing_membership() {
    let fresh = seed_peer_document("t", "http://seed:1026/", None, "T0");
    assert_eq!(fresh.peer_id, "http://seed:1026/ngsi-ld/v1");
    assert_eq!(fresh.endpoint, "http://seed:1026/ngsi-ld/v1");
    assert_eq!(fresh.aliases, vec!["http://seed:1026/ngsi-ld/v1".to_string()]);
    assert_eq!(fresh.capabilities, vec!["p2p".to_string(), "swim".to_string()]);
    assert_eq!(fresh.status, PeerStatus::Suspect);
    assert_eq!(fresh.incarnation, 0);
    assert_eq!(fresh.updated_at, "T0");
    let mut existing = peer(PeerStatus::Alive, "T-1");
    existing.aliases = vec!["peer-a".to_string()];
    let seeded = seed_peer_document("t", "http://seed:1026", Some(&existing), "T0");
    assert_eq!(seeded.aliases, vec!["peer-a".to_string(), "http://seed:1026/ngsi-ld/v1".to_string()]);
    assert_eq!(seeded.status, PeerStatus::Alive);
    assert_eq!(seeded.incarnation, 4);
    assert_eq!(seeded.updated_at, "T-1");
    assert_eq!(seeded.last_mutation_cursor_nanos, Some(7));
}

#[test]
fn source_identity_describes_the_broker() {
    let config = AppConfig::for_tests();
    let identity = source_identity(&config, &context("tenant a"), 3661, "T").unwrap();
    assert_eq!(identity.id, "http://127.0.0.1:8080/ngsi-ld/v1/info/sourceIdentity?tenant=tenant+a");
    assert_eq!(identity.kind, "ContextSourceIdentity");
    assert_eq!(identity.context_source_alias, "test-broker-tenant_a");
    assert_eq!(identity.context_source_up_time, "PT1H1M1S");
    assert_eq!(identity.context_source_time_at, "T");
}
