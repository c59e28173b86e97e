use cognets_broker::error::BrokerError;
use cognets_broker::headers::RequestContext;
use cognets_broker::json::Json;
use cognets_broker::query::types::{EntityQuery, Representation, TemporalEntityQuery};
use cognets_broker::services::common::{
    build_notification_payload_at, changed_attribute_names, ensure_attribute_exists, ensure_fragment_id_matches,
    ensure_requested_type, ensure_uri_like, ensure_url, entity_matches_query, entity_primary_type,
    entity_to_feature, entity_type_matches, make_temporal_instance_at, prepare_subscription_at, project_entity,
    query_needs_linked_graph, representation_from_request, resource_location, response_content_type,
    simplify_attribute_value, simplify_entity, temporal_entity_to_response, validate_entity, validate_subscription,
};

fn conv(v: &serde_json::Value) -> Json {
    match v {
        serde_json::Value::Null => Json::Null,
        serde_json::Value::Bool(b) => Json::Bool(*b),
        serde_json::Value::Number(n) => Json::Number(n.to_string()),
        serde_json::Value::String(s) => Json::Str(s.clone()),
        serde_json::Value::Array(a) => Json::Array(a.iter().map(conv).collect()),
        serde_json::Value::Object(o) => Json::Object(o.iter().map(|(k, v)| (k.clone(), conv(v))).collect()),
    }
}

fn j(text: &str) -> Json {
    conv(&serde_json::from_str::<serde_json::Value>(text).unwrap())
}

fn vehicle() -> Json {
    j(r#"{
        "id": "urn:ngsi-ld:Vehicle:1",
        "type": "Vehicle",
        "@context": "https://example.org/ctx.jsonld",
        "speed": {"type": "Property", "value": 30},
        "owner": {"type": "Relationship", "object": "urn:ngsi-ld:Person:1"},
        "location": {"type": "GeoProperty", "value": {"type": "Point", "coordinates": [1, 2]}}
    }"#)
}

#[test]
fn representation_prefers_geojson_then_temporal_then_key_values() {
    assert_eq!(representation_from_request("application/geo+json", Some("keyValues"), None), Representation::GeoJson);
    assert_eq!(representation_from_request("", Some("aggregatedValues"), None), Representation::AggregatedValues);
    assert_eq!(representation_from_request("", None, Some("sysAttrs,temporalValues")), Representation::TemporalValues);
    assert_eq!(representation_from_request("", None, Some("simplified")), Representation::KeyValues);
    assert_eq!(representation_from_request("", Some("normalized"), Some("keyValues")), Representation::Normalized);
    assert_eq!(representation_from_request("", None, None), Representation::Normalized);
    assert_eq!(response_content_type("application/ld+json", Representation::Normalized), "application/ld+json");
    assert_eq!(response_content_type("", Representation::GeoJson), "application/geo+json");
}

#[test]
fn resource_locations_sit_under_the_base_path() {
    assert_eq!(resource_location("entities", "urn:a"), "/ngsi-ld/v1/entities/urn:a");
    assert_eq!(resource_location("subscriptions", "s1"), "/ngsi-ld/v1/subscriptions/s1");
}

#[test]
fn uri_and_url_checks() {
    assert_eq!(ensure_uri_like("urn:a", "entity id"), Ok(()));
    assert_eq!(ensure_uri_like("plain", "entity id"), Err(BrokerError::BadRequest("entity id must be a URI".to_string())));
    assert_eq!(ensure_url("http://listener.example/notify", "endpoint"), Ok(()));
    assert_eq!(ensure_url("not-a-url", "endpoint"), Err(BrokerError::BadRequest("endpoint must be a valid URL".to_string())));
}

#[test]
fn create_subscription_returns_problem_details_for_invalid_endpoint() {
    let subscription = j(r#"{"id": "urn:ngsi-ld:Subscription:test", "type": "Subscription",
        "notification": {"endpoint": {"uri": "not-a-url"}}}"#);
    let error = validate_subscription(&subscription).unwrap_err();
    assert_eq!(error.details().detail, "notification endpoint must be a valid URL");
    assert_eq!(error.details().status, 400);
}

#[test]
fn subscription_preparation_fills_defaults() {
    let ctx = RequestContext { tenant: "t".to_string(), via: Vec::new(), link_header: None };
    let mut subscription = j(r#"{"type": "Subscription", "isActive": false,
        "notification": {"endpoint": {"uri": "http://listener.example/notify"}, "timesSent": 7}}"#);
    let id = prepare_subscription_at(&mut subscription, &ctx, "2024-01-01T00:00:00Z", "abc").unwrap();
    assert_eq!(id, "urn:ngsi-ld:Subscription:abc");
    assert_eq!(subscription.get_str("status").map(|s| s.as_str()), Some("paused"));
    assert_eq!(subscription.get_str("createdAt").map(|s| s.as_str()), Some("2024-01-01T00:00:00Z"));
    let notification = subscription.get_member("notification").unwrap();
    assert_eq!(notification.get_str("status").map(|s| s.as_str()), Some("ok"));
    assert_eq!(notification.get_member("timesSent"), Some(&Json::Number("0".to_string())));
    assert_eq!(notification.get_member("timesFailed"), Some(&Json::Number("0".to_string())));
    let mut wrong = j(r#"{"id": "urn:s", "type": "Other"}"#);
    assert_eq!(
        prepare_subscription_at(&mut wrong, &ctx, "now", "x"),
        Err(BrokerError::BadRequest("subscription type must be Subscription".to_string()))
    );
}

#[test]
fn entity_validation_and_checks() {
    assert_eq!(validate_entity(&vehicle()), Ok(()));
    assert_eq!(validate_entity(&j(r#"{"id": "urn:a", "type": ["A", "B"]}"#)), Ok(()));
    assert!(entity_type_matches(vehicle().get_member("type"), "Vehicle"));
    assert!(entity_type_matches(Some(&j(r#"["A", "B"]"#)), "B"));
    assert!(!entity_type_matches(Some(&j(r#"["A", "B"]"#)), "C"));
    assert_eq!(entity_primary_type(&j(r#"{"type": ["A", "B"]}"#)), Some("A".to_string()));
    assert_eq!(entity_primary_type(&j(r#"{"type": [1]}"#)), None);
    assert_eq!(ensure_fragment_id_matches(&j(r#"{"id": "urn:b"}"#), "urn:a").is_err(), true);
    assert_eq!(ensure_fragment_id_matches(&j(r#"{"speed": 1}"#), "urn:a"), Ok(()));
    assert_eq!(ensure_requested_type(&vehicle(), Some("Vehicle")), Ok(()));
    assert_eq!(
        ensure_attribute_exists(&vehicle(), "color"),
        Err(BrokerError::NotFound("attribute color was not found".to_string()))
    );
    assert_eq!(changed_attribute_names(&vehicle()), vec!["speed".to_string(), "owner".to_string(), "location".to_string()]);
}

#[test]
fn simplification_keeps_the_attribute_payloads() {
    let simplified = simplify_entity(&vehicle());
    assert_eq!(simplified.get_member("speed"), Some(&Json::Number("30".to_string())));
    assert_eq!(simplified.get_str("owner").map(|s| s.as_str()), Some("urn:ngsi-ld:Person:1"));
    assert_eq!(simplified.get_str("type").map(|s| s.as_str()), Some("Vehicle"));
    assert_eq!(simplify_attribute_value(&j(r#"[{"type": "Property"}, 3]"#)), j("[null, 3]"));
    assert_eq!(simplify_attribute_value(&j(r#"{"a": {"type": "VocabProperty", "vocab": "x"}}"#)), j(r#"{"a": "x"}"#));
    assert_eq!(simplify_entity(&j("[1]")), j("{}"));
}

#[test]
fn features_carry_geometry_and_properties() {
    let feature = entity_to_feature(&vehicle());
    assert_eq!(feature.keys(), vec!["id", "type", "geometry", "properties", "@context"]);
    assert_eq!(feature.get_str("type").map(|s| s.as_str()), Some("Feature"));
    assert_eq!(feature.get_member("geometry"), Some(&j(r#"{"type": "Point", "coordinates": [1, 2]}"#)));
    let properties = feature.get_member("properties").unwrap();
    assert!(properties.get_member("location").is_none());
    assert!(properties.get_member("id").is_none());
    assert_eq!(properties.get_member("speed"), Some(&Json::Number("30".to_string())));
}

#[test]
fn projection_picks_and_omits() {
    let picked = project_entity(&vehicle(), Some("owner"), Some("speed"), None, Representation::Normalized);
    assert_eq!(picked.keys(), vec!["id", "type", "@context", "speed"]);
    let omitted = project_entity(&vehicle(), None, None, Some("owner,@context"), Representation::Normalized);
    assert!(omitted.get_member("owner").is_none());
    assert!(omitted.get_member("@context").is_none());
    let kv = project_entity(&vehicle(), Some("speed"), None, None, Representation::KeyValues);
    assert_eq!(kv.get_member("speed"), Some(&Json::Number("30".to_string())));
}

#[test]
fn temporal_response_groups_history_by_attribute() {
    let history = vec![
        j(r#"{"attrId": "speed", "value": 1}"#),
        j(r#"{"attrId": "temp", "value": 2}"#),
        j(r#"{"attrId": "speed", "value": 3}"#),
        j(r#"{"value": 4}"#),
    ];
    let query = TemporalEntityQuery::default();
    let response = temporal_entity_to_response(&j(r#"{"id": "urn:a", "type": "T"}"#), &history, &query, Representation::TemporalValues);
    assert_eq!(response.keys(), vec!["id", "type", "speed", "temp"]);
    assert_eq!(
        response.get_member("speed"),
        Some(&Json::Array(vec![j(r#"{"attrId": "speed", "value": 1}"#), j(r#"{"attrId": "speed", "value": 3}"#)]))
    );
}

#[test]
fn entity_queries_filter_on_every_condition() {
    let entity = vehicle();
    let by_id = EntityQuery { id: Some("urn:other, urn:ngsi-ld:Vehicle:1".to_string()), ..Default::default() };
    assert!(entity_matches_query(&entity, &by_id));
    let by_type = EntityQuery { entity_type: Some("Car,Vehicle".to_string()), ..Default::default() };
    assert!(entity_matches_query(&entity, &by_type));
    let wrong_type = EntityQuery { entity_type: Some("Car".to_string()), ..Default::default() };
    assert!(!entity_matches_query(&entity, &wrong_type));
    let pattern = EntityQuery { id_pattern: Some("Vehicle:[0-9]+$".to_string()), ..Default::default() };
    assert!(entity_matches_query(&entity, &pattern));
    let bad_pattern = EntityQuery { id_pattern: Some("(".to_string()), ..Default::default() };
    assert!(!entity_matches_query(&entity, &bad_pattern));
    let attrs = EntityQuery { attrs: Some("speed,color".to_string()), ..Default::default() };
    assert!(!entity_matches_query(&entity, &attrs));
    let q = EntityQuery { q: Some("speed>20".to_string()), ..Default::default() };
    assert!(entity_matches_query(&entity, &q));
    let scope = EntityQuery { scope_q: Some("/#".to_string()), ..Default::default() };
    assert!(!entity_matches_query(&entity, &scope));
}

#[test]
fn linked_graph_is_needed_only_for_linked_paths() {
    let linked = EntityQuery { q: Some("sensor{Device:humidity}==40".to_string()), ..Default::default() };
    let plain = EntityQuery { q: Some("speed==1".to_string()), ..Default::default() };
    assert!(query_needs_linked_graph(&linked));
    assert!(!query_needs_linked_graph(&plain));
    assert!(!query_needs_linked_graph(&EntityQuery::default()));
    let broken = EntityQuery { q: Some("speed==".to_string()), ..Default::default() };
    assert!(!query_needs_linked_graph(&broken));
}

#[test]
fn notifications_render_the_entity() {
    let subscription = j(r#"{"notification": {"format": "keyValues", "endpoint": {"uri": "http://x"}}}"#);
    let payload = build_notification_payload_at("urn:s", &subscription, &vehicle(), "2024-01-01T00:00:00Z", "n1");
    assert_eq!(payload.get_str("id").map(|s| s.as_str()), Some("urn:ngsi-ld:Notification:n1"));
    assert_eq!(payload.get_str("subscriptionId").map(|s| s.as_str()), Some("urn:s"));
    assert_eq!(payload.get_str("@context").map(|s| s.as_str()), Some("https://example.org/ctx.jsonld"));
    let data = payload.get_member("data").unwrap();
    assert_eq!(*data, Json::Array(vec![simplify_entity(&vehicle())]));
    let geo = j(r#"{"jsonldContext": "c", "notification": {"endpoint": {"uri": "http://x", "accept": "application/geo+json"}}}"#);
    let payload = build_notification_payload_at("urn:s", &geo, &vehicle(), "now", "n2");
    assert_eq!(payload.get_member("data").unwrap().get_str("type").map(|s| s.as_str()), Some("FeatureCollection"));
    assert_eq!(payload.get_str("@context").map(|s| s.as_str()), Some("c"));
}

#[test]
fn temporal_instances_keep_their_timestamps() {
    let value = j(r#"{"type": "Property", "value": 1, "observedAt": "2024-01-01T00:00:00Z"}"#);
    let record = make_temporal_instance_at("speed", &value, "u1");
    assert_eq!(record.keys(), vec!["attrId", "instanceId", "observedAt", "value"]);
    assert_eq!(record.get_str("instanceId").map(|s| s.as_str()), Some("urn:ngsi-ld:instance:u1"));
    let with_id = j(r#"{"instanceId": "urn:i", "value": 2}"#);
    assert_eq!(make_temporal_instance_at("speed", &with_id, "u2").get_str("instanceId").map(|s| s.as_str()), Some("urn:i"));
}
