use cognets_broker::api::{apply_source_identity_context, no_overwrite_requested, normalize_query_string};
use cognets_broker::config::AppConfig;
use cognets_broker::domain::{batch_error, not_updated};
use cognets_broker::error::{is_transient_error, BrokerError};
use cognets_broker::headers::{extend_via, parse_via, RequestContext};
use cognets_broker::json::{apply_merge_patch, editable_fragment_members, entity_attribute_names, parse_csv, reserved_member, Json};
use cognets_broker::links::{default_notification_target_kind, NotificationTargetKind};
use cognets_broker::time::duration_to_iso8601;

fn conv(v: &serde_json::Value) -> Json {
    match v {
        serde_json::Value::Null => Json::Null,
        serde_json::Value::Bool(b) => Json::Bool(*b),
        serde_json::Value::Number(n) => Json::Number(n.to_string()),
        serde_json::Value::String(s) => Json::Str(s.clone()),
        serde_json::Value::Array(a) => Json::Array(a.iter().map(conv).collect()),
        serde_json::Value::Object(o) => Json::Object(o.iter().map(|(k, v)| (k.clone(), conv(v))).collect()),
    }
}

fn j(text: &str) -> Json {
    conv(&serde_json::from_str::<serde_json::Value>(text).unwrap())
}

#[test]
fn normalizes_query_string_to_none_when_empty() {
    assert_eq!(normalize_query_string(""), None);
    assert_eq!(normalize_query_string("limit=10"), Some("limit=10".to_string()));
}

#[test]
fn no_overwrite_option_is_detected() {
    assert!(no_overwrite_requested(Some("noOverwrite")));
    assert!(no_overwrite_requested(Some("sysAttrs,noOverwrite")));
    assert!(!no_overwrite_requested(Some("keyValues")));
    assert!(!no_overwrite_requested(None));
}

#[test]
fn source_identity_gets_its_context() {
    let mut body = j(r#"{"id": "urn:x", "type": "ContextSourceIdentity"}"#);
    apply_source_identity_context(&mut body);
    assert_eq!(
        body.get_member("@context"),
        Some(&j(r#"["https://uri.etsi.org/ngsi-ld/v1/ngsi-ld-core-context-v1.8.jsonld", {"contextSourceUpTime": "ngsi-ld:contextSourceUptime"}]"#))
    );
    let mut scalar = j("3");
    apply_source_identity_context(&mut scalar);
    assert_eq!(scalar, j("3"));
}

#[test]
fn merge_patch_follows_rfc7386() {
    let mut target = j(r#"{"a": "b", "c": {"d": "e", "f": "g"}}"#);
    apply_merge_patch(&mut target, &j(r#"{"a": "z", "c": {"f": null}}"#));
    assert_eq!(target, j(r#"{"a": "z", "c": {"d": "e"}}"#));
    let mut scalar = j("[1]");
    apply_merge_patch(&mut scalar, &j(r#"{"x": {"y": 1}}"#));
    assert_eq!(scalar, j(r#"{"x": {"y": 1}}"#));
    let mut replaced = j(r#"{"a": 1}"#);
    apply_merge_patch(&mut replaced, &j("[2]"));
    assert_eq!(replaced, j("[2]"));
    let mut twice = j(r#"{"a": 1, "b": {"c": 2}}"#);
    let patch = j(r#"{"b": {"c": null, "d": 3}, "e": null}"#);
    apply_merge_patch(&mut twice, &patch);
    let once = twice.clone();
    apply_merge_patch(&mut twice, &patch);
    assert_eq!(twice, once);
}

#[test]
fn csv_and_reserved_members() {
    assert_eq!(parse_csv(Some(" a, ,b ,")), vec!["a".to_string(), "b".to_string()]);
    assert!(parse_csv(None).is_empty());
    assert!(reserved_member("@context"));
    assert!(!reserved_member("speed"));
    let fragment = j(r#"{"id": "x", "speed": 1, "modifiedAt": "t", "color": 2}"#);
    assert_eq!(entity_attribute_names(&fragment), vec!["speed".to_string(), "color".to_string()]);
    assert_eq!(editable_fragment_members(&fragment).len(), 2);
}

#[test]
fn error_details_and_transient_errors() {
    let error = BrokerError::internal("DefraDB transaction conflict. Please retry");
    assert!(is_transient_error(&error));
    assert!(!is_transient_error(&BrokerError::Internal("transaction conflict".to_string())));
    assert!(!is_transient_error(&BrokerError::BadRequest("transaction conflict. Please retry".to_string())));
    let details = BrokerError::Conflict("taken".to_string()).details();
    assert_eq!(details.status, 409);
    assert_eq!(details.title.as_deref(), Some("AlreadyExists"));
    assert_eq!(details.problem_type.as_deref(), Some("about:blank"));
    assert_eq!(BrokerError::NotImplemented("x".to_string()).status_code(), 501);
    let report = batch_error("urn:a", 404, "gone".to_string());
    assert_eq!(report.error.title.as_deref(), Some("BatchOperationFailed"));
    assert!(report.registration_id.is_none());
    let attr = not_updated("speed", 409, "exists".to_string());
    assert_eq!(attr.reason.title.as_deref(), Some("UpdateFailed"));
}

#[test]
fn durations_render_as_iso8601() {
    assert_eq!(duration_to_iso8601(0), "PT0S");
    assert_eq!(duration_to_iso8601(86_400), "P1D");
    assert_eq!(duration_to_iso8601(90_061), "P1DT1H1M1S");
    assert_eq!(duration_to_iso8601(3_600), "PT1H");
    assert_eq!(duration_to_iso8601(61), "PT1M1S");
}

#[test]
fn configuration_reads_the_environment_with_defaults() {
    let config = AppConfig::from_env(&vec![
        ("BROKER_PORT".to_string(), "9000".to_string()),
        ("BROKER_ID".to_string(), "b1".to_string()),
        ("BROKER_ENTITY_WATCH_ENABLED".to_string(), "false".to_string()),
        ("BROKER_OUTBOUND_TIMEOUT_MS".to_string(), "oops".to_string()),
    ]);
    assert_eq!(config.port, 9000);
    assert_eq!(config.broker_id, "b1");
    assert_eq!(config.public_endpoint, "http://127.0.0.1:9000/ngsi-ld/v1");
    assert_eq!(config.outbound_timeout_ms, 5000);
    assert!(!config.entity_watch_enabled);
    let test_config = AppConfig::for_tests();
    assert_eq!(test_config.broker_id, "test-broker");
}

#[test]
fn via_headers_are_parsed_and_extended() {
    let via = parse_via("1.1 a, 1.1 b");
    assert_eq!(via.len(), 2);
    let config = AppConfig::for_tests();
    let context = RequestContext { tenant: "t".to_string(), via: via.clone(), link_header: None };
    let extended = extend_via(&context.via, &config);
    assert_eq!(extended.len(), 4);
    assert_eq!(extend_via(&extended, &config), extended);
    assert_eq!(default_notification_target_kind(), NotificationTargetKind::Subscription);
}

#[test]
fn csv_lists_keep_trimmed_nonempty_items_in_order() {
    assert_eq!(parse_csv(None), Vec::<String>::new());
    assert_eq!(
        parse_csv(Some(" a, ,b ,,c")),
        vec!["a".to_string(), "b".to_string(), "c".to_string()]
    );
    assert_eq!(
        parse_via(" a, b,,c "),
        vec!["a".to_string(), "b".to_string(), "c".to_string()]
    );
}
