use cognets_broker::domain::EntityEventKind;
use cognets_broker::json::{clone_json, Json};
use cognets_broker::query::eval::{json_eq, values_equal_exec};
use cognets_broker::watch::{diff_attributes, key, watch_events, EntityWatchState};

fn conv(v: &serde_json::Value) -> Json {
    match v {
        serde_json::Value::Null => Json::Null,
        serde_json::Value::Bool(b) => Json::Bool(*b),
        serde_json::Value::Number(n) => Json::Number(n.to_string()),
        serde_json::Value::String(s) => Json::Str(s.clone()),
        serde_json::Value::Array(a) => Json::Array(a.iter().map(conv).collect()),
        serde_json::Value::Object(o) => Json::Object(o.iter().map(|(k, v)| (k.clone(), conv(v))).collect()),
    }
}

fn j(text: &str) -> Json {
    conv(&serde_json::from_str::<serde_json::Value>(text).unwrap())
}

#[test]
fn diff_attributes_ignores_reserved_members() {
    let previous = j(r#"{
        "id": "urn:ngsi-ld:Vehicle:1",
        "type": "Vehicle",
        "speed": {"type": "Property", "value": 10},
        "modifiedAt": "2024-01-01T00:00:00Z"
    }"#);
    let current = j(r#"{
        "id": "urn:ngsi-ld:Vehicle:1",
        "type": "Vehicle",
        "speed": {"type": "Property", "value": 20},
        "modifiedAt": "2024-01-01T00:00:01Z"
    }"#);
    let changed = diff_attributes(&previous, &current);
    assert_eq!(changed, vec!["speed".to_string()]);
}

#[test]
fn diff_reports_added_and_removed_attributes_once() {
    let previous = j(r#"{"a": 1, "b": 2, "c": 3}"#);
    let current = j(r#"{"a": 1, "c": 4, "d": 5}"#);
    let mut changed = diff_attributes(&previous, &current);
    changed.sort();
    assert_eq!(changed, vec!["b".to_string(), "c".to_string(), "d".to_string()]);
    assert!(diff_attributes(&previous, &previous).is_empty());
}

#[test]
fn watch_events_between_snapshots() {
    let previous = vec![
        (key("t", "1"), j(r#"{"id": "1", "speed": 1}"#)),
        (key("t", "2"), j(r#"{"id": "2", "speed": 2}"#)),
    ];
    let current = vec![
        (key("t", "1"), j(r#"{"id": "1", "speed": 5}"#)),
        (key("t", "3"), j(r#"{"id": "3", "color": "red"}"#)),
    ];
    let events = watch_events(&previous, &current);
    assert_eq!(events.len(), 3);
    assert_eq!(events[0].event.kind, EntityEventKind::Updated);
    assert_eq!(events[0].event.changed_attributes, vec!["speed".to_string()]);
    assert_eq!(events[1].event.kind, EntityEventKind::Created);
    assert_eq!(events[1].key.entity_id, "3");
    assert_eq!(events[1].event.changed_attributes, vec!["color".to_string()]);
    assert_eq!(events[2].event.kind, EntityEventKind::Deleted);
    assert_eq!(events[2].key.entity_id, "2");
    assert!(watch_events(&current, &current).is_empty());
}

#[test]
fn local_writes_suppress_their_own_events_once() {
    let mut state = EntityWatchState::new();
    let doc = j(r#"{"id": "1", "speed": 5}"#);
    state.record_local_upsert("t", "1", &doc);
    state.record_local_delete("t", "2");
    assert!(!state.suppress_if_local(&key("t", "1"), Some(&j(r#"{"id": "1", "speed": 6}"#))));
    assert!(state.suppress_if_local(&key("t", "1"), Some(&doc)));
    assert!(!state.suppress_if_local(&key("t", "1"), Some(&doc)));
    assert!(!state.suppress_if_local(&key("t", "2"), Some(&doc)));
    assert!(state.suppress_if_local(&key("t", "2"), None));
    assert!(!state.suppress_if_local(&key("u", "1"), None));
}

fn obj(members: &[(&str, Json)]) -> Json {
    Json::Object(members.iter().map(|(k, v)| (k.to_string(), clone_json(v))).collect())
}

fn num(text: &str) -> Json {
    Json::Number(text.to_string())
}

#[test]
fn member_order_does_not_make_documents_differ() {
    let value_ab = obj(&[("type", Json::Str("Property".to_string())), ("value", num("1"))]);
    let value_ba = obj(&[("value", num("1")), ("type", Json::Str("Property".to_string()))]);
    let previous = obj(&[("id", Json::Str("1".to_string())), ("speed", clone_json(&value_ab)), ("color", num("2"))]);
    let current = obj(&[("color", num("2")), ("speed", clone_json(&value_ba)), ("id", Json::Str("1".to_string()))]);
    assert!(diff_attributes(&previous, &current).is_empty());
    let before = vec![(key("t", "1"), clone_json(&previous))];
    let after = vec![(key("t", "1"), clone_json(&current))];
    assert!(watch_events(&before, &after).is_empty());
    let mut state = EntityWatchState::new();
    state.record_local_upsert("t", "1", &previous);
    assert!(state.suppress_if_local(&key("t", "1"), Some(&current)));
    let changed = obj(&[("color", num("3")), ("speed", value_ba), ("id", Json::Str("1".to_string()))]);
    assert_eq!(diff_attributes(&previous, &changed), vec!["color".to_string()]);
}

#[test]
fn json_equality_compares_objects_as_maps() {
    let ab = obj(&[("a", num("1")), ("b", Json::Array(vec![num("2"), Json::Null]))]);
    let ba = obj(&[("b", Json::Array(vec![num("2"), Json::Null])), ("a", num("1"))]);
    let other = obj(&[("b", Json::Array(vec![Json::Null, num("2")])), ("a", num("1"))]);
    let short = obj(&[("a", num("1"))]);
    assert!(json_eq(&ab, &ba));
    assert!(!json_eq(&ab, &other));
    assert!(!json_eq(&ab, &short));
    assert!(!json_eq(&short, &ab));
    assert!(values_equal_exec(&ab, &ba));
    assert!(!values_equal_exec(&ab, &other));
}
