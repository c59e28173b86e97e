use cognets_broker::error::BrokerError;
use cognets_broker::json::Json;
use cognets_broker::services::discovery::{
    attribute_info, dedupe, discovery_entities, get_attribute, get_type, list_attributes, list_types, text_precedes,
    type_info, AttributeListing, TypeListing,
};
use cognets_broker::store::{MemoryEntityRepository, StoredDocument};

fn conv(v: &serde_json::Value) -> Json {
    match v {
        serde_json::Value::Null => Json::Null,
        serde_json::Value::Bool(b) => Json::Bool(*b),
        serde_json::Value::Number(n) => Json::Number(n.to_string()),
        serde_json::Value::String(s) => Json::Str(s.clone()),
        serde_json::Value::Array(a) => Json::Array(a.iter().map(conv).collect()),
        serde_json::Value::Object(o) => Json::Object(o.iter().map(|(k, v)| (k.clone(), conv(v))).collect()),
    }
}

fn j(text: &str) -> Json {
    conv(&serde_json::from_str::<serde_json::Value>(text).unwrap())
}

fn fleet() -> Vec<Json> {
    vec![
        j(r#"{"id": "urn:ngsi-ld:Vehicle:1", "type": "Vehicle",
              "speed": {"type": "Property", "value": 42},
              "driver": {"type": "Relationship", "object": "urn:ngsi-ld:Person:1"}}"#),
        j(r#"{"id": "urn:ngsi-ld:Vehicle:2", "type": ["Vehicle", "Asset"],
              "location": {"type": "GeoProperty", "value": {"type": "Point", "coordinates": [1, 2]}},
              "speed": 5}"#),
        j(r#"{"id": "urn:ngsi-ld:Bike:1", "type": "Bike", "speed": [{"type": "Property"}, {"type": "Sensor"}]}"#),
        j(r#"{"id": "urn:ngsi-ld:Thing:1", "color": {"type": "Property", "value": "red"}}"#),
    ]
}

#[test]
fn lists_entity_types_and_attributes() {
    let entities = fleet();
    match list_types(&entities, false) {
        TypeListing::Names(list) => {
            assert_eq!(list.id, "urn:ngsi-ld:EntityTypeList");
            assert_eq!(list.type_list, vec!["Bike".to_string(), "Vehicle".to_string()]);
        },
        TypeListing::Details(_) => panic!("names expected"),
    }
    match list_attributes(&entities, true) {
        AttributeListing::Details(details) => {
            let names: Vec<&str> = details.iter().map(|d| d.attribute_name.as_str()).collect();
            assert_eq!(names, vec!["driver", "location", "speed"]);
            assert_eq!(details[0].attribute_types, vec!["Relationship".to_string()]);
            assert_eq!(details[2].attribute_types, vec!["Property".to_string(), "Sensor".to_string()]);
            assert_eq!(details[2].attribute_count, 3);
            assert_eq!(details[2].type_names, vec!["Bike".to_string(), "Vehicle".to_string()]);
        },
        AttributeListing::Names(_) => panic!("details expected"),
    }
    match list_attributes(&entities, false) {
        AttributeListing::Names(list) => {
            assert_eq!(list.list_type, "AttributeList");
            assert_eq!(list.attribute_list, vec!["driver".to_string(), "location".to_string(), "speed".to_string()]);
        },
        AttributeListing::Details(_) => panic!("names expected"),
    }
}

#[test]
fn retrieves_entity_type_and_attribute_details() {
    let entities = fleet();
    let vehicle = get_type(&entities, "Vehicle").unwrap();
    assert_eq!(vehicle.entity_type_name, "Vehicle");
    assert_eq!(vehicle.info_type, "EntityTypeInfo");
    assert_eq!(vehicle.entity_count, 2);
    let names: Vec<&str> = vehicle.attribute_details.iter().map(|d| d.attribute_name.as_str()).collect();
    assert_eq!(names, vec!["driver", "location", "speed"]);
    let location = get_attribute(&entities, "location").unwrap();
    assert_eq!(location.attribute_name, "location");
    assert_eq!(location.attribute_types, vec!["GeoProperty".to_string()]);
    assert_eq!(
        get_type(&entities, "Asset").unwrap_err(),
        BrokerError::NotFound("entity type Asset was not found".to_string())
    );
    assert_eq!(
        get_attribute(&entities, "color").unwrap_err(),
        BrokerError::NotFound("attribute color was not found".to_string())
    );
}

#[test]
fn type_details_follow_the_sorted_names() {
    let entities = fleet();
    match list_types(&entities, true) {
        TypeListing::Details(details) => {
            assert_eq!(details.len(), 2);
            assert_eq!(details[0].id, "Bike");
            assert_eq!(details[1].entity_count, 2);
        },
        TypeListing::Names(_) => panic!("details expected"),
    }
    let info = type_info(&entities, "Bike");
    assert_eq!(info.attribute_details[0].type_names, vec!["Bike".to_string()]);
    let speed = attribute_info(&entities, Some("Vehicle"), "speed");
    assert_eq!(speed.attribute_count, 2);
    assert_eq!(speed.attribute_types, vec!["Property".to_string()]);
}

#[test]
fn discovery_entities_drop_repeated_ids() {
    let items = vec![j(r#"{"id": "a", "n": 1}"#), j(r#"{"id": "b"}"#), j(r#"{"id": "a", "n": 2}"#), j("{}"), j("{}")];
    let kept = dedupe(items);
    assert_eq!(kept, vec![j(r#"{"id": "a", "n": 1}"#), j(r#"{"id": "b"}"#), j("{}")]);
    let mut store = MemoryEntityRepository::new();
    store.replace(StoredDocument { tenant: "t".to_string(), ngsi_id: "a".to_string(), doc: j(r#"{"id": "a", "type": "T"}"#) });
    store.replace(StoredDocument { tenant: "u".to_string(), ngsi_id: "b".to_string(), doc: j(r#"{"id": "b", "type": "U"}"#) });
    assert_eq!(discovery_entities(&store, "t"), vec![j(r#"{"id": "a", "type": "T"}"#)]);
}

#[test]
fn text_order_is_code_point_order() {
    assert!(text_precedes("Asset", "Bike"));
    assert!(text_precedes("Bike", "Bikes"));
    assert!(text_precedes("Zebra", "apple"));
    assert!(!text_precedes("b", "a"));
    assert!(!text_precedes("same", "same"));
}
