use cognets_broker::error::BrokerError;
use cognets_broker::json::Json;
use cognets_broker::query::planner::{parse_geo_filter, GeoFilter, QueryPlan, TemporalFilter};
use cognets_broker::query::types::{EntityQuery, Representation, TemporalEntityQuery};

fn s(x: &str) -> Json {
    Json::Str(x.to_string())
}

fn n(x: &str) -> Json {
    Json::Number(x.to_string())
}

fn obj(members: Vec<(&str, Json)>) -> Json {
    Json::Object(members.into_iter().map(|(k, v)| (k.to_string(), v)).collect())
}

fn temporal_query() -> TemporalEntityQuery {
    TemporalEntityQuery {
        entity: EntityQuery::default(),
        time_property: Some("observedAt".to_string()),
        time_rel: Some("after".to_string()),
        time_at: Some("2024-01-01T00:00:00Z".to_string()),
        end_time_at: None,
        last_n: None,
        aggr_methods: None,
        aggr_period_duration: None,
    }
}

#[test]
fn builds_bson_filter_from_entity_query() -> Result<(), BrokerError> {
    let query = EntityQuery {
        id: Some("urn:ngsi-ld:Vehicle:1,urn:ngsi-ld:Vehicle:2".to_string()),
        entity_type: Some("Vehicle".to_string()),
        attrs: Some("speed".to_string()),
        q: Some("speed>=50".to_string()),
        ..Default::default()
    };
    let plan = QueryPlan::from_entity_query(&query)?;
    let filter = plan.to_bson_filter("tenant-a")?;
    let expected = obj(vec![(
        "$and",
        Json::Array(vec![
            obj(vec![("tenant", s("tenant-a"))]),
            obj(vec![("id", obj(vec![("$in", Json::Array(vec![s("urn:ngsi-ld:Vehicle:1"), s("urn:ngsi-ld:Vehicle:2")]))]))]),
            obj(vec![(
                "$or",
                Json::Array(vec![
                    obj(vec![("doc.type", s("Vehicle"))]),
                    obj(vec![("doc.type", obj(vec![("$elemMatch", obj(vec![("$eq", s("Vehicle"))]))]))]),
                ]),
            )]),
            obj(vec![("doc.speed", obj(vec![("$exists", Json::Bool(true))]))]),
        ]),
    )]);
    assert_eq!(filter, expected);
    assert!(plan.q_expression.is_some());
    assert_eq!(plan.limit, None);
    Ok(())
}

#[test]
fn count_queries_do_not_push_limit_into_storage() -> Result<(), BrokerError> {
    let query = EntityQuery {
        entity_type: Some("Vehicle".to_string()),
        limit: Some(1),
        count: Some(true),
        ..Default::default()
    };
    let plan = QueryPlan::from_entity_query(&query)?;
    assert_eq!(plan.limit, None);
    Ok(())
}

#[test]
fn rejects_incomplete_geo_query() {
    let error = parse_geo_filter(Some("Point"), Some("within"), None, None).unwrap_err();
    assert!(matches!(error, BrokerError::BadRequest(message) if message.contains("coordinates is required")));
}

#[test]
fn builds_near_geo_filter_with_distance_bounds() -> Result<(), BrokerError> {
    let geo = GeoFilter {
        geometry: "Point".to_string(),
        georel: "near;maxDistance==1000;minDistance==10".to_string(),
        geoproperty: "location".to_string(),
        coordinates: Json::Array(vec![n("12.3"), n("45.6")]),
    };
    let filter = geo.to_bson()?;
    let near = filter.get_member("doc.location.value").unwrap().get_member("$near").unwrap();
    assert_eq!(near.get_member("$maxDistance"), Some(&n("1000")));
    assert_eq!(near.get_member("$minDistance"), Some(&n("10")));
    let geometry = near.get_member("$geometry").unwrap();
    assert_eq!(geometry.get_str("type").map(|t| t.as_str()), Some("Point"));
    assert_eq!(geometry.get_member("coordinates"), Some(&Json::Array(vec![n("12.3"), n("45.6")])));
    Ok(())
}

#[test]
fn rejects_between_temporal_query_without_end_time() {
    let mut query = temporal_query();
    query.time_rel = Some("between".to_string());
    let error = TemporalFilter::from_query(&query).unwrap_err();
    assert!(matches!(error, BrokerError::BadRequest(message) if message.contains("endTimeAt is required")));
}

#[test]
fn maps_aggregated_temporal_representation_from_query() -> Result<(), BrokerError> {
    let mut query = temporal_query();
    query.entity.format = Some("aggregatedValues".to_string());
    let temporal = TemporalFilter::from_query(&query)?;
    assert_eq!(temporal.time_property, "observedAt");
    assert_eq!(temporal.representation, Representation::AggregatedValues);
    Ok(())
}

#[test]
fn temporal_query_defaults_and_missing_parameters() {
    let mut query = temporal_query();
    query.time_property = None;
    query.aggr_methods = Some(" avg , max,".to_string());
    query.entity.options = Some("temporalValues".to_string());
    let filter = TemporalFilter::from_query(&query).unwrap();
    assert_eq!(filter.time_property, "observedAt");
    assert_eq!(filter.aggr_methods, vec!["avg".to_string(), "max".to_string()]);
    assert_eq!(filter.representation, Representation::TemporalValues);

    let mut no_rel = temporal_query();
    no_rel.time_rel = None;
    assert_eq!(
        TemporalFilter::from_query(&no_rel).unwrap_err(),
        BrokerError::BadRequest("timerel is required".to_string())
    );
    let mut no_at = temporal_query();
    no_at.time_at = None;
    assert_eq!(
        TemporalFilter::from_query(&no_at).unwrap_err(),
        BrokerError::BadRequest("timeAt is required".to_string())
    );
}

#[test]
fn geo_filter_defaults_property_and_rejects_bad_coordinates() {
    assert!(parse_geo_filter(None, None, None, Some("place")).unwrap().is_none());
    let geo = parse_geo_filter(Some("Point"), Some("within"), Some("[1, 2]"), None).unwrap().unwrap();
    assert_eq!(geo.geoproperty, "location");
    assert_eq!(geo.coordinates, Json::Array(vec![n("1"), n("2")]));
    let error = parse_geo_filter(Some("Point"), Some("within"), Some("[1,"), None).unwrap_err();
    assert!(matches!(error, BrokerError::BadRequest(m) if m.starts_with("coordinates must be valid JSON coordinates: ")));
    let error = parse_geo_filter(None, Some("within"), Some("[1]"), None).unwrap_err();
    assert_eq!(error, BrokerError::BadRequest("geometry is required for geo queries".to_string()));
    let error = parse_geo_filter(Some("Point"), None, Some("[1]"), None).unwrap_err();
    assert_eq!(error, BrokerError::BadRequest("georel is required for geo queries".to_string()));
}

#[test]
fn geo_filter_documents_for_each_georel() {
    let mut geo = GeoFilter {
        geometry: "Polygon".to_string(),
        georel: "within".to_string(),
        geoproperty: "area".to_string(),
        coordinates: Json::Array(vec![]),
    };
    let geometry = obj(vec![("type", s("Polygon")), ("coordinates", Json::Array(vec![]))]);
    assert_eq!(
        geo.to_bson().unwrap(),
        obj(vec![("doc.area.value", obj(vec![("$geoWithin", obj(vec![("$geometry", geometry.clone())]))]))])
    );
    geo.georel = "overlaps".to_string();
    assert_eq!(
        geo.to_bson().unwrap(),
        obj(vec![("doc.area.value", obj(vec![("$geoIntersects", obj(vec![("$geometry", geometry)]))]))])
    );
    geo.georel = "disjoint".to_string();
    assert!(matches!(geo.to_bson(), Err(BrokerError::NotImplemented(_))));
    geo.georel = "touches".to_string();
    assert_eq!(geo.to_bson().unwrap_err(), BrokerError::BadRequest("invalid georel touches".to_string()));
    geo.georel = "near;maxDistance==x".to_string();
    assert!(matches!(geo.to_bson(), Err(BrokerError::BadRequest(m)) if m.starts_with("invalid near distance x: ")));
    geo.georel = "near;farDistance==5".to_string();
    assert_eq!(geo.to_bson().unwrap_err(), BrokerError::BadRequest("invalid georel near clause farDistance".to_string()));
    geo.geometry = "Circle".to_string();
    assert_eq!(geo.to_bson().unwrap_err(), BrokerError::BadRequest("unsupported geometry Circle".to_string()));
}

#[test]
fn near_distances_replace_in_place_and_accept_negative_numbers() {
    let geo = GeoFilter {
        geometry: "Point".to_string(),
        georel: "near;maxDistance==5;minDistance==-2;maxDistance==7".to_string(),
        geoproperty: "location".to_string(),
        coordinates: Json::Array(vec![n("1"), n("2")]),
    };
    let near = geo.to_bson().unwrap();
    let spec = near.get_member("doc.location.value").unwrap().get_member("$near").unwrap();
    assert_eq!(spec.keys(), vec!["$geometry".to_string(), "$maxDistance".to_string(), "$minDistance".to_string()]);
    assert_eq!(spec.get_member("$maxDistance"), Some(&n("7")));
    assert_eq!(spec.get_member("$minDistance"), Some(&n("-2")));
}

#[test]
fn out_of_range_coordinates_are_refused_by_bson() {
    let geo = GeoFilter {
        geometry: "Point".to_string(),
        georel: "within".to_string(),
        geoproperty: "location".to_string(),
        coordinates: Json::Array(vec![n("18446744073709551615"), n("1")]),
    };
    assert!(matches!(geo.to_bson(), Err(BrokerError::BadRequest(m)) if m.starts_with("invalid geo coordinates: ")));
}

#[test]
fn single_clause_filter_and_invalid_id_pattern() {
    let plan = QueryPlan::from_entity_query(&EntityQuery::default()).unwrap();
    assert_eq!(plan.to_bson_filter("t").unwrap(), obj(vec![("tenant", s("t"))]));
    let query = EntityQuery { id_pattern: Some("(".to_string()), ..Default::default() };
    let plan = QueryPlan::from_entity_query(&query).unwrap();
    assert!(matches!(plan.to_bson_filter("t"), Err(BrokerError::BadRequest(m)) if m.starts_with("invalid idPattern: ")));
    let query = EntityQuery { entity_type: Some("A,B".to_string()), id_pattern: Some("^urn".to_string()), ..Default::default() };
    let plan = QueryPlan::from_entity_query(&query).unwrap();
    let types = Json::Array(vec![s("A"), s("B")]);
    assert_eq!(
        plan.to_bson_filter("t").unwrap(),
        obj(vec![(
            "$and",
            Json::Array(vec![
                obj(vec![("tenant", s("t"))]),
                obj(vec![(
                    "$or",
                    Json::Array(vec![
                        obj(vec![("doc.type", obj(vec![("$in", types.clone())]))]),
                        obj(vec![("doc.type", obj(vec![("$elemMatch", obj(vec![("$in", types)]))]))]),
                    ])
                )]),
                obj(vec![("id", obj(vec![("$regex", s("^urn"))]))]),
            ])
        )])
    );
}

#[test]
fn plan_keeps_limit_without_filters_and_rejects_bad_q() {
    let query = EntityQuery { limit: Some(5), ..Default::default() };
    assert_eq!(QueryPlan::from_entity_query(&query).unwrap().limit, Some(5));
    let query = EntityQuery { q: Some("speed==".to_string()), ..Default::default() };
    assert!(matches!(QueryPlan::from_entity_query(&query), Err(BrokerError::BadRequest(_))));
}

#[test]
fn coordinates_beyond_i64_are_refused_by_bson() {
    let mut geo = GeoFilter {
        geometry: "Point".to_string(),
        georel: "within".to_string(),
        geoproperty: "location".to_string(),
        coordinates: Json::Array(vec![n("9223372036854775807"), n("2")]),
    };
    assert!(geo.to_bson().is_ok());
    geo.coordinates = Json::Array(vec![n("9223372036854775808"), n("2")]);
    assert!(matches!(geo.to_bson(), Err(BrokerError::BadRequest(_))));
    geo.coordinates = Json::Array(vec![n("18446744073709551616"), n("-9223372036854775808"), n("1e30")]);
    assert!(geo.to_bson().is_ok());
}
