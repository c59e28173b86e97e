use cognets_broker::error::BrokerError;
use cognets_broker::json::Json;
use cognets_broker::query::eval::{
    q_expression_matches_value, q_expression_matches_value_with_options, query_matches_value, QueryMatchOptions,
};
use cognets_broker::query::language::parse_q_expression;
use cognets_broker::query::scope::{parse_scope_expression, scope_expression_matches_values, scope_query_matches_values};

fn conv(v: &serde_json::Value) -> Json {
    match v {
        serde_json::Value::Null => Json::Null,
        serde_json::Value::Bool(b) => Json::Bool(*b),
        serde_json::Value::Number(n) => Json::Number(n.to_string()),
        serde_json::Value::String(s) => Json::Str(s.clone()),
        serde_json::Value::Array(a) => Json::Array(a.iter().map(conv).collect()),
        serde_json::Value::Object(o) => Json::Object(o.iter().map(|(k, v)| (k.clone(), conv(v))).collect()),
    }
}

fn j(text: &str) -> Json {
    conv(&serde_json::from_str::<serde_json::Value>(text).unwrap())
}

fn options(expand: &[&str], keys: &[&str], terms: &[(&str, &str)], linked: Vec<(String, Json)>) -> QueryMatchOptions {
    QueryMatchOptions::with_value_lists(
        expand.iter().map(|s| s.to_string()).collect(),
        keys.iter().map(|s| s.to_string()).collect(),
        terms.iter().map(|(a, b)| (a.to_string(), b.to_string())).collect(),
        linked,
    )
}

#[test]
fn parses_and_evaluates_grouped_query() -> Result<(), BrokerError> {
    let expression = parse_q_expression(Some("(speed==20,30|brandName~=^Mer.*$);address[city]==\"Berlin\""))?
        .expect("expression");
    let entity = j(r#"{
        "speed": {"type": "Property", "value": 30},
        "brandName": {"type": "Property", "value": "Mercedes"},
        "address": {"type": "Property", "value": {"city": "Berlin"}}
    }"#);
    assert!(q_expression_matches_value(&expression, &entity));
    Ok(())
}

#[test]
fn evaluates_relationship_and_language_property_queries() -> Result<(), BrokerError> {
    let relationship =
        parse_q_expression(Some("isParked==urn:ngsi-ld:OffStreetParking:Downtown1"))?.expect("relationship");
    let language = parse_q_expression(Some("color[*]==\"red\""))?.expect("language");
    let entity = j(r#"{
        "isParked": {"type": "Relationship", "object": "urn:ngsi-ld:OffStreetParking:Downtown1"},
        "color": {"type": "LanguageProperty", "languageMap": {"fr": "rouge", "en": ["red", "bright"]}}
    }"#);
    assert!(q_expression_matches_value(&relationship, &entity));
    assert!(q_expression_matches_value(&language, &entity));
    Ok(())
}

#[test]
fn parses_scope_query_language() -> Result<(), BrokerError> {
    let scopes = vec!["/Madrid/Gardens/ParqueNorte".to_string()];
    assert!(scope_query_matches_values(&scopes, Some("/Madrid/Gardens/#"))?);
    assert!(scope_query_matches_values(&scopes, Some("/Madrid/+/ParqueNorte"))?);
    assert!(scope_query_matches_values(&scopes, Some("/#"))?);
    assert!(!scope_query_matches_values(&scopes, Some("/Madrid"))?);
    assert!(!scope_query_matches_values(&scopes, Some("(/Madrid/Gardens;/CompanyA)"))?);
    Ok(())
}

#[test]
fn expands_values_using_context_terms() -> Result<(), BrokerError> {
    let expression = parse_q_expression(Some("brandCode==https://example.org/brands/Mercedes"))?.expect("expression");
    let entity = j(r#"{"brandCode": {"type": "Property", "value": "MercedesBrand"}}"#);
    let opts = options(&["brandCode"], &[], &[("MercedesBrand", "https://example.org/brands/Mercedes")], Vec::new());
    assert!(!q_expression_matches_value(&expression, &entity));
    assert!(q_expression_matches_value_with_options(&expression, &entity, &opts));
    Ok(())
}

#[test]
fn uses_json_keys_for_trailing_json_members() -> Result<(), BrokerError> {
    let expression = parse_q_expression(Some("metadata[nested]==1"))?.expect("expression");
    let entity = j(r#"{"metadata": {"type": "JsonProperty", "value": "opaque", "json": {"nested": 1}}}"#);
    let opts = options(&[], &["metadata"], &[], Vec::new());
    assert!(!q_expression_matches_value(&expression, &entity));
    assert!(q_expression_matches_value_with_options(&expression, &entity, &opts));
    Ok(())
}

#[test]
fn resolves_linked_entities_from_relationship_object_ids() -> Result<(), BrokerError> {
    let expression = parse_q_expression(Some("sensor{Device:humidity}==40"))?.expect("expression");
    let entity = j(r#"{"sensor": {"type": "Relationship", "object": "urn:ngsi-ld:Device:1"}}"#);
    let device = j(r#"{"id": "urn:ngsi-ld:Device:1", "type": "Device", "humidity": {"type": "Property", "value": 40}}"#);
    let opts = options(&[], &[], &[], vec![("urn:ngsi-ld:Device:1".to_string(), device)]);
    assert!(q_expression_matches_value_with_options(&expression, &entity, &opts));
    Ok(())
}

#[test]
fn empty_q_matches_everything_and_malformed_q_is_rejected() {
    let entity = j(r#"{"speed": {"type": "Property", "value": 3}}"#);
    assert_eq!(query_matches_value(&entity, None), Ok(true));
    assert_eq!(query_matches_value(&entity, Some("   ")), Ok(true));
    assert!(matches!(parse_q_expression(Some("speed==")), Err(BrokerError::BadRequest(_))));
    assert!(matches!(parse_q_expression(Some("(speed==1")), Err(BrokerError::BadRequest(_))));
}

#[test]
fn comparison_operators_order_numbers_and_texts() -> Result<(), BrokerError> {
    let entity = j(r#"{"speed": {"type": "Property", "value": 50}, "name": {"type": "Property", "value": "beta"}}"#);
    let gte = parse_q_expression(Some("speed>=50"))?.expect("gte");
    let gt = parse_q_expression(Some("speed>50"))?.expect("gt");
    let lt = parse_q_expression(Some("name<\"gamma\""))?.expect("lt");
    let range = parse_q_expression(Some("speed==40..60"))?.expect("range");
    let neq = parse_q_expression(Some("speed!=50"))?.expect("neq");
    assert!(q_expression_matches_value(&gte, &entity));
    assert!(!q_expression_matches_value(&gt, &entity));
    assert!(q_expression_matches_value(&lt, &entity));
    assert!(q_expression_matches_value(&range, &entity));
    assert!(!q_expression_matches_value(&neq, &entity));
    Ok(())
}

#[test]
fn pattern_operators_use_regular_expressions() -> Result<(), BrokerError> {
    let entity = j(r#"{"brandName": {"type": "Property", "value": "Mercedes"}}"#);
    let like = parse_q_expression(Some("brandName~=^Mer"))?.expect("like");
    let unlike = parse_q_expression(Some("brandName!~=^Mer"))?.expect("unlike");
    assert!(q_expression_matches_value(&like, &entity));
    assert!(!q_expression_matches_value(&unlike, &entity));
    Ok(())
}

#[test]
fn scope_queries_match_by_levels() -> Result<(), BrokerError> {
    let scopes = vec!["/Madrid/Gardens".to_string(), "/CompanyA".to_string()];
    assert!(scope_query_matches_values(&scopes, Some("(/Madrid/Gardens;/CompanyA)"))?);
    assert!(matches!(scope_query_matches_values(&scopes, Some("/Madrid/Gardens;/CompanyA")), Err(BrokerError::BadRequest(_))));
    assert!(scope_query_matches_values(&scopes, Some("/Other,/CompanyA"))?);
    assert!(scope_query_matches_values(&scopes, None)?);
    assert!(!scope_query_matches_values(&Vec::new(), Some("/#"))?);
    let expression = parse_scope_expression(Some("/Madrid/#"))?.expect("scope");
    assert!(scope_expression_matches_values(&expression, &scopes));
    Ok(())
}

fn bad_request_message<T>(r: Result<T, BrokerError>) -> String {
    match r {
        Err(BrokerError::BadRequest(m)) => m,
        Err(other) => panic!("unexpected error {other:?}"),
        Ok(_) => panic!("expected a bad request"),
    }
}

#[test]
fn scope_parse_errors_carry_their_messages() {
    assert_eq!(
        bad_request_message(parse_scope_expression(Some("/Madrid;/CompanyA"))),
        "scopeQ conjunctions require parentheses"
    );
    assert_eq!(bad_request_message(parse_scope_expression(Some("Madrid"))), "invalid scopeQ scope Madrid");
    assert_eq!(bad_request_message(parse_scope_expression(Some("/1abc"))), "invalid scope name 1abc");
    assert_eq!(bad_request_message(parse_scope_expression(Some("/"))), "invalid scopeQ scope /");
    assert_eq!(
        bad_request_message(parse_scope_expression(Some("/Madrid | (/A;x)"))),
        "invalid scopeQ scope x"
    );
    let scopes = vec!["/Madrid".to_string()];
    assert_eq!(
        bad_request_message(scope_query_matches_values(&scopes, Some("/Madrid;/CompanyA"))),
        "scopeQ conjunctions require parentheses"
    );
}

#[test]
fn q_parse_errors_carry_their_messages() {
    assert_eq!(
        bad_request_message(parse_q_expression(Some("speed=="))),
        "missing right-hand side in q expression term: speed=="
    );
    assert_eq!(bad_request_message(parse_q_expression(Some("9speed==1"))), "invalid query attribute name 9speed");
    assert_eq!(bad_request_message(parse_q_expression(Some("speed>true"))), "invalid comparable q literal true");
    assert_eq!(
        bad_request_message(parse_q_expression(Some("a==1;rel{x"))),
        "invalid linked entity path rel{x"
    );
    assert_eq!(
        bad_request_message(parse_q_expression(Some("speed==1|rel{:x}==2"))),
        "invalid linked entity path :x"
    );
    assert!(bad_request_message(parse_q_expression(Some("a==[1"))).starts_with("invalid q literal [1: "));
    assert!(bad_request_message(parse_q_expression(Some("a~=("))).starts_with("invalid q regex (: "));
}

#[test]
fn absent_attribute_satisfies_neither_equality_nor_inequality() -> Result<(), BrokerError> {
    let entity = j(r#"{"brandName": {"type": "Property", "value": "Mercedes"}}"#);
    assert!(!query_matches_value(&entity, Some("speed==1"))?);
    assert!(!query_matches_value(&entity, Some("speed!=1"))?);
    assert!(query_matches_value(&entity, Some("brandName!=\"Audi\""))?);
    assert!(!query_matches_value(&entity, Some("brandName!=\"Mercedes\""))?);
    assert!(query_matches_value(&entity, Some("brandName;brandName==\"Mercedes\""))?);
    assert!(!query_matches_value(&entity, Some("brandName;speed"))?);
    assert!(query_matches_value(&entity, Some("speed|brandName"))?);
    assert!(!query_matches_value(&entity, Some("speed|color"))?);
    Ok(())
}
