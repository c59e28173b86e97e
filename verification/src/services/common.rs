//! Shared service rules: representations, payload validation, entity
//! preparation, projection and simplification, query matching, and the
//! shapes of notifications and temporal records.
use vstd::prelude::*;
use crate::error::{BrokerError, error_message};
use crate::headers::{RequestContext, apply_context_link, content_type_for_representation, content_type_of, with_context_link};
use crate::json::{
    Json, JsonV, attribute_names, clone_json, editable_fragment_members, entity_attribute_names,
    entry_views, fragment_members, lemma_object_view, map_insert, map_remove, member_index,
    member_position, object_insert, object_remove, is_reserved_member, json_views, lemma_array_view,
    lemma_entry_decreases, lemma_item_decreases, reserved_member, parse_csv,
};
use crate::links::{is_url, parse_url};
use crate::query::planner::{clone_opt, opt_as_str, opt_str, opt_text, temporal_repr, temporal_representation};
use crate::time::now_timestamp;
use crate::query::types::Representation;
use crate::text::{
    chars_eq, chars_of, concat_str, csv_items, has_infix, split_chars, split_on, str_contains, str_eq,
    string_from, text_around, trim, trim_chars, views,
};
use crate::query::eval::{
    OptionsV, QueryMatchOptions, expression_uses_linked, extract_scope_values, query_holds,
    query_matches_value_with_options, q_expression_uses_linked_entity, scope_values_of,
};
use crate::query::language::{check_regex, parse_q_expression, q_expression, regex_compiles, regex_finds, regex_is_match};
use crate::query::scope::{scope_expression, scope_matches, scope_query_matches_values};
use crate::query::types::{EntityQuery, TemporalEntityQuery};
use crate::query::planner::csv_list;

verus! {

/// Root path of the NGSI-LD API.
pub open spec fn base_path() -> Seq<char> {
    "/ngsi-ld/v1"@
}

/// The representation asked for by the `Accept` header (empty when
/// absent), `format` and `options`: GeoJSON by the header first, then the
/// temporal representations, then key-values when the format (else the
/// options) names `keyValues` or `simplified`.
pub open spec fn request_repr(accept: Seq<char>, format: Option<Seq<char>>, options: Option<Seq<char>>) -> Representation {
    if has_infix(accept, "application/geo+json"@) {
        Representation::GeoJson
    } else if temporal_repr(format, options) != Representation::Normalized {
        temporal_repr(format, options)
    } else {
        match (match format {
            Some(f) => Some(f),
            None => options,
        }) {
            Some(v) => if has_infix(v, "keyValues"@) || has_infix(v, "simplified"@) {
                Representation::KeyValues
            } else {
                Representation::Normalized
            },
            None => Representation::Normalized,
        }
    }
}

/// Selects the response representation from the `Accept` header's value
/// (empty when absent), format and options.
pub fn representation_from_request(accept: &str, format: Option<&str>, options: Option<&str>) -> (r: Representation)
    ensures
        r == request_repr(accept@, opt_str(format), opt_str(options)),
{
    if str_contains(accept, "application/geo+json") {
        return Representation::GeoJson;
    }
    let temporal = temporal_representation(format, options);
    if temporal != Representation::Normalized {
        return temporal;
    }
    let chosen = match format {
        Some(f) => Some(f),
        None => options,
    };
    match chosen {
        Some(v) => if str_contains(v, "keyValues") || str_contains(v, "simplified") {
            Representation::KeyValues
        } else {
            Representation::Normalized
        },
        None => Representation::Normalized,
    }
}

/// Returns the response content type for a representation, given the
/// `Accept` header's value (empty when absent).
pub fn response_content_type(accept: &str, representation: Representation) -> (r: &'static str)
    ensures
        r@ == content_type_of(accept@, representation),
{
    content_type_for_representation(accept, representation)
}

/// Builds the resource location under the NGSI-LD base path.
pub fn resource_location(resource: &str, resource_id: &str) -> (r: String)
    ensures
        r@ == base_path() + "/"@ + resource@ + "/"@ + resource_id@,
{
    let id = chars_of(resource_id);
    let tail = text_around("/", &id, "");
    let res = chars_of(resource);
    let middle = text_around("/", &res, tail.as_str());
    let m = chars_of(middle.as_str());
    proof {
        reveal_strlit("");
    }
    let r = text_around("/ngsi-ld/v1", &m, "");
    assert(r@ =~= base_path() + "/"@ + resource@ + "/"@ + resource_id@);
    r
}

/// Validates that an identifier looks URI-like: it holds a `:`.
pub fn ensure_uri_like(value: &str, label: &str) -> (r: Result<(), BrokerError>)
    ensures
        r is Ok <==> value@.contains(':'),
        r matches Err(e) ==> e is BadRequest && error_message(e) == label@ + " must be a URI"@,
{
    let cs = chars_of(value);
    let mut i: usize = 0;
    while i < cs.len()
        invariant
            i <= cs.len(),
            cs@ == value@,
            forall|j: int| 0 <= j < i ==> cs@[j] != ':',
        decreases cs.len() - i,
    {
        if cs[i] == ':' {
            assert(value@[i as int] == ':');
            return Ok(());
        }
        i += 1;
    }
    Err(BrokerError::BadRequest(concat_str(label, " must be a URI")))
}

/// Validates an outbound URL field: it parses as a URL.
pub fn ensure_url(value: &str, label: &str) -> (r: Result<(), BrokerError>)
    ensures
        r is Ok <==> is_url(value@),
        r matches Err(e) ==> e is BadRequest && error_message(e) == label@ + " must be a valid URL"@,
{
    match parse_url(value) {
        Ok(_) => Ok(()),
        Err(_) => Err(BrokerError::BadRequest(concat_str(label, " must be a valid URL"))),
    }
}

/// An entity's type member names a type: it is that string, or an array
/// holding it.
pub open spec fn type_matches(value: Option<JsonV>, expected: Seq<char>) -> bool {
    match value {
        Some(JsonV::Str(actual)) => actual == expected,
        Some(JsonV::Array(items)) => exists|i: int|
            0 <= i < items.len() && #[trigger] items[i] == JsonV::Str(expected),
        _ => false,
    }
}

/// Returns true when an entity type field contains the expected type.
pub fn entity_type_matches(value: Option<&Json>, expected: &str) -> (r: bool)
    ensures
        r == type_matches(
            match value {
                Some(v) => Some(v@),
                None => None,
            },
            expected@,
        ),
{
    match value {
        Some(Json::Str(actual)) => str_eq(actual.as_str(), expected),
        Some(Json::Array(items)) => {
            proof {
                crate::json::lemma_array_view(*items);
            }
            let mut i: usize = 0;
            while i < items.len()
                invariant
                    i <= items.len(),
                    value == Some(&Json::Array(*items)),
                    Json::Array(*items)@ == JsonV::Array(crate::json::json_views(items@)),
                    forall|j: int| 0 <= j < i ==> items@[j]@ != JsonV::Str(expected@),
                decreases items.len() - i,
            {
                match &items[i] {
                    Json::Str(s) => {
                        if str_eq(s.as_str(), expected) {
                            assert(crate::json::json_views(items@)[i as int] == JsonV::Str(expected@));
                            return true;
                        }
                    },
                    _ => {},
                }
                i += 1;
            }
            proof {
                assert forall|j: int| 0 <= j < items@.len() implies #[trigger] crate::json::json_views(items@)[j]
                    != JsonV::Str(expected@) by {
                    assert(crate::json::json_views(items@)[j] == items@[j]@);
                }
            }
            false
        },
        _ => false,
    }
}

/// The first type name of an entity: its type string, or the first member
/// of its type array when that is a string.
pub open spec fn primary_type(entity: JsonV) -> Option<Seq<char>> {
    match entity.get("type"@) {
        Some(JsonV::Str(s)) => Some(s),
        Some(JsonV::Array(items)) => if items.len() > 0 && items[0] is Str {
            Some(items[0]->Str_0)
        } else {
            None
        },
        _ => None,
    }
}

/// Returns the first type name of an entity payload.
pub fn entity_primary_type(entity: &Json) -> (r: Option<String>)
    ensures
        match r {
            Some(s) => primary_type(entity@) == Some(s@),
            None => primary_type(entity@) is None,
        },
{
    match entity.get_member("type") {
        Some(Json::Str(s)) => Some(s.clone()),
        Some(Json::Array(items)) => {
            proof {
                crate::json::lemma_array_view(*items);
            }
            if items.len() > 0 {
                assert(crate::json::json_views(items@)[0] == items@[0]@);
                match &items[0] {
                    Json::Str(s) => Some(s.clone()),
                    _ => None,
                }
            } else {
                None
            }
        },
        _ => None,
    }
}

/// Ensures a fragment's id, when it has one, is the target entity id.
pub fn ensure_fragment_id_matches(fragment: &Json, entity_id: &str) -> (r: Result<(), BrokerError>)
    ensures
        r is Ok <==> match fragment@.get_str("id"@) {
            Some(s) => s == entity_id@,
            None => true,
        },
        r matches Err(e) ==> e is BadRequest && error_message(e)
            == "payload id must match the entity id in the path"@,
{
    match fragment.get_str("id") {
        Some(s) => if str_eq(s.as_str(), entity_id) {
            Ok(())
        } else {
            Err(BrokerError::bad_request("payload id must match the entity id in the path"))
        },
        None => Ok(()),
    }
}

/// Ensures a stored entity matches the requested type selector.
pub fn ensure_requested_type(entity: &Json, requested_type: Option<&str>) -> (r: Result<(), BrokerError>)
    ensures
        r is Ok <==> match requested_type {
            Some(t) => type_matches(entity@.get("type"@), t@),
            None => true,
        },
        r matches Err(e) ==> (e is NotFound && requested_type is Some && error_message(e)
            == "entity type "@ + requested_type->0@ + " does not match the stored entity"@),
{
    match requested_type {
        Some(t) => {
            let found = entity.get_member("type");
            if entity_type_matches(found, t) {
                Ok(())
            } else {
                let tc = chars_of(t);
                Err(BrokerError::NotFound(text_around("entity type ", &tc, " does not match the stored entity")))
            }
        },
        None => Ok(()),
    }
}

/// Ensures an attribute exists on an entity.
pub fn ensure_attribute_exists(entity: &Json, attr_id: &str) -> (r: Result<(), BrokerError>)
    ensures
        r is Ok <==> entity@.get(attr_id@) is Some,
        r matches Err(e) ==> e is NotFound && error_message(e) == "attribute "@ + attr_id@
            + " was not found"@,
{
    if entity.get_member(attr_id).is_none() {
        let a = chars_of(attr_id);
        return Err(BrokerError::NotFound(text_around("attribute ", &a, " was not found")));
    }
    Ok(())
}

/// What is wrong with an entity payload, if anything: it must be an object
/// whose `id` is a URI-like string and whose `type` is a string or an array.
pub open spec fn entity_problem(e: JsonV) -> Option<Seq<char>> {
    if !e.is_object() {
        Some("entity payload must be a JSON object"@)
    } else {
        match e.get_str("id"@) {
            None => Some("entity id is required"@),
            Some(id) => if !id.contains(':') {
                Some("entity id must be a URI"@)
            } else {
                match e.get("type"@) {
                    None => Some("entity type is required"@),
                    Some(t) => if t is Str || t is Array {
                        None
                    } else {
                        Some("entity type must be a string or an array of strings"@)
                    },
                }
            },
        }
    }
}

/// Validates the basic NGSI-LD entity shape.
pub fn validate_entity(entity: &Json) -> (r: Result<(), BrokerError>)
    ensures
        match r {
            Ok(()) => entity_problem(entity@) is None,
            Err(e) => e is BadRequest && entity_problem(entity@) == Some(error_message(e)),
        },
{
    if !entity.is_object() {
        return Err(BrokerError::bad_request("entity payload must be a JSON object"));
    }
    let id = match entity.get_str("id") {
        Some(id) => id,
        None => {
            return Err(BrokerError::bad_request("entity id is required"));
        },
    };
    match ensure_uri_like(id.as_str(), "entity id") {
        Ok(()) => {},
        Err(e) => {
            proof {
                reveal_strlit("entity id");
                reveal_strlit(" must be a URI");
                reveal_strlit("entity id must be a URI");
                assert("entity id"@ + " must be a URI"@ =~= "entity id must be a URI"@);
            }
            return Err(e);
        },
    }
    match entity.get_member("type") {
        None => Err(BrokerError::bad_request("entity type is required")),
        Some(Json::Str(_)) => Ok(()),
        Some(Json::Array(_)) => Ok(()),
        Some(_) => Err(BrokerError::bad_request("entity type must be a string or an array of strings")),
    }
}

/// The text of member `field` of a subscription's `notification.endpoint`.
pub open spec fn endpoint_field(s: JsonV, field: Seq<char>) -> Option<Seq<char>> {
    match s.get("notification"@) {
        Some(n) => match n.get("endpoint"@) {
            Some(ep) => ep.get_str(field),
            None => None,
        },
        None => None,
    }
}

/// What is wrong with a subscription payload, if anything: it must be an
/// object with a URI-like `id`, type `Subscription`, and a notification
/// endpoint whose `uri` is a URL.
pub open spec fn subscription_problem(s: JsonV) -> Option<Seq<char>> {
    if !s.is_object() {
        Some("subscription payload must be a JSON object"@)
    } else {
        match s.get_str("id"@) {
            None => Some("subscription id is required"@),
            Some(id) => if !id.contains(':') {
                Some("subscription id must be a URI"@)
            } else if s.get_str("type"@) != Some("Subscription"@) {
                Some("subscription type must be Subscription"@)
            } else {
                match endpoint_field(s, "uri"@) {
                    None => Some("subscription notification.endpoint.uri is required"@),
                    Some(uri) => if is_url(uri) {
                        None
                    } else {
                        Some("notification endpoint must be a valid URL"@)
                    },
                }
            },
        }
    }
}

/// The text of member `field` of a subscription's `notification.endpoint`.
fn endpoint_text<'a>(s: &'a Json, field: &str) -> (r: Option<&'a String>)
    ensures
        match r {
            Some(t) => endpoint_field(s@, field@) == Some(t@),
            None => endpoint_field(s@, field@) is None,
        },
{
    match s.get_member("notification") {
        Some(n) => match n.get_member("endpoint") {
            Some(ep) => ep.get_str(field),
            None => None,
        },
        None => None,
    }
}

/// Validates the basic NGSI-LD subscription shape.
pub fn validate_subscription(subscription: &Json) -> (r: Result<(), BrokerError>)
    ensures
        match r {
            Ok(()) => subscription_problem(subscription@) is None,
            Err(e) => e is BadRequest && subscription_problem(subscription@) == Some(error_message(e)),
        },
{
    if !subscription.is_object() {
        return Err(BrokerError::bad_request("subscription payload must be a JSON object"));
    }
    let id = match subscription.get_str("id") {
        Some(id) => id,
        None => {
            return Err(BrokerError::bad_request("subscription id is required"));
        },
    };
    match ensure_uri_like(id.as_str(), "subscription id") {
        Ok(()) => {},
        Err(e) => {
            proof {
                reveal_strlit("subscription id");
                reveal_strlit(" must be a URI");
                reveal_strlit("subscription id must be a URI");
                assert("subscription id"@ + " must be a URI"@ =~= "subscription id must be a URI"@);
            }
            return Err(e);
        },
    }
    let is_subscription = match subscription.get_str("type") {
        Some(t) => str_eq(t.as_str(), "Subscription"),
        None => false,
    };
    if !is_subscription {
        return Err(BrokerError::bad_request("subscription type must be Subscription"));
    }
    let uri = match endpoint_text(subscription, "uri") {
        Some(u) => u,
        None => {
            return Err(BrokerError::bad_request("subscription notification.endpoint.uri is required"));
        },
    };
    proof {
        reveal_strlit("notification endpoint");
        reveal_strlit(" must be a valid URL");
        reveal_strlit("notification endpoint must be a valid URL");
        assert("notification endpoint"@ + " must be a valid URL"@
            =~= "notification endpoint must be a valid URL"@);
    }
    ensure_url(uri.as_str(), "notification endpoint")
}

/// Returns the editable members of an attribute fragment.
pub fn editable_attr_fragment(fragment: &Json) -> (r: Vec<(String, Json)>)
    ensures
        entry_views(r@) == fragment_members(fragment@),
{
    editable_fragment_members(fragment)
}

/// Returns the changed top-level attribute names of a fragment.
pub fn changed_attribute_names(fragment: &Json) -> (r: Vec<String>)
    ensures
        views(r@) == attribute_names(fragment@),
{
    entity_attribute_names(fragment)
}

/// A fresh random identifier from `uuid::Uuid::new_v4`, in its hyphenated
/// text form. Nothing is stated of it: it is random.
#[verifier::external_body]
pub(crate) fn new_uuid() -> String {
    uuid::Uuid::new_v4().to_string()
}

/// The view of an optional borrowed JSON value.
pub open spec fn opt_json(v: Option<&Json>) -> Option<JsonV> {
    match v {
        Some(x) => Some(x@),
        None => None,
    }
}

/// The outcome of a preparation as texts: the id, or the error message.
pub open spec fn id_outcome(r: Result<String, BrokerError>) -> Result<Seq<char>, Seq<char>> {
    match r {
        Ok(id) => Ok(id@),
        Err(e) => Err(error_message(e)),
    }
}

/// The outcome of a check as a text: nothing, or the error message.
pub open spec fn unit_outcome(r: Result<(), BrokerError>) -> Result<(), Seq<char>> {
    match r {
        Ok(()) => Ok(()),
        Err(e) => Err(error_message(e)),
    }
}

/// A document after creation at `now`: `createdAt` and `modifiedAt` set to
/// `now`, `deletedAt` removed.
pub open spec fn stamped_for_create(m: Seq<(Seq<char>, JsonV)>, now: Seq<char>) -> Seq<(Seq<char>, JsonV)> {
    object_remove(
        object_insert(object_insert(m, "createdAt"@, JsonV::Str(now)), "modifiedAt"@, JsonV::Str(now)),
        "deletedAt"@,
    )
}

/// Preparing an entity for creation at `now`: the entity afterwards, and
/// its id or the error message. An object gets `@context` from the `Link`
/// header when it has none; when it is then a valid entity it is stamped.
pub open spec fn create_preparation(entity: JsonV, link: Option<Seq<char>>, now: Seq<char>) -> (JsonV, Result<Seq<char>, Seq<char>>) {
    match entity {
        JsonV::Object(m) => {
            let linked = with_context_link(m, link);
            match entity_problem(JsonV::Object(linked)) {
                Some(msg) => (JsonV::Object(linked), Err(msg)),
                None => (
                    JsonV::Object(stamped_for_create(linked, now)),
                    Ok(JsonV::Object(linked).get_str("id"@)->0),
                ),
            }
        },
        _ => (entity, Err("entity payload must be a JSON object"@)),
    }
}

/// Sets member `key` of an object held in a `Json` to a string.
fn set_text(entries: &mut Vec<(String, Json)>, key: &str, value: &str)
    ensures
        entry_views(final(entries)@) == object_insert(entry_views(old(entries)@), key@, JsonV::Str(value@)),
{
    let v = Json::Str(string_from(value));
    map_insert(entries, string_from(key), v);
}

/// Normalizes an entity payload for creation at a given time and returns
/// its id.
pub fn prepare_entity_for_create_at(entity: &mut Json, context: &RequestContext, now: &str) -> (r: Result<String, BrokerError>)
    ensures
        create_preparation(old(entity)@, opt_text(context.link_header), now@) == (final(entity)@, id_outcome(r)),
        r matches Err(e) ==> e is BadRequest,
{
    let mut taken = Json::Null;
    std::mem::swap(&mut taken, entity);
    match taken {
        Json::Object(mut entries) => {
            proof {
                lemma_object_view(entries);
            }
            apply_context_link(&mut entries, opt_as_str(&context.link_header));
            proof {
                lemma_object_view(entries);
            }
            let linked = Json::Object(entries);
            match validate_entity(&linked) {
                Ok(()) => {},
                Err(e) => {
                    *entity = linked;
                    return Err(e);
                },
            }
            let id = match linked.get_str("id") {
                Some(s) => s.clone(),
                None => {
                    *entity = linked;
                    return Err(BrokerError::bad_request("entity id is required"));
                },
            };
            match linked {
                Json::Object(mut entries) => {
                    set_text(&mut entries, "createdAt", now);
                    set_text(&mut entries, "modifiedAt", now);
                    let _ = map_remove(&mut entries, "deletedAt");
                    proof {
                        lemma_object_view(entries);
                    }
                    *entity = Json::Object(entries);
                    Ok(id)
                },
                other => {
                    *entity = other;
                    Err(BrokerError::bad_request("entity payload must be a JSON object"))
                },
            }
        },
        other => {
            *entity = other;
            Err(BrokerError::bad_request("entity payload must be a JSON object"))
        },
    }
}

/// Normalizes an entity payload for creation, stamped with the current
/// time, and returns its id.
pub fn prepare_entity_for_create(entity: &mut Json, context: &RequestContext) -> (r: Result<String, BrokerError>)
    ensures
        exists|now: Seq<char>| #[trigger]
            create_preparation(old(entity)@, opt_text(context.link_header), now) == (
                final(entity)@,
                id_outcome(r),
            ),
        r matches Err(e) ==> e is BadRequest,
{
    let now = now_timestamp();
    prepare_entity_for_create_at(entity, context, now.as_str())
}

/// A document after replacement at `now`: `createdAt` kept from the stored
/// entity when it had one, `modifiedAt` set to `now`, `deletedAt` removed.
pub open spec fn stamped_for_replace(m: Seq<(Seq<char>, JsonV)>, created_at: Option<JsonV>, now: Seq<char>) -> Seq<(Seq<char>, JsonV)> {
    object_remove(
        object_insert(
            match created_at {
                Some(c) => object_insert(m, "createdAt"@, c),
                None => m,
            },
            "modifiedAt"@,
            JsonV::Str(now),
        ),
        "deletedAt"@,
    )
}

/// Preparing a full replacement at `now`: the entity afterwards, and
/// nothing or the error message. An object gets `@context` from the `Link`
/// header when it has none and the path's id; when it is then a valid
/// entity it is stamped.
pub open spec fn replace_preparation(
    entity: JsonV,
    entity_id: Seq<char>,
    link: Option<Seq<char>>,
    created_at: Option<JsonV>,
    now: Seq<char>,
) -> (JsonV, Result<(), Seq<char>>) {
    match entity {
        JsonV::Object(m) => {
            let linked = object_insert(with_context_link(m, link), "id"@, JsonV::Str(entity_id));
            match entity_problem(JsonV::Object(linked)) {
                Some(msg) => (JsonV::Object(linked), Err(msg)),
                None => (JsonV::Object(stamped_for_replace(linked, created_at, now)), Ok(())),
            }
        },
        _ => (entity, Err("entity payload must be a JSON object"@)),
    }
}

/// Normalizes a full entity replacement at a given time, keeping the
/// stored creation time.
pub fn prepare_entity_for_replace_at(
    entity: &mut Json,
    entity_id: &str,
    context: &RequestContext,
    created_at: Option<&Json>,
    now: &str,
) -> (r: Result<(), BrokerError>)
    ensures
        replace_preparation(
            old(entity)@,
            entity_id@,
            opt_text(context.link_header),
            opt_json(created_at),
            now@,
        ) == (final(entity)@, unit_outcome(r)),
        r matches Err(e) ==> e is BadRequest,
{
    let mut taken = Json::Null;
    std::mem::swap(&mut taken, entity);
    match taken {
        Json::Object(mut entries) => {
            proof {
                lemma_object_view(entries);
            }
            apply_context_link(&mut entries, opt_as_str(&context.link_header));
            set_text(&mut entries, "id", entity_id);
            proof {
                lemma_object_view(entries);
            }
            let linked = Json::Object(entries);
            match validate_entity(&linked) {
                Ok(()) => {},
                Err(e) => {
                    *entity = linked;
                    return Err(e);
                },
            }
            match linked {
                Json::Object(mut entries) => {
                    match created_at {
                        Some(c) => {
                            map_insert(&mut entries, string_from("createdAt"), clone_json(c));
                        },
                        None => {},
                    }
                    set_text(&mut entries, "modifiedAt", now);
                    let _ = map_remove(&mut entries, "deletedAt");
                    proof {
                        lemma_object_view(entries);
                    }
                    *entity = Json::Object(entries);
                    Ok(())
                },
                other => {
                    *entity = other;
                    Err(BrokerError::bad_request("entity payload must be a JSON object"))
                },
            }
        },
        other => {
            *entity = other;
            Err(BrokerError::bad_request("entity payload must be a JSON object"))
        },
    }
}

/// Normalizes a full entity replacement, stamped with the current time.
pub fn prepare_entity_for_replace(
    entity: &mut Json,
    entity_id: &str,
    context: &RequestContext,
    created_at: Option<&Json>,
) -> (r: Result<(), BrokerError>)
    ensures
        exists|now: Seq<char>| #[trigger]
            replace_preparation(
                old(entity)@,
                entity_id@,
                opt_text(context.link_header),
                opt_json(created_at),
                now,
            ) == (final(entity)@, unit_outcome(r)),
        r matches Err(e) ==> e is BadRequest,
{
    let now = now_timestamp();
    prepare_entity_for_replace_at(entity, entity_id, context, created_at, now.as_str())
}

/// The member that the simplified form of an attribute of a given type
/// keeps: `value`, `object`, `languageMap` or `vocab`; none for other
/// types.
pub open spec fn simplified_field(t: Seq<char>) -> Option<Seq<char>> {
    if t == "Property"@ || t == "GeoProperty"@ {
        Some("value"@)
    } else if t == "Relationship"@ || t == "ListRelationship"@ {
        Some("object"@)
    } else if t == "LanguageProperty"@ {
        Some("languageMap"@)
    } else if t == "VocabProperty"@ {
        Some("vocab"@)
    } else {
        None
    }
}

/// The simplified form of an attribute value: a typed attribute becomes
/// its kept member (null when absent); other objects and arrays are
/// simplified member by member; other values stay.
pub open spec fn simplified_value(v: JsonV) -> JsonV
    decreases v,
{
    match v {
        JsonV::Object(m) => {
            let field = match JsonV::Object(m).get_str("type"@) {
                Some(t) => simplified_field(t),
                None => None,
            };
            match field {
                Some(f) => match JsonV::Object(m).get(f) {
                    Some(x) => x,
                    None => JsonV::Null,
                },
                None => JsonV::Object(
                    Seq::new(
                        m.len(),
                        |i: int|
                            if 0 <= i < m.len() {
                                (m[i].0, simplified_value(m[i].1))
                            } else {
                                (Seq::empty(), JsonV::Null)
                            },
                    ),
                ),
            }
        },
        JsonV::Array(items) => JsonV::Array(
            Seq::new(
                items.len(),
                |i: int|
                    if 0 <= i < items.len() {
                        simplified_value(items[i])
                    } else {
                        JsonV::Null
                    },
            ),
        ),
        _ => v,
    }
}

/// A member of a JSON value, or null when it has none.
pub open spec fn member_or_null(v: JsonV, f: Seq<char>) -> JsonV {
    match v.get(f) {
        Some(x) => x,
        None => JsonV::Null,
    }
}

/// The key-values form of a typed attribute is the member that carries
/// its value: `value` for a Property or GeoProperty, `object` for a
/// Relationship or ListRelationship, `languageMap` for a LanguageProperty,
/// `vocab` for a VocabProperty (null when that member is missing).
pub proof fn law_simplified_typed_attribute(m: Seq<(Seq<char>, JsonV)>)
    ensures
        ({
            let v = JsonV::Object(m);
            &&& v.get_str("type"@) == Some("Property"@) ==> simplified_value(v) == member_or_null(v, "value"@)
            &&& v.get_str("type"@) == Some("GeoProperty"@) ==> simplified_value(v) == member_or_null(v, "value"@)
            &&& v.get_str("type"@) == Some("Relationship"@) ==> simplified_value(v) == member_or_null(v, "object"@)
            &&& v.get_str("type"@) == Some("ListRelationship"@) ==> simplified_value(v) == member_or_null(v, "object"@)
            &&& v.get_str("type"@) == Some("LanguageProperty"@) ==> simplified_value(v) == member_or_null(v, "languageMap"@)
            &&& v.get_str("type"@) == Some("VocabProperty"@) ==> simplified_value(v) == member_or_null(v, "vocab"@)
        }),
{
    reveal_strlit("Property");
    reveal_strlit("GeoProperty");
    reveal_strlit("Relationship");
    reveal_strlit("ListRelationship");
    reveal_strlit("LanguageProperty");
    reveal_strlit("VocabProperty");
    assert("Relationship"@.len() == 12 && "ListRelationship"@.len() == 16);
    assert("Property"@.len() == 8 && "GeoProperty"@.len() == 11);
    assert("Relationship"@ != "Property"@ && "Relationship"@ != "GeoProperty"@);
    assert("ListRelationship"@ != "Property"@ && "ListRelationship"@ != "GeoProperty"@);
    assert("LanguageProperty"@.len() == 16 && "VocabProperty"@.len() == 13);
    assert("LanguageProperty"@[1] == 'a' && "ListRelationship"@[1] == 'i');
    assert("LanguageProperty"@ != "ListRelationship"@);
    assert("LanguageProperty"@ != "Property"@ && "LanguageProperty"@ != "GeoProperty"@ && "LanguageProperty"@
        != "Relationship"@);
    assert("VocabProperty"@ != "Property"@ && "VocabProperty"@ != "GeoProperty"@ && "VocabProperty"@
        != "Relationship"@ && "VocabProperty"@ != "ListRelationship"@ && "VocabProperty"@ != "LanguageProperty"@);
    assert(simplified_field("Property"@) == Some("value"@));
    assert(simplified_field("GeoProperty"@) == Some("value"@));
    assert(simplified_field("Relationship"@) == Some("object"@));
    assert(simplified_field("ListRelationship"@) == Some("object"@));
    assert(simplified_field("LanguageProperty"@) == Some("languageMap"@));
    assert(simplified_field("VocabProperty"@) == Some("vocab"@));
    let v = JsonV::Object(m);
    match v.get_str("type"@) {
        Some(t) => {
            assert(simplified_value(v) == match simplified_field(t) {
                Some(f) => member_or_null(v, f),
                None => simplified_value(v),
            });
        },
        None => {},
    }
}

/// The member kept by the simplified form of a typed attribute.
fn simplified_field_of(t: &str) -> (r: Option<&'static str>)
    ensures
        match r {
            Some(f) => simplified_field(t@) == Some(f@),
            None => simplified_field(t@) is None,
        },
{
    if str_eq(t, "Property") || str_eq(t, "GeoProperty") {
        Some("value")
    } else if str_eq(t, "Relationship") || str_eq(t, "ListRelationship") {
        Some("object")
    } else if str_eq(t, "LanguageProperty") {
        Some("languageMap")
    } else if str_eq(t, "VocabProperty") {
        Some("vocab")
    } else {
        None
    }
}

/// Simplifies a single NGSI-LD attribute value, recursively.
pub fn simplify_attribute_value(value: &Json) -> (r: Json)
    ensures
        r@ == simplified_value(value@),
    decreases value,
{
    match value {
        Json::Object(entries) => {
            proof {
                lemma_object_view(*entries);
            }
            let field = match value.get_str("type") {
                Some(t) => simplified_field_of(t.as_str()),
                None => None,
            };
            match field {
                Some(f) => match value.get_member(f) {
                    Some(x) => clone_json(x),
                    None => Json::Null,
                },
                None => {
                    let ghost ev = entry_views(entries@);
                    let mut out: Vec<(String, Json)> = Vec::new();
                    let mut i: usize = 0;
                    while i < entries.len()
                        invariant
                            i <= entries.len(),
                            *value == Json::Object(*entries),
                            ev == entry_views(entries@),
                            out.len() == i,
                            forall|k: int|
                                0 <= k < i ==> #[trigger] out@[k].0@ == ev[k].0 && out@[k].1@
                                    == simplified_value(ev[k].1),
                        decreases entries.len() - i,
                    {
                        proof {
                            lemma_entry_decreases(*entries, i as int);
                            assert(decreases_to!(*value => entries[i as int].1));
                        }
                        let v = simplify_attribute_value(&entries[i].1);
                        out.push((entries[i].0.clone(), v));
                        i += 1;
                    }
                    proof {
                        lemma_object_view(out);
                        assert(entry_views(out@) =~= simplified_value(value@)->Object_0);
                    }
                    Json::Object(out)
                },
            }
        },
        Json::Array(items) => {
            proof {
                lemma_array_view(*items);
            }
            let ghost iv = json_views(items@);
            let mut out: Vec<Json> = Vec::new();
            let mut i: usize = 0;
            while i < items.len()
                invariant
                    i <= items.len(),
                    *value == Json::Array(*items),
                    iv == json_views(items@),
                    out.len() == i,
                    forall|k: int| 0 <= k < i ==> #[trigger] out@[k]@ == simplified_value(iv[k]),
                decreases items.len() - i,
            {
                proof {
                    lemma_item_decreases(*items, i as int);
                    assert(decreases_to!(*value => items[i as int]));
                }
                let v = simplify_attribute_value(&items[i]);
                out.push(v);
                i += 1;
            }
            proof {
                lemma_array_view(out);
                assert(json_views(out@) =~= simplified_value(value@)->Array_0);
            }
            Json::Array(out)
        },
        _ => clone_json(value),
    }
}

/// The key-values form of an entity: reserved members stay, attributes are
/// simplified; a value that is no object gives an empty object.
pub open spec fn simplified_entity(e: JsonV) -> JsonV {
    match e {
        JsonV::Object(m) => JsonV::Object(
            Seq::new(
                m.len(),
                |i: int|
                    if 0 <= i < m.len() {
                        (
                            m[i].0,
                            if is_reserved_member(m[i].0) {
                                m[i].1
                            } else {
                                simplified_value(m[i].1)
                            },
                        )
                    } else {
                        (Seq::empty(), JsonV::Null)
                    },
            ),
        ),
        _ => JsonV::Object(Seq::empty()),
    }
}

/// Simplifies an NGSI-LD entity into its key-values form.
pub fn simplify_entity(entity: &Json) -> (r: Json)
    ensures
        r@ == simplified_entity(entity@),
{
    let mut out: Vec<(String, Json)> = Vec::new();
    match entity {
        Json::Object(entries) => {
            proof {
                lemma_object_view(*entries);
            }
            let ghost ev = entry_views(entries@);
            let mut i: usize = 0;
            while i < entries.len()
                invariant
                    i <= entries.len(),
                    ev == entry_views(entries@),
                    out.len() == i,
                    forall|k: int|
                        0 <= k < i ==> #[trigger] out@[k].0@ == ev[k].0 && out@[k].1@ == (
                        if is_reserved_member(ev[k].0) {
                            ev[k].1
                        } else {
                            simplified_value(ev[k].1)
                        }),
                decreases entries.len() - i,
            {
                let v = if reserved_member(entries[i].0.as_str()) {
                    clone_json(&entries[i].1)
                } else {
                    simplify_attribute_value(&entries[i].1)
                };
                out.push((entries[i].0.clone(), v));
                i += 1;
            }
            proof {
                lemma_object_view(out);
                assert(entry_views(out@) =~= simplified_entity(entity@)->Object_0);
            }
        },
        _ => {
            proof {
                lemma_object_view(out);
                assert(entry_views(out@) =~= Seq::<(Seq<char>, JsonV)>::empty());
            }
        },
    }
    Json::Object(out)
}

/// The GeoJSON feature of an entity: its simplified members without `id`,
/// `@context` and `location` become the properties, `location` the
/// geometry (null when absent), the id the feature id (empty when it is no
/// string), and the entity's own `@context` is kept.
pub open spec fn feature_of(entity: JsonV) -> JsonV {
    let p0 = simplified_entity(entity)->Object_0;
    let id = match JsonV::Object(p0).get("id"@) {
        Some(JsonV::Str(s)) => s,
        _ => Seq::empty(),
    };
    let p1 = object_remove(p0, "id"@);
    let p2 = object_remove(p1, "@context"@);
    let geometry = match JsonV::Object(p2).get("location"@) {
        Some(g) => g,
        None => JsonV::Null,
    };
    let p3 = object_remove(p2, "location"@);
    let base = seq![
        ("id"@, JsonV::Str(id)),
        ("type"@, JsonV::Str("Feature"@)),
        ("geometry"@, geometry),
        ("properties"@, JsonV::Object(p3)),
    ];
    JsonV::Object(
        match entity.get("@context"@) {
            Some(c) => base.push(("@context"@, c)),
            None => base,
        },
    )
}

/// Converts an entity payload into a GeoJSON feature.
pub fn entity_to_feature(entity: &Json) -> (r: Json)
    ensures
        r@ == feature_of(entity@),
{
    let simplified = simplify_entity(entity);
    let mut properties: Vec<(String, Json)> = match simplified {
        Json::Object(entries) => entries,
        _ => Vec::new(),
    };
    proof {
        lemma_object_view(properties);
    }
    let ghost p0 = entry_views(properties@);
    assert(p0 == simplified_entity(entity@)->Object_0);
    let id = match map_remove(&mut properties, "id") {
        Some(Json::Str(s)) => s,
        _ => String::new(),
    };
    assert(id@ == match JsonV::Object(p0).get("id"@) {
        Some(JsonV::Str(s)) => s,
        _ => Seq::<char>::empty(),
    });
    let _ = map_remove(&mut properties, "@context");
    let ghost p2 = entry_views(properties@);
    let geometry = match map_remove(&mut properties, "location") {
        Some(g) => g,
        None => Json::Null,
    };
    assert(geometry@ == match JsonV::Object(p2).get("location"@) {
        Some(g) => g,
        None => JsonV::Null,
    });
    proof {
        lemma_object_view(properties);
    }
    let mut feature: Vec<(String, Json)> = Vec::new();
    feature.push((string_from("id"), Json::Str(id)));
    feature.push((string_from("type"), Json::Str(string_from("Feature"))));
    feature.push((string_from("geometry"), geometry));
    feature.push((string_from("properties"), Json::Object(properties)));
    match entity.get_member("@context") {
        Some(c) => {
            feature.push((string_from("@context"), clone_json(c)));
        },
        None => {},
    }
    proof {
        lemma_object_view(feature);
        assert(entry_views(feature@) =~= feature_of(entity@)->Object_0);
    }
    Json::Object(feature)
}

/// The attributes a projection selects: `pick`, else `attrs`.
pub open spec fn selected_list(attrs: Option<Seq<char>>, pick: Option<Seq<char>>) -> Seq<Seq<char>> {
    match pick {
        Some(p) => csv_items(p),
        None => csv_list(attrs),
    }
}

/// The members that a projection keeps: reserved ones and selected ones,
/// in order.
pub open spec fn retained(m: Seq<(Seq<char>, JsonV)>, selected: Seq<Seq<char>>) -> Seq<(Seq<char>, JsonV)>
    decreases m.len(),
{
    if m.len() == 0 {
        Seq::empty()
    } else if is_reserved_member(m.last().0) || selected.contains(m.last().0) {
        retained(m.drop_last(), selected).push(m.last())
    } else {
        retained(m.drop_last(), selected)
    }
}

/// The members after removing each of `names` in turn.
pub open spec fn omitted(m: Seq<(Seq<char>, JsonV)>, names: Seq<Seq<char>>) -> Seq<(Seq<char>, JsonV)>
    decreases names.len(),
{
    if names.len() == 0 {
        m
    } else {
        omitted(object_remove(m, names[0]), names.drop_first())
    }
}

/// The projection of an entity: an object keeps its reserved and selected
/// members (all when nothing is selected), loses the omitted ones, and is
/// rendered in the representation.
pub open spec fn projected(
    entity: JsonV,
    attrs: Option<Seq<char>>,
    pick: Option<Seq<char>>,
    omit: Option<Seq<char>>,
    representation: Representation,
) -> JsonV {
    let base = match entity {
        JsonV::Object(m) => {
            let selected = selected_list(attrs, pick);
            let kept = if selected.len() > 0 {
                retained(m, selected)
            } else {
                m
            };
            JsonV::Object(omitted(kept, csv_list(omit)))
        },
        _ => entity,
    };
    match representation {
        Representation::KeyValues => simplified_entity(base),
        Representation::GeoJson => feature_of(base),
        _ => base,
    }
}

/// Membership of a text in a vector of strings.
fn contains_text(items: &Vec<String>, s: &Vec<char>) -> (r: bool)
    ensures
        r == views(items@).contains(s@),
{
    let mut i: usize = 0;
    while i < items.len()
        invariant
            i <= items.len(),
            forall|k: int| 0 <= k < i ==> views(items@)[k] != s@,
        decreases items.len() - i,
    {
        let c = chars_of(items[i].as_str());
        if chars_eq(&c, s) {
            assert(views(items@)[i as int] == s@);
            return true;
        }
        i += 1;
    }
    false
}

/// Projects an entity onto the requested attributes and representation.
pub fn project_entity(
    entity: &Json,
    attrs: Option<&str>,
    pick: Option<&str>,
    omit: Option<&str>,
    representation: Representation,
) -> (r: Json)
    ensures
        r@ == projected(entity@, opt_str(attrs), opt_str(pick), opt_str(omit), representation),
{
    let base = match entity {
        Json::Object(entries) => {
            proof {
                lemma_object_view(*entries);
            }
            let ghost ev = entry_views(entries@);
            let selected = match pick {
                Some(p) => parse_csv(Some(p)),
                None => parse_csv(attrs),
            };
            let ghost sel = selected_list(opt_str(attrs), opt_str(pick));
            assert(views(selected@) =~= sel);
            let mut kept: Vec<(String, Json)> = Vec::new();
            if selected.len() > 0 {
                let mut i: usize = 0;
                while i < entries.len()
                    invariant
                        i <= entries.len(),
                        ev == entry_views(entries@),
                        views(selected@) == sel,
                        entry_views(kept@) == retained(ev.take(i as int), sel),
                    decreases entries.len() - i,
                {
                    let key = chars_of(entries[i].0.as_str());
                    assert(ev.take(i + 1).drop_last() =~= ev.take(i as int));
                    assert(ev.take(i + 1).last() == ev[i as int]);
                    if reserved_member(entries[i].0.as_str()) || contains_text(&selected, &key) {
                        let v = clone_json(&entries[i].1);
                        kept.push((entries[i].0.clone(), v));
                        assert(entry_views(kept@) =~= retained(ev.take(i as int), sel).push(ev[i as int]));
                    }
                    i += 1;
                }
                assert(ev.take(entries.len() as int) =~= ev);
            } else {
                let mut i: usize = 0;
                while i < entries.len()
                    invariant
                        i <= entries.len(),
                        ev == entry_views(entries@),
                        entry_views(kept@) == ev.take(i as int),
                    decreases entries.len() - i,
                {
                    let v = clone_json(&entries[i].1);
                    let ghost before = entry_views(kept@);
                    assert(ev[i as int] == (entries@[i as int].0@, entries@[i as int].1@));
                    kept.push((entries[i].0.clone(), v));
                    assert(entry_views(kept@) =~= before.push(ev[i as int]));
                    assert(ev.take(i + 1) =~= ev.take(i as int).push(ev[i as int]));
                    assert(entry_views(kept@) =~= ev.take(i + 1));
                    i += 1;
                }
                assert(ev.take(entries.len() as int) =~= ev);
            }
            let names = parse_csv(omit);
            let ghost all_names = csv_list(opt_str(omit));
            assert(views(names@) =~= all_names);
            let ghost kept0 = entry_views(kept@);
            assert(all_names.skip(0) =~= all_names);
            let mut j: usize = 0;
            while j < names.len()
                invariant
                    j <= names.len(),
                    views(names@) == all_names,
                    omitted(kept0, all_names) == omitted(entry_views(kept@), all_names.skip(j as int)),
                decreases names.len() - j,
            {
                assert(all_names.skip(j as int)[0] == names@[j as int]@);
                assert(all_names.skip(j as int).drop_first() =~= all_names.skip(j + 1));
                let _ = map_remove(&mut kept, names[j].as_str());
                j += 1;
            }
            assert(all_names.skip(names.len() as int) =~= Seq::<Seq<char>>::empty());
            proof {
                lemma_object_view(kept);
            }
            Json::Object(kept)
        },
        _ => clone_json(entity),
    };
    match representation {
        Representation::KeyValues => simplify_entity(&base),
        Representation::GeoJson => entity_to_feature(&base),
        _ => base,
    }
}

/// History records grouped by their `attrId` (records without a string
/// `attrId` are left out), groups in order of first appearance, records in
/// order.
pub open spec fn grouped_history(history: Seq<JsonV>) -> Seq<(Seq<char>, JsonV)>
    decreases history.len(),
{
    if history.len() == 0 {
        Seq::empty()
    } else {
        let g = grouped_history(history.drop_last());
        let item = history.last();
        match item.get_str("attrId"@) {
            Some(a) => match member_index(g, a) {
                Some(i) => g.update(i, (a, JsonV::Array(g[i].1->Array_0.push(item)))),
                None => g.push((a, JsonV::Array(seq![item]))),
            },
            None => g,
        }
    }
}

/// The members after setting each of `entries` in turn.
pub open spec fn insert_all(m: Seq<(Seq<char>, JsonV)>, entries: Seq<(Seq<char>, JsonV)>) -> Seq<(Seq<char>, JsonV)>
    decreases entries.len(),
{
    if entries.len() == 0 {
        m
    } else {
        object_insert(insert_all(m, entries.drop_last()), entries.last().0, entries.last().1)
    }
}

/// The temporal response of an entity: its normalized projection with the
/// grouped history set on it, in the representation.
pub open spec fn temporal_response(
    entity: JsonV,
    history: Seq<JsonV>,
    query: TemporalEntityQuery,
    representation: Representation,
) -> JsonV {
    let t = projected(
        entity,
        opt_text(query.entity.attrs),
        opt_text(query.entity.pick),
        opt_text(query.entity.omit),
        Representation::Normalized,
    );
    let merged = match t {
        JsonV::Object(m) => JsonV::Object(insert_all(m, grouped_history(history))),
        _ => t,
    };
    match representation {
        Representation::KeyValues => simplified_entity(merged),
        Representation::GeoJson => feature_of(merged),
        _ => merged,
    }
}

/// Groups history records by `attrId`.
fn group_history(history: &Vec<Json>) -> (r: Vec<(String, Json)>)
    ensures
        entry_views(r@) == grouped_history(json_views(history@)),
{
    let ghost hv = json_views(history@);
    let mut groups: Vec<(String, Json)> = Vec::new();
    let mut i: usize = 0;
    while i < history.len()
        invariant
            i <= history.len(),
            hv == json_views(history@),
            entry_views(groups@) == grouped_history(hv.take(i as int)),
            forall|k: int| 0 <= k < groups.len() ==> #[trigger] groups@[k].1 is Array,
        decreases history.len() - i,
    {
        let item = &history[i];
        assert(hv.take(i + 1).drop_last() =~= hv.take(i as int));
        assert(hv.take(i + 1).last() == item@);
        match item.get_str("attrId") {
            Some(a) => {
                match member_position(&groups, a.as_str()) {
                    Some(k) => {
                        let mut list = match &groups[k].1 {
                            Json::Array(xs) => {
                                let mut c: Vec<Json> = Vec::new();
                                let mut t: usize = 0;
                                while t < xs.len()
                                    invariant
                                        t <= xs.len(),
                                        json_views(c@) == json_views(xs@).take(t as int),
                                    decreases xs.len() - t,
                                {
                                    let x = clone_json(&xs[t]);
                                    let ghost before = json_views(c@);
                                    c.push(x);
                                    assert(json_views(c@) =~= before.push(xs@[t as int]@));
                                    assert(json_views(xs@).take(t + 1) =~= json_views(xs@).take(
                                        t as int,
                                    ).push(xs@[t as int]@));
                                    assert(json_views(c@) =~= json_views(xs@).take(t + 1));
                                    t += 1;
                                }
                                assert(json_views(xs@).take(xs.len() as int) =~= json_views(xs@));
                                proof {
                                    lemma_array_view(*xs);
                                }
                                c
                            },
                            _ => Vec::new(),
                        };
                        let ghost before = json_views(list@);
                        list.push(clone_json(item));
                        assert(json_views(list@) =~= before.push(item@));
                        proof {
                            lemma_array_view(list);
                        }
                        let ghost gv = entry_views(groups@);
                        groups.set(k, (a.clone(), Json::Array(list)));
                        assert(entry_views(groups@) =~= gv.update(
                            k as int,
                            (a@, JsonV::Array(gv[k as int].1->Array_0.push(item@))),
                        ));
                    },
                    None => {
                        let mut list: Vec<Json> = Vec::new();
                        list.push(clone_json(item));
                        proof {
                            lemma_array_view(list);
                            assert(json_views(list@) =~= seq![item@]);
                        }
                        let ghost gv = entry_views(groups@);
                        groups.push((a.clone(), Json::Array(list)));
                        assert(entry_views(groups@) =~= gv.push((a@, JsonV::Array(seq![item@]))));
                    },
                }
            },
            None => {},
        }
        i += 1;
    }
    assert(hv.take(history.len() as int) =~= hv);
    groups
}

/// Builds a temporal response payload from an entity snapshot and its
/// history.
pub fn temporal_entity_to_response(
    entity: &Json,
    history: &Vec<Json>,
    query: &TemporalEntityQuery,
    representation: Representation,
) -> (r: Json)
    ensures
        r@ == temporal_response(entity@, json_views(history@), *query, representation),
{
    let temporal = project_entity(
        entity,
        opt_as_str(&query.entity.attrs),
        opt_as_str(&query.entity.pick),
        opt_as_str(&query.entity.omit),
        Representation::Normalized,
    );
    let merged = match temporal {
        Json::Object(mut entries) => {
            proof {
                lemma_object_view(entries);
            }
            let groups = group_history(history);
            let ghost g = entry_views(groups@);
            let ghost m0 = entry_views(entries@);
            let mut i: usize = 0;
            while i < groups.len()
                invariant
                    i <= groups.len(),
                    g == entry_views(groups@),
                    entry_views(entries@) == insert_all(m0, g.take(i as int)),
                decreases groups.len() - i,
            {
                assert(g.take(i + 1).drop_last() =~= g.take(i as int));
                assert(g.take(i + 1).last() == g[i as int]);
                map_insert(&mut entries, groups[i].0.clone(), clone_json(&groups[i].1));
                i += 1;
            }
            assert(g.take(groups.len() as int) =~= g);
            proof {
                lemma_object_view(entries);
            }
            Json::Object(entries)
        },
        other => other,
    };
    match representation {
        Representation::KeyValues => simplify_entity(&merged),
        Representation::GeoJson => entity_to_feature(&merged),
        _ => merged,
    }
}

/// The id of an entity as text (empty when it has no string id).
pub open spec fn id_text(entity: JsonV) -> Seq<char> {
    match entity.get_str("id"@) {
        Some(s) => s,
        None => Seq::empty(),
    }
}

/// The entity's id is one of the comma-separated ids (each trimmed).
pub open spec fn id_listed(ids: Seq<char>, id: Seq<char>) -> bool {
    exists|k: int| 0 <= k < split_on(ids, ',').len() && trim(#[trigger] split_on(ids, ',')[k]) == id
}

/// The entity has one of the comma-separated types.
pub open spec fn type_listed(types: Seq<char>, entity: JsonV) -> bool {
    exists|k: int| 0 <= k < csv_items(types).len() && type_matches(entity.get("type"@), #[trigger] csv_items(types)[k])
}

/// An entity meets an entity query: its id is listed, its type is listed,
/// its id matches the id pattern, it has every listed attribute, and it
/// meets the `q` and `scopeQ` filters (a malformed filter or pattern is
/// met by nothing).
pub open spec fn entity_matches(entity: JsonV, query: EntityQuery, opts: OptionsV) -> bool {
    &&& (query.id matches Some(ids) ==> id_listed(ids@, id_text(entity)))
    &&& (query.entity_type matches Some(t) ==> type_listed(t@, entity))
    &&& (query.id_pattern matches Some(p) ==> regex_compiles(p@) && regex_finds(p@, id_text(entity)))
    &&& forall|k: int|
        0 <= k < csv_list(opt_text(query.attrs)).len() ==> entity.get(
            #[trigger] csv_list(opt_text(query.attrs))[k],
        ) is Some
    &&& query_holds(opt_text(query.q), entity, opts) == Some(true)
    &&& match scope_expression(opt_text(query.scope_q)) {
        Some(None) => true,
        Some(Some(e)) => scope_matches(e, scope_values_of(entity)),
        None => false,
    }
}

/// The id of an entity as text.
fn entity_id_text(entity: &Json) -> (r: Vec<char>)
    ensures
        r@ == id_text(entity@),
{
    match entity.get_str("id") {
        Some(s) => chars_of(s.as_str()),
        None => Vec::new(),
    }
}

/// Tests whether an id is one of the comma-separated ids.
fn ids_contain(ids: &str, id: &Vec<char>) -> (r: bool)
    ensures
        r == id_listed(ids@, id@),
{
    let cs = chars_of(ids);
    let pieces = split_chars(&cs, ',');
    let ghost ps = split_on(ids@, ',');
    let mut i: usize = 0;
    while i < pieces.len()
        invariant
            i <= pieces.len(),
            pieces@.map_values(|v: Vec<char>| v@) == ps,
            ps == split_on(ids@, ','),
            forall|k: int| 0 <= k < i ==> trim(#[trigger] ps[k]) != id@,
        decreases pieces.len() - i,
    {
        let t = trim_chars(&pieces[i]);
        assert(ps[i as int] == pieces@[i as int]@);
        if chars_eq(&t, id) {
            return true;
        }
        i += 1;
    }
    false
}

/// Tests whether an entity has one of the comma-separated types.
fn types_contain(types: &str, entity: &Json) -> (r: bool)
    ensures
        r == type_listed(types@, entity@),
{
    let candidates = parse_csv(Some(types));
    let ghost cv = csv_items(types@);
    let mut i: usize = 0;
    while i < candidates.len()
        invariant
            i <= candidates.len(),
            views(candidates@) == cv,
            cv == csv_items(types@),
            forall|k: int| 0 <= k < i ==> !type_matches(entity@.get("type"@), #[trigger] cv[k]),
        decreases candidates.len() - i,
    {
        assert(cv[i as int] == candidates@[i as int]@);
        if entity_type_matches(entity.get_member("type"), candidates[i].as_str()) {
            return true;
        }
        i += 1;
    }
    false
}

/// Tests whether an entity has every listed member.
fn has_all_members(entity: &Json, names: &Vec<String>) -> (r: bool)
    ensures
        r == forall|k: int| 0 <= k < names.len() ==> entity@.get(#[trigger] views(names@)[k]) is Some,
{
    let mut i: usize = 0;
    while i < names.len()
        invariant
            i <= names.len(),
            forall|k: int| 0 <= k < i ==> entity@.get(#[trigger] views(names@)[k]) is Some,
        decreases names.len() - i,
    {
        assert(views(names@)[i as int] == names@[i as int]@);
        if entity.get_member(names[i].as_str()).is_none() {
            return false;
        }
        i += 1;
    }
    true
}

/// Applies an entity query with caller-supplied match options.
pub fn entity_matches_query_with_options(entity: &Json, query: &EntityQuery, options: &QueryMatchOptions) -> (r: bool)
    ensures
        r == entity_matches(entity@, *query, options@),
{
    let id = entity_id_text(entity);
    match &query.id {
        Some(ids) => {
            if !ids_contain(ids.as_str(), &id) {
                return false;
            }
        },
        None => {},
    }
    match &query.entity_type {
        Some(t) => {
            if !types_contain(t.as_str(), entity) {
                return false;
            }
        },
        None => {},
    }
    match &query.id_pattern {
        Some(p) => {
            match check_regex(p.as_str()) {
                Ok(()) => {},
                Err(_) => {
                    return false;
                },
            }
            let id_string = crate::text::string_of(&id);
            if !regex_is_match(p.as_str(), id_string.as_str()) {
                return false;
            }
        },
        None => {},
    }
    let attrs = parse_csv(opt_as_str(&query.attrs));
    assert(views(attrs@) =~= csv_list(opt_text(query.attrs)));
    if !has_all_members(entity, &attrs) {
        return false;
    }
    let q_ok = match query_matches_value_with_options(entity, opt_as_str(&query.q), options) {
        Ok(b) => b,
        Err(_) => false,
    };
    if !q_ok {
        return false;
    }
    let scopes = extract_scope_values(entity);
    match scope_query_matches_values(scopes.as_slice(), opt_as_str(&query.scope_q)) {
        Ok(b) => b,
        Err(_) => false,
    }
}

/// Applies an entity query with default match options.
pub fn entity_matches_query(entity: &Json, query: &EntityQuery) -> (r: bool)
    ensures
        r == entity_matches(
            entity@,
            *query,
            OptionsV {
                expand_values: Seq::empty(),
                json_keys: Seq::empty(),
                context_terms: Seq::empty(),
                linked_entities: Seq::empty(),
            },
        ),
{
    let options = QueryMatchOptions::new();
    assert(options@.expand_values =~= Seq::empty());
    assert(options@.json_keys =~= Seq::empty());
    assert(options@.context_terms =~= Seq::empty());
    assert(options@.linked_entities =~= Seq::empty());
    entity_matches_query_with_options(entity, query, &options)
}

/// Builds query match options from entity query parameters, the context
/// terms and the linked entities.
pub fn build_query_match_options(
    query: &EntityQuery,
    context_terms: Vec<(String, String)>,
    linked_entities: Vec<(String, Json)>,
) -> (r: QueryMatchOptions)
    ensures
        r@.expand_values == csv_list(opt_text(query.expand_values)),
        r@.json_keys == csv_list(opt_text(query.json_keys)),
        r.context_terms == context_terms,
        r.linked_entities == linked_entities,
{
    let expand_values = parse_csv(opt_as_str(&query.expand_values));
    let json_keys = parse_csv(opt_as_str(&query.json_keys));
    let r = QueryMatchOptions::with_value_lists(expand_values, json_keys, context_terms, linked_entities);
    assert(r@.expand_values =~= csv_list(opt_text(query.expand_values)));
    assert(r@.json_keys =~= csv_list(opt_text(query.json_keys)));
    r
}

/// Returns true when an entity query's `q` filter reaches into linked
/// entities.
pub fn query_needs_linked_graph(query: &EntityQuery) -> (r: bool)
    ensures
        r == match q_expression(opt_text(query.q)) {
            Some(Some(e)) => expression_uses_linked(e),
            _ => false,
        },
{
    match &query.q {
        Some(raw) => match parse_q_expression(Some(raw.as_str())) {
            Ok(Some(e)) => q_expression_uses_linked_entity(&e),
            _ => false,
        },
        None => false,
    }
}

/// A notification's delivery fields reset: status `ok`, no sends, no
/// failures.
pub open spec fn delivery_reset(n: Seq<(Seq<char>, JsonV)>) -> Seq<(Seq<char>, JsonV)> {
    object_insert(
        object_insert(object_insert(n, "status"@, JsonV::Str("ok"@)), "timesSent"@, JsonV::Number("0"@)),
        "timesFailed"@,
        JsonV::Number("0"@),
    )
}

/// The subscription document after preparation at `now`, where
/// `generated` is the random part of an id given to a subscription without
/// one.
pub open spec fn prepared_subscription(m: Seq<(Seq<char>, JsonV)>, link: Option<Seq<char>>, now: Seq<char>, generated: Seq<char>) -> Seq<(Seq<char>, JsonV)> {
    let a = with_context_link(m, link);
    let b = if member_index(a, "id"@) is Some {
        a
    } else {
        object_insert(a, "id"@, JsonV::Str("urn:ngsi-ld:Subscription:"@ + generated))
    };
    let c = object_insert(object_insert(b, "createdAt"@, JsonV::Str(now)), "modifiedAt"@, JsonV::Str(now));
    let active = match JsonV::Object(c).get("isActive"@) {
        Some(JsonV::Bool(x)) => x,
        _ => true,
    };
    let d = object_insert(c, "status"@, JsonV::Str(if active { "active"@ } else { "paused"@ }));
    match member_index(d, "notification"@) {
        Some(i) => match d[i].1 {
            JsonV::Object(n) => d.update(i, ("notification"@, JsonV::Object(delivery_reset(n)))),
            _ => d,
        },
        None => d,
    }
}

/// Preparing a subscription at `now`: the document afterwards, and its id
/// or the error message.
pub open spec fn subscription_preparation(sub: JsonV, link: Option<Seq<char>>, now: Seq<char>, generated: Seq<char>) -> (JsonV, Result<Seq<char>, Seq<char>>) {
    match sub {
        JsonV::Object(m) => {
            let doc = JsonV::Object(prepared_subscription(m, link, now, generated));
            match subscription_problem(doc) {
                Some(msg) => (doc, Err(msg)),
                None => (doc, Ok(doc.get_str("id"@)->0)),
            }
        },
        _ => (sub, Err("subscription payload must be a JSON object"@)),
    }
}

/// Normalizes a subscription payload for creation at a given time, with
/// the random part of a generated id, and returns its id.
pub fn prepare_subscription_at(
    subscription: &mut Json,
    context: &RequestContext,
    now: &str,
    generated: &str,
) -> (r: Result<String, BrokerError>)
    ensures
        subscription_preparation(old(subscription)@, opt_text(context.link_header), now@, generated@) == (
            final(subscription)@,
            id_outcome(r),
        ),
        r matches Err(e) ==> e is BadRequest,
{
    let mut taken = Json::Null;
    std::mem::swap(&mut taken, subscription);
    let mut entries = match taken {
        Json::Object(entries) => entries,
        other => {
            *subscription = other;
            return Err(BrokerError::bad_request("subscription payload must be a JSON object"));
        },
    };
    proof {
        lemma_object_view(entries);
    }
    let ghost m = entry_views(entries@);
    apply_context_link(&mut entries, opt_as_str(&context.link_header));
    if member_position(&entries, "id").is_none() {
        let g = chars_of(generated);
        let id = text_around("urn:ngsi-ld:Subscription:", &g, "");
        proof {
            reveal_strlit("");
        }
        assert(id@ =~= "urn:ngsi-ld:Subscription:"@ + generated@);
        map_insert(&mut entries, string_from("id"), Json::Str(id));
    }
    set_text(&mut entries, "createdAt", now);
    set_text(&mut entries, "modifiedAt", now);
    let active = match member_position(&entries, "isActive") {
        Some(i) => match &entries[i].1 {
            Json::Bool(b) => *b,
            _ => true,
        },
        None => true,
    };
    proof {
        lemma_object_view(entries);
    }
    set_text(&mut entries, "status", if active { "active" } else { "paused" });
    match member_position(&entries, "notification") {
        Some(i) => {
            let reset = match &entries[i].1 {
                Json::Object(n) => {
                    let mut n2: Vec<(String, Json)> = Vec::new();
                    let mut k: usize = 0;
                    while k < n.len()
                        invariant
                            k <= n.len(),
                            entry_views(n2@) == entry_views(n@).take(k as int),
                        decreases n.len() - k,
                    {
                        let ghost before = entry_views(n2@);
                        let v = clone_json(&n[k].1);
                        n2.push((n[k].0.clone(), v));
                        assert(entry_views(n2@) =~= before.push(entry_views(n@)[k as int]));
                        assert(entry_views(n@).take(k + 1) =~= entry_views(n@).take(k as int).push(
                            entry_views(n@)[k as int],
                        ));
                        k += 1;
                    }
                    assert(entry_views(n@).take(n.len() as int) =~= entry_views(n@));
                    set_text(&mut n2, "status", "ok");
                    map_insert(&mut n2, string_from("timesSent"), Json::Number(string_from("0")));
                    map_insert(&mut n2, string_from("timesFailed"), Json::Number(string_from("0")));
                    proof {
                        lemma_object_view(*n);
                        lemma_object_view(n2);
                    }
                    Some(Json::Object(n2))
                },
                _ => None,
            };
            match reset {
                Some(v) => {
                    let ghost ev = entry_views(entries@);
                    let ghost vv = v@;
                    entries.set(i, (string_from("notification"), v));
                    assert(entry_views(entries@) =~= ev.update(i as int, ("notification"@, vv)));
                },
                None => {},
            }
        },
        None => {},
    }
    proof {
        lemma_object_view(entries);
    }
    let doc = Json::Object(entries);
    match validate_subscription(&doc) {
        Ok(()) => {},
        Err(e) => {
            *subscription = doc;
            return Err(e);
        },
    }
    let id = match doc.get_str("id") {
        Some(s) => s.clone(),
        None => String::new(),
    };
    *subscription = doc;
    Ok(id)
}

/// Normalizes a subscription payload for creation, stamped with the current
/// time and given a random id when it has none, and returns its id.
pub fn prepare_subscription(subscription: &mut Json, context: &RequestContext) -> (r: Result<String, BrokerError>)
    ensures
        exists|now: Seq<char>, generated: Seq<char>| #[trigger]
            subscription_preparation(old(subscription)@, opt_text(context.link_header), now, generated) == (
                final(subscription)@,
                id_outcome(r),
            ),
        r matches Err(e) ==> e is BadRequest,
{
    let now = now_timestamp();
    let generated = new_uuid();
    prepare_subscription_at(subscription, context, now.as_str(), generated.as_str())
}

/// The notification of a subscription about an entity at `now`, where
/// `generated` is the random part of the notification id. The entity is
/// rendered as GeoJSON when the endpoint accepts it, in key-values when the
/// notification format asks for it, else normalized.
pub open spec fn notification_payload(
    subscription_id: Seq<char>,
    subscription: JsonV,
    entity: JsonV,
    now: Seq<char>,
    generated: Seq<char>,
) -> JsonV {
    let accept = match endpoint_field(subscription, "accept"@) {
        Some(a) => a,
        None => "application/json"@,
    };
    let format = match subscription.get("notification"@) {
        Some(n) => n.get_str("format"@),
        None => None,
    };
    let representation = if accept == "application/geo+json"@ {
        Representation::GeoJson
    } else if format == Some("keyValues"@) {
        Representation::KeyValues
    } else {
        Representation::Normalized
    };
    let data = if representation == Representation::GeoJson {
        JsonV::Object(
            seq![
                ("type"@, JsonV::Str("FeatureCollection"@)),
                ("features"@, JsonV::Array(seq![projected(entity, None, None, None, Representation::GeoJson)])),
            ],
        )
    } else {
        JsonV::Array(seq![projected(entity, None, None, None, representation)])
    };
    let base = seq![
        ("id"@, JsonV::Str("urn:ngsi-ld:Notification:"@ + generated)),
        ("type"@, JsonV::Str("Notification"@)),
        ("subscriptionId"@, JsonV::Str(subscription_id)),
        ("notifiedAt"@, JsonV::Str(now)),
        ("data"@, data),
    ];
    JsonV::Object(
        match subscription.get("jsonldContext"@) {
            Some(c) => base.push(("@context"@, c)),
            None => match entity.get("@context"@) {
                Some(c) => base.push(("@context"@, c)),
                None => base,
            },
        },
    )
}

/// Builds the NGSI-LD notification for a matched subscription at a given
/// time, with the random part of its id.
pub fn build_notification_payload_at(
    subscription_id: &str,
    subscription: &Json,
    entity: &Json,
    now: &str,
    generated: &str,
) -> (r: Json)
    ensures
        r@ == notification_payload(subscription_id@, subscription@, entity@, now@, generated@),
{
    let accept_is_geo = match endpoint_text(subscription, "accept") {
        Some(a) => str_eq(a.as_str(), "application/geo+json"),
        None => false,
    };
    proof {
        reveal_strlit("application/json");
        reveal_strlit("application/geo+json");
    }
    let format_is_kv = match subscription.get_member("notification") {
        Some(n) => match n.get_str("format") {
            Some(f) => str_eq(f.as_str(), "keyValues"),
            None => false,
        },
        None => false,
    };
    let ghost accept_spec = match endpoint_field(subscription@, "accept"@) {
        Some(a) => a,
        None => "application/json"@,
    };
    let ghost format_spec = match subscription@.get("notification"@) {
        Some(n) => n.get_str("format"@),
        None => None,
    };
    assert("application/json"@.len() != "application/geo+json"@.len());
    assert(accept_is_geo == (accept_spec == "application/geo+json"@));
    assert(format_is_kv == (format_spec == Some("keyValues"@)));
    let representation = if accept_is_geo {
        Representation::GeoJson
    } else if format_is_kv {
        Representation::KeyValues
    } else {
        Representation::Normalized
    };
    let data = if accept_is_geo {
        let feature = project_entity(entity, None, None, None, Representation::GeoJson);
        let mut features: Vec<Json> = Vec::new();
        let ghost fv = feature@;
        features.push(feature);
        proof {
            lemma_array_view(features);
            assert(json_views(features@) =~= seq![fv]);
        }
        let mut collection: Vec<(String, Json)> = Vec::new();
        collection.push((string_from("type"), Json::Str(string_from("FeatureCollection"))));
        let ghost arr = Json::Array(features)@;
        collection.push((string_from("features"), Json::Array(features)));
        proof {
            lemma_object_view(collection);
            assert(entry_views(collection@) =~= seq![
                ("type"@, JsonV::Str("FeatureCollection"@)),
                ("features"@, arr),
            ]);
        }
        Json::Object(collection)
    } else {
        let item = project_entity(entity, None, None, None, representation);
        let mut items: Vec<Json> = Vec::new();
        let ghost itv = item@;
        items.push(item);
        proof {
            lemma_array_view(items);
            assert(json_views(items@) =~= seq![itv]);
        }
        Json::Array(items)
    };
    assert(data@ == if accept_is_geo {
        JsonV::Object(
            seq![
                ("type"@, JsonV::Str("FeatureCollection"@)),
                ("features"@, JsonV::Array(seq![projected(entity@, None, None, None, Representation::GeoJson)])),
            ],
        )
    } else {
        JsonV::Array(seq![projected(entity@, None, None, None, representation)])
    });
    let g = chars_of(generated);
    let nid = text_around("urn:ngsi-ld:Notification:", &g, "");
    proof {
        reveal_strlit("");
    }
    assert(nid@ =~= "urn:ngsi-ld:Notification:"@ + generated@);
    let mut out: Vec<(String, Json)> = Vec::new();
    out.push((string_from("id"), Json::Str(nid)));
    out.push((string_from("type"), Json::Str(string_from("Notification"))));
    out.push((string_from("subscriptionId"), Json::Str(string_from(subscription_id))));
    out.push((string_from("notifiedAt"), Json::Str(string_from(now))));
    out.push((string_from("data"), data));
    match subscription.get_member("jsonldContext") {
        Some(c) => {
            out.push((string_from("@context"), clone_json(c)));
        },
        None => match entity.get_member("@context") {
            Some(c) => {
                out.push((string_from("@context"), clone_json(c)));
            },
            None => {},
        },
    }
    proof {
        lemma_object_view(out);
        assert(entry_views(out@) =~= notification_payload(
            subscription_id@,
            subscription@,
            entity@,
            now@,
            generated@,
        )->Object_0);
    }
    Json::Object(out)
}

/// Builds the NGSI-LD notification for a matched subscription, stamped
/// with the current time and given a random id.
pub fn build_notification_payload(subscription_id: &str, subscription: &Json, entity: &Json) -> (r: Json)
    ensures
        exists|now: Seq<char>, generated: Seq<char>|
            r@ == #[trigger] notification_payload(subscription_id@, subscription@, entity@, now, generated),
{
    let now = now_timestamp();
    let generated = new_uuid();
    build_notification_payload_at(subscription_id, subscription, entity, now.as_str(), generated.as_str())
}

/// Member `key` of a value pushed onto a record when the value has it.
pub open spec fn copied_member(record: Seq<(Seq<char>, JsonV)>, value: JsonV, key: Seq<char>) -> Seq<(Seq<char>, JsonV)> {
    match value.get(key) {
        Some(v) => record.push((key, v)),
        None => record,
    }
}

/// The history record of an attribute value, where `generated` is the
/// random part of the instance id given to a value without one: the
/// attribute id, the instance id, the timestamps the value has, and the
/// value.
pub open spec fn temporal_instance(attr_id: Seq<char>, value: JsonV, generated: Seq<char>) -> JsonV {
    let instance = match value.get("instanceId"@) {
        Some(i) => i,
        None => JsonV::Str("urn:ngsi-ld:instance:"@ + generated),
    };
    let r0 = seq![("attrId"@, JsonV::Str(attr_id)), ("instanceId"@, instance)];
    let r1 = copied_member(r0, value, "observedAt"@);
    let r2 = copied_member(r1, value, "createdAt"@);
    let r3 = copied_member(r2, value, "modifiedAt"@);
    let r4 = copied_member(r3, value, "deletedAt"@);
    JsonV::Object(r4.push(("value"@, value)))
}

/// Pushes member `key` of a value onto a record when the value has it.
fn copy_member(record: &mut Vec<(String, Json)>, value: &Json, key: &str)
    ensures
        entry_views(final(record)@) == copied_member(entry_views(old(record)@), value@, key@),
{
    match value.get_member(key) {
        Some(v) => {
            let ghost before = entry_views(record@);
            record.push((string_from(key), clone_json(v)));
            assert(entry_views(record@) =~= before.push((key@, v@)));
        },
        None => {},
    }
}

/// Converts a temporal attribute value into its history record, with the
/// random part of a generated instance id.
pub fn make_temporal_instance_at(attr_id: &str, value: &Json, generated: &str) -> (r: Json)
    ensures
        r@ == temporal_instance(attr_id@, value@, generated@),
{
    let instance = match value.get_member("instanceId") {
        Some(i) => clone_json(i),
        None => {
            let g = chars_of(generated);
            let t = text_around("urn:ngsi-ld:instance:", &g, "");
            proof {
                reveal_strlit("");
            }
            assert(t@ =~= "urn:ngsi-ld:instance:"@ + generated@);
            Json::Str(t)
        },
    };
    let ghost iv = instance@;
    assert(iv == match value@.get("instanceId"@) {
        Some(i) => i,
        None => JsonV::Str("urn:ngsi-ld:instance:"@ + generated@),
    });
    let mut record: Vec<(String, Json)> = Vec::new();
    record.push((string_from("attrId"), Json::Str(string_from(attr_id))));
    record.push((string_from("instanceId"), instance));
    assert(entry_views(record@) =~= seq![("attrId"@, JsonV::Str(attr_id@)), ("instanceId"@, iv)]);
    copy_member(&mut record, value, "observedAt");
    copy_member(&mut record, value, "createdAt");
    copy_member(&mut record, value, "modifiedAt");
    copy_member(&mut record, value, "deletedAt");
    let ghost before = entry_views(record@);
    record.push((string_from("value"), clone_json(value)));
    proof {
        lemma_object_view(record);
        assert(entry_views(record@) =~= before.push(("value"@, value@)));
    }
    Json::Object(record)
}

/// Converts a temporal attribute value into its history record, giving a
/// random instance id to a value without one.
pub fn make_temporal_instance(attr_id: &str, value: &Json) -> (r: Json)
    ensures
        exists|generated: Seq<char>| r@ == #[trigger] temporal_instance(attr_id@, value@, generated),
{
    let generated = new_uuid();
    make_temporal_instance_at(attr_id, value, generated.as_str())
}

} // verus!
