//! Query parameters and path parameters of the NGSI-LD API.
use vstd::prelude::*;
use crate::json::Json;

verus! {

/// Response representations.
#[derive(PartialEq, Eq, Structural, Clone, Copy, Debug)]
pub enum Representation {
    Normalized,
    KeyValues,
    GeoJson,
    TemporalValues,
    AggregatedValues,
}

/// Query parameters of entity queries.
#[derive(Clone, Debug)]
pub struct EntityQuery {
    pub id: Option<String>,
    pub entity_type: Option<String>,
    pub id_pattern: Option<String>,
    pub attrs: Option<String>,
    pub pick: Option<String>,
    pub omit: Option<String>,
    pub q: Option<String>,
    pub expand_values: Option<String>,
    pub json_keys: Option<String>,
    pub csf: Option<String>,
    pub geometry: Option<String>,
    pub georel: Option<String>,
    pub coordinates: Option<String>,
    pub geoproperty: Option<String>,
    pub geometry_property: Option<String>,
    pub lang: Option<String>,
    pub scope_q: Option<String>,
    pub contained_by: Option<String>,
    pub join: Option<String>,
    pub join_level: Option<u32>,
    pub dataset_id: Option<String>,
    pub entity_map: Option<bool>,
    pub limit: Option<usize>,
    pub count: Option<bool>,
    pub options: Option<String>,
    pub format: Option<String>,
    pub local: Option<bool>,
}

impl Default for EntityQuery {
    /// Every parameter absent.
    fn default() -> (r: Self)
        ensures
            r.id is None,
            r.entity_type is None,
            r.id_pattern is None,
            r.attrs is None,
            r.pick is None,
            r.omit is None,
            r.q is None,
            r.expand_values is None,
            r.json_keys is None,
            r.csf is None,
            r.geometry is None,
            r.georel is None,
            r.coordinates is None,
            r.geoproperty is None,
            r.geometry_property is None,
            r.lang is None,
            r.scope_q is None,
            r.contained_by is None,
            r.join is None,
            r.join_level is None,
            r.dataset_id is None,
            r.entity_map is None,
            r.limit is None,
            r.count is None,
            r.options is None,
            r.format is None,
            r.local is None,
    {
        EntityQuery {
            id: None,
            entity_type: None,
            id_pattern: None,
            attrs: None,
            pick: None,
            omit: None,
            q: None,
            expand_values: None,
            json_keys: None,
            csf: None,
            geometry: None,
            georel: None,
            coordinates: None,
            geoproperty: None,
            geometry_property: None,
            lang: None,
            scope_q: None,
            contained_by: None,
            join: None,
            join_level: None,
            dataset_id: None,
            entity_map: None,
            limit: None,
            count: None,
            options: None,
            format: None,
            local: None,
        }
    }
}

/// Query parameters of entity type listings.
#[derive(Clone, Debug)]
pub struct EntityTypeQuery {
    pub entity_type: Option<String>,
    pub local: Option<bool>,
}

impl Default for EntityTypeQuery {
    /// Every parameter absent.
    fn default() -> (r: Self)
        ensures
            r.entity_type is None,
            r.local is None,
    {
        EntityTypeQuery {
            entity_type: None,
            local: None,
        }
    }
}

/// A query with only the `local` flag.
#[derive(Clone, Debug)]
pub struct LocalOnlyQuery {
    pub local: Option<bool>,
}

impl Default for LocalOnlyQuery {
    /// Every parameter absent.
    fn default() -> (r: Self)
        ensures
            r.local is None,
    {
        LocalOnlyQuery {
            local: None,
        }
    }
}

/// Query parameters of attribute appends.
#[derive(Clone, Debug)]
pub struct AppendAttrsQuery {
    pub entity_type: Option<String>,
    pub options: Option<String>,
    pub local: Option<bool>,
}

impl Default for AppendAttrsQuery {
    /// Every parameter absent.
    fn default() -> (r: Self)
        ensures
            r.entity_type is None,
            r.options is None,
            r.local is None,
    {
        AppendAttrsQuery {
            entity_type: None,
            options: None,
            local: None,
        }
    }
}

/// Query parameters of attribute deletion.
#[derive(Clone, Debug)]
pub struct DeleteAttrQuery {
    pub entity_type: Option<String>,
    pub delete_all: Option<bool>,
    pub dataset_id: Option<String>,
    pub local: Option<bool>,
}

impl Default for DeleteAttrQuery {
    /// Every parameter absent.
    fn default() -> (r: Self)
        ensures
            r.entity_type is None,
            r.delete_all is None,
            r.dataset_id is None,
            r.local is None,
    {
        DeleteAttrQuery {
            entity_type: None,
            delete_all: None,
            dataset_id: None,
            local: None,
        }
    }
}

/// Query parameters of batch upserts.
#[derive(Clone, Debug)]
pub struct UpsertBatchQuery {
    pub options: Option<String>,
    pub local: Option<bool>,
}

impl Default for UpsertBatchQuery {
    /// Every parameter absent.
    fn default() -> (r: Self)
        ensures
            r.options is None,
            r.local is None,
    {
        UpsertBatchQuery {
            options: None,
            local: None,
        }
    }
}

/// Query parameters of batch updates.
#[derive(Clone, Debug)]
pub struct BatchUpdateQuery {
    pub options: Option<String>,
    pub local: Option<bool>,
}

impl Default for BatchUpdateQuery {
    /// Every parameter absent.
    fn default() -> (r: Self)
        ensures
            r.options is None,
            r.local is None,
    {
        BatchUpdateQuery {
            options: None,
            local: None,
        }
    }
}

/// Query parameters of subscription listings.
#[derive(Clone, Debug)]
pub struct SubscriptionQuery {
    pub limit: Option<usize>,
    pub count: Option<bool>,
    pub local: Option<bool>,
}

impl Default for SubscriptionQuery {
    /// Every parameter absent.
    fn default() -> (r: Self)
        ensures
            r.limit is None,
            r.count is None,
            r.local is None,
    {
        SubscriptionQuery {
            limit: None,
            count: None,
            local: None,
        }
    }
}

/// Query parameters of type and attribute discovery.
#[derive(Clone, Debug)]
pub struct DiscoveryQuery {
    pub details: Option<bool>,
    pub local: Option<bool>,
}

impl Default for DiscoveryQuery {
    /// Every parameter absent.
    fn default() -> (r: Self)
        ensures
            r.details is None,
            r.local is None,
    {
        DiscoveryQuery {
            details: None,
            local: None,
        }
    }
}

/// Query parameters of temporal entity queries.
#[derive(Clone, Debug)]
pub struct TemporalEntityQuery {
    pub entity: EntityQuery,
    pub time_property: Option<String>,
    pub time_rel: Option<String>,
    pub time_at: Option<String>,
    pub end_time_at: Option<String>,
    pub last_n: Option<u32>,
    pub aggr_methods: Option<String>,
    pub aggr_period_duration: Option<String>,
}

impl Default for TemporalEntityQuery {
    /// Every parameter absent.
    fn default() -> (r: Self)
        ensures
            r.entity.format is None,
            r.entity.options is None,
            r.time_property is None,
            r.time_rel is None,
            r.time_at is None,
            r.end_time_at is None,
            r.last_n is None,
            r.aggr_methods is None,
            r.aggr_period_duration is None,
    {
        TemporalEntityQuery {
            entity: EntityQuery::default(),
            time_property: None,
            time_rel: None,
            time_at: None,
            end_time_at: None,
            last_n: None,
            aggr_methods: None,
            aggr_period_duration: None,
        }
    }
}

/// Query parameters of temporal entity queries, as the API declares them.
#[derive(Clone, Debug)]
pub struct TemporalEntityQueryParams {
    pub entity: EntityQuery,
    pub time_property: Option<String>,
    pub time_rel: Option<String>,
    pub time_at: Option<String>,
    pub end_time_at: Option<String>,
    pub last_n: Option<u32>,
    pub aggr_methods: Option<String>,
    pub aggr_period_duration: Option<String>,
}

/// A query result: its body and the total number of matches.
#[derive(Clone, Debug)]
pub struct QueryResult {
    pub body: Json,
    pub total_count: usize,
}

/// Path parameter: an entity id.
#[derive(Clone, Debug)]
pub struct EntityIdPath {
    pub entity_id: String,
}

/// Path parameters: an entity id and an attribute id.
#[derive(Clone, Debug)]
pub struct EntityAttrPath {
    pub entity_id: String,
    pub attr_id: String,
}

/// Path parameters: an entity id, an attribute id and an instance id.
#[derive(Clone, Debug)]
pub struct EntityAttrInstancePath {
    pub entity_id: String,
    pub attr_id: String,
    pub instance_id: String,
}

/// Path parameter: a subscription id.
#[derive(Clone, Debug)]
pub struct SubscriptionIdPath {
    pub subscription_id: String,
}

/// Path parameter: an entity type name.
#[derive(Clone, Debug)]
pub struct TypeNamePath {
    pub entity_type_name: String,
}

/// Path parameter: an attribute name.
#[derive(Clone, Debug)]
pub struct AttributeNamePath {
    pub attribute_name: String,
}

} // verus!
