//! Query planning: entity query parameters turned into a filter plan, the
//! storage filter document of a plan, geo constraints and temporal windows.
//!
//! Storage filter documents are written as `Json` trees in the shape of the
//! MongoDB filter language (`$and`, `$or`, `$in`, `$regex`, `$near`, ...).
use vstd::prelude::*;
use crate::config::{all_digits, decimal_string, decimal_text, digits_value, parse_unsigned};
use crate::error::{BrokerError, error_message, failure_message};
use crate::json::{
    Json, JsonV, clone_json, entry_views, json_text_value, json_to_serde, json_views,
    lemma_array_view, lemma_object_view, map_insert, object_insert, parse_csv, parse_json_text,
};
use crate::query::language::{
    QExpression, QExpressionV, check_regex, parse_q_expression, q_expression, q_expression_error, regex_compiles,
};
use crate::query::scope::{parse_scope_expression, scope_expression, scope_expression_error};
use crate::query::types::{EntityQuery, Representation, TemporalEntityQuery};
use crate::text::{
    chars_eq_str, chars_of, concat_str, csv_items, find_chars, first_occurrence, has_infix,
    has_prefix, join_chars, lemma_prefix_of_concat, split_chars, split_on, starts_with_chars,
    str_contains, str_eq, string_from, string_of, sub_chars, text_around, views,
};

verus! {

/// The view of an optional `String`.
pub open spec fn opt_text(s: Option<String>) -> Option<Seq<char>> {
    match s {
        Some(t) => Some(t@),
        None => None,
    }
}

/// The view of an optional string slice.
pub open spec fn opt_str(s: Option<&str>) -> Option<Seq<char>> {
    match s {
        Some(t) => Some(t@),
        None => None,
    }
}

/// The items of an optional comma-separated list (none when absent).
pub open spec fn csv_list(value: Option<Seq<char>>) -> Seq<Seq<char>> {
    match value {
        Some(v) => csv_items(v),
        None => Seq::empty(),
    }
}

/// An optional `String` as an optional string slice.
pub(crate) fn opt_as_str(s: &Option<String>) -> (r: Option<&str>)
    ensures
        opt_str(r) == opt_text(*s),
{
    match s {
        Some(t) => Some(t.as_str()),
        None => None,
    }
}

/// A copy of an optional `String`.
pub(crate) fn clone_opt(s: &Option<String>) -> (r: Option<String>)
    ensures
        opt_text(r) == opt_text(*s),
{
    match s {
        Some(t) => Some(t.clone()),
        None => None,
    }
}

/// Splits a comma-separated query field into trimmed, non-empty values.
fn split_csv(value: Option<&str>) -> (r: Vec<String>)
    ensures
        views(r@) == csv_list(opt_str(value)),
{
    let r = parse_csv(value);
    if value.is_none() {
        assert(views(r@) =~= Seq::<Seq<char>>::empty());
    }
    r
}

// ---------------------------------------------------------------------------
// Geo constraints
// ---------------------------------------------------------------------------

/// A geo constraint of an entity query.
#[derive(Clone, Debug)]
pub struct GeoFilter {
    /// GeoJSON geometry type such as `Point` or `Polygon`.
    pub geometry: String,
    /// NGSI-LD georel operator string.
    pub georel: String,
    /// Entity property that holds the geometry value.
    pub geoproperty: String,
    /// GeoJSON coordinates.
    pub coordinates: Json,
}

/// The view of a geo constraint.
pub struct GeoFilterV {
    pub geometry: Seq<char>,
    pub georel: Seq<char>,
    pub geoproperty: Seq<char>,
    pub coordinates: JsonV,
}

impl View for GeoFilter {
    type V = GeoFilterV;

    open spec fn view(&self) -> GeoFilterV {
        GeoFilterV {
            geometry: self.geometry@,
            georel: self.georel@,
            geoproperty: self.geoproperty@,
            coordinates: self.coordinates@,
        }
    }
}

/// The view of an optional geo constraint.
pub open spec fn opt_geo(g: Option<GeoFilter>) -> Option<GeoFilterV> {
    match g {
        Some(x) => Some(x@),
        None => None,
    }
}

/// A geo constraint is asked for: one of geometry, georel, coordinates is
/// given.
pub open spec fn geo_requested(
    geometry: Option<Seq<char>>,
    georel: Option<Seq<char>>,
    coordinates: Option<Seq<char>>,
) -> bool {
    geometry is Some || georel is Some || coordinates is Some
}

/// The geo constraint of the parameters: `Some(None)` when none is asked
/// for, `Some(Some(g))` for a complete one whose coordinates are JSON text,
/// `None` when it is refused. The geo property defaults to `location`.
pub open spec fn geo_result(
    geometry: Option<Seq<char>>,
    georel: Option<Seq<char>>,
    coordinates: Option<Seq<char>>,
    geoproperty: Option<Seq<char>>,
) -> Option<Option<GeoFilterV>> {
    if !geo_requested(geometry, georel, coordinates) {
        Some(None)
    } else {
        match (geometry, georel, coordinates) {
            (Some(g), Some(r), Some(c)) => match json_text_value(c) {
                Some(v) => Some(
                    Some(
                        GeoFilterV {
                            geometry: g,
                            georel: r,
                            geoproperty: match geoproperty {
                                Some(p) => p,
                                None => "location"@,
                            },
                            coordinates: v,
                        },
                    ),
                ),
                None => None,
            },
            _ => None,
        }
    }
}

/// The error of a refused geo constraint: the first missing component is
/// named, else the coordinates are no JSON.
pub open spec fn geo_error(
    e: BrokerError,
    geometry: Option<Seq<char>>,
    georel: Option<Seq<char>>,
    coordinates: Option<Seq<char>>,
) -> bool {
    &&& e is BadRequest
    &&& if geometry is None {
        error_message(e) == "geometry is required for geo queries"@
    } else if georel is None {
        error_message(e) == "georel is required for geo queries"@
    } else if coordinates is None {
        error_message(e) == "coordinates is required for geo queries"@
    } else {
        has_prefix(error_message(e), "coordinates must be valid JSON coordinates: "@)
    }
}

/// Parses geo query components into a validated geo filter.
pub fn parse_geo_filter(
    geometry: Option<&str>,
    georel: Option<&str>,
    coordinates: Option<&str>,
    geoproperty: Option<&str>,
) -> (r: Result<Option<GeoFilter>, BrokerError>)
    ensures
        match r {
            Ok(x) => geo_result(opt_str(geometry), opt_str(georel), opt_str(coordinates), opt_str(geoproperty))
                == Some(opt_geo(x)),
            Err(e) => geo_result(opt_str(geometry), opt_str(georel), opt_str(coordinates), opt_str(geoproperty))
                is None && geo_error(e, opt_str(geometry), opt_str(georel), opt_str(coordinates)),
        },
{
    if geometry.is_none() && georel.is_none() && coordinates.is_none() {
        return Ok(None);
    }
    let g = match geometry {
        Some(g) => g,
        None => {
            return Err(BrokerError::bad_request("geometry is required for geo queries"));
        },
    };
    let rel = match georel {
        Some(rel) => rel,
        None => {
            return Err(BrokerError::bad_request("georel is required for geo queries"));
        },
    };
    let c = match coordinates {
        Some(c) => c,
        None => {
            return Err(BrokerError::bad_request("coordinates is required for geo queries"));
        },
    };
    match parse_json_text(c) {
        Ok(v) => {
            let property = match geoproperty {
                Some(p) => string_from(p),
                None => string_from("location"),
            };
            Ok(
                Some(
                    GeoFilter {
                        geometry: string_from(g),
                        georel: string_from(rel),
                        geoproperty: property,
                        coordinates: v,
                    },
                ),
            )
        },
        Err(msg) => {
            let m = concat_str("coordinates must be valid JSON coordinates: ", msg.as_str());
            proof {
                lemma_prefix_of_concat("coordinates must be valid JSON coordinates: "@, msg@);
            }
            Err(BrokerError::BadRequest(m))
        },
    }
}

// ---------------------------------------------------------------------------
// Geo filter documents
// ---------------------------------------------------------------------------

/// Number text that serde_json reads as an unsigned integer beyond the
/// range of `i64`: digits without a leading zero, of a value above
/// `i64::MAX` and within `u64`.
pub open spec fn oversized_unsigned(t: Seq<char>) -> bool {
    &&& t.len() > 0
    &&& all_digits(t)
    &&& t[0] != '0'
    &&& digits_value(t) > 0x7fff_ffff_ffff_ffff
    &&& digits_value(t) <= 0xffff_ffff_ffff_ffff
}

/// A JSON value holds such a number: itself, an item of an array, or the
/// value of an object member that no later member of the same name
/// replaces when the object becomes a map.
pub open spec fn holds_oversized_unsigned(v: JsonV) -> bool
    decreases v,
{
    match v {
        JsonV::Number(t) => oversized_unsigned(t),
        JsonV::Array(xs) => exists|i: int| 0 <= i < xs.len() && holds_oversized_unsigned(#[trigger] xs[i]),
        JsonV::Object(ms) => exists|i: int|
            0 <= i < ms.len() && holds_oversized_unsigned(#[trigger] ms[i].1) && forall|j: int|
                i < j < ms.len() ==> #[trigger] ms[j].0 != ms[i].0,
        _ => false,
    }
}

/// Whether `bson::to_bson` converts a JSON value into BSON: it refuses
/// exactly an unsigned integer above `i64::MAX`.
pub open spec fn bson_accepts(value: JsonV) -> bool {
    !holds_oversized_unsigned(value)
}

/// Converts a JSON value with `bson::to_bson`, after turning it into a
/// `serde_json::Value` (number text that serde_json reads becomes a
/// number, other number text a string; a later member of an object
/// replaces an earlier one of the same name). bson's serializer refuses
/// only a `u64` above `i64::MAX` (`serialize_u64`), which serde_json gives
/// for digit text without a leading zero in that range; the contract says
/// the conversion succeeds exactly when no such number is kept. On
/// failure the error's display text is returned, of which nothing is
/// stated.
#[verifier::external_body]
fn check_bson(value: &Json) -> (r: Result<(), String>)
    ensures
        r is Ok <==> bson_accepts(value@),
{
    bson::to_bson(&json_to_serde(value)).map(|_| ()).map_err(|e| e.to_string())
}

/// A signed integer as `str::parse::<i64>` reads it: an optional `+` or
/// `-`, then one or more ASCII digits, within the range of `i64`.
pub open spec fn i64_text(s: Seq<char>) -> Option<int> {
    if s.len() > 0 && s[0] == '-' {
        let d = s.drop_first();
        if d.len() > 0 && all_digits(d) && digits_value(d) <= 0x8000_0000_0000_0000 {
            Some(-digits_value(d))
        } else {
            None
        }
    } else {
        parse_unsigned(s, 0x7fff_ffff_ffff_ffff)
    }
}

/// Parses a signed integer with `str::parse::<i64>`, whose documentation
/// reads: an optional `+` or `-` sign followed by digits, refused when out
/// of range; the error's display text is not stated.
#[verifier::external_body]
fn parse_i64(text: &str) -> (r: Result<i64, String>)
    ensures
        match r {
            Ok(v) => i64_text(text@) == Some(v as int),
            Err(_) => i64_text(text@) is None,
        },
{
    text.parse::<i64>().map_err(|e| e.to_string())
}

/// Decimal text of an integer, with a leading `-` when negative.
pub open spec fn signed_text(n: int) -> Seq<char> {
    if n < 0 {
        seq!['-'] + decimal_text((-n) as nat)
    } else {
        decimal_text(n as nat)
    }
}

/// Writes a signed integer in decimal.
pub(crate) fn signed_decimal(n: i64) -> (r: Vec<char>)
    ensures
        r@ == signed_text(n as int),
{
    if n < 0 {
        let m: u64 = if n == i64::MIN {
            0x8000_0000_0000_0000u64
        } else {
            (-n) as u64
        };
        let digits = decimal_string(m);
        let mut minus: Vec<char> = Vec::new();
        minus.push('-');
        assert(minus@ =~= seq!['-']);
        join_chars(&minus, &digits)
    } else {
        decimal_string(n as u64)
    }
}

/// An object with one member.
pub open spec fn jobj1(k: Seq<char>, v: JsonV) -> JsonV {
    JsonV::Object(seq![(k, v)])
}

/// Builds an object with one member.
fn object1(k: &str, v: Json) -> (r: Json)
    ensures
        r@ == jobj1(k@, v@),
{
    let mut entries: Vec<(String, Json)> = Vec::new();
    entries.push((string_from(k), v));
    proof {
        lemma_object_view(entries);
        assert(entry_views(entries@) =~= seq![(k@, v@)]);
    }
    Json::Object(entries)
}

/// Builds an object with one member, its key given as characters.
fn object1_chars(k: &Vec<char>, v: Json) -> (r: Json)
    ensures
        r@ == jobj1(k@, v@),
{
    let mut entries: Vec<(String, Json)> = Vec::new();
    entries.push((string_of(k), v));
    proof {
        lemma_object_view(entries);
        assert(entry_views(entries@) =~= seq![(k@, v@)]);
    }
    Json::Object(entries)
}

/// The GeoJSON geometry of a geo constraint: its type, then coordinates.
pub open spec fn geo_json(g: GeoFilterV) -> JsonV {
    JsonV::Object(seq![("type"@, JsonV::Str(g.geometry)), ("coordinates"@, g.coordinates)])
}

/// Geometry types that the planner accepts.
pub open spec fn supported_geometry(g: Seq<char>) -> bool {
    g == "Point"@ || g == "MultiPoint"@ || g == "LineString"@ || g == "MultiLineString"@ || g
        == "Polygon"@ || g == "MultiPolygon"@
}

/// The filter operator of a georel other than `near`.
pub open spec fn georel_operator(rel: Seq<char>) -> Option<Seq<char>> {
    if rel == "within"@ || rel == "contains"@ {
        Some("$geoWithin"@)
    } else if rel == "intersects"@ || rel == "overlaps"@ || rel == "equals"@ {
        Some("$geoIntersects"@)
    } else {
        None
    }
}

/// Why a geo constraint has no filter document.
pub enum GeoDocError {
    UnsupportedGeometry(Seq<char>),
    InvalidCoordinates,
    InvalidDistance(Seq<char>),
    InvalidNearClause(Seq<char>),
    Disjoint,
    InvalidGeorel(Seq<char>),
}

/// The broker error that reports a geo document error.
pub open spec fn geo_error_is(e: BrokerError, ge: GeoDocError) -> bool {
    match ge {
        GeoDocError::UnsupportedGeometry(g) => e is BadRequest && error_message(e)
            == "unsupported geometry "@ + g,
        GeoDocError::InvalidCoordinates => e is BadRequest && has_prefix(
            error_message(e),
            "invalid geo coordinates: "@,
        ),
        GeoDocError::InvalidDistance(raw) => e is BadRequest && has_prefix(
            error_message(e),
            "invalid near distance "@ + raw + ": "@,
        ),
        GeoDocError::InvalidNearClause(kind) => e is BadRequest && error_message(e)
            == "invalid georel near clause "@ + kind,
        GeoDocError::Disjoint => e is NotImplemented && error_message(e)
            == "georel disjoint is not supported by current query planner"@,
        GeoDocError::InvalidGeorel(rel) => e is BadRequest && error_message(e) == "invalid georel "@
            + rel,
    }
}

/// The members of a `$near` specification after the clauses `tokens`
/// (each `kind==distance`; tokens without `==` are skipped), starting
/// from `acc`.
pub open spec fn near_members(tokens: Seq<Seq<char>>, acc: Seq<(Seq<char>, JsonV)>) -> Result<
    Seq<(Seq<char>, JsonV)>,
    GeoDocError,
>
    decreases tokens.len(),
{
    if tokens.len() == 0 {
        Ok(acc)
    } else {
        let t = tokens[0];
        match first_occurrence(t, "=="@) {
            None => near_members(tokens.drop_first(), acc),
            Some(k) => {
                let kind = t.subrange(0, k);
                let raw = t.subrange(k + 2, t.len() as int);
                match i64_text(raw) {
                    None => Err(GeoDocError::InvalidDistance(raw)),
                    Some(d) => if kind == "maxDistance"@ {
                        near_members(
                            tokens.drop_first(),
                            object_insert(acc, "$maxDistance"@, JsonV::Number(signed_text(d))),
                        )
                    } else if kind == "minDistance"@ {
                        near_members(
                            tokens.drop_first(),
                            object_insert(acc, "$minDistance"@, JsonV::Number(signed_text(d))),
                        )
                    } else {
                        Err(GeoDocError::InvalidNearClause(kind))
                    },
                }
            },
        }
    }
}

/// The filter document of a geo constraint on `doc.<geoproperty>.value`:
/// `$near` with its distance bounds for `near;...`, else the operator of
/// the georel with the geometry.
pub open spec fn geo_document(g: GeoFilterV) -> Result<JsonV, GeoDocError> {
    let property = "doc."@ + g.geoproperty + ".value"@;
    if !supported_geometry(g.geometry) {
        Err(GeoDocError::UnsupportedGeometry(g.geometry))
    } else if !bson_accepts(geo_json(g)) {
        Err(GeoDocError::InvalidCoordinates)
    } else if has_prefix(g.georel, "near;"@) {
        match near_members(split_on(g.georel, ';').skip(1), seq![("$geometry"@, geo_json(g))]) {
            Ok(m) => Ok(jobj1(property, jobj1("$near"@, JsonV::Object(m)))),
            Err(e) => Err(e),
        }
    } else if g.georel == "disjoint"@ {
        Err(GeoDocError::Disjoint)
    } else {
        match georel_operator(g.georel) {
            Some(op) => Ok(jobj1(property, jobj1(op, jobj1("$geometry"@, geo_json(g))))),
            None => Err(GeoDocError::InvalidGeorel(g.georel)),
        }
    }
}

/// The filter of a geo query whose georel is not `near`: the property's
/// value must lie within the geometry for `within` and `contains`
/// (`$geoWithin`), and must intersect it for `intersects`, `overlaps` and
/// `equals` (`$geoIntersects`), the geometry being the query's type and
/// coordinates.
pub proof fn law_geo_operators(g: GeoFilterV)
    requires
        supported_geometry(g.geometry),
        bson_accepts(geo_json(g)),
    ensures
        ({
            let geometry = JsonV::Object(seq![("type"@, JsonV::Str(g.geometry)), ("coordinates"@, g.coordinates)]);
            let filter = |op: Seq<char>|
                JsonV::Object(
                    seq![
                        (
                            "doc."@ + g.geoproperty + ".value"@,
                            JsonV::Object(seq![(op, JsonV::Object(seq![("$geometry"@, geometry)]))]),
                        ),
                    ],
                );
            &&& (g.georel == "within"@ || g.georel == "contains"@) ==> geo_document(g) == Ok::<JsonV, GeoDocError>(
                filter("$geoWithin"@),
            )
            &&& (g.georel == "intersects"@ || g.georel == "overlaps"@ || g.georel == "equals"@) ==> geo_document(g)
                == Ok::<JsonV, GeoDocError>(filter("$geoIntersects"@))
        }),
{
    reveal_strlit("within");
    reveal_strlit("contains");
    reveal_strlit("intersects");
    reveal_strlit("overlaps");
    reveal_strlit("equals");
    reveal_strlit("disjoint");
    reveal_strlit("near;");
    let rel = g.georel;
    if rel == "within"@ || rel == "contains"@ || rel == "intersects"@ || rel == "overlaps"@ || rel == "equals"@ {
        assert(rel[0] != 'n');
        assert(!has_prefix(rel, "near;"@)) by {
            if has_prefix(rel, "near;"@) {
                assert(rel.subrange(0, 5)[0] == rel[0]);
                assert("near;"@[0] == 'n');
            }
        }
        assert(rel != "disjoint"@) by {
            assert(rel.len() != 8 || rel[0] != 'd');
        }
    }
}

/// A geo query with a geometry type outside Point, MultiPoint,
/// LineString, MultiLineString, Polygon and MultiPolygon has no filter;
/// nor has `disjoint`, which the store cannot answer.
pub proof fn law_geo_refusals(g: GeoFilterV)
    ensures
        !(g.geometry == "Point"@ || g.geometry == "MultiPoint"@ || g.geometry == "LineString"@ || g.geometry
            == "MultiLineString"@ || g.geometry == "Polygon"@ || g.geometry == "MultiPolygon"@) ==> geo_document(g)
            == Err::<JsonV, GeoDocError>(GeoDocError::UnsupportedGeometry(g.geometry)),
        (supported_geometry(g.geometry) && bson_accepts(geo_json(g)) && g.georel == "disjoint"@) ==> geo_document(g)
            == Err::<JsonV, GeoDocError>(GeoDocError::Disjoint),
{
    reveal_strlit("disjoint");
    reveal_strlit("near;");
    if g.georel == "disjoint"@ {
        assert(g.georel[0] != 'n');
        assert(!has_prefix(g.georel, "near;"@)) by {
            if has_prefix(g.georel, "near;"@) {
                assert(g.georel.subrange(0, 5)[0] == g.georel[0]);
                assert("near;"@[0] == 'n');
            }
        }
    }
}

/// Tests the supported geometry types.
fn is_supported_geometry(g: &str) -> (r: bool)
    ensures
        r == supported_geometry(g@),
{
    str_eq(g, "Point") || str_eq(g, "MultiPoint") || str_eq(g, "LineString") || str_eq(
        g,
        "MultiLineString",
    ) || str_eq(g, "Polygon") || str_eq(g, "MultiPolygon")
}

impl GeoFilter {
    /// The GeoJSON geometry of this constraint.
    fn geometry_json(&self) -> (r: Json)
        ensures
            r@ == geo_json(self@),
    {
        let mut entries: Vec<(String, Json)> = Vec::new();
        entries.push((string_from("type"), Json::Str(self.geometry.clone())));
        entries.push((string_from("coordinates"), clone_json(&self.coordinates)));
        proof {
            lemma_object_view(entries);
            assert(entry_views(entries@) =~= seq![
                ("type"@, JsonV::Str(self.geometry@)),
                ("coordinates"@, self.coordinates@),
            ]);
        }
        Json::Object(entries)
    }

    /// The members of the `$near` specification of a `near;...` georel.
    fn near_specification(&self, geometry: Json) -> (r: Result<Vec<(String, Json)>, BrokerError>)
        requires
            geometry@ == geo_json(self@),
        ensures
            match r {
                Ok(m) => near_members(
                    split_on(self.georel@, ';').skip(1),
                    seq![("$geometry"@, geo_json(self@))],
                ) == Ok::<Seq<(Seq<char>, JsonV)>, GeoDocError>(entry_views(m@)),
                Err(e) => near_members(
                    split_on(self.georel@, ';').skip(1),
                    seq![("$geometry"@, geo_json(self@))],
                ) matches Err(ge) && geo_error_is(e, ge),
            },
    {
        let ghost init = seq![("$geometry"@, geo_json(self@))];
        let mut spec: Vec<(String, Json)> = Vec::new();
        spec.push((string_from("$geometry"), geometry));
        assert(entry_views(spec@) =~= init);
        let rel = chars_of(self.georel.as_str());
        let pieces = split_chars(&rel, ';');
        let ghost all = split_on(self.georel@, ';');
        let eqeq = chars_of("==");
        proof {
            crate::text::lemma_split_on_nonempty(self.georel@, ';');
            reveal_strlit("==");
        }
        let mut i: usize = 1;
        while i < pieces.len()
            invariant
                1 <= i <= pieces.len(),
                pieces@.map_values(|v: Vec<char>| v@) == all,
                all == split_on(self.georel@, ';'),
                eqeq@ == "=="@,
                eqeq.len() == 2,
                init == seq![("$geometry"@, geo_json(self@))],
                near_members(all.skip(1), init) == near_members(all.skip(i as int), entry_views(
                    spec@,
                )),
            decreases pieces.len() - i,
        {
            let t = &pieces[i];
            let ghost tokens = all.skip(i as int);
            assert(tokens[0] == t@);
            assert(tokens.drop_first() =~= all.skip(i + 1));
            match find_chars(t, &eqeq) {
                None => {},
                Some(k) => {
                    let kind = sub_chars(t, 0, k);
                    let raw = sub_chars(t, k + 2, t.len());
                    let raw_text = string_of(&raw);
                    match parse_i64(raw_text.as_str()) {
                        Err(msg) => {
                            let sep = chars_of(": ");
                            let detail = chars_of(msg.as_str());
                            let tail = join_chars(&sep, &detail);
                            let body = join_chars(&raw, &tail);
                            let m = text_around("invalid near distance ", &body, "");
                            proof {
                                reveal_strlit("");
                                reveal_strlit(": ");
                                assert(m@ =~= ("invalid near distance "@ + raw@ + ": "@)
                                    + detail@);
                                lemma_prefix_of_concat(
                                    "invalid near distance "@ + raw@ + ": "@,
                                    detail@,
                                );
                            }
                            assert(first_occurrence(tokens[0], "=="@) == Some(k as int));
                            assert(i64_text(raw@) is None);
                            assert(near_members(tokens, entry_views(spec@)) == Err::<
                                Seq<(Seq<char>, JsonV)>,
                                GeoDocError,
                            >(GeoDocError::InvalidDistance(raw@)));
                            return Err(BrokerError::BadRequest(m));
                        },
                        Ok(d) => {
                            let number = Json::Number(string_of(&signed_decimal(d)));
                            if chars_eq_str(&kind, "maxDistance") {
                                map_insert(&mut spec, string_from("$maxDistance"), number);
                            } else if chars_eq_str(&kind, "minDistance") {
                                map_insert(&mut spec, string_from("$minDistance"), number);
                            } else {
                                proof {
                                    reveal_strlit("");
                                }
                                assert(first_occurrence(tokens[0], "=="@) == Some(k as int));
                                assert(near_members(tokens, entry_views(spec@)) == Err::<
                                    Seq<(Seq<char>, JsonV)>,
                                    GeoDocError,
                                >(GeoDocError::InvalidNearClause(kind@)));
                                return Err(
                                    BrokerError::BadRequest(
                                        text_around("invalid georel near clause ", &kind, ""),
                                    ),
                                );
                            }
                        },
                    }
                },
            }
            i += 1;
        }
        assert(all.skip(i as int).len() == 0);
        Ok(spec)
    }

    /// Converts the geo constraint into its storage filter document.
    pub fn to_bson(&self) -> (r: Result<Json, BrokerError>)
        ensures
            match r {
                Ok(d) => geo_document(self@) == Ok::<JsonV, GeoDocError>(d@),
                Err(e) => geo_document(self@) matches Err(ge) && geo_error_is(e, ge),
            },
    {
        if !is_supported_geometry(self.geometry.as_str()) {
            return Err(BrokerError::BadRequest(concat_str("unsupported geometry ", self.geometry.as_str())));
        }
        let geometry = self.geometry_json();
        match check_bson(&geometry) {
            Ok(()) => {},
            Err(msg) => {
                proof {
                    lemma_prefix_of_concat("invalid geo coordinates: "@, msg@);
                }
                return Err(BrokerError::BadRequest(concat_str("invalid geo coordinates: ", msg.as_str())));
            },
        }
        let gp = chars_of(self.geoproperty.as_str());
        let property = text_around("doc.", &gp, ".value");
        let property_chars = chars_of(property.as_str());
        let rel = chars_of(self.georel.as_str());
        let near = chars_of("near;");
        if starts_with_chars(&rel, &near) {
            let spec = self.near_specification(geometry)?;
            proof {
                lemma_object_view(spec);
            }
            let inner = object1("$near", Json::Object(spec));
            return Ok(object1_chars(&property_chars, inner));
        }
        if str_eq(self.georel.as_str(), "disjoint") {
            return Err(
                BrokerError::NotImplemented(
                    string_from("georel disjoint is not supported by current query planner"),
                ),
            );
        }
        let operator = if str_eq(self.georel.as_str(), "within") || str_eq(
            self.georel.as_str(),
            "contains",
        ) {
            "$geoWithin"
        } else if str_eq(self.georel.as_str(), "intersects") || str_eq(
            self.georel.as_str(),
            "overlaps",
        ) || str_eq(self.georel.as_str(), "equals") {
            "$geoIntersects"
        } else {
            return Err(BrokerError::BadRequest(concat_str("invalid georel ", self.georel.as_str())));
        };
        let with_geometry = object1("$geometry", geometry);
        let op = object1(operator, with_geometry);
        Ok(object1_chars(&property_chars, op))
    }
}

// ---------------------------------------------------------------------------
// Query plans
// ---------------------------------------------------------------------------

/// A filter plan derived from entity query parameters.
#[derive(Debug)]
pub struct QueryPlan {
    /// Entity ids asked for.
    pub ids: Vec<String>,
    /// Entity types asked for.
    pub entity_types: Vec<String>,
    /// Regular expression on entity ids.
    pub id_pattern: Option<String>,
    /// Attributes that candidate entities must have.
    pub attrs: Vec<String>,
    /// Parsed `q` expression, kept for evaluation on candidates.
    pub q_expression: Option<QExpression>,
    /// Geo constraint.
    pub geo: Option<GeoFilter>,
    /// Result limit that storage may apply itself.
    pub limit: Option<usize>,
}

/// The view of an optional `q` expression.
pub open spec fn opt_expr(e: Option<QExpression>) -> Option<QExpressionV> {
    match e {
        Some(x) => Some(x@),
        None => None,
    }
}

/// The limit that storage may apply: none when a `q` or `scopeQ` filter
/// runs after storage or when the matches are counted.
pub open spec fn storage_limit(query: EntityQuery) -> Option<usize> {
    if query.q is Some || query.scope_q is Some || query.count == Some(true) {
        None
    } else {
        query.limit
    }
}

/// The geo constraint asked for by an entity query.
pub open spec fn query_geo(query: EntityQuery) -> Option<Option<GeoFilterV>> {
    geo_result(
        opt_text(query.geometry),
        opt_text(query.georel),
        opt_text(query.coordinates),
        opt_text(query.geoproperty),
    )
}

/// The plan holds what the query asked for.
pub open spec fn plan_of(p: QueryPlan, query: EntityQuery) -> bool {
    &&& q_expression(opt_text(query.q)) == Some(opt_expr(p.q_expression))
    &&& query_geo(query) == Some(opt_geo(p.geo))
    &&& views(p.ids@) == csv_list(opt_text(query.id))
    &&& views(p.entity_types@) == csv_list(opt_text(query.entity_type))
    &&& opt_text(p.id_pattern) == opt_text(query.id_pattern)
    &&& views(p.attrs@) == csv_list(opt_text(query.attrs))
    &&& p.limit == storage_limit(query)
}

/// An array of strings.
pub open spec fn str_array(items: Seq<Seq<char>>) -> JsonV {
    JsonV::Array(items.map_values(|s: Seq<char>| JsonV::Str(s)))
}

/// The clause on entity types: a single type equals `doc.type` or is one
/// of its members; several types contain it or one of its members.
pub open spec fn type_clause(types: Seq<Seq<char>>) -> JsonV {
    if types.len() == 1 {
        jobj1(
            "$or"@,
            JsonV::Array(
                seq![
                    jobj1("doc.type"@, JsonV::Str(types[0])),
                    jobj1("doc.type"@, jobj1("$elemMatch"@, jobj1("$eq"@, JsonV::Str(types[0])))),
                ],
            ),
        )
    } else {
        jobj1(
            "$or"@,
            JsonV::Array(
                seq![
                    jobj1("doc.type"@, jobj1("$in"@, str_array(types))),
                    jobj1("doc.type"@, jobj1("$elemMatch"@, jobj1("$in"@, str_array(types)))),
                ],
            ),
        )
    }
}

/// The clause requiring an attribute.
pub open spec fn attr_clause(attr: Seq<char>) -> JsonV {
    jobj1("doc."@ + attr, jobj1("$exists"@, JsonV::Bool(true)))
}

/// The clauses of a storage filter, in order: tenant, ids, types, id
/// pattern, attributes, geo.
pub open spec fn plan_clauses(
    tenant: Seq<char>,
    ids: Seq<Seq<char>>,
    types: Seq<Seq<char>>,
    id_pattern: Option<Seq<char>>,
    attrs: Seq<Seq<char>>,
    geo: Option<JsonV>,
) -> Seq<JsonV> {
    seq![jobj1("tenant"@, JsonV::Str(tenant))] + (if ids.len() > 0 {
        seq![jobj1("id"@, jobj1("$in"@, str_array(ids)))]
    } else {
        Seq::empty()
    }) + (if types.len() > 0 {
        seq![type_clause(types)]
    } else {
        Seq::empty()
    }) + (match id_pattern {
        Some(p) => seq![jobj1("id"@, jobj1("$regex"@, JsonV::Str(p)))],
        None => Seq::empty(),
    }) + attrs.map_values(|a: Seq<char>| attr_clause(a)) + (match geo {
        Some(g) => seq![g],
        None => Seq::empty(),
    })
}

/// A single clause stands alone; several are joined by `$and`.
pub open spec fn combined_filter(clauses: Seq<JsonV>) -> JsonV {
    if clauses.len() == 1 {
        clauses[0]
    } else {
        jobj1("$and"@, JsonV::Array(clauses))
    }
}

/// The id pattern, when given, is a valid regular expression.
pub open spec fn pattern_valid(p: Option<Seq<char>>) -> bool {
    match p {
        Some(x) => regex_compiles(x),
        None => true,
    }
}

/// Builds an array of strings.
pub(crate) fn string_array(items: &Vec<String>) -> (r: Json)
    ensures
        r@ == str_array(views(items@)),
{
    let mut out: Vec<Json> = Vec::new();
    let mut i: usize = 0;
    while i < items.len()
        invariant
            i <= items.len(),
            json_views(out@) == views(items@).take(i as int).map_values(
                |s: Seq<char>| JsonV::Str(s),
            ),
        decreases items.len() - i,
    {
        let item = Json::Str(items[i].clone());
        assert(item@ == JsonV::Str(items@[i as int]@));
        let ghost before = json_views(out@);
        out.push(item);
        assert(json_views(out@) =~= before.push(JsonV::Str(items@[i as int]@)));
        assert(views(items@)[i as int] == items@[i as int]@);
        assert(views(items@).take(i + 1) =~= views(items@).take(i as int).push(items@[i as int]@));
        assert(json_views(out@) =~= views(items@).take(i + 1).map_values(
            |s: Seq<char>| JsonV::Str(s),
        ));
        i += 1;
    }
    proof {
        lemma_array_view(out);
        assert(views(items@).take(items.len() as int) =~= views(items@));
    }
    Json::Array(out)
}

impl QueryPlan {
    /// Builds a filter plan from entity query parameters.
    pub fn from_entity_query(query: &EntityQuery) -> (r: Result<QueryPlan, BrokerError>)
        ensures
            match r {
                Ok(p) => scope_expression(opt_text(query.scope_q)) is Some && plan_of(p, *query),
                Err(e) => e is BadRequest && if q_expression(opt_text(query.q)) is None {
                    failure_message(error_message(e), q_expression_error(opt_text(query.q)))
                } else if scope_expression(opt_text(query.scope_q)) is None {
                    error_message(e) == scope_expression_error(opt_text(query.scope_q))
                } else {
                    query_geo(*query) is None && geo_error(
                        e,
                        opt_text(query.geometry),
                        opt_text(query.georel),
                        opt_text(query.coordinates),
                    )
                },
            },
    {
        let q_expression = match parse_q_expression(opt_as_str(&query.q)) {
            Ok(x) => x,
            Err(e) => {
                return Err(e);
            },
        };
        match parse_scope_expression(opt_as_str(&query.scope_q)) {
            Ok(_) => {},
            Err(e) => {
                return Err(e);
            },
        }
        let geo = parse_geo_filter(
            opt_as_str(&query.geometry),
            opt_as_str(&query.georel),
            opt_as_str(&query.coordinates),
            opt_as_str(&query.geoproperty),
        )?;
        let counted = match query.count {
            Some(c) => c,
            None => false,
        };
        let limit = if query.q.is_some() || query.scope_q.is_some() || counted {
            None
        } else {
            query.limit
        };
        Ok(
            QueryPlan {
                ids: split_csv(opt_as_str(&query.id)),
                entity_types: split_csv(opt_as_str(&query.entity_type)),
                id_pattern: clone_opt(&query.id_pattern),
                attrs: split_csv(opt_as_str(&query.attrs)),
                q_expression,
                geo,
                limit,
            },
        )
    }

    /// Converts the plan into the storage filter document of a tenant.
    pub fn to_bson_filter(&self, tenant: &str) -> (r: Result<Json, BrokerError>)
        ensures
            match r {
                Ok(f) => pattern_valid(opt_text(self.id_pattern)) && match self.geo {
                    Some(g) => geo_document(g@) matches Ok(d) && f@ == combined_filter(
                        plan_clauses(
                            tenant@,
                            views(self.ids@),
                            views(self.entity_types@),
                            opt_text(self.id_pattern),
                            views(self.attrs@),
                            Some(d),
                        ),
                    ),
                    None => f@ == combined_filter(
                        plan_clauses(
                            tenant@,
                            views(self.ids@),
                            views(self.entity_types@),
                            opt_text(self.id_pattern),
                            views(self.attrs@),
                            None,
                        ),
                    ),
                },
                Err(e) => if !pattern_valid(opt_text(self.id_pattern)) {
                    e is BadRequest && has_prefix(error_message(e), "invalid idPattern: "@)
                } else {
                    self.geo matches Some(g) && geo_document(g@) matches Err(ge) && geo_error_is(
                        e,
                        ge,
                    )
                },
            },
    {
        let ghost ids = views(self.ids@);
        let ghost types = views(self.entity_types@);
        let ghost pattern = opt_text(self.id_pattern);
        let ghost attrs = views(self.attrs@);
        let mut clauses: Vec<Json> = Vec::new();
        clauses.push(object1("tenant", Json::Str(string_from(tenant))));
        let ghost base = seq![jobj1("tenant"@, JsonV::Str(tenant@))];
        assert(json_views(clauses@) =~= base);
        if self.ids.len() > 0 {
            clauses.push(object1("id", object1("$in", string_array(&self.ids))));
        }
        let ghost with_ids = base + (if ids.len() > 0 {
            seq![jobj1("id"@, jobj1("$in"@, str_array(ids)))]
        } else {
            Seq::empty()
        });
        assert(json_views(clauses@) =~= with_ids);
        if self.entity_types.len() > 0 {
            let clause = if self.entity_types.len() == 1 {
                let first = &self.entity_types[0];
                let a = object1("doc.type", Json::Str(first.clone()));
                let b = object1(
                    "doc.type",
                    object1("$elemMatch", object1("$eq", Json::Str(first.clone()))),
                );
                let mut alts: Vec<Json> = Vec::new();
                alts.push(a);
                alts.push(b);
                proof {
                    lemma_array_view(alts);
                    assert(json_views(alts@) =~= seq![
                        jobj1("doc.type"@, JsonV::Str(types[0])),
                        jobj1("doc.type"@, jobj1("$elemMatch"@, jobj1("$eq"@, JsonV::Str(types[0])))),
                    ]);
                }
                object1("$or", Json::Array(alts))
            } else {
                let a = object1("doc.type", object1("$in", string_array(&self.entity_types)));
                let b = object1(
                    "doc.type",
                    object1("$elemMatch", object1("$in", string_array(&self.entity_types))),
                );
                let mut alts: Vec<Json> = Vec::new();
                alts.push(a);
                alts.push(b);
                proof {
                    lemma_array_view(alts);
                    assert(json_views(alts@) =~= seq![
                        jobj1("doc.type"@, jobj1("$in"@, str_array(types))),
                        jobj1("doc.type"@, jobj1("$elemMatch"@, jobj1("$in"@, str_array(types)))),
                    ]);
                }
                object1("$or", Json::Array(alts))
            };
            assert(clause@ == type_clause(types));
            clauses.push(clause);
        }
        let ghost with_types = with_ids + (if types.len() > 0 {
            seq![type_clause(types)]
        } else {
            Seq::empty()
        });
        assert(json_views(clauses@) =~= with_types);
        match &self.id_pattern {
            Some(p) => {
                match check_regex(p.as_str()) {
                    Ok(()) => {},
                    Err(msg) => {
                        proof {
                            lemma_prefix_of_concat("invalid idPattern: "@, msg@);
                        }
                        return Err(BrokerError::BadRequest(concat_str("invalid idPattern: ", msg.as_str())));
                    },
                }
                clauses.push(object1("id", object1("$regex", Json::Str(p.clone()))));
            },
            None => {},
        }
        let ghost with_pattern = with_types + (match pattern {
            Some(p) => seq![jobj1("id"@, jobj1("$regex"@, JsonV::Str(p)))],
            None => Seq::empty(),
        });
        assert(json_views(clauses@) =~= with_pattern);
        let mut i: usize = 0;
        while i < self.attrs.len()
            invariant
                i <= self.attrs.len(),
                attrs == views(self.attrs@),
                json_views(clauses@) == with_pattern + attrs.take(i as int).map_values(
                    |a: Seq<char>| attr_clause(a),
                ),
            decreases self.attrs.len() - i,
        {
            let name = chars_of(self.attrs[i].as_str());
            let key = text_around("doc.", &name, "");
            proof {
                reveal_strlit("");
            }
            let exists = object1("$exists", Json::Bool(true));
            let key_chars = chars_of(key.as_str());
            let clause = object1_chars(&key_chars, exists);
            assert(attrs[i as int] == name@);
            assert(clause@ == attr_clause(attrs[i as int]));
            let ghost before = json_views(clauses@);
            clauses.push(clause);
            assert(json_views(clauses@) =~= before.push(attr_clause(attrs[i as int])));
            assert(attrs.take(i + 1) =~= attrs.take(i as int).push(attrs[i as int]));
            assert(json_views(clauses@) =~= with_pattern + attrs.take(i + 1).map_values(
                |a: Seq<char>| attr_clause(a),
            ));
            i += 1;
        }
        assert(attrs.take(self.attrs.len() as int) =~= attrs);
        let ghost with_attrs = with_pattern + attrs.map_values(|a: Seq<char>| attr_clause(a));
        assert(json_views(clauses@) == with_attrs);
        match &self.geo {
            Some(g) => {
                let d = g.to_bson()?;
                clauses.push(d);
            },
            None => {},
        }
        let ghost all = with_attrs + (match opt_geo(self.geo) {
            Some(g) => seq![geo_document(g)->Ok_0],
            None => Seq::empty(),
        });
        assert(json_views(clauses@) =~= all);
        if clauses.len() == 1 {
            let only = clauses.remove(0);
            Ok(only)
        } else {
            proof {
                lemma_array_view(clauses);
            }
            Ok(object1("$and", Json::Array(clauses)))
        }
    }
}

// ---------------------------------------------------------------------------
// Temporal windows
// ---------------------------------------------------------------------------

/// The temporal representation asked for by `format` and `options`:
/// aggregated values first, then temporal values, else normalized.
pub open spec fn temporal_repr(format: Option<Seq<char>>, options: Option<Seq<char>>) -> Representation {
    if format == Some("aggregatedValues"@) || (options matches Some(o) && has_infix(
        o,
        "aggregatedValues"@,
    )) {
        Representation::AggregatedValues
    } else if format == Some("temporalValues"@) || (options matches Some(o) && has_infix(
        o,
        "temporalValues"@,
    )) {
        Representation::TemporalValues
    } else {
        Representation::Normalized
    }
}

/// Selects the temporal response representation from format and options.
pub(crate) fn temporal_representation(format: Option<&str>, options: Option<&str>) -> (r: Representation)
    ensures
        r == temporal_repr(opt_str(format), opt_str(options)),
{
    let aggregated_format = match format {
        Some(f) => str_eq(f, "aggregatedValues"),
        None => false,
    };
    let aggregated_option = match options {
        Some(o) => str_contains(o, "aggregatedValues"),
        None => false,
    };
    if aggregated_format || aggregated_option {
        return Representation::AggregatedValues;
    }
    let temporal_format = match format {
        Some(f) => str_eq(f, "temporalValues"),
        None => false,
    };
    let temporal_option = match options {
        Some(o) => str_contains(o, "temporalValues"),
        None => false,
    };
    if temporal_format || temporal_option {
        Representation::TemporalValues
    } else {
        Representation::Normalized
    }
}

/// A temporal window with its projection settings.
#[derive(Clone, Debug)]
pub struct TemporalFilter {
    /// Timestamp member compared in history records.
    pub time_property: String,
    /// Temporal relation such as `before`, `after` or `between`.
    pub time_rel: String,
    /// Lower bound or anchor timestamp.
    pub time_at: String,
    /// Upper bound of `between` windows.
    pub end_time_at: Option<String>,
    /// Optional `lastN` truncation applied after filtering.
    pub last_n: Option<u32>,
    /// Aggregation methods of aggregated views.
    pub aggr_methods: Vec<String>,
    /// Optional aggregation bucket duration.
    pub aggr_period_duration: Option<String>,
    /// Temporal response representation.
    pub representation: Representation,
}

/// The error of a refused temporal query: the first missing parameter.
pub open spec fn temporal_error(e: BrokerError, query: TemporalEntityQuery) -> bool {
    &&& e is BadRequest
    &&& if query.time_rel is None {
        error_message(e) == "timerel is required"@
    } else if query.time_at is None {
        error_message(e) == "timeAt is required"@
    } else {
        query.time_rel->0@ == "between"@ && query.end_time_at is None && error_message(e)
            == "endTimeAt is required when timerel=between"@
    }
}

/// A temporal query is accepted: relation and anchor are given, and a
/// `between` window has its end.
pub open spec fn temporal_accepted(query: TemporalEntityQuery) -> bool {
    &&& query.time_rel is Some
    &&& query.time_at is Some
    &&& !(query.time_rel->0@ == "between"@ && query.end_time_at is None)
}

/// The filter holds what the query asked for; the time property defaults
/// to `observedAt`.
pub open spec fn temporal_filter_of(f: TemporalFilter, query: TemporalEntityQuery) -> bool {
    &&& f.time_rel@ == query.time_rel->0@
    &&& f.time_at@ == query.time_at->0@
    &&& f.time_property@ == match query.time_property {
        Some(p) => p@,
        None => "observedAt"@,
    }
    &&& opt_text(f.end_time_at) == opt_text(query.end_time_at)
    &&& f.last_n == query.last_n
    &&& views(f.aggr_methods@) == csv_list(opt_text(query.aggr_methods))
    &&& opt_text(f.aggr_period_duration) == opt_text(query.aggr_period_duration)
    &&& f.representation == temporal_repr(opt_text(query.entity.format), opt_text(query.entity.options))
}

impl TemporalFilter {
    /// Builds a temporal filter from temporal query parameters.
    pub fn from_query(query: &TemporalEntityQuery) -> (r: Result<TemporalFilter, BrokerError>)
        ensures
            match r {
                Ok(f) => temporal_accepted(*query) && temporal_filter_of(f, *query),
                Err(e) => !temporal_accepted(*query) && temporal_error(e, *query),
            },
    {
        let time_rel = match &query.time_rel {
            Some(t) => t.clone(),
            None => {
                return Err(BrokerError::bad_request("timerel is required"));
            },
        };
        let time_at = match &query.time_at {
            Some(t) => t.clone(),
            None => {
                return Err(BrokerError::bad_request("timeAt is required"));
            },
        };
        if str_eq(time_rel.as_str(), "between") && query.end_time_at.is_none() {
            return Err(BrokerError::bad_request("endTimeAt is required when timerel=between"));
        }
        let time_property = match &query.time_property {
            Some(p) => p.clone(),
            None => string_from("observedAt"),
        };
        let aggr_methods = split_csv(opt_as_str(&query.aggr_methods));
        let representation = temporal_representation(
            opt_as_str(&query.entity.format),
            opt_as_str(&query.entity.options),
        );
        Ok(
            TemporalFilter {
                time_property,
                time_rel,
                time_at,
                end_time_at: clone_opt(&query.end_time_at),
                last_n: query.last_n,
                aggr_methods,
                aggr_period_duration: clone_opt(&query.aggr_period_duration),
                representation,
            },
        )
    }
}

} // verus!
