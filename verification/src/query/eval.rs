//! Evaluation of `q` expressions against NGSI-LD entities.
//!
//! An attribute path resolves to candidate attribute instances of the
//! entity (following relationships into linked entities when the path says
//! so); each candidate yields target values according to its NGSI-LD
//! attribute kind and the trailing selector; operators then test those
//! values.
use vstd::prelude::*;
use crate::json::{Json, JsonV, json_views, lemma_array_view, lemma_object_view, entry_views, clone_json, json_same, member_index};
use crate::number::{decimal_bits, number_key, compare_bits, finite_number_bits, compare_number_bits};
use crate::query::language::{
    EqualityOperand, EqualityOperandV, QExpression, QExpressionV, QueryAttribute, QueryAttributeV,
    TrailingPath, TrailingPathV, regex_compiles, regex_finds, regex_is_match, check_regex,
    expression_views, lemma_and_view, lemma_or_view, q_expression, q_expression_error, parse_q_expression,
};
use crate::text::{chars_of, chars_eq, string_of, views};
use crate::error::{BrokerError, error_message, failure_message};

verus! {

/// Options of an evaluation: attributes whose values are expanded with the
/// request's context terms, attributes compared by their JSON member,
/// the context terms (term, expansion), and linked entities by id.
#[derive(Clone, Debug)]
pub struct QueryMatchOptions {
    pub expand_values: Vec<String>,
    pub json_keys: Vec<String>,
    pub context_terms: Vec<(String, String)>,
    pub linked_entities: Vec<(String, Json)>,
}

/// View of evaluation options.
pub struct OptionsV {
    pub expand_values: Seq<Seq<char>>,
    pub json_keys: Seq<Seq<char>>,
    pub context_terms: Seq<(Seq<char>, Seq<char>)>,
    pub linked_entities: Seq<(Seq<char>, JsonV)>,
}

impl View for QueryMatchOptions {
    type V = OptionsV;

    open spec fn view(&self) -> OptionsV {
        OptionsV {
            expand_values: views(self.expand_values@),
            json_keys: views(self.json_keys@),
            context_terms: self.context_terms@.map_values(|p: (String, String)| (p.0@, p.1@)),
            linked_entities: self.linked_entities@.map_values(|p: (String, Json)| (p.0@, p.1@)),
        }
    }
}

/// The first value recorded for a key.
pub open spec fn lookup<V>(pairs: Seq<(Seq<char>, V)>, key: Seq<char>) -> Option<V>
    decreases pairs.len(),
{
    if pairs.len() == 0 {
        None
    } else if pairs[0].0 == key {
        Some(pairs[0].1)
    } else {
        lookup(pairs.drop_first(), key)
    }
}

/// An optional value as a sequence of at most one value.
pub open spec fn opt_seq(v: Option<JsonV>) -> Seq<JsonV> {
    match v {
        Some(x) => seq![x],
        None => Seq::empty(),
    }
}

/// Member `key` of each object item of an array.
pub open spec fn object_members(items: Seq<JsonV>, key: Seq<char>) -> Seq<JsonV> {
    items.flat_map(
        |item: JsonV|
            if item is Object {
                opt_seq(item.get(key))
            } else {
                Seq::empty()
            },
    )
}

/// Member `key` of a node: of an object, or of each object item of an
/// array; nothing for other values.
pub open spec fn member_of_node(node: JsonV, key: Seq<char>) -> Seq<JsonV> {
    match node {
        JsonV::Object(_) => opt_seq(node.get(key)),
        JsonV::Array(items) => object_members(items, key),
        _ => Seq::empty(),
    }
}

/// Member `key` of each node.
pub open spec fn members_of_nodes(nodes: Seq<JsonV>, key: Seq<char>) -> Seq<JsonV> {
    nodes.flat_map(|n: JsonV| member_of_node(n, key))
}

/// Nodes reached from a root along a path of member names.
pub open spec fn path_nodes(root: JsonV, path: Seq<Seq<char>>) -> Seq<JsonV>
    decreases path.len(),
{
    if path.len() == 0 {
        seq![root]
    } else {
        members_of_nodes(path_nodes(root, path.drop_last()), path.last())
    }
}

/// A multi-instance attribute (an array whose items are all objects with a
/// `type`) splits into its instances; any other value is one instance.
pub open spec fn expand_instances(v: JsonV) -> Seq<JsonV> {
    match v {
        JsonV::Array(items) => if forall|i: int|
            0 <= i < items.len() ==> (#[trigger] items[i]) is Object && items[i].get("type"@) is Some {
            items
        } else {
            seq![v]
        },
        _ => seq![v],
    }
}

/// NGSI-LD kind of an attribute, by its `type` member.
#[derive(Clone, Debug)]
pub enum AttributeKind {
    Raw,
    Property,
    GeoProperty,
    Relationship,
    ListRelationship,
    LanguageProperty,
    VocabProperty,
    ListProperty,
    JsonProperty,
}

/// Kind of an attribute value.
pub open spec fn kind_of(v: JsonV) -> AttributeKind {
    match v.get("type"@) {
        Some(JsonV::Str(t)) => if t == "Property"@ {
            AttributeKind::Property
        } else if t == "GeoProperty"@ {
            AttributeKind::GeoProperty
        } else if t == "Relationship"@ {
            AttributeKind::Relationship
        } else if t == "ListRelationship"@ {
            AttributeKind::ListRelationship
        } else if t == "LanguageProperty"@ {
            AttributeKind::LanguageProperty
        } else if t == "VocabProperty"@ {
            AttributeKind::VocabProperty
        } else if t == "ListProperty"@ {
            AttributeKind::ListProperty
        } else if t == "JsonProperty"@ {
            AttributeKind::JsonProperty
        } else {
            AttributeKind::Raw
        },
        _ => AttributeKind::Raw,
    }
}

/// Kinds that store relationship targets.
pub open spec fn is_relationship_kind(k: AttributeKind) -> bool {
    k is Relationship || k is ListRelationship
}

/// A value is the expected text, or an array holding it.
pub open spec fn value_matches_string(v: Option<JsonV>, expected: Seq<char>) -> bool {
    match v {
        Some(JsonV::Str(a)) => a == expected,
        Some(JsonV::Array(items)) => exists|i: int|
            0 <= i < items.len() && #[trigger] items[i] == JsonV::Str(expected),
        _ => false,
    }
}

/// The inline type or the declared object type matches one of the types.
pub open spec fn entity_type_matches(inline_type: Option<JsonV>, object_type: Option<JsonV>, types: Seq<Seq<char>>) -> bool {
    exists|i: int|
        0 <= i < types.len() && (value_matches_string(inline_type, #[trigger] types[i])
            || value_matches_string(object_type, types[i]))
}

/// A relationship target: an inline entity, or the linked entity of an id.
pub open spec fn target_of(item: JsonV, linked: Seq<(Seq<char>, JsonV)>) -> Seq<JsonV> {
    match item {
        JsonV::Object(_) => seq![item],
        JsonV::Str(id) => opt_seq(lookup(linked, id)),
        _ => Seq::empty(),
    }
}

/// Entities a relationship points to, kept when they match the types.
pub open spec fn linked_targets(rel: JsonV, types: Seq<Seq<char>>, opts: OptionsV) -> Seq<JsonV> {
    if rel is Object {
        let targets = match rel.get("object"@) {
            Some(JsonV::Object(m)) => seq![JsonV::Object(m)],
            Some(JsonV::Str(id)) => opt_seq(lookup(opts.linked_entities, id)),
            Some(JsonV::Array(items)) => items.flat_map(
                |it: JsonV| target_of(it, opts.linked_entities),
            ),
            _ => Seq::empty(),
        };
        targets.filter(
            |t: JsonV|
                types.len() == 0 || entity_type_matches(
                    t.get("type"@),
                    rel.get("objectType"@),
                    types,
                ),
        )
    } else {
        Seq::empty()
    }
}

/// The instances of each node.
pub open spec fn instances_of(nodes: Seq<JsonV>) -> Seq<JsonV> {
    nodes.flat_map(|n: JsonV| expand_instances(n))
}

/// The relationship candidates among candidates.
pub open spec fn relationships_of(cs: Seq<JsonV>) -> Seq<JsonV> {
    cs.filter(|c: JsonV| is_relationship_kind(kind_of(c)))
}

/// The linked entities of each relationship.
pub open spec fn all_linked_targets(rels: Seq<JsonV>, types: Seq<Seq<char>>, opts: OptionsV) -> Seq<JsonV> {
    rels.flat_map(|c: JsonV| linked_targets(c, types, opts))
}

/// Candidate attribute instances that an attribute path resolves to.
pub open spec fn resolve(root: JsonV, attr: QueryAttributeV, opts: OptionsV) -> Seq<JsonV>
    decreases attr, 0int, 0int,
{
    match attr {
        QueryAttributeV::ValuePath { segments, .. } => instances_of(path_nodes(root, segments)),
        QueryAttributeV::LinkedEntity { relation, entity_types, attribute } => {
            let rels = relationships_of(instances_of(path_nodes(root, seq![relation])));
            resolve_all(all_linked_targets(rels, entity_types, opts), *attribute, opts)
        },
    }
}

/// Candidates of an attribute path in each of several roots, in order.
pub open spec fn resolve_all(roots: Seq<JsonV>, attr: QueryAttributeV, opts: OptionsV) -> Seq<JsonV>
    decreases attr, 1int, roots.len(),
{
    if roots.len() == 0 {
        Seq::empty()
    } else {
        resolve_all(roots.drop_last(), attr, opts) + resolve(roots.last(), attr, opts)
    }
}

/// The trailing selector of an attribute path.
pub open spec fn trailing_of(attr: QueryAttributeV) -> Option<TrailingPathV>
    decreases attr,
{
    match attr {
        QueryAttributeV::ValuePath { trailing_path, .. } => trailing_path,
        QueryAttributeV::LinkedEntity { attribute, .. } => trailing_of(*attribute),
    }
}

/// The root attribute name of a path, used for option lookups.
pub open spec fn root_name_of(attr: QueryAttributeV) -> Option<Seq<char>>
    decreases attr,
{
    match attr {
        QueryAttributeV::ValuePath { segments, .. } => if segments.len() > 0 {
            Some(segments[0])
        } else {
            None
        },
        QueryAttributeV::LinkedEntity { attribute, .. } => root_name_of(*attribute),
    }
}

/// Expands compacted terms (strings, and strings inside arrays) with the
/// context terms.
pub open spec fn expand_value(v: JsonV, terms: Seq<(Seq<char>, Seq<char>)>) -> JsonV
    decreases v,
{
    match v {
        JsonV::Str(t) => match lookup(terms, t) {
            Some(x) => JsonV::Str(x),
            None => v,
        },
        JsonV::Array(items) => JsonV::Array(
            Seq::new(
                items.len(),
                |i: int|
                    if 0 <= i < items.len() {
                        expand_value(items[i], terms)
                    } else {
                        JsonV::Null
                    },
            ),
        ),
        _ => v,
    }
}

/// Property values, from the JSON member or expanded when the options ask.
pub open spec fn coerce_property(c: JsonV, attr: QueryAttributeV, opts: OptionsV) -> Seq<JsonV> {
    match root_name_of(attr) {
        None => opt_seq(c.get("value"@)),
        Some(name) => if opts.json_keys.contains(name) && c.get("json"@) is Some {
            opt_seq(c.get("json"@))
        } else if opts.expand_values.contains(name) && c.get("value"@) is Some {
            seq![expand_value(c.get("value"@)->0, opts.context_terms)]
        } else {
            opt_seq(c.get("value"@))
        },
    }
}

/// Vocab values, expanded when the options ask.
pub open spec fn coerce_vocab(c: JsonV, attr: QueryAttributeV, opts: OptionsV) -> Seq<JsonV> {
    match c.get("vocab"@) {
        None => Seq::empty(),
        Some(vocab) => match root_name_of(attr) {
            None => seq![vocab],
            Some(name) => if opts.expand_values.contains(name) {
                seq![expand_value(vocab, opts.context_terms)]
            } else {
                seq![vocab]
            },
        },
    }
}

/// JSON property values: the `json` member when the options ask, else the
/// `value` member or, lacking it, the `json` member.
pub open spec fn coerce_json(c: JsonV, attr: QueryAttributeV, opts: OptionsV) -> Seq<JsonV> {
    match root_name_of(attr) {
        None => opt_seq(c.get("json"@)),
        Some(name) => if opts.json_keys.contains(name) {
            opt_seq(c.get("json"@))
        } else if c.get("value"@) is Some {
            opt_seq(c.get("value"@))
        } else {
            opt_seq(c.get("json"@))
        },
    }
}

/// An expected literal, treated as the attribute's values are.
pub open spec fn coerce_expected(attr: QueryAttributeV, v: JsonV, opts: OptionsV) -> JsonV {
    match root_name_of(attr) {
        None => v,
        Some(name) => if opts.json_keys.contains(name) {
            v
        } else if opts.expand_values.contains(name) {
            expand_value(v, opts.context_terms)
        } else {
            v
        },
    }
}

/// An array's items, or the value itself.
pub open spec fn flatten_value(v: JsonV) -> Seq<JsonV> {
    match v {
        JsonV::Array(items) => items,
        _ => seq![v],
    }
}

/// All values of a language map, arrays flattened.
pub open spec fn language_map_values(lm: Option<JsonV>) -> Seq<JsonV> {
    match lm {
        Some(JsonV::Object(entries)) => entries.flat_map(
            |e: (Seq<char>, JsonV)| flatten_value(e.1),
        ),
        _ => Seq::empty(),
    }
}

/// Target values of a candidate without a trailing selector.
pub open spec fn plain_targets(c: JsonV, attr: QueryAttributeV, opts: OptionsV) -> Seq<JsonV> {
    match kind_of(c) {
        AttributeKind::Raw => seq![c],
        AttributeKind::Property | AttributeKind::GeoProperty => coerce_property(c, attr, opts),
        AttributeKind::Relationship | AttributeKind::ListRelationship => opt_seq(c.get("object"@)),
        AttributeKind::LanguageProperty => language_map_values(c.get("languageMap"@)),
        AttributeKind::VocabProperty => coerce_vocab(c, attr, opts),
        AttributeKind::ListProperty => opt_seq(c.get("valueList"@)),
        AttributeKind::JsonProperty => coerce_json(c, attr, opts),
    }
}

/// Seeds from which a trailing member path is followed.
pub open spec fn seed_targets(c: JsonV, attr: QueryAttributeV, opts: OptionsV) -> Seq<JsonV> {
    match kind_of(c) {
        AttributeKind::LanguageProperty => opt_seq(c.get("languageMap"@)),
        _ => plain_targets(c, attr, opts),
    }
}

/// Values of a language map: all of them for `*`, else the one language.
pub open spec fn language_seeds(entries: Seq<(Seq<char>, JsonV)>, language: Seq<char>) -> Seq<JsonV> {
    if language == seq!['*'] {
        entries.map_values(|e: (Seq<char>, JsonV)| e.1)
    } else {
        opt_seq(JsonV::Object(entries).get(language))
    }
}

/// Target values of a candidate with a trailing selector.
pub open spec fn trailing_targets(c: JsonV, attr: QueryAttributeV, tp: TrailingPathV, opts: OptionsV) -> Seq<JsonV> {
    match (kind_of(c), tp) {
        (AttributeKind::LanguageProperty, TrailingPathV::AnyLanguage) => language_map_values(
            c.get("languageMap"@),
        ),
        (AttributeKind::LanguageProperty, TrailingPathV::Members(path)) => match c.get(
            "languageMap"@,
        ) {
            Some(JsonV::Object(entries)) => if path.len() == 0 {
                Seq::empty()
            } else {
                let seeds = language_seeds(entries, path[0]);
                let rest = path.skip(1);
                if rest.len() == 0 {
                    seeds.flat_map(|s: JsonV| flatten_value(s))
                } else {
                    seeds.flat_map(|s: JsonV| path_nodes(s, rest))
                }
            },
            _ => Seq::empty(),
        },
        (_, TrailingPathV::AnyLanguage) => Seq::empty(),
        (_, TrailingPathV::Members(path)) => seed_targets(c, attr, opts).flat_map(
            |s: JsonV| path_nodes(s, path),
        ),
    }
}

/// Target values of a candidate for an attribute path.
pub open spec fn targets(c: JsonV, attr: QueryAttributeV, opts: OptionsV) -> Seq<JsonV> {
    match trailing_of(attr) {
        Some(tp) => trailing_targets(c, attr, tp, opts),
        None => plain_targets(c, attr, opts),
    }
}

/// Equality of two numbers: their binary64 values are equal.
pub open spec fn numbers_equal(a: Seq<char>, b: Seq<char>) -> bool {
    match (decimal_bits(a), decimal_bits(b)) {
        (Some(x), Some(y)) => number_key(x) == number_key(y),
        (None, None) => true,
        _ => false,
    }
}

/// Equality of the query language: numbers by value, strings and booleans
/// by value, arrays and objects as whole JSON values (objects as maps);
/// nothing else is equal.
pub open spec fn values_equal(l: JsonV, r: JsonV) -> bool {
    match (l, r) {
        (JsonV::Number(a), JsonV::Number(b)) => numbers_equal(a, b),
        (JsonV::Str(a), JsonV::Str(b)) => a == b,
        (JsonV::Bool(a), JsonV::Bool(b)) => a == b,
        (JsonV::Array(_), JsonV::Array(_)) => json_same(l, r),
        (JsonV::Object(_), JsonV::Object(_)) => json_same(l, r),
        _ => false,
    }
}

/// A target equals the expected value, or is an array with an item equal
/// to it.
pub open spec fn eq_value(target: JsonV, expected: JsonV) -> bool {
    ||| values_equal(target, expected)
    ||| match target {
        JsonV::Array(items) => exists|i: int| 0 <= i < items.len() && values_equal(#[trigger] items[i], expected),
        _ => false,
    }
}

/// A value reduced for ordering.
pub enum ScalarV {
    Number(u64),
    Bool(bool),
    DateTime(i64, u32),
    Date(i32),
    Time(u32, u32),
    Text(Seq<char>),
}

/// The ordering form of a value: numbers, booleans, and strings read as a
/// timestamp, a date, a time (with or without fraction) or else as text.
pub open spec fn scalar_of(v: JsonV) -> Option<ScalarV> {
    match v {
        JsonV::Number(t) => match decimal_bits(t) {
            Some(b) => Some(ScalarV::Number(b)),
            None => None,
        },
        JsonV::Bool(b) => Some(ScalarV::Bool(b)),
        JsonV::Str(t) => match crate::time::rfc3339_instant(t) {
            Some((s, n)) => Some(ScalarV::DateTime(s, n)),
            None => match crate::time::calendar_date(t, "%Y-%m-%d"@) {
                Some(d) => Some(ScalarV::Date(d)),
                None => match crate::time::clock_time(t, "%H:%M:%S"@) {
                    Some((s, n)) => Some(ScalarV::Time(s as u32, n as u32)),
                    None => match crate::time::clock_time(t, "%H:%M:%S%.f"@) {
                        Some((s, n)) => Some(ScalarV::Time(s as u32, n as u32)),
                        None => Some(ScalarV::Text(t)),
                    },
                },
            },
        },
        _ => None,
    }
}

/// Three-way comparison of integers: -1, 0 or 1.
pub open spec fn order_int(a: int, b: int) -> int {
    if a < b {
        -1
    } else if a == b {
        0
    } else {
        1
    }
}

/// Three-way comparison of pairs, first component first.
pub open spec fn order_pair(a: int, b: int, c: int, d: int) -> int {
    if order_int(a, c) != 0 {
        order_int(a, c)
    } else {
        order_int(b, d)
    }
}

/// Three-way lexicographic comparison of texts by character code.
pub open spec fn text_order(a: Seq<char>, b: Seq<char>) -> int
    decreases a.len(),
{
    if a.len() == 0 {
        if b.len() == 0 {
            0
        } else {
            -1
        }
    } else if b.len() == 0 {
        1
    } else if (a[0] as u32) != (b[0] as u32) {
        order_int(a[0] as u32 as int, b[0] as u32 as int)
    } else {
        text_order(a.drop_first(), b.drop_first())
    }
}

/// Comparison of two values of the same ordering form; `None` when their
/// forms differ or one has none.
pub open spec fn compare_values(l: JsonV, r: JsonV) -> Option<int> {
    match (scalar_of(l), scalar_of(r)) {
        (Some(ScalarV::Number(a)), Some(ScalarV::Number(b))) => Some(compare_bits(a, b)),
        (Some(ScalarV::Bool(a)), Some(ScalarV::Bool(b))) => Some(
            order_int(if a { 1int } else { 0int }, if b { 1int } else { 0int }),
        ),
        (Some(ScalarV::DateTime(s1, n1)), Some(ScalarV::DateTime(s2, n2))) => Some(
            order_pair(s1 as int, n1 as int, s2 as int, n2 as int),
        ),
        (Some(ScalarV::Date(a)), Some(ScalarV::Date(b))) => Some(order_int(a as int, b as int)),
        (Some(ScalarV::Time(s1, n1)), Some(ScalarV::Time(s2, n2))) => Some(
            order_pair(s1 as int, n1 as int, s2 as int, n2 as int),
        ),
        (Some(ScalarV::Text(a)), Some(ScalarV::Text(b))) => Some(text_order(a, b)),
        _ => None,
    }
}

/// A target lies within inclusive bounds, or is an array with an item
/// that does.
pub open spec fn range_contains(target: JsonV, lower: JsonV, upper: JsonV) -> bool
    decreases target,
{
    (match compare_values(target, lower) {
        Some(c) => c >= 0,
        None => false,
    } && match compare_values(target, upper) {
        Some(c) => c <= 0,
        None => false,
    }) || match target {
        JsonV::Array(items) => exists|i: int|
            0 <= i < items.len() && range_contains(#[trigger] items[i], lower, upper),
        _ => false,
    }
}

/// Equality, list membership or range test of one candidate.
pub open spec fn equality_matches(c: JsonV, attr: QueryAttributeV, op: EqualityOperandV, opts: OptionsV) -> bool {
    let ts = targets(c, attr, opts);
    match op {
        EqualityOperandV::Single(e) => {
            let x = coerce_expected(attr, e, opts);
            exists|i: int| 0 <= i < ts.len() && eq_value(#[trigger] ts[i], x)
        },
        EqualityOperandV::List(es) => exists|i: int, j: int|
            0 <= i < ts.len() && 0 <= j < es.len() && eq_value(
                #[trigger] ts[i],
                coerce_expected(attr, #[trigger] es[j], opts),
            ),
        EqualityOperandV::Range(lo, hi) => {
            let l = coerce_expected(attr, lo, opts);
            let u = coerce_expected(attr, hi, opts);
            exists|i: int| 0 <= i < ts.len() && range_contains(#[trigger] ts[i], l, u)
        },
    }
}

/// Whether a comparison outcome satisfies an ordering operator
/// (`Gt`, `Gte`, `Lt`, `Lte` as 0, 1, 2, 3).
pub open spec fn order_accepts(op: int, c: int) -> bool {
    if op == 0 {
        c > 0
    } else if op == 1 {
        c >= 0
    } else if op == 2 {
        c < 0
    } else {
        c <= 0
    }
}

/// Some non-relationship candidate has a (flattened) target that compares
/// to the expected value as the operator asks.
pub open spec fn compare_matches(root: JsonV, attr: QueryAttributeV, expected: JsonV, op: int, opts: OptionsV) -> bool {
    let x = coerce_expected(attr, expected, opts);
    let cs = resolve(root, attr, opts);
    exists|i: int|
        0 <= i < cs.len() && !is_relationship_kind(kind_of(#[trigger] cs[i])) && {
            let ts = targets(cs[i], attr, opts).flat_map(|t: JsonV| flatten_value(t));
            exists|j: int|
                0 <= j < ts.len() && match compare_values(#[trigger] ts[j], x) {
                    Some(c) => order_accepts(op, c),
                    None => false,
                }
        }
}

/// A target string, or a string item of a target array, matches.
pub open spec fn target_finds(t: JsonV, p: Seq<char>) -> bool {
    match t {
        JsonV::Str(text) => regex_finds(p, text),
        JsonV::Array(items) => exists|i: int|
            0 <= i < items.len() && (#[trigger] items[i] matches JsonV::Str(text) && regex_finds(p, text)),
        _ => false,
    }
}

/// A target string fails to match, or a target array of strings has no
/// item that matches; anything else does not count as failing.
pub open spec fn target_misses(t: JsonV, p: Seq<char>) -> bool {
    match t {
        JsonV::Str(text) => !regex_finds(p, text),
        JsonV::Array(items) => (forall|i: int| 0 <= i < items.len() ==> (#[trigger] items[i]) is Str)
            && forall|i: int|
            0 <= i < items.len() ==> !regex_finds(p, #[trigger] items[i]->Str_0),
        _ => false,
    }
}

/// Some candidate satisfies an equality operand.
pub open spec fn eq_holds(root: JsonV, a: QueryAttributeV, op: EqualityOperandV, opts: OptionsV) -> bool {
    let cs = resolve(root, a, opts);
    exists|i: int| 0 <= i < cs.len() && equality_matches(#[trigger] cs[i], a, op, opts)
}

/// There are candidates and none satisfies an equality operand.
pub open spec fn neq_holds(root: JsonV, a: QueryAttributeV, op: EqualityOperandV, opts: OptionsV) -> bool {
    let cs = resolve(root, a, opts);
    cs.len() > 0 && forall|i: int| 0 <= i < cs.len() ==> !equality_matches(#[trigger] cs[i], a, op, opts)
}

/// Some target of a candidate matches the pattern.
pub open spec fn candidate_finds(c: JsonV, a: QueryAttributeV, p: Seq<char>, opts: OptionsV) -> bool {
    let ts = targets(c, a, opts);
    exists|j: int| 0 <= j < ts.len() && target_finds(#[trigger] ts[j], p)
}

/// A candidate has targets and each of them misses the pattern.
pub open spec fn candidate_misses(c: JsonV, a: QueryAttributeV, p: Seq<char>, opts: OptionsV) -> bool {
    let ts = targets(c, a, opts);
    ts.len() > 0 && forall|j: int| 0 <= j < ts.len() ==> target_misses(#[trigger] ts[j], p)
}

/// The pattern compiles and some candidate matches it.
pub open spec fn pattern_holds(root: JsonV, a: QueryAttributeV, p: Seq<char>, opts: OptionsV) -> bool {
    let cs = resolve(root, a, opts);
    regex_compiles(p) && exists|i: int| 0 <= i < cs.len() && candidate_finds(#[trigger] cs[i], a, p, opts)
}

/// The pattern compiles, there are candidates, and each misses it.
pub open spec fn not_pattern_holds(root: JsonV, a: QueryAttributeV, p: Seq<char>, opts: OptionsV) -> bool {
    let cs = resolve(root, a, opts);
    regex_compiles(p) && cs.len() > 0 && forall|i: int|
        0 <= i < cs.len() ==> candidate_misses(#[trigger] cs[i], a, p, opts)
}

/// Whether an expression holds of an entity.
pub open spec fn q_matches(e: QExpressionV, root: JsonV, opts: OptionsV) -> bool
    decreases e,
{
    match e {
        QExpressionV::Exists(a) => resolve(root, a, opts).len() > 0,
        QExpressionV::Eq(a, op) => eq_holds(root, a, op, opts),
        QExpressionV::Neq(a, op) => neq_holds(root, a, op, opts),
        QExpressionV::Gt(a, v) => compare_matches(root, a, v, 0, opts),
        QExpressionV::Gte(a, v) => compare_matches(root, a, v, 1, opts),
        QExpressionV::Lt(a, v) => compare_matches(root, a, v, 2, opts),
        QExpressionV::Lte(a, v) => compare_matches(root, a, v, 3, opts),
        QExpressionV::Pattern(a, p) => pattern_holds(root, a, p, opts),
        QExpressionV::NotPattern(a, p) => not_pattern_holds(root, a, p, opts),
        QExpressionV::And(parts) => forall|i: int| 0 <= i < parts.len() ==> q_matches(#[trigger] parts[i], root, opts),
        QExpressionV::Or(parts) => exists|i: int| 0 <= i < parts.len() && q_matches(#[trigger] parts[i], root, opts),
    }
}

/// A flat map over one more element.
pub proof fn lemma_flat_map_take<A, B>(s: Seq<A>, f: spec_fn(A) -> Seq<B>, i: int)
    requires
        0 <= i < s.len(),
    ensures
        s.take(i + 1).flat_map(f) == s.take(i).flat_map(f) + f(s[i]),
{
    assert(s.take(i + 1).map_values(f) =~= s.take(i).map_values(f).push(f(s[i])));
    s.take(i).map_values(f).lemma_flatten_push(f(s[i]));
}

/// Views after a push.
pub proof fn lemma_views_push(before: Seq<Json>, c: Json)
    ensures
        json_views(before.push(c)) == json_views(before).push(c@),
{
    assert(json_views(before.push(c)) =~= json_views(before).push(c@));
}

/// Appends values to a vector.
fn append_json(out: &mut Vec<Json>, part: Vec<Json>)
    ensures
        json_views(final(out)@) == json_views(old(out)@) + json_views(part@),
{
    let ghost a = out@;
    let mut p = part;
    let ghost b = p@;
    out.append(&mut p);
    assert(json_views(out@) =~= json_views(a) + json_views(b));
}

/// The value of a linked entity id.
fn lookup_linked<'a>(pairs: &'a Vec<(String, Json)>, key: &Vec<char>) -> (r: Option<&'a Json>)
    ensures
        match r {
            Some(v) => lookup(pairs@.map_values(|p: (String, Json)| (p.0@, p.1@)), key@) == Some(v@),
            None => lookup(pairs@.map_values(|p: (String, Json)| (p.0@, p.1@)), key@) is None,
        },
{
    let ghost pv = pairs@.map_values(|p: (String, Json)| (p.0@, p.1@));
    let mut i: usize = 0;
    assert(pv.skip(0) =~= pv);
    while i < pairs.len()
        invariant
            i <= pairs.len(),
            pv == pairs@.map_values(|p: (String, Json)| (p.0@, p.1@)),
            lookup(pv, key@) == lookup(pv.skip(i as int), key@),
        decreases pairs.len() - i,
    {
        let k = chars_of(pairs[i].0.as_str());
        assert(pv.skip(i as int)[0] == pv[i as int]);
        assert(pv.skip(i as int).drop_first() =~= pv.skip(i + 1));
        if chars_eq(&k, key) {
            return Some(&pairs[i].1);
        }
        i += 1;
    }
    None
}

/// The expansion of a context term.
fn lookup_term<'a>(pairs: &'a Vec<(String, String)>, key: &Vec<char>) -> (r: Option<&'a String>)
    ensures
        match r {
            Some(v) => lookup(pairs@.map_values(|p: (String, String)| (p.0@, p.1@)), key@) == Some(v@),
            None => lookup(pairs@.map_values(|p: (String, String)| (p.0@, p.1@)), key@) is None,
        },
{
    let ghost pv = pairs@.map_values(|p: (String, String)| (p.0@, p.1@));
    let mut i: usize = 0;
    assert(pv.skip(0) =~= pv);
    while i < pairs.len()
        invariant
            i <= pairs.len(),
            pv == pairs@.map_values(|p: (String, String)| (p.0@, p.1@)),
            lookup(pv, key@) == lookup(pv.skip(i as int), key@),
        decreases pairs.len() - i,
    {
        let k = chars_of(pairs[i].0.as_str());
        assert(pv.skip(i as int)[0] == pv[i as int]);
        assert(pv.skip(i as int).drop_first() =~= pv.skip(i + 1));
        if chars_eq(&k, key) {
            return Some(&pairs[i].1);
        }
        i += 1;
    }
    None
}

/// Membership of a name in a list of names.
fn contains_name(list: &Vec<String>, name: &Vec<char>) -> (r: bool)
    ensures
        r == views(list@).contains(name@),
{
    let mut i: usize = 0;
    while i < list.len()
        invariant
            i <= list.len(),
            forall|k: int| 0 <= k < i ==> views(list@)[k] != name@,
        decreases list.len() - i,
    {
        let k = chars_of(list[i].as_str());
        assert(views(list@)[i as int] == list@[i as int]@);
        if chars_eq(&k, name) {
            assert(views(list@)[i as int] == name@);
            return true;
        }
        i += 1;
    }
    false
}

/// An optional reference as a vector of at most one copy.
fn opt_vec(v: Option<&Json>) -> (r: Vec<Json>)
    ensures
        json_views(r@) == opt_seq(match v {
            Some(x) => Some(x@),
            None => None,
        }),
{
    let mut r: Vec<Json> = Vec::new();
    match v {
        Some(x) => {
            r.push(clone_json(x));
            assert(json_views(r@) =~= seq![x@]);
        },
        None => {
            assert(json_views(r@) =~= Seq::<JsonV>::empty());
        },
    }
    r
}

/// Member `key` of each object item of an array.
fn object_members_exec(items: &Vec<Json>, key: &str) -> (r: Vec<Json>)
    ensures
        json_views(r@) == object_members(json_views(items@), key@),
{
    let ghost sv = json_views(items@);
    let ghost f = |item: JsonV|
        if item is Object {
            opt_seq(item.get(key@))
        } else {
            Seq::empty()
        };
    let mut out: Vec<Json> = Vec::new();
    let mut i: usize = 0;
    assert(sv.take(0).flat_map(f) =~= Seq::<JsonV>::empty());
    while i < items.len()
        invariant
            i <= items.len(),
            sv == json_views(items@),
            f == (|item: JsonV|
                if item is Object {
                    opt_seq(item.get(key@))
                } else {
                    Seq::empty()
                }),
            json_views(out@) == sv.take(i as int).flat_map(f),
        decreases items.len() - i,
    {
        proof {
            lemma_flat_map_take(sv, f, i as int);
        }
        assert(sv[i as int] == items@[i as int]@);
        let part = if items[i].is_object() {
            opt_vec(items[i].get_member(key))
        } else {
            let e: Vec<Json> = Vec::new();
            assert(json_views(e@) =~= Seq::<JsonV>::empty());
            e
        };
        append_json(&mut out, part);
        i += 1;
    }
    assert(sv.take(items.len() as int) =~= sv);
    out
}

/// Member `key` of a node.
fn member_of_node_exec(node: &Json, key: &str) -> (r: Vec<Json>)
    ensures
        json_views(r@) == member_of_node(node@, key@),
{
    match node {
        Json::Object(_) => opt_vec(node.get_member(key)),
        Json::Array(items) => {
            proof {
                lemma_array_view(*items);
            }
            object_members_exec(items, key)
        },
        _ => {
            let e: Vec<Json> = Vec::new();
            assert(json_views(e@) =~= Seq::<JsonV>::empty());
            e
        },
    }
}

/// Member `key` of each node.
fn members_of_nodes_exec(nodes: &Vec<Json>, key: &str) -> (r: Vec<Json>)
    ensures
        json_views(r@) == members_of_nodes(json_views(nodes@), key@),
{
    let ghost sv = json_views(nodes@);
    let ghost f = |n: JsonV| member_of_node(n, key@);
    let mut out: Vec<Json> = Vec::new();
    let mut i: usize = 0;
    assert(sv.take(0).flat_map(f) =~= Seq::<JsonV>::empty());
    while i < nodes.len()
        invariant
            i <= nodes.len(),
            sv == json_views(nodes@),
            f == (|n: JsonV| member_of_node(n, key@)),
            json_views(out@) == sv.take(i as int).flat_map(f),
        decreases nodes.len() - i,
    {
        proof {
            lemma_flat_map_take(sv, f, i as int);
        }
        assert(sv[i as int] == nodes@[i as int]@);
        let part = member_of_node_exec(&nodes[i], key);
        append_json(&mut out, part);
        i += 1;
    }
    assert(sv.take(nodes.len() as int) =~= sv);
    out
}

/// Walks object and array nodes across dotted path segments.
pub fn resolve_path_nodes(root: &Json, segments: &Vec<String>) -> (r: Vec<Json>)
    ensures
        json_views(r@) == path_nodes(root@, views(segments@)),
{
    let ghost pv = views(segments@);
    let mut cur: Vec<Json> = Vec::new();
    cur.push(clone_json(root));
    assert(json_views(cur@) =~= seq![root@]);
    assert(pv.take(0) =~= Seq::<Seq<char>>::empty());
    let mut i: usize = 0;
    while i < segments.len()
        invariant
            i <= segments.len(),
            pv == views(segments@),
            json_views(cur@) == path_nodes(root@, pv.take(i as int)),
        decreases segments.len() - i,
    {
        assert(pv.take(i + 1).drop_last() =~= pv.take(i as int));
        assert(pv.take(i + 1).last() == segments@[i as int]@);
        let next = members_of_nodes_exec(&cur, segments[i].as_str());
        cur = next;
        i += 1;
    }
    assert(pv.take(segments.len() as int) =~= pv);
    cur
}

/// Splits multi-instance attributes into per-instance values.
fn expand_attribute_instances(value: &Json) -> (r: Vec<Json>)
    ensures
        json_views(r@) == expand_instances(value@),
{
    match value {
        Json::Array(items) => {
            proof {
                lemma_array_view(*items);
            }
            let ghost sv = json_views(items@);
            let mut all = true;
            let mut i: usize = 0;
            while i < items.len()
                invariant
                    i <= items.len(),
                    sv == json_views(items@),
                    all == forall|k: int| 0 <= k < i ==> (#[trigger] sv[k]) is Object && sv[k].get("type"@) is Some,
                decreases items.len() - i,
            {
                assert(sv[i as int] == items@[i as int]@);
                let ok = items[i].is_object() && items[i].get_member("type").is_some();
                if !ok {
                    all = false;
                }
                i += 1;
            }
            if all {
                let mut out: Vec<Json> = Vec::new();
                let mut j: usize = 0;
                while j < items.len()
                    invariant
                        j <= items.len(),
                        sv == json_views(items@),
                        json_views(out@) == sv.take(j as int),
                    decreases items.len() - j,
                {
                    let c = clone_json(&items[j]);
                    let ghost before = out@;
                    out.push(c);
                    assert(sv[j as int] == items@[j as int]@);
                    assert(out@ == before.push(c));
                    assert(json_views(out@) =~= json_views(before).push(c@));
                    assert(sv.take(j + 1) =~= sv.take(j as int).push(sv[j as int]));
                    j += 1;
                }
                assert(sv.take(items.len() as int) =~= sv);
                out
            } else {
                let mut out: Vec<Json> = Vec::new();
                out.push(clone_json(value));
                assert(json_views(out@) =~= seq![value@]);
                out
            }
        },
        _ => {
            let mut out: Vec<Json> = Vec::new();
            out.push(clone_json(value));
            assert(json_views(out@) =~= seq![value@]);
            out
        },
    }
}

/// The instances of each node.
fn instances_exec(nodes: &Vec<Json>) -> (r: Vec<Json>)
    ensures
        json_views(r@) == instances_of(json_views(nodes@)),
{
    let ghost sv = json_views(nodes@);
    let ghost f = |n: JsonV| expand_instances(n);
    let mut out: Vec<Json> = Vec::new();
    let mut i: usize = 0;
    assert(sv.take(0).flat_map(f) =~= Seq::<JsonV>::empty());
    while i < nodes.len()
        invariant
            i <= nodes.len(),
            sv == json_views(nodes@),
            f == (|n: JsonV| expand_instances(n)),
            json_views(out@) == sv.take(i as int).flat_map(f),
        decreases nodes.len() - i,
    {
        proof {
            lemma_flat_map_take(sv, f, i as int);
        }
        assert(sv[i as int] == nodes@[i as int]@);
        let part = expand_attribute_instances(&nodes[i]);
        append_json(&mut out, part);
        i += 1;
    }
    assert(sv.take(nodes.len() as int) =~= sv);
    out
}

/// Filtering one more element.
pub proof fn lemma_filter_take<A>(s: Seq<A>, pred: spec_fn(A) -> bool, i: int)
    requires
        0 <= i < s.len(),
    ensures
        s.take(i + 1).filter(pred) == if pred(s[i]) {
            s.take(i).filter(pred).push(s[i])
        } else {
            s.take(i).filter(pred)
        },
{
    assert(s.take(i + 1) =~= s.take(i).push(s[i]));
    s.take(i).lemma_filter_push(s[i], pred);
}

/// Classifies NGSI-LD attribute representation from payload shape.
pub fn attribute_kind(value: &Json) -> (r: AttributeKind)
    ensures
        r == kind_of(value@),
{
    match value.get_member("type") {
        Some(Json::Str(t)) => {
            let ts = t.as_str();
            if crate::text::str_eq(ts, "Property") {
                AttributeKind::Property
            } else if crate::text::str_eq(ts, "GeoProperty") {
                AttributeKind::GeoProperty
            } else if crate::text::str_eq(ts, "Relationship") {
                AttributeKind::Relationship
            } else if crate::text::str_eq(ts, "ListRelationship") {
                AttributeKind::ListRelationship
            } else if crate::text::str_eq(ts, "LanguageProperty") {
                AttributeKind::LanguageProperty
            } else if crate::text::str_eq(ts, "VocabProperty") {
                AttributeKind::VocabProperty
            } else if crate::text::str_eq(ts, "ListProperty") {
                AttributeKind::ListProperty
            } else if crate::text::str_eq(ts, "JsonProperty") {
                AttributeKind::JsonProperty
            } else {
                AttributeKind::Raw
            }
        },
        _ => AttributeKind::Raw,
    }
}

/// Reports whether attribute kind stores relationship targets.
pub fn relationship_like(kind: &AttributeKind) -> (r: bool)
    ensures
        r == is_relationship_kind(*kind),
{
    match kind {
        AttributeKind::Relationship | AttributeKind::ListRelationship => true,
        _ => false,
    }
}

/// Matches string or string-array value against expected text.
fn value_matches_string_exec(value: Option<&Json>, expected: &Vec<char>) -> (r: bool)
    ensures
        r == value_matches_string(
            match value {
                Some(v) => Some(v@),
                None => None,
            },
            expected@,
        ),
{
    match value {
        Some(Json::Str(a)) => {
            let ac = chars_of(a.as_str());
            chars_eq(&ac, expected)
        },
        Some(Json::Array(items)) => {
            proof {
                lemma_array_view(*items);
            }
            let ghost sv = json_views(items@);
            let mut i: usize = 0;
            while i < items.len()
                invariant
                    i <= items.len(),
                    sv == json_views(items@),
                    match value {
                        Some(v) => v@ == JsonV::Array(sv),
                        None => false,
                    },
                    forall|k: int| 0 <= k < i ==> #[trigger] sv[k] != JsonV::Str(expected@),
                decreases items.len() - i,
            {
                assert(sv[i as int] == items@[i as int]@);
                match &items[i] {
                    Json::Str(t) => {
                        let tc = chars_of(t.as_str());
                        if chars_eq(&tc, expected) {
                            assert(sv[i as int] == JsonV::Str(expected@));
                            return true;
                        }
                    },
                    _ => {},
                }
                i += 1;
            }
            false
        },
        _ => false,
    }
}

/// Checks whether linked entity type matches requested type filters.
fn entity_type_matches_exec(inline_type: Option<&Json>, object_type: Option<&Json>, types: &Vec<String>) -> (r: bool)
    ensures
        r == entity_type_matches(
            match inline_type {
                Some(v) => Some(v@),
                None => None,
            },
            match object_type {
                Some(v) => Some(v@),
                None => None,
            },
            views(types@),
        ),
{
    let ghost tv = views(types@);
    let mut i: usize = 0;
    while i < types.len()
        invariant
            i <= types.len(),
            tv == views(types@),
            forall|k: int|
                0 <= k < i ==> !(value_matches_string(
                    match inline_type {
                        Some(v) => Some(v@),
                        None => None,
                    },
                    #[trigger] tv[k],
                ) || value_matches_string(
                    match object_type {
                        Some(v) => Some(v@),
                        None => None,
                    },
                    tv[k],
                )),
        decreases types.len() - i,
    {
        let t = chars_of(types[i].as_str());
        assert(tv[i as int] == t@);
        if value_matches_string_exec(inline_type, &t) || value_matches_string_exec(object_type, &t) {
            return true;
        }
        i += 1;
    }
    false
}

/// Targets of one item of a relationship's `object` array.
fn target_of_exec(item: &Json, opts: &QueryMatchOptions) -> (r: Vec<Json>)
    ensures
        json_views(r@) == target_of(item@, opts@.linked_entities),
{
    match item {
        Json::Object(_) => {
            let mut r: Vec<Json> = Vec::new();
            r.push(clone_json(item));
            assert(json_views(r@) =~= seq![item@]);
            r
        },
        Json::Str(id) => {
            let k = chars_of(id.as_str());
            opt_vec(lookup_linked(&opts.linked_entities, &k))
        },
        _ => {
            let e: Vec<Json> = Vec::new();
            assert(json_views(e@) =~= Seq::<JsonV>::empty());
            e
        },
    }
}

/// Resolves relationship targets into linked entity payloads.
fn linked_entity_targets(relationship: &Json, entity_types: &Vec<String>, opts: &QueryMatchOptions) -> (r: Vec<Json>)
    ensures
        json_views(r@) == linked_targets(relationship@, views(entity_types@), opts@),
{
    if !relationship.is_object() {
        let e: Vec<Json> = Vec::new();
        assert(json_views(e@) =~= Seq::<JsonV>::empty());
        return e;
    }
    let targets: Vec<Json> = match relationship.get_member("object") {
        Some(Json::Object(m)) => {
            let mut r: Vec<Json> = Vec::new();
            r.push(clone_json(relationship.get_member("object").unwrap()));
            assert(json_views(r@) =~= seq![relationship@.get("object"@)->0]);
            r
        },
        Some(Json::Str(id)) => {
            let k = chars_of(id.as_str());
            opt_vec(lookup_linked(&opts.linked_entities, &k))
        },
        Some(Json::Array(items)) => {
            proof {
                lemma_array_view(*items);
            }
            let ghost sv = json_views(items@);
            let ghost f = |it: JsonV| target_of(it, opts@.linked_entities);
            let mut out: Vec<Json> = Vec::new();
            let mut i: usize = 0;
            assert(sv.take(0).flat_map(f) =~= Seq::<JsonV>::empty());
            while i < items.len()
                invariant
                    i <= items.len(),
                    sv == json_views(items@),
                    f == (|it: JsonV| target_of(it, opts@.linked_entities)),
                    json_views(out@) == sv.take(i as int).flat_map(f),
                decreases items.len() - i,
            {
                proof {
                    lemma_flat_map_take(sv, f, i as int);
                }
                assert(sv[i as int] == items@[i as int]@);
                let part = target_of_exec(&items[i], opts);
                append_json(&mut out, part);
                i += 1;
            }
            assert(sv.take(items.len() as int) =~= sv);
            out
        },
        _ => {
            let e: Vec<Json> = Vec::new();
            assert(json_views(e@) =~= Seq::<JsonV>::empty());
            e
        },
    };
    let ghost tv = json_views(targets@);
    let ghost types_v = views(entity_types@);
    let ghost rel_v = relationship@;
    let ghost pred = |t: JsonV|
        types_v.len() == 0 || entity_type_matches(t.get("type"@), rel_v.get("objectType"@), types_v);
    let mut out: Vec<Json> = Vec::new();
    let mut i: usize = 0;
    assert(tv.take(0).filter(pred) =~= Seq::<JsonV>::empty()) by {
        reveal(Seq::filter);
    }
    while i < targets.len()
        invariant
            i <= targets.len(),
            tv == json_views(targets@),
            types_v == views(entity_types@),
            rel_v == relationship@,
            pred == (|t: JsonV|
                types_v.len() == 0 || entity_type_matches(t.get("type"@), rel_v.get("objectType"@), types_v)),
            json_views(out@) == tv.take(i as int).filter(pred),
        decreases targets.len() - i,
    {
        proof {
            lemma_filter_take(tv, pred, i as int);
        }
        assert(tv[i as int] == targets@[i as int]@);
        let keep = entity_types.len() == 0 || entity_type_matches_exec(
            targets[i].get_member("type"),
            relationship.get_member("objectType"),
            entity_types,
        );
        if keep {
            let c = clone_json(&targets[i]);
            let ghost before = out@;
            out.push(c);
            assert(json_views(out@) =~= json_views(before).push(c@));
        }
        i += 1;
    }
    assert(tv.take(targets.len() as int) =~= tv);
    out
}

/// The relationship candidates among candidates.
fn relationships_exec(cs: &Vec<Json>) -> (r: Vec<Json>)
    ensures
        json_views(r@) == relationships_of(json_views(cs@)),
{
    let ghost cv = json_views(cs@);
    let ghost pred = |c: JsonV| is_relationship_kind(kind_of(c));
    let mut out: Vec<Json> = Vec::new();
    let mut i: usize = 0;
    assert(cv.take(0).filter(pred) =~= Seq::<JsonV>::empty()) by {
        reveal(Seq::filter);
    }
    while i < cs.len()
        invariant
            i <= cs.len(),
            cv == json_views(cs@),
            pred == (|c: JsonV| is_relationship_kind(kind_of(c))),
            json_views(out@) == cv.take(i as int).filter(pred),
        decreases cs.len() - i,
    {
        proof {
            lemma_filter_take(cv, pred, i as int);
        }
        assert(cv[i as int] == cs@[i as int]@);
        let k = attribute_kind(&cs[i]);
        if relationship_like(&k) {
            let c = clone_json(&cs[i]);
            let ghost before = out@;
            out.push(c);
            assert(json_views(out@) =~= json_views(before).push(c@));
        }
        i += 1;
    }
    assert(cv.take(cs.len() as int) =~= cv);
    out
}

/// The linked entities of each relationship.
fn all_linked_targets_exec(rels: &Vec<Json>, entity_types: &Vec<String>, opts: &QueryMatchOptions) -> (r: Vec<Json>)
    ensures
        json_views(r@) == all_linked_targets(json_views(rels@), views(entity_types@), opts@),
{
    let ghost sv = json_views(rels@);
    let ghost f = |c: JsonV| linked_targets(c, views(entity_types@), opts@);
    let mut out: Vec<Json> = Vec::new();
    let mut i: usize = 0;
    assert(sv.take(0).flat_map(f) =~= Seq::<JsonV>::empty());
    while i < rels.len()
        invariant
            i <= rels.len(),
            sv == json_views(rels@),
            f == (|c: JsonV| linked_targets(c, views(entity_types@), opts@)),
            json_views(out@) == sv.take(i as int).flat_map(f),
        decreases rels.len() - i,
    {
        proof {
            lemma_flat_map_take(sv, f, i as int);
        }
        assert(sv[i as int] == rels@[i as int]@);
        let part = linked_entity_targets(&rels[i], entity_types, opts);
        append_json(&mut out, part);
        i += 1;
    }
    assert(sv.take(rels.len() as int) =~= sv);
    out
}

/// Resolves attribute path to candidate values from root entity payload.
pub fn resolve_query_attribute(root: &Json, attribute: &QueryAttribute, options: &QueryMatchOptions) -> (r: Vec<Json>)
    ensures
        json_views(r@) == resolve(root@, attribute@, options@),
    decreases attribute, 0int, 0int,
{
    match attribute {
        QueryAttribute::ValuePath { segments, .. } => {
            let nodes = resolve_path_nodes(root, segments);
            instances_exec(&nodes)
        },
        QueryAttribute::LinkedEntity { relation, entity_types, attribute: inner } => {
            let mut path: Vec<String> = Vec::new();
            path.push(relation.clone());
            assert(views(path@) =~= seq![relation@]);
            let nodes = resolve_path_nodes(root, &path);
            let inst = instances_exec(&nodes);
            let rels = relationships_exec(&inst);
            let linked = all_linked_targets_exec(&rels, entity_types, options);
            resolve_all_exec(&linked, inner, options)
        },
    }
}

/// Candidates of an attribute path in each of several roots, in order.
fn resolve_all_exec(roots: &Vec<Json>, attribute: &QueryAttribute, options: &QueryMatchOptions) -> (r: Vec<Json>)
    ensures
        json_views(r@) == resolve_all(json_views(roots@), attribute@, options@),
    decreases attribute, 1int, roots.len(),
{
    let ghost rv = json_views(roots@);
    let mut out: Vec<Json> = Vec::new();
    let mut i: usize = 0;
    assert(rv.take(0) =~= Seq::<JsonV>::empty());
    assert(json_views(out@) =~= Seq::<JsonV>::empty());
    while i < roots.len()
        invariant
            i <= roots.len(),
            rv == json_views(roots@),
            json_views(out@) == resolve_all(rv.take(i as int), attribute@, options@),
        decreases roots.len() - i,
    {
        assert(rv.take(i + 1).drop_last() =~= rv.take(i as int));
        assert(rv.take(i + 1).last() == roots@[i as int]@);
        let part = resolve_query_attribute(&roots[i], attribute, options);
        append_json(&mut out, part);
        i += 1;
    }
    assert(rv.take(roots.len() as int) =~= rv);
    out
}

impl QueryAttribute {
    /// Returns trailing member selector associated with attribute.
    pub fn trailing_path(&self) -> (r: Option<&TrailingPath>)
        ensures
            match r {
                Some(t) => trailing_of(self@) == Some(t@),
                None => trailing_of(self@) is None,
            },
        decreases self,
    {
        match self {
            QueryAttribute::ValuePath { trailing_path, .. } => match trailing_path {
                Some(t) => Some(t),
                None => None,
            },
            QueryAttribute::LinkedEntity { attribute, .. } => attribute.trailing_path(),
        }
    }

    /// Returns root attribute name used for option lookups.
    pub fn root_name(&self) -> (r: Option<&String>)
        ensures
            match r {
                Some(n) => root_name_of(self@) == Some(n@),
                None => root_name_of(self@) is None,
            },
        decreases self,
    {
        match self {
            QueryAttribute::ValuePath { segments, .. } => {
                if segments.len() > 0 {
                    assert(views(segments@)[0] == segments@[0]@);
                    Some(&segments[0])
                } else {
                    None
                }
            },
            QueryAttribute::LinkedEntity { attribute, .. } => attribute.root_name(),
        }
    }
}

/// One unfolding of `expand_value` on an array.
proof fn lemma_expand_array(items: Seq<JsonV>, terms: Seq<(Seq<char>, Seq<char>)>)
    ensures
        expand_value(JsonV::Array(items), terms) == JsonV::Array(
            items.map_values(|v: JsonV| expand_value(v, terms)),
        ),
{
    let v = JsonV::Array(items);
    assert forall|i: int| 0 <= i < items.len() implies decreases_to!(v => items[i]) by {
        assert(decreases_to!(v => v->Array_0));
    }
    match expand_value(v, terms) {
        JsonV::Array(s) => {
            assert(s =~= items.map_values(|x: JsonV| expand_value(x, terms)));
        },
        _ => {},
    }
}

/// Expands compacted terms recursively using request context aliases.
pub fn expand_compacted_value(value: &Json, context_terms: &Vec<(String, String)>) -> (r: Json)
    ensures
        r@ == expand_value(value@, context_terms@.map_values(|p: (String, String)| (p.0@, p.1@))),
    decreases value,
{
    let ghost terms = context_terms@.map_values(|p: (String, String)| (p.0@, p.1@));
    match value {
        Json::Str(t) => {
            let k = chars_of(t.as_str());
            match lookup_term(context_terms, &k) {
                Some(x) => Json::Str(x.clone()),
                None => clone_json(value),
            }
        },
        Json::Array(items) => {
            proof {
                lemma_array_view(*items);
                lemma_expand_array(json_views(items@), terms);
            }
            let ghost sv = json_views(items@);
            let mut out: Vec<Json> = Vec::new();
            let mut i: usize = 0;
            while i < items.len()
                invariant
                    i <= items.len(),
                    *value == Json::Array(*items),
                    sv == json_views(items@),
                    terms == context_terms@.map_values(|p: (String, String)| (p.0@, p.1@)),
                    json_views(out@) == sv.take(i as int).map_values(|v: JsonV| expand_value(v, terms)),
                decreases items.len() - i,
            {
                proof {
                    crate::json::lemma_item_decreases(*items, i as int);
                }
                let c = expand_compacted_value(&items[i], context_terms);
                assert(sv[i as int] == items@[i as int]@);
                let ghost before = out@;
                out.push(c);
                proof {
                    lemma_views_push(before, c);
                }
                assert(sv.take(i + 1).map_values(|v: JsonV| expand_value(v, terms)) =~= sv.take(
                    i as int,
                ).map_values(|v: JsonV| expand_value(v, terms)).push(expand_value(sv[i as int], terms)));
                i += 1;
            }
            assert(sv.take(items.len() as int) =~= sv);
            proof {
                lemma_array_view(out);
            }
            Json::Array(out)
        },
        _ => clone_json(value),
    }
}

/// Extracts property values, expanding compacted terms when requested.
fn coerce_property_values(candidate: &Json, attribute: &QueryAttribute, options: &QueryMatchOptions) -> (r: Vec<Json>)
    ensures
        json_views(r@) == coerce_property(candidate@, attribute@, options@),
{
    match attribute.root_name() {
        None => opt_vec(candidate.get_member("value")),
        Some(name) => {
            let n = chars_of(name.as_str());
            if contains_name(&options.json_keys, &n) && candidate.get_member("json").is_some() {
                return opt_vec(candidate.get_member("json"));
            }
            if contains_name(&options.expand_values, &n) {
                match candidate.get_member("value") {
                    Some(v) => {
                        let x = expand_compacted_value(v, &options.context_terms);
                        let mut r: Vec<Json> = Vec::new();
                        r.push(x);
                        assert(json_views(r@) =~= seq![x@]);
                        return r;
                    },
                    None => {},
                }
            }
            opt_vec(candidate.get_member("value"))
        },
    }
}

/// Extracts vocab values, expanding compacted terms when requested.
fn coerce_vocab_values(candidate: &Json, attribute: &QueryAttribute, options: &QueryMatchOptions) -> (r: Vec<Json>)
    ensures
        json_views(r@) == coerce_vocab(candidate@, attribute@, options@),
{
    let mut r: Vec<Json> = Vec::new();
    match candidate.get_member("vocab") {
        None => {
            assert(json_views(r@) =~= Seq::<JsonV>::empty());
        },
        Some(vocab) => {
            let x = match attribute.root_name() {
                None => clone_json(vocab),
                Some(name) => {
                    let n = chars_of(name.as_str());
                    if contains_name(&options.expand_values, &n) {
                        expand_compacted_value(vocab, &options.context_terms)
                    } else {
                        clone_json(vocab)
                    }
                },
            };
            r.push(x);
            assert(json_views(r@) =~= seq![x@]);
        },
    }
    r
}

/// Extracts JSON property values honoring `json_keys` behavior.
fn coerce_json_values(candidate: &Json, attribute: &QueryAttribute, options: &QueryMatchOptions) -> (r: Vec<Json>)
    ensures
        json_views(r@) == coerce_json(candidate@, attribute@, options@),
{
    match attribute.root_name() {
        None => opt_vec(candidate.get_member("json")),
        Some(name) => {
            let n = chars_of(name.as_str());
            if contains_name(&options.json_keys, &n) {
                opt_vec(candidate.get_member("json"))
            } else if candidate.get_member("value").is_some() {
                opt_vec(candidate.get_member("value"))
            } else {
                opt_vec(candidate.get_member("json"))
            }
        },
    }
}

/// Normalizes expected query value to match attribute coercion rules.
pub fn coerce_expected_value(attribute: &QueryAttribute, value: &Json, options: &QueryMatchOptions) -> (r: Json)
    ensures
        r@ == coerce_expected(attribute@, value@, options@),
{
    match attribute.root_name() {
        None => clone_json(value),
        Some(name) => {
            let n = chars_of(name.as_str());
            if contains_name(&options.json_keys, &n) {
                clone_json(value)
            } else if contains_name(&options.expand_values, &n) {
                expand_compacted_value(value, &options.context_terms)
            } else {
                clone_json(value)
            }
        },
    }
}

/// Flattens one language-map value into scalar list.
fn flatten_language_value(value: &Json) -> (r: Vec<Json>)
    ensures
        json_views(r@) == flatten_value(value@),
{
    match value {
        Json::Array(items) => {
            proof {
                lemma_array_view(*items);
            }
            let mut out: Vec<Json> = Vec::new();
            let mut i: usize = 0;
            while i < items.len()
                invariant
                    i <= items.len(),
                    json_views(out@) == json_views(items@).take(i as int),
                decreases items.len() - i,
            {
                let c = clone_json(&items[i]);
                let ghost before = out@;
                out.push(c);
                proof {
                    lemma_views_push(before, c);
                }
                assert(json_views(items@).take(i + 1) =~= json_views(items@).take(i as int).push(
                    items@[i as int]@,
                ));
                i += 1;
            }
            assert(json_views(items@).take(items.len() as int) =~= json_views(items@));
            out
        },
        _ => {
            let mut out: Vec<Json> = Vec::new();
            out.push(clone_json(value));
            assert(json_views(out@) =~= seq![value@]);
            out
        },
    }
}

/// Flattens one level of arrays produced during target extraction.
fn flattened_values(values: &Vec<Json>) -> (r: Vec<Json>)
    ensures
        json_views(r@) == json_views(values@).flat_map(|t: JsonV| flatten_value(t)),
{
    let ghost sv = json_views(values@);
    let ghost f = |t: JsonV| flatten_value(t);
    let mut out: Vec<Json> = Vec::new();
    let mut i: usize = 0;
    assert(sv.take(0).flat_map(f) =~= Seq::<JsonV>::empty());
    while i < values.len()
        invariant
            i <= values.len(),
            sv == json_views(values@),
            f == (|t: JsonV| flatten_value(t)),
            json_views(out@) == sv.take(i as int).flat_map(f),
        decreases values.len() - i,
    {
        proof {
            lemma_flat_map_take(sv, f, i as int);
        }
        assert(sv[i as int] == values@[i as int]@);
        let part = flatten_language_value(&values[i]);
        append_json(&mut out, part);
        i += 1;
    }
    assert(sv.take(values.len() as int) =~= sv);
    out
}

/// Flattens all values stored in language map entries.
fn language_map_values_exec(language_map: Option<&Json>) -> (r: Vec<Json>)
    ensures
        json_views(r@) == language_map_values(
            match language_map {
                Some(v) => Some(v@),
                None => None,
            },
        ),
{
    match language_map {
        Some(Json::Object(entries)) => {
            proof {
                lemma_object_view(*entries);
            }
            let ghost ev = entry_views(entries@);
            let ghost f = |e: (Seq<char>, JsonV)| flatten_value(e.1);
            let mut out: Vec<Json> = Vec::new();
            let mut i: usize = 0;
            assert(ev.take(0).flat_map(f) =~= Seq::<JsonV>::empty());
            while i < entries.len()
                invariant
                    i <= entries.len(),
                    ev == entry_views(entries@),
                    f == (|e: (Seq<char>, JsonV)| flatten_value(e.1)),
                    json_views(out@) == ev.take(i as int).flat_map(f),
                decreases entries.len() - i,
            {
                proof {
                    lemma_flat_map_take(ev, f, i as int);
                }
                assert(ev[i as int].1 == entries@[i as int].1@);
                let part = flatten_language_value(&entries[i].1);
                append_json(&mut out, part);
                i += 1;
            }
            assert(ev.take(entries.len() as int) =~= ev);
            out
        },
        _ => {
            let e: Vec<Json> = Vec::new();
            assert(json_views(e@) =~= Seq::<JsonV>::empty());
            e
        },
    }
}

/// Attribute values without trailing member traversal.
fn target_values_without_trailing(candidate: &Json, attribute: &QueryAttribute, options: &QueryMatchOptions) -> (r: Vec<Json>)
    ensures
        json_views(r@) == plain_targets(candidate@, attribute@, options@),
{
    match attribute_kind(candidate) {
        AttributeKind::Raw => {
            let mut out: Vec<Json> = Vec::new();
            out.push(clone_json(candidate));
            assert(json_views(out@) =~= seq![candidate@]);
            out
        },
        AttributeKind::Property | AttributeKind::GeoProperty => coerce_property_values(candidate, attribute, options),
        AttributeKind::Relationship | AttributeKind::ListRelationship => opt_vec(candidate.get_member("object")),
        AttributeKind::LanguageProperty => language_map_values_exec(candidate.get_member("languageMap")),
        AttributeKind::VocabProperty => coerce_vocab_values(candidate, attribute, options),
        AttributeKind::ListProperty => opt_vec(candidate.get_member("valueList")),
        AttributeKind::JsonProperty => coerce_json_values(candidate, attribute, options),
    }
}

/// Produces intermediate traversal seeds for trailing path resolution.
fn seed_target_values(candidate: &Json, attribute: &QueryAttribute, options: &QueryMatchOptions) -> (r: Vec<Json>)
    ensures
        json_views(r@) == seed_targets(candidate@, attribute@, options@),
{
    match attribute_kind(candidate) {
        AttributeKind::LanguageProperty => opt_vec(candidate.get_member("languageMap")),
        _ => target_values_without_trailing(candidate, attribute, options),
    }
}

/// Traverses nested object members from each seed.
fn traverse_each(seeds: &Vec<Json>, path: &Vec<String>) -> (r: Vec<Json>)
    ensures
        json_views(r@) == json_views(seeds@).flat_map(|s: JsonV| path_nodes(s, views(path@))),
{
    let ghost sv = json_views(seeds@);
    let ghost f = |s: JsonV| path_nodes(s, views(path@));
    let mut out: Vec<Json> = Vec::new();
    let mut i: usize = 0;
    assert(sv.take(0).flat_map(f) =~= Seq::<JsonV>::empty());
    while i < seeds.len()
        invariant
            i <= seeds.len(),
            sv == json_views(seeds@),
            f == (|s: JsonV| path_nodes(s, views(path@))),
            json_views(out@) == sv.take(i as int).flat_map(f),
        decreases seeds.len() - i,
    {
        proof {
            lemma_flat_map_take(sv, f, i as int);
        }
        assert(sv[i as int] == seeds@[i as int]@);
        let part = resolve_path_nodes(&seeds[i], path);
        append_json(&mut out, part);
        i += 1;
    }
    assert(sv.take(seeds.len() as int) =~= sv);
    out
}

/// Values of a language map: all of them for `*`, else the one language.
fn language_seed_values(language_map: &Json, entries: &Vec<(String, Json)>, language: &String) -> (r: Vec<Json>)
    requires
        *language_map == Json::Object(*entries),
    ensures
        json_views(r@) == language_seeds(entry_views(entries@), language@),
{
    proof {
        lemma_object_view(*entries);
    }
    if crate::text::str_eq(language.as_str(), "*") {
        proof {
            reveal_strlit("*");
        }
        let ghost ev = entry_views(entries@);
        let mut out: Vec<Json> = Vec::new();
        let mut i: usize = 0;
        while i < entries.len()
            invariant
                i <= entries.len(),
                ev == entry_views(entries@),
                json_views(out@) == ev.map_values(|e: (Seq<char>, JsonV)| e.1).take(i as int),
            decreases entries.len() - i,
        {
            let c = clone_json(&entries[i].1);
            let ghost before = out@;
            out.push(c);
            proof {
                lemma_views_push(before, c);
            }
            assert(ev.map_values(|e: (Seq<char>, JsonV)| e.1).take(i + 1) =~= ev.map_values(
                |e: (Seq<char>, JsonV)| e.1,
            ).take(i as int).push(entries@[i as int].1@));
            i += 1;
        }
        assert(ev.map_values(|e: (Seq<char>, JsonV)| e.1).take(entries.len() as int) =~= ev.map_values(
            |e: (Seq<char>, JsonV)| e.1,
        ));
        assert(language@ == seq!['*']);
        assert(json_views(out@) == ev.map_values(|e: (Seq<char>, JsonV)| e.1));
        out
    } else {
        proof {
            reveal_strlit("*");
            if language@ == seq!['*'] {
                assert(language@ == "*"@);
            }
        }
        assert(language@ != seq!['*']);
        let r = opt_vec(language_map.get_member(language.as_str()));
        assert(language_map@ == JsonV::Object(entry_views(entries@)));
        r
    }
}

/// Traverses trailing members after initial attribute value extraction.
fn target_values_with_trailing(
    candidate: &Json,
    attribute: &QueryAttribute,
    trailing_path: &TrailingPath,
    options: &QueryMatchOptions,
) -> (r: Vec<Json>)
    ensures
        json_views(r@) == trailing_targets(candidate@, attribute@, trailing_path@, options@),
{
    let kind = attribute_kind(candidate);
    let empty: Vec<Json> = Vec::new();
    assert(json_views(empty@) =~= Seq::<JsonV>::empty());
    match (kind, trailing_path) {
        (AttributeKind::LanguageProperty, TrailingPath::AnyLanguage) => language_map_values_exec(
            candidate.get_member("languageMap"),
        ),
        (AttributeKind::LanguageProperty, TrailingPath::Members(path)) => {
            match candidate.get_member("languageMap") {
                Some(lm) => match lm {
                    Json::Object(entries) => {
                        if path.len() == 0 {
                            return empty;
                        }
                        proof {
                            lemma_object_view(*entries);
                        }
                        assert(views(path@)[0] == path@[0]@);
                        let seeds = language_seed_values(lm, entries, &path[0]);
                        let mut rest: Vec<String> = Vec::new();
                        let mut i: usize = 1;
                        while i < path.len()
                            invariant
                                1 <= i <= path.len(),
                                views(rest@) == views(path@).skip(1).take(i - 1),
                            decreases path.len() - i,
                        {
                            let ghost before = rest@;
                            let c = path[i].clone();
                            rest.push(c);
                            assert(views(rest@) =~= views(before).push(c@));
                            assert(views(path@).skip(1).take(i as int) =~= views(path@).skip(1).take(
                                i - 1,
                            ).push(path@[i as int]@));
                            i += 1;
                        }
                        assert(views(path@).skip(1).take(path.len() - 1) =~= views(path@).skip(1));
                        if rest.len() == 0 {
                            flattened_values(&seeds)
                        } else {
                            traverse_each(&seeds, &rest)
                        }
                    },
                    _ => empty,
                },
                None => empty,
            }
        },
        (_, TrailingPath::AnyLanguage) => empty,
        (_, TrailingPath::Members(path)) => {
            let seeds = seed_target_values(candidate, attribute, options);
            traverse_each(&seeds, path)
        },
    }
}

/// Returns comparable target values for attribute, applying trailing selectors.
pub fn target_values(candidate: &Json, attribute: &QueryAttribute, options: &QueryMatchOptions) -> (r: Vec<Json>)
    ensures
        json_views(r@) == targets(candidate@, attribute@, options@),
{
    match attribute.trailing_path() {
        Some(t) => target_values_with_trailing(candidate, attribute, t, options),
        None => target_values_without_trailing(candidate, attribute, options),
    }
}

/// Equality of two JSON values as `serde_json::Value` compares them:
/// objects as maps, whatever the order of their members.
pub fn json_eq(a: &Json, b: &Json) -> (r: bool)
    ensures
        r == json_same(a@, b@),
    decreases a,
{
    match (a, b) {
        (Json::Null, Json::Null) => true,
        (Json::Bool(x), Json::Bool(y)) => *x == *y,
        (Json::Number(x), Json::Number(y)) => crate::text::str_eq(x.as_str(), y.as_str()),
        (Json::Str(x), Json::Str(y)) => crate::text::str_eq(x.as_str(), y.as_str()),
        (Json::Array(xs), Json::Array(ys)) => {
            proof {
                lemma_array_view(*xs);
                lemma_array_view(*ys);
            }
            let ghost xv = json_views(xs@);
            let ghost yv = json_views(ys@);
            assert(a@ == JsonV::Array(xv));
            assert(b@ == JsonV::Array(yv));
            if xs.len() != ys.len() {
                return false;
            }
            let mut i: usize = 0;
            while i < xs.len()
                invariant
                    i <= xs.len(),
                    xs.len() == ys.len(),
                    *a == Json::Array(*xs),
                    a@ == JsonV::Array(xv),
                    b@ == JsonV::Array(yv),
                    xv.len() == yv.len(),
                    xv == json_views(xs@),
                    yv == json_views(ys@),
                    forall|k: int| 0 <= k < i ==> json_same(#[trigger] xv[k], yv[k]),
                decreases xs.len() - i,
            {
                proof {
                    crate::json::lemma_item_decreases(*xs, i as int);
                }
                assert(xv[i as int] == xs@[i as int]@ && yv[i as int] == ys@[i as int]@);
                if !json_eq(&xs[i], &ys[i]) {
                    assert(!json_same(xv[i as int], yv[i as int]));
                    return false;
                }
                i += 1;
            }
            true
        },
        (Json::Object(xs), Json::Object(ys)) => {
            proof {
                lemma_object_view(*xs);
                lemma_object_view(*ys);
            }
            let ghost xv = entry_views(xs@);
            let ghost yv = entry_views(ys@);
            assert(a@ == JsonV::Object(xv));
            assert(b@ == JsonV::Object(yv));
            if xs.len() != ys.len() {
                return false;
            }
            let mut i: usize = 0;
            while i < xs.len()
                invariant
                    i <= xs.len(),
                    xs.len() == ys.len(),
                    *a == Json::Object(*xs),
                    a@ == JsonV::Object(xv),
                    b@ == JsonV::Object(yv),
                    xv.len() == yv.len(),
                    xv == entry_views(xs@),
                    yv == entry_views(ys@),
                    forall|k: int|
                        0 <= k < i ==> match member_index(yv, #[trigger] xv[k].0) {
                            Some(j) => json_same(xv[k].1, yv[j].1),
                            None => false,
                        },
                decreases xs.len() - i,
            {
                assert(xv[i as int] == (xs@[i as int].0@, xs@[i as int].1@));
                match crate::json::member_position(ys, xs[i].0.as_str()) {
                    None => {
                        assert(member_index(yv, xv[i as int].0) is None);
                        return false;
                    },
                    Some(j) => {
                        assert(yv[j as int] == (ys@[j as int].0@, ys@[j as int].1@));
                        assert(member_index(yv, xv[i as int].0) == Some(j as int));
                        proof {
                            crate::json::lemma_entry_decreases(*xs, i as int);
                        }
                        if !json_eq(&xs[i].1, &ys[j].1) {
                            assert(!json_same(xv[i as int].1, yv[j as int].1));
                            return false;
                        }
                    },
                }
                i += 1;
            }
            true
        },
        _ => false,
    }
}

/// Compares JSON values using query-language equality semantics.
pub fn values_equal_exec(left: &Json, right: &Json) -> (r: bool)
    ensures
        r == values_equal(left@, right@),
{
    match (left, right) {
        (Json::Number(a), Json::Number(b)) => {
            match (finite_number_bits(a.as_str()), finite_number_bits(b.as_str())) {
                (Some(x), Some(y)) => compare_number_bits(x, y) == 0,
                (None, None) => true,
                _ => false,
            }
        },
        (Json::Str(a), Json::Str(b)) => crate::text::str_eq(a.as_str(), b.as_str()),
        (Json::Bool(a), Json::Bool(b)) => *a == *b,
        (Json::Array(_), Json::Array(_)) => json_eq(left, right),
        (Json::Object(_), Json::Object(_)) => json_eq(left, right),
        _ => false,
    }
}

/// Matches scalar or array target against expected value.
fn eq_value_exec(target: &Json, expected: &Json) -> (r: bool)
    ensures
        r == eq_value(target@, expected@),
{
    if values_equal_exec(target, expected) {
        return true;
    }
    match target {
        Json::Array(items) => {
            proof {
                lemma_array_view(*items);
            }
            let ghost sv = json_views(items@);
            let mut i: usize = 0;
            while i < items.len()
                invariant
                    i <= items.len(),
                    sv == json_views(items@),
                    target@ == JsonV::Array(sv),
                    forall|k: int| 0 <= k < i ==> !values_equal(#[trigger] sv[k], expected@),
                decreases items.len() - i,
            {
                assert(sv[i as int] == items@[i as int]@);
                if values_equal_exec(&items[i], expected) {
                    assert(values_equal(sv[i as int], expected@));
                    assert(exists|k: int| 0 <= k < sv.len() && values_equal(#[trigger] sv[k], expected@));
                    let ghost t = JsonV::Array(sv);
                    assert(t->Array_0 == sv);
                    assert(match t {
                        JsonV::Array(items) => exists|k: int| 0 <= k < items.len() && values_equal(#[trigger] items[k], expected@),
                        _ => false,
                    });
                    assert(eq_value(t, expected@));
                    return true;
                }
                i += 1;
            }
            false
        },
        _ => false,
    }
}

/// The ordering form of a value.
#[derive(Clone, Debug)]
pub enum Scalar {
    Number(u64),
    Bool(bool),
    DateTime(i64, u32),
    Date(i32),
    Time(u32, u32),
    Text(Vec<char>),
}

impl View for Scalar {
    type V = ScalarV;

    open spec fn view(&self) -> ScalarV {
        match self {
            Scalar::Number(b) => ScalarV::Number(*b),
            Scalar::Bool(b) => ScalarV::Bool(*b),
            Scalar::DateTime(s, n) => ScalarV::DateTime(*s, *n),
            Scalar::Date(d) => ScalarV::Date(*d),
            Scalar::Time(s, n) => ScalarV::Time(*s, *n),
            Scalar::Text(t) => ScalarV::Text(t@),
        }
    }
}

/// Converts JSON value into comparable scalar used by range operators.
pub fn comparable_scalar(value: &Json) -> (r: Option<Scalar>)
    ensures
        match r {
            Some(x) => scalar_of(value@) == Some(x@),
            None => scalar_of(value@) is None,
        },
{
    match value {
        Json::Number(t) => match finite_number_bits(t.as_str()) {
            Some(b) => Some(Scalar::Number(b)),
            None => None,
        },
        Json::Bool(b) => Some(Scalar::Bool(*b)),
        Json::Str(t) => {
            let ts = t.as_str();
            match crate::time::parse_rfc3339(ts) {
                Some((s, n)) => Some(Scalar::DateTime(s, n)),
                None => match crate::time::parse_calendar_date(ts, "%Y-%m-%d") {
                    Some(d) => Some(Scalar::Date(d)),
                    None => match crate::time::parse_clock_time(ts, "%H:%M:%S") {
                        Some((s, n)) => Some(Scalar::Time(s, n)),
                        None => match crate::time::parse_clock_time(ts, "%H:%M:%S%.f") {
                            Some((s, n)) => Some(Scalar::Time(s, n)),
                            None => Some(Scalar::Text(chars_of(ts))),
                        },
                    },
                },
            }
        },
        _ => None,
    }
}

/// Three-way comparison of integers given as `i128`.
fn order_of(a: i128, b: i128) -> (r: i8)
    ensures
        r as int == order_int(a as int, b as int),
{
    if a < b {
        -1
    } else if a == b {
        0
    } else {
        1
    }
}

/// Lexicographic comparison of texts by character code.
fn text_order_exec(a: &Vec<char>, b: &Vec<char>) -> (r: i8)
    ensures
        r as int == text_order(a@, b@),
{
    let mut i: usize = 0;
    assert(a@.skip(0) =~= a@);
    assert(b@.skip(0) =~= b@);
    while i < a.len() && i < b.len()
        invariant
            i <= a.len(),
            i <= b.len(),
            text_order(a@, b@) == text_order(a@.skip(i as int), b@.skip(i as int)),
        decreases a.len() - i,
    {
        let x = a[i] as u32;
        let y = b[i] as u32;
        assert(a@.skip(i as int)[0] == a@[i as int]);
        assert(b@.skip(i as int)[0] == b@[i as int]);
        if x != y {
            return order_of(x as i128, y as i128);
        }
        assert(a@.skip(i as int).drop_first() =~= a@.skip(i + 1));
        assert(b@.skip(i as int).drop_first() =~= b@.skip(i + 1));
        i += 1;
    }
    if a.len() == i && b.len() == i {
        assert(a@.skip(i as int).len() == 0);
        0
    } else if a.len() == i {
        -1
    } else {
        1
    }
}

/// Compares two query values after scalar coercion.
pub fn compare_query_values(left: &Json, right: &Json) -> (r: Option<i8>)
    ensures
        match r {
            Some(c) => compare_values(left@, right@) == Some(c as int),
            None => compare_values(left@, right@) is None,
        },
{
    let l = match comparable_scalar(left) {
        Some(x) => x,
        None => {
            return None;
        },
    };
    let r = match comparable_scalar(right) {
        Some(x) => x,
        None => {
            return None;
        },
    };
    match (l, r) {
        (Scalar::Number(a), Scalar::Number(b)) => Some(compare_number_bits(a, b)),
        (Scalar::Bool(a), Scalar::Bool(b)) => Some(
            order_of(if a { 1 } else { 0 }, if b { 1 } else { 0 }),
        ),
        (Scalar::DateTime(s1, n1), Scalar::DateTime(s2, n2)) => {
            let c = order_of(s1 as i128, s2 as i128);
            if c != 0 {
                Some(c)
            } else {
                Some(order_of(n1 as i128, n2 as i128))
            }
        },
        (Scalar::Date(a), Scalar::Date(b)) => Some(order_of(a as i128, b as i128)),
        (Scalar::Time(s1, n1), Scalar::Time(s2, n2)) => {
            let c = order_of(s1 as i128, s2 as i128);
            if c != 0 {
                Some(c)
            } else {
                Some(order_of(n1 as i128, n2 as i128))
            }
        },
        (Scalar::Text(a), Scalar::Text(b)) => Some(text_order_exec(&a, &b)),
        _ => None,
    }
}

/// One unfolding of `range_contains`.
proof fn lemma_range_unfold(target: JsonV, lower: JsonV, upper: JsonV)
    ensures
        range_contains(target, lower, upper) == ((match compare_values(target, lower) {
            Some(c) => c >= 0,
            None => false,
        } && match compare_values(target, upper) {
            Some(c) => c <= 0,
            None => false,
        }) || match target {
            JsonV::Array(items) => exists|i: int|
                0 <= i < items.len() && range_contains(#[trigger] items[i], lower, upper),
            _ => false,
        }),
{
    match target {
        JsonV::Array(items) => {
            assert forall|i: int| 0 <= i < items.len() implies decreases_to!(target => items[i]) by {
                assert(decreases_to!(target => target->Array_0));
            }
        },
        _ => {},
    }
}

/// Checks whether target falls inside inclusive range bounds.
pub fn range_contains_exec(target: &Json, lower: &Json, upper: &Json) -> (r: bool)
    ensures
        r == range_contains(target@, lower@, upper@),
    decreases target,
{
    proof {
        lemma_range_unfold(target@, lower@, upper@);
    }
    let lo_ok = match compare_query_values(target, lower) {
        Some(c) => c >= 0,
        None => false,
    };
    let hi_ok = match compare_query_values(target, upper) {
        Some(c) => c <= 0,
        None => false,
    };
    if lo_ok && hi_ok {
        return true;
    }
    match target {
        Json::Array(items) => {
            proof {
                lemma_array_view(*items);
            }
            let ghost sv = json_views(items@);
            let mut i: usize = 0;
            while i < items.len()
                invariant
                    i <= items.len(),
                    sv == json_views(items@),
                    *target == Json::Array(*items),
                    target@ == JsonV::Array(sv),
                    forall|k: int| 0 <= k < i ==> !range_contains(#[trigger] sv[k], lower@, upper@),
                    !(match compare_values(target@, lower@) {
                        Some(c) => c >= 0,
                        None => false,
                    } && match compare_values(target@, upper@) {
                        Some(c) => c <= 0,
                        None => false,
                    }),
                decreases items.len() - i,
            {
                assert(sv[i as int] == items@[i as int]@);
                proof {
                    crate::json::lemma_item_decreases(*items, i as int);
                }
                if range_contains_exec(&items[i], lower, upper) {
                    proof {
                        lemma_range_unfold(target@, lower@, upper@);
                    }
                    assert(range_contains(sv[i as int], lower@, upper@));
                    return true;
                }
                i += 1;
            }
            proof {
                lemma_range_unfold(target@, lower@, upper@);
            }
            false
        },
        _ => false,
    }
}

/// Evaluates equality, list membership, or range match for candidate.
fn equality_matches_exec(
    candidate: &Json,
    attribute: &QueryAttribute,
    operand: &EqualityOperand,
    options: &QueryMatchOptions,
) -> (r: bool)
    ensures
        r == equality_matches(candidate@, attribute@, operand@, options@),
{
    let ts = target_values(candidate, attribute, options);
    let ghost tv = json_views(ts@);
    match operand {
        EqualityOperand::Single(e) => {
            let x = coerce_expected_value(attribute, e, options);
            let mut i: usize = 0;
            while i < ts.len()
                invariant
                    i <= ts.len(),
                    tv == json_views(ts@),
                    tv == targets(candidate@, attribute@, options@),
                    operand@ == EqualityOperandV::Single(e@),
                    x@ == coerce_expected(attribute@, e@, options@),
                    forall|k: int| 0 <= k < i ==> !eq_value(#[trigger] tv[k], x@),
                decreases ts.len() - i,
            {
                assert(tv[i as int] == ts@[i as int]@);
                if eq_value_exec(&ts[i], &x) {
                    assert(eq_value(tv[i as int], x@));
                    return true;
                }
                i += 1;
            }
            false
        },
        EqualityOperand::List(es) => {
            let ghost ev = json_views(es@);
            let mut xs: Vec<Json> = Vec::new();
            let mut j: usize = 0;
            while j < es.len()
                invariant
                    j <= es.len(),
                    ev == json_views(es@),
                    xs.len() == j,
                    forall|k: int| 0 <= k < j ==> #[trigger] xs@[k]@ == coerce_expected(attribute@, ev[k], options@),
                decreases es.len() - j,
            {
                assert(ev[j as int] == es@[j as int]@);
                let x = coerce_expected_value(attribute, &es[j], options);
                xs.push(x);
                j += 1;
            }
            let mut i: usize = 0;
            while i < ts.len()
                invariant
                    i <= ts.len(),
                    tv == json_views(ts@),
                    tv == targets(candidate@, attribute@, options@),
                    operand@ == EqualityOperandV::List(ev),
                    ev == json_views(es@),
                    xs.len() == es.len(),
                    forall|k: int| 0 <= k < xs.len() ==> #[trigger] xs@[k]@ == coerce_expected(attribute@, ev[k], options@),
                    forall|k: int, m: int|
                        0 <= k < i && 0 <= m < ev.len() ==> !eq_value(
                            #[trigger] tv[k],
                            coerce_expected(attribute@, #[trigger] ev[m], options@),
                        ),
                decreases ts.len() - i,
            {
                assert(tv[i as int] == ts@[i as int]@);
                let mut m: usize = 0;
                while m < xs.len()
                    invariant
                        m <= xs.len(),
                        i < ts.len(),
                        tv == json_views(ts@),
                        tv == targets(candidate@, attribute@, options@),
                        operand@ == EqualityOperandV::List(ev),
                        ev == json_views(es@),
                        xs.len() == es.len(),
                        forall|k: int| 0 <= k < xs.len() ==> #[trigger] xs@[k]@ == coerce_expected(attribute@, ev[k], options@),
                        forall|q: int| 0 <= q < m ==> !eq_value(tv[i as int], coerce_expected(attribute@, #[trigger] ev[q], options@)),
                    decreases xs.len() - m,
                {
                    assert(xs@[m as int]@ == coerce_expected(attribute@, ev[m as int], options@));
                    if eq_value_exec(&ts[i], &xs[m]) {
                        assert(eq_value(tv[i as int], coerce_expected(attribute@, ev[m as int], options@)));
                        return true;
                    }
                    m += 1;
                }
                i += 1;
            }
            false
        },
        EqualityOperand::Range(lo, hi) => {
            let l = coerce_expected_value(attribute, lo, options);
            let u = coerce_expected_value(attribute, hi, options);
            let mut i: usize = 0;
            while i < ts.len()
                invariant
                    i <= ts.len(),
                    tv == json_views(ts@),
                    tv == targets(candidate@, attribute@, options@),
                    operand@ == EqualityOperandV::Range(lo@, hi@),
                    l@ == coerce_expected(attribute@, lo@, options@),
                    u@ == coerce_expected(attribute@, hi@, options@),
                    forall|k: int| 0 <= k < i ==> !range_contains(#[trigger] tv[k], l@, u@),
                decreases ts.len() - i,
            {
                assert(tv[i as int] == ts@[i as int]@);
                if range_contains_exec(&ts[i], &l, &u) {
                    assert(range_contains(tv[i as int], l@, u@));
                    return true;
                }
                i += 1;
            }
            false
        },
    }
}

/// Compares resolved attribute values against one expected value with an
/// ordering operator (`Gt`, `Gte`, `Lt`, `Lte` as 0, 1, 2, 3).
fn compare_query_attribute(
    root: &Json,
    attribute: &QueryAttribute,
    expected: &Json,
    op: u8,
    options: &QueryMatchOptions,
) -> (r: bool)
    requires
        op < 4,
    ensures
        r == compare_matches(root@, attribute@, expected@, op as int, options@),
{
    let x = coerce_expected_value(attribute, expected, options);
    let cs = resolve_query_attribute(root, attribute, options);
    let ghost cv = json_views(cs@);
    let mut i: usize = 0;
    while i < cs.len()
        invariant
            i <= cs.len(),
            op < 4,
            cv == json_views(cs@),
            cv == resolve(root@, attribute@, options@),
            x@ == coerce_expected(attribute@, expected@, options@),
            forall|k: int|
                0 <= k < i ==> !(!is_relationship_kind(kind_of(#[trigger] cv[k])) && {
                    let ts = targets(cv[k], attribute@, options@).flat_map(|t: JsonV| flatten_value(t));
                    exists|j: int|
                        0 <= j < ts.len() && match compare_values(#[trigger] ts[j], x@) {
                            Some(c) => order_accepts(op as int, c),
                            None => false,
                        }
                }),
        decreases cs.len() - i,
    {
        assert(cv[i as int] == cs@[i as int]@);
        let kind = attribute_kind(&cs[i]);
        if !relationship_like(&kind) {
            let tv0 = target_values(&cs[i], attribute, options);
            let flat = flattened_values(&tv0);
            assert(json_views(flat@) == targets(cv[i as int], attribute@, options@).flat_map(|t: JsonV| flatten_value(t)));
            let ghost fv = json_views(flat@);
            let mut j: usize = 0;
            while j < flat.len()
                invariant
                    j <= flat.len(),
                    op < 4,
                    i < cs.len(),
                    cv == json_views(cs@),
                    cv == resolve(root@, attribute@, options@),
                    x@ == coerce_expected(attribute@, expected@, options@),
                    !is_relationship_kind(kind_of(cv[i as int])),
                    fv == targets(cv[i as int], attribute@, options@).flat_map(|t: JsonV| flatten_value(t)),
                    fv == json_views(flat@),
                    forall|q: int|
                        0 <= q < j ==> !match compare_values(#[trigger] fv[q], x@) {
                            Some(c) => order_accepts(op as int, c),
                            None => false,
                        },
                decreases flat.len() - j,
            {
                assert(fv[j as int] == flat@[j as int]@);
                match compare_query_values(&flat[j], &x) {
                    Some(c) => {
                        let ok = if op == 0 {
                            c > 0
                        } else if op == 1 {
                            c >= 0
                        } else if op == 2 {
                            c < 0
                        } else {
                            c <= 0
                        };
                        if ok {
                            assert(match compare_values(fv[j as int], x@) {
                                Some(c) => order_accepts(op as int, c),
                                None => false,
                            });
                            assert(!is_relationship_kind(kind_of(cv[i as int])));
                            return true;
                        }
                    },
                    None => {},
                }
                j += 1;
            }
        }
        i += 1;
    }
    false
}

/// Matches regex against resolved target values.
fn target_finds_exec(target: &Json, pattern: &String) -> (r: bool)
    requires
        regex_compiles(pattern@),
    ensures
        r == target_finds(target@, pattern@),
{
    match target {
        Json::Str(text) => regex_is_match(pattern.as_str(), text.as_str()),
        Json::Array(items) => {
            proof {
                lemma_array_view(*items);
            }
            let ghost sv = json_views(items@);
            let mut i: usize = 0;
            while i < items.len()
                invariant
                    i <= items.len(),
                    regex_compiles(pattern@),
                    sv == json_views(items@),
                    target@ == JsonV::Array(sv),
                    forall|k: int|
                        0 <= k < i ==> !(#[trigger] sv[k] matches JsonV::Str(text) && regex_finds(pattern@, text)),
                decreases items.len() - i,
            {
                assert(sv[i as int] == items@[i as int]@);
                match &items[i] {
                    Json::Str(text) => {
                        if regex_is_match(pattern.as_str(), text.as_str()) {
                            assert(sv[i as int] matches JsonV::Str(t) && regex_finds(pattern@, t));
                            let ghost t = target@;
                            assert(match t {
                                JsonV::Array(items) => exists|k: int|
                                    0 <= k < items.len() && (#[trigger] items[k] matches JsonV::Str(text) && regex_finds(pattern@, text)),
                                _ => false,
                            });
                            return true;
                        }
                    },
                    _ => {},
                }
                i += 1;
            }
            false
        },
        _ => false,
    }
}

/// Matches when a target fails the regex (see `target_misses`).
fn target_misses_exec(target: &Json, pattern: &String) -> (r: bool)
    requires
        regex_compiles(pattern@),
    ensures
        r == target_misses(target@, pattern@),
{
    match target {
        Json::Str(text) => !regex_is_match(pattern.as_str(), text.as_str()),
        Json::Array(items) => {
            proof {
                lemma_array_view(*items);
            }
            let ghost sv = json_views(items@);
            let mut i: usize = 0;
            while i < items.len()
                invariant
                    i <= items.len(),
                    regex_compiles(pattern@),
                    sv == json_views(items@),
                    target@ == JsonV::Array(sv),
                    forall|k: int| 0 <= k < i ==> (#[trigger] sv[k]) is Str,
                decreases items.len() - i,
            {
                assert(sv[i as int] == items@[i as int]@);
                match &items[i] {
                    Json::Str(_) => {},
                    _ => {
                        assert(!(sv[i as int] is Str));
                        return false;
                    },
                }
                i += 1;
            }
            let mut j: usize = 0;
            while j < items.len()
                invariant
                    j <= items.len(),
                    regex_compiles(pattern@),
                    sv == json_views(items@),
                    target@ == JsonV::Array(sv),
                    forall|k: int| 0 <= k < sv.len() ==> (#[trigger] sv[k]) is Str,
                    forall|k: int| 0 <= k < j ==> !regex_finds(pattern@, #[trigger] sv[k]->Str_0),
                decreases items.len() - j,
            {
                assert(sv[j as int] == items@[j as int]@);
                match &items[j] {
                    Json::Str(text) => {
                        if regex_is_match(pattern.as_str(), text.as_str()) {
                            assert(regex_finds(pattern@, sv[j as int]->Str_0));
                            return false;
                        }
                    },
                    _ => {},
                }
                j += 1;
            }
            true
        },
        _ => false,
    }
}

/// One unfolding of `q_matches` on a conjunction or disjunction.
pub proof fn lemma_q_matches_unfold(e: QExpressionV, root: JsonV, opts: OptionsV)
    ensures
        e matches QExpressionV::And(parts) ==> (q_matches(e, root, opts) == forall|i: int|
            0 <= i < parts.len() ==> q_matches(#[trigger] parts[i], root, opts)),
        e matches QExpressionV::Or(parts) ==> (q_matches(e, root, opts) == exists|i: int|
            0 <= i < parts.len() && q_matches(#[trigger] parts[i], root, opts)),
{
    match e {
        QExpressionV::And(parts) => {
            assert forall|i: int| 0 <= i < parts.len() implies decreases_to!(e => parts[i]) by {
                assert(decreases_to!(e => e->And_0));
            }
        },
        QExpressionV::Or(parts) => {
            assert forall|i: int| 0 <= i < parts.len() implies decreases_to!(e => parts[i]) by {
                assert(decreases_to!(e => e->Or_0));
            }
        },
        _ => {},
    }
}

/// How the connectives of `q` evaluate: `!=` holds exactly when the
/// attribute is present and `==` does not hold (so an absent attribute
/// satisfies neither), a conjunction when every part holds, and a
/// disjunction when some part holds.
pub proof fn law_q_connectives(
    a: QueryAttributeV,
    op: EqualityOperandV,
    parts: Seq<QExpressionV>,
    root: JsonV,
    opts: OptionsV,
)
    ensures
        q_matches(QExpressionV::Neq(a, op), root, opts) == (q_matches(QExpressionV::Exists(a), root, opts)
            && !q_matches(QExpressionV::Eq(a, op), root, opts)),
        q_matches(QExpressionV::And(parts), root, opts) == forall|i: int|
            0 <= i < parts.len() ==> q_matches(#[trigger] parts[i], root, opts),
        q_matches(QExpressionV::Or(parts), root, opts) == exists|i: int|
            0 <= i < parts.len() && q_matches(#[trigger] parts[i], root, opts),
{
    lemma_q_matches_unfold(QExpressionV::And(parts), root, opts);
    lemma_q_matches_unfold(QExpressionV::Or(parts), root, opts);
}

/// The ordering operators of `q`: `<=` holds when some target of a
/// candidate that is not a relationship compares below or equal to the
/// literal, `<` when one compares strictly below, `>=` above or equal,
/// `>` strictly above. So a target equal to the literal satisfies `<=`
/// and `>=` but neither `<` nor `>`.
pub proof fn law_q_ordering(a: QueryAttributeV, x: JsonV, root: JsonV, opts: OptionsV)
    ensures
        ({
            let cs = resolve(root, a, opts);
            let cx = coerce_expected(a, x, opts);
            &&& q_matches(QExpressionV::Lte(a, x), root, opts) == exists|i: int|
                0 <= i < cs.len() && !is_relationship_kind(kind_of(#[trigger] cs[i])) && {
                    let ts = targets(cs[i], a, opts).flat_map(|t: JsonV| flatten_value(t));
                    exists|j: int| 0 <= j < ts.len() && (compare_values(#[trigger] ts[j], cx) matches Some(c) && c <= 0)
                }
            &&& q_matches(QExpressionV::Lt(a, x), root, opts) == exists|i: int|
                0 <= i < cs.len() && !is_relationship_kind(kind_of(#[trigger] cs[i])) && {
                    let ts = targets(cs[i], a, opts).flat_map(|t: JsonV| flatten_value(t));
                    exists|j: int| 0 <= j < ts.len() && (compare_values(#[trigger] ts[j], cx) matches Some(c) && c < 0)
                }
            &&& q_matches(QExpressionV::Gte(a, x), root, opts) == exists|i: int|
                0 <= i < cs.len() && !is_relationship_kind(kind_of(#[trigger] cs[i])) && {
                    let ts = targets(cs[i], a, opts).flat_map(|t: JsonV| flatten_value(t));
                    exists|j: int| 0 <= j < ts.len() && (compare_values(#[trigger] ts[j], cx) matches Some(c) && c >= 0)
                }
            &&& q_matches(QExpressionV::Gt(a, x), root, opts) == exists|i: int|
                0 <= i < cs.len() && !is_relationship_kind(kind_of(#[trigger] cs[i])) && {
                    let ts = targets(cs[i], a, opts).flat_map(|t: JsonV| flatten_value(t));
                    exists|j: int| 0 <= j < ts.len() && (compare_values(#[trigger] ts[j], cx) matches Some(c) && c > 0)
                }
        }),
        q_matches(QExpressionV::Lt(a, x), root, opts) ==> q_matches(QExpressionV::Lte(a, x), root, opts),
        q_matches(QExpressionV::Gt(a, x), root, opts) ==> q_matches(QExpressionV::Gte(a, x), root, opts),
{
}

/// A part of a conjunction or disjunction is smaller than it.
proof fn lemma_part_decreases(e: QExpression, parts: Vec<QExpression>, i: int)
    requires
        0 <= i < parts.len(),
        e == QExpression::And(parts) || e == QExpression::Or(parts),
    ensures
        decreases_to!(e => parts[i]),
{
    vstd::std_specs::vec::axiom_vec_index_decreases(parts, i);
    if e == QExpression::And(parts) {
        assert(decreases_to!(e => e->And_0));
    } else {
        assert(decreases_to!(e => e->Or_0));
    }
}

/// Some candidate satisfies an equality operand.
fn eq_case(value: &Json, a: &QueryAttribute, op: &EqualityOperand, options: &QueryMatchOptions) -> (r: bool)
    ensures
        r == eq_holds(value@, a@, op@, options@),
{
    let cs = resolve_query_attribute(value, a, options);
    let ghost cv = json_views(cs@);
    let mut i: usize = 0;
    while i < cs.len()
        invariant
            i <= cs.len(),
            cv == json_views(cs@),
            cv == resolve(value@, a@, options@),
            forall|k: int| 0 <= k < i ==> !equality_matches(#[trigger] cv[k], a@, op@, options@),
        decreases cs.len() - i,
    {
        assert(cv[i as int] == cs@[i as int]@);
        if equality_matches_exec(&cs[i], a, op, options) {
            assert(equality_matches(cv[i as int], a@, op@, options@));
            return true;
        }
        i += 1;
    }
    false
}

/// There are candidates and none satisfies an equality operand.
fn neq_case(value: &Json, a: &QueryAttribute, op: &EqualityOperand, options: &QueryMatchOptions) -> (r: bool)
    ensures
        r == neq_holds(value@, a@, op@, options@),
{
    let cs = resolve_query_attribute(value, a, options);
    if cs.len() == 0 {
        return false;
    }
    let ghost cv = json_views(cs@);
    let mut i: usize = 0;
    while i < cs.len()
        invariant
            i <= cs.len(),
            cs.len() > 0,
            cv == json_views(cs@),
            cv == resolve(value@, a@, options@),
            forall|k: int| 0 <= k < i ==> !equality_matches(#[trigger] cv[k], a@, op@, options@),
        decreases cs.len() - i,
    {
        assert(cv[i as int] == cs@[i as int]@);
        if equality_matches_exec(&cs[i], a, op, options) {
            assert(equality_matches(cv[i as int], a@, op@, options@));
            return false;
        }
        i += 1;
    }
    true
}

/// Some target of a candidate matches the pattern.
fn candidate_finds_exec(c: &Json, a: &QueryAttribute, p: &String, options: &QueryMatchOptions) -> (r: bool)
    requires
        regex_compiles(p@),
    ensures
        r == candidate_finds(c@, a@, p@, options@),
{
    let ts = target_values(c, a, options);
    let ghost tv = json_views(ts@);
    let mut j: usize = 0;
    while j < ts.len()
        invariant
            j <= ts.len(),
            regex_compiles(p@),
            tv == json_views(ts@),
            tv == targets(c@, a@, options@),
            forall|q: int| 0 <= q < j ==> !target_finds(#[trigger] tv[q], p@),
        decreases ts.len() - j,
    {
        assert(tv[j as int] == ts@[j as int]@);
        if target_finds_exec(&ts[j], p) {
            assert(target_finds(tv[j as int], p@));
            return true;
        }
        j += 1;
    }
    false
}

/// A candidate has targets and each of them misses the pattern.
fn candidate_misses_exec(c: &Json, a: &QueryAttribute, p: &String, options: &QueryMatchOptions) -> (r: bool)
    requires
        regex_compiles(p@),
    ensures
        r == candidate_misses(c@, a@, p@, options@),
{
    let ts = target_values(c, a, options);
    let ghost tv = json_views(ts@);
    if ts.len() == 0 {
        return false;
    }
    let mut j: usize = 0;
    while j < ts.len()
        invariant
            j <= ts.len(),
            ts.len() > 0,
            regex_compiles(p@),
            tv == json_views(ts@),
            tv == targets(c@, a@, options@),
            forall|q: int| 0 <= q < j ==> target_misses(#[trigger] tv[q], p@),
        decreases ts.len() - j,
    {
        assert(tv[j as int] == ts@[j as int]@);
        if !target_misses_exec(&ts[j], p) {
            assert(!target_misses(tv[j as int], p@));
            return false;
        }
        j += 1;
    }
    true
}

/// The pattern compiles and some candidate matches it.
fn pattern_case(value: &Json, a: &QueryAttribute, p: &String, options: &QueryMatchOptions) -> (r: bool)
    ensures
        r == pattern_holds(value@, a@, p@, options@),
{
    match check_regex(p.as_str()) {
        Ok(()) => {},
        Err(_) => {
            return false;
        },
    }
    let cs = resolve_query_attribute(value, a, options);
    let ghost cv = json_views(cs@);
    let mut i: usize = 0;
    while i < cs.len()
        invariant
            i <= cs.len(),
            regex_compiles(p@),
            cv == json_views(cs@),
            cv == resolve(value@, a@, options@),
            forall|k: int| 0 <= k < i ==> !candidate_finds(#[trigger] cv[k], a@, p@, options@),
        decreases cs.len() - i,
    {
        assert(cv[i as int] == cs@[i as int]@);
        if candidate_finds_exec(&cs[i], a, p, options) {
            assert(candidate_finds(cv[i as int], a@, p@, options@));
            return true;
        }
        i += 1;
    }
    false
}

/// The pattern compiles, there are candidates, and each misses it.
fn not_pattern_case(value: &Json, a: &QueryAttribute, p: &String, options: &QueryMatchOptions) -> (r: bool)
    ensures
        r == not_pattern_holds(value@, a@, p@, options@),
{
    match check_regex(p.as_str()) {
        Ok(()) => {},
        Err(_) => {
            return false;
        },
    }
    let cs = resolve_query_attribute(value, a, options);
    if cs.len() == 0 {
        return false;
    }
    let ghost cv = json_views(cs@);
    let mut i: usize = 0;
    while i < cs.len()
        invariant
            i <= cs.len(),
            cs.len() > 0,
            regex_compiles(p@),
            cv == json_views(cs@),
            cv == resolve(value@, a@, options@),
            forall|k: int| 0 <= k < i ==> candidate_misses(#[trigger] cv[k], a@, p@, options@),
        decreases cs.len() - i,
    {
        assert(cv[i as int] == cs@[i as int]@);
        if !candidate_misses_exec(&cs[i], a, p, options) {
            assert(!candidate_misses(cv[i as int], a@, p@, options@));
            return false;
        }
        i += 1;
    }
    true
}

/// Evaluates parsed `q` expression against value with explicit options.
pub fn q_expression_matches_value_with_options(expression: &QExpression, value: &Json, options: &QueryMatchOptions) -> (r: bool)
    ensures
        r == q_matches(expression@, value@, options@),
    decreases expression,
{
    match expression {
        QExpression::Exists(a) => resolve_query_attribute(value, a, options).len() > 0,
        QExpression::Eq(a, op) => eq_case(value, a, op, options),
        QExpression::Neq(a, op) => neq_case(value, a, op, options),
        QExpression::Gt(a, v) => compare_query_attribute(value, a, v, 0, options),
        QExpression::Gte(a, v) => compare_query_attribute(value, a, v, 1, options),
        QExpression::Lt(a, v) => compare_query_attribute(value, a, v, 2, options),
        QExpression::Lte(a, v) => compare_query_attribute(value, a, v, 3, options),
        QExpression::Pattern(a, p) => pattern_case(value, a, p, options),
        QExpression::NotPattern(a, p) => not_pattern_case(value, a, p, options),
        QExpression::And(parts) => {
            proof {
                lemma_and_view(*parts);
                lemma_q_matches_unfold(expression@, value@, options@);
            }
            let ghost pv = expression_views(parts@);
            let ghost whole = q_matches(expression@, value@, options@);
            assert(expression@ == QExpressionV::And(pv));
            let mut i: usize = 0;
            while i < parts.len()
                invariant
                    i <= parts.len(),
                    *expression == QExpression::And(*parts),
                    pv == expression_views(parts@),
                    expression@ == QExpressionV::And(pv),
                    forall|k: int| 0 <= k < i ==> q_matches(#[trigger] pv[k], value@, options@),
                decreases parts.len() - i,
            {
                assert(pv[i as int] == parts@[i as int]@);
                proof {
                    lemma_part_decreases(*expression, *parts, i as int);
                }
                if !q_expression_matches_value_with_options(&parts[i], value, options) {
                    assert(!q_matches(pv[i as int], value@, options@));
                    proof {
                        lemma_q_matches_unfold(expression@, value@, options@);
                    }
                    return false;
                }
                i += 1;
            }
            proof {
                lemma_q_matches_unfold(expression@, value@, options@);
            }
            true
        },
        QExpression::Or(parts) => {
            proof {
                lemma_or_view(*parts);
                lemma_q_matches_unfold(expression@, value@, options@);
            }
            let ghost pv = expression_views(parts@);
            let ghost whole = q_matches(expression@, value@, options@);
            assert(expression@ == QExpressionV::Or(pv));
            let mut i: usize = 0;
            while i < parts.len()
                invariant
                    i <= parts.len(),
                    *expression == QExpression::Or(*parts),
                    pv == expression_views(parts@),
                    expression@ == QExpressionV::Or(pv),
                    forall|k: int| 0 <= k < i ==> !q_matches(#[trigger] pv[k], value@, options@),
                decreases parts.len() - i,
            {
                assert(pv[i as int] == parts@[i as int]@);
                proof {
                    lemma_part_decreases(*expression, *parts, i as int);
                }
                if q_expression_matches_value_with_options(&parts[i], value, options) {
                    assert(q_matches(pv[i as int], value@, options@));
                    proof {
                        lemma_q_matches_unfold(expression@, value@, options@);
                    }
                    return true;
                }
                i += 1;
            }
            proof {
                lemma_q_matches_unfold(expression@, value@, options@);
            }
            false
        },
    }
}

impl QueryMatchOptions {
    /// Options that expand nothing, compare no JSON members and know no
    /// linked entity.
    pub fn new() -> (r: Self)
        ensures
            r@.expand_values.len() == 0,
            r@.json_keys.len() == 0,
            r@.context_terms.len() == 0,
            r@.linked_entities.len() == 0,
    {
        QueryMatchOptions {
            expand_values: Vec::new(),
            json_keys: Vec::new(),
            context_terms: Vec::new(),
            linked_entities: Vec::new(),
        }
    }

    /// Builds match options from expansion lists, context terms and linked
    /// entities.
    pub fn with_value_lists(
        expand_values: Vec<String>,
        json_keys: Vec<String>,
        context_terms: Vec<(String, String)>,
        linked_entities: Vec<(String, Json)>,
    ) -> (r: Self)
        ensures
            r.expand_values == expand_values,
            r.json_keys == json_keys,
            r.context_terms == context_terms,
            r.linked_entities == linked_entities,
    {
        QueryMatchOptions { expand_values, json_keys, context_terms, linked_entities }
    }
}

/// Evaluates parsed `q` expression against value with default options.
pub fn q_expression_matches_value(expression: &QExpression, value: &Json) -> (r: bool)
    ensures
        r == q_matches(
            expression@,
            value@,
            OptionsV {
                expand_values: Seq::empty(),
                json_keys: Seq::empty(),
                context_terms: Seq::empty(),
                linked_entities: Seq::empty(),
            },
        ),
{
    let options = QueryMatchOptions::new();
    assert(options@.expand_values =~= Seq::empty());
    assert(options@.json_keys =~= Seq::empty());
    assert(options@.context_terms =~= Seq::empty());
    assert(options@.linked_entities =~= Seq::empty());
    q_expression_matches_value_with_options(expression, value, &options)
}

/// Whether a raw `q` filter holds: no filter holds of everything.
pub open spec fn query_holds(q: Option<Seq<char>>, value: JsonV, opts: OptionsV) -> Option<bool> {
    match q_expression(q) {
        None => None,
        Some(None) => Some(true),
        Some(Some(e)) => Some(q_matches(e, value, opts)),
    }
}

/// Evaluates raw `q` filter against value with explicit options.
pub fn query_matches_value_with_options(value: &Json, raw: Option<&str>, options: &QueryMatchOptions) -> (r: Result<bool, BrokerError>)
    ensures
        match r {
            Ok(b) => query_holds(
                match raw {
                    Some(t) => Some(t@),
                    None => None,
                },
                value@,
                options@,
            ) == Some(b),
            Err(e) => query_holds(
                match raw {
                    Some(t) => Some(t@),
                    None => None,
                },
                value@,
                options@,
            ) is None && e is BadRequest && failure_message(
                error_message(e),
                q_expression_error(
                    match raw {
                        Some(t) => Some(t@),
                        None => None,
                    },
                ),
            ),
        },
{
    match parse_q_expression(raw) {
        Ok(None) => Ok(true),
        Ok(Some(e)) => Ok(q_expression_matches_value_with_options(&e, value, options)),
        Err(e) => Err(e),
    }
}

/// Evaluates raw `q` filter against value with default options.
pub fn query_matches_value(value: &Json, raw: Option<&str>) -> (r: Result<bool, BrokerError>)
    ensures
        match r {
            Ok(b) => query_holds(
                match raw {
                    Some(t) => Some(t@),
                    None => None,
                },
                value@,
                OptionsV {
                    expand_values: Seq::empty(),
                    json_keys: Seq::empty(),
                    context_terms: Seq::empty(),
                    linked_entities: Seq::empty(),
                },
            ) == Some(b),
            Err(e) => query_holds(
                match raw {
                    Some(t) => Some(t@),
                    None => None,
                },
                value@,
                OptionsV {
                    expand_values: Seq::empty(),
                    json_keys: Seq::empty(),
                    context_terms: Seq::empty(),
                    linked_entities: Seq::empty(),
                },
            ) is None && e is BadRequest && failure_message(
                error_message(e),
                q_expression_error(
                    match raw {
                        Some(t) => Some(t@),
                        None => None,
                    },
                ),
            ),
        },
{
    let options = QueryMatchOptions::new();
    assert(options@.expand_values =~= Seq::empty());
    assert(options@.json_keys =~= Seq::empty());
    assert(options@.context_terms =~= Seq::empty());
    assert(options@.linked_entities =~= Seq::empty());
    query_matches_value_with_options(value, raw, &options)
}

/// A path that follows a relationship into linked entities.
pub open spec fn uses_linked(a: QueryAttributeV) -> bool {
    a is LinkedEntity
}

/// An expression that somewhere follows a relationship.
pub open spec fn expression_uses_linked(e: QExpressionV) -> bool
    decreases e,
{
    match e {
        QExpressionV::Exists(a) => uses_linked(a),
        QExpressionV::Eq(a, _) => uses_linked(a),
        QExpressionV::Neq(a, _) => uses_linked(a),
        QExpressionV::Gt(a, _) => uses_linked(a),
        QExpressionV::Gte(a, _) => uses_linked(a),
        QExpressionV::Lt(a, _) => uses_linked(a),
        QExpressionV::Lte(a, _) => uses_linked(a),
        QExpressionV::Pattern(a, _) => uses_linked(a),
        QExpressionV::NotPattern(a, _) => uses_linked(a),
        QExpressionV::And(parts) => exists|i: int| 0 <= i < parts.len() && expression_uses_linked(#[trigger] parts[i]),
        QExpressionV::Or(parts) => exists|i: int| 0 <= i < parts.len() && expression_uses_linked(#[trigger] parts[i]),
    }
}

/// Reports whether attribute path includes linked-entity traversal.
pub fn attribute_uses_linked_entity(attribute: &QueryAttribute) -> (r: bool)
    ensures
        r == uses_linked(attribute@),
{
    match attribute {
        QueryAttribute::ValuePath { .. } => false,
        QueryAttribute::LinkedEntity { .. } => true,
    }
}

/// Reports whether parsed `q` expression dereferences linked entities.
pub fn q_expression_uses_linked_entity(expression: &QExpression) -> (r: bool)
    ensures
        r == expression_uses_linked(expression@),
    decreases expression,
{
    match expression {
        QExpression::Exists(a) => attribute_uses_linked_entity(a),
        QExpression::Eq(a, _) => attribute_uses_linked_entity(a),
        QExpression::Neq(a, _) => attribute_uses_linked_entity(a),
        QExpression::Gt(a, _) => attribute_uses_linked_entity(a),
        QExpression::Gte(a, _) => attribute_uses_linked_entity(a),
        QExpression::Lt(a, _) => attribute_uses_linked_entity(a),
        QExpression::Lte(a, _) => attribute_uses_linked_entity(a),
        QExpression::Pattern(a, _) => attribute_uses_linked_entity(a),
        QExpression::NotPattern(a, _) => attribute_uses_linked_entity(a),
        QExpression::And(parts) | QExpression::Or(parts) => {
            proof {
                lemma_and_view(*parts);
                lemma_or_view(*parts);
                let e = expression@;
                match e {
                    QExpressionV::And(ps) => {
                        assert forall|i: int| 0 <= i < ps.len() implies decreases_to!(e => ps[i]) by {
                            assert(decreases_to!(e => e->And_0));
                        }
                    },
                    QExpressionV::Or(ps) => {
                        assert forall|i: int| 0 <= i < ps.len() implies decreases_to!(e => ps[i]) by {
                            assert(decreases_to!(e => e->Or_0));
                        }
                    },
                    _ => {},
                }
            }
            let ghost pv = expression_views(parts@);
            let ghost whole = expression_uses_linked(expression@);
            assert(whole == exists|k: int| 0 <= k < pv.len() && expression_uses_linked(#[trigger] pv[k]));
            let mut i: usize = 0;
            while i < parts.len()
                invariant
                    i <= parts.len(),
                    *expression == QExpression::And(*parts) || *expression == QExpression::Or(*parts),
                    pv == expression_views(parts@),
                    whole == exists|k: int| 0 <= k < pv.len() && expression_uses_linked(#[trigger] pv[k]),
                    whole == expression_uses_linked(expression@),
                    forall|k: int| 0 <= k < i ==> !expression_uses_linked(#[trigger] pv[k]),
                decreases parts.len() - i,
            {
                assert(pv[i as int] == parts@[i as int]@);
                proof {
                    lemma_part_decreases(*expression, *parts, i as int);
                }
                if q_expression_uses_linked_entity(&parts[i]) {
                    assert(expression_uses_linked(pv[i as int]));
                    return true;
                }
                i += 1;
            }
            false
        },
    }
}

/// Scope values of an entity: its `scope` string, or the strings of its
/// `scope` array.
pub open spec fn scope_values_of(v: JsonV) -> Seq<Seq<char>> {
    match v.get("scope"@) {
        Some(JsonV::Str(s)) => seq![s],
        Some(JsonV::Array(items)) => items.filter(|i: JsonV| i is Str).map_values(|i: JsonV| i->Str_0),
        _ => Seq::empty(),
    }
}

/// Extracts scope values from entity payload.
pub fn extract_scope_values(value: &Json) -> (r: Vec<String>)
    ensures
        views(r@) == scope_values_of(value@),
{
    let mut out: Vec<String> = Vec::new();
    match value.get_member("scope") {
        Some(Json::Str(s)) => {
            out.push(s.clone());
            assert(views(out@) =~= seq![s@]);
        },
        Some(Json::Array(items)) => {
            proof {
                lemma_array_view(*items);
            }
            let ghost sv = json_views(items@);
            let ghost pred = |i: JsonV| i is Str;
            let mut k: usize = 0;
            assert(sv.take(0).filter(pred) =~= Seq::<JsonV>::empty()) by {
                reveal(Seq::filter);
            }
            while k < items.len()
                invariant
                    k <= items.len(),
                    sv == json_views(items@),
                    pred == (|i: JsonV| i is Str),
                    views(out@) == sv.take(k as int).filter(pred).map_values(|i: JsonV| i->Str_0),
                decreases items.len() - k,
            {
                proof {
                    lemma_filter_take(sv, pred, k as int);
                }
                assert(sv[k as int] == items@[k as int]@);
                match &items[k] {
                    Json::Str(t) => {
                        let ghost before = out@;
                        out.push(t.clone());
                        assert(views(out@) =~= views(before).push(t@));
                        assert(sv.take(k + 1).filter(pred).map_values(|i: JsonV| i->Str_0) =~= sv.take(
                            k as int,
                        ).filter(pred).map_values(|i: JsonV| i->Str_0).push(t@));
                    },
                    _ => {},
                }
                k += 1;
            }
            assert(sv.take(items.len() as int) =~= sv);
        },
        _ => {
            assert(views(out@) =~= Seq::<Seq<char>>::empty());
        },
    }
    out
}

} // verus!
