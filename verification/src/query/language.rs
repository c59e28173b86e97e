//! The NGSI-LD `q` query language: its syntax tree and parser.
//!
//! An expression is a disjunction (`|`) of conjunctions (`;`) of terms; a
//! term is a parenthesised expression, an attribute path alone (the
//! attribute exists), or an attribute path, an operator and a literal.
use vstd::prelude::*;
use crate::error::{BrokerError, ParseFailure, error_message, failure_message, lemma_detailed_failure, with_detail};
use crate::json::{Json, JsonV, json_text_value, json_text_string, parse_json_text, parse_json_string, json_views, lemma_array_view};
use crate::number::{decimal_bits, finite_number_bits};
use crate::scan::{
    first_top_char, find_top_level_char, find_matching_delimiter, closes_at, split_top,
    split_top_level, split_once_top_level, structural, top_at, strip_parens, wrapped,
    find_top_level_operator, operator_occurs, operator_at, operator_chars, q_operator, is_wrapped_by_parentheses,
    strip_wrapping_parentheses, lemma_split_top_not_longer, lemma_strip_parens_len,
};
use crate::text::{
    chars_of, chars_eq_ignore_ascii_case, eq_ignore_ascii_case, occurs_at, join_chars, split_on, split_items, split_items_chars, string_of, strings_of, text_around, trim, trim_chars,
    sub_chars, views, lemma_trim_is_subrange, nonempty_items,
};

verus! {

/// Whether a character has the Unicode `Alphabetic` property, as
/// `char::is_alphabetic` decides it.
pub uninterp spec fn char_alphabetic(c: char) -> bool;

/// Whether a character is alphabetic or numeric in Unicode, as
/// `char::is_alphanumeric` decides it.
pub uninterp spec fn char_alphanumeric(c: char) -> bool;

/// Calls `char::is_alphabetic`. Its documentation defines the result as the
/// Unicode `Alphabetic` property, which is named here and not written out;
/// the contract adds that among ASCII characters exactly the letters have
/// it.
#[verifier::external_body]
fn is_alphabetic(c: char) -> (r: bool)
    ensures
        r == char_alphabetic(c),
        ('a' <= c <= 'z' || 'A' <= c <= 'Z') ==> r,
        (c < '\u{80}' && !('a' <= c <= 'z' || 'A' <= c <= 'Z')) ==> !r,
{
    c.is_alphabetic()
}

/// Calls `char::is_alphanumeric` (alphabetic or numeric in Unicode); the
/// property is named, and the contract adds that among ASCII characters
/// exactly the letters and digits have it.
#[verifier::external_body]
fn is_alphanumeric(c: char) -> (r: bool)
    ensures
        r == char_alphanumeric(c),
        ('a' <= c <= 'z' || 'A' <= c <= 'Z' || '0' <= c <= '9') ==> r,
        (c < '\u{80}' && !('a' <= c <= 'z' || 'A' <= c <= 'Z' || '0' <= c <= '9')) ==> !r,
{
    c.is_alphanumeric()
}

/// A trailing member selector of an attribute path.
#[derive(Debug)]
pub enum TrailingPath {
    Members(Vec<String>),
    AnyLanguage,
}

/// An attribute path of a `q` term.
#[derive(Debug)]
pub enum QueryAttribute {
    ValuePath { segments: Vec<String>, trailing_path: Option<TrailingPath> },
    LinkedEntity { relation: String, entity_types: Vec<String>, attribute: Box<QueryAttribute> },
}

/// View of a trailing selector.
pub enum TrailingPathV {
    Members(Seq<Seq<char>>),
    AnyLanguage,
}

/// View of an attribute path.
pub enum QueryAttributeV {
    ValuePath { segments: Seq<Seq<char>>, trailing_path: Option<TrailingPathV> },
    LinkedEntity {
        relation: Seq<char>,
        entity_types: Seq<Seq<char>>,
        attribute: Box<QueryAttributeV>,
    },
}

impl View for TrailingPath {
    type V = TrailingPathV;

    open spec fn view(&self) -> TrailingPathV {
        match self {
            TrailingPath::Members(m) => TrailingPathV::Members(views(m@)),
            TrailingPath::AnyLanguage => TrailingPathV::AnyLanguage,
        }
    }
}

/// View of an attribute path.
pub open spec fn attribute_view(a: QueryAttribute) -> QueryAttributeV
    decreases a,
{
    match a {
        QueryAttribute::ValuePath { segments, trailing_path } => QueryAttributeV::ValuePath {
            segments: views(segments@),
            trailing_path: match trailing_path {
                Some(t) => Some(t@),
                None => None,
            },
        },
        QueryAttribute::LinkedEntity { relation, entity_types, attribute } => {
            QueryAttributeV::LinkedEntity {
                relation: relation@,
                entity_types: views(entity_types@),
                attribute: Box::new(attribute_view(*attribute)),
            }
        },
    }
}

impl View for QueryAttribute {
    type V = QueryAttributeV;

    open spec fn view(&self) -> QueryAttributeV {
        attribute_view(*self)
    }
}

/// The right-hand side of `==` and `!=`.
#[derive(Debug)]
pub enum EqualityOperand {
    Single(Json),
    List(Vec<Json>),
    Range(Json, Json),
}

/// View of an equality operand.
pub enum EqualityOperandV {
    Single(JsonV),
    List(Seq<JsonV>),
    Range(JsonV, JsonV),
}

impl View for EqualityOperand {
    type V = EqualityOperandV;

    open spec fn view(&self) -> EqualityOperandV {
        match self {
            EqualityOperand::Single(v) => EqualityOperandV::Single(v@),
            EqualityOperand::List(vs) => EqualityOperandV::List(json_views(vs@)),
            EqualityOperand::Range(a, b) => EqualityOperandV::Range(a@, b@),
        }
    }
}

/// A parsed `q` expression.
#[derive(Debug)]
pub enum QExpression {
    Exists(QueryAttribute),
    Eq(QueryAttribute, EqualityOperand),
    Neq(QueryAttribute, EqualityOperand),
    Gt(QueryAttribute, Json),
    Gte(QueryAttribute, Json),
    Lt(QueryAttribute, Json),
    Lte(QueryAttribute, Json),
    Pattern(QueryAttribute, String),
    NotPattern(QueryAttribute, String),
    And(Vec<QExpression>),
    Or(Vec<QExpression>),
}

/// View of a `q` expression.
pub enum QExpressionV {
    Exists(QueryAttributeV),
    Eq(QueryAttributeV, EqualityOperandV),
    Neq(QueryAttributeV, EqualityOperandV),
    Gt(QueryAttributeV, JsonV),
    Gte(QueryAttributeV, JsonV),
    Lt(QueryAttributeV, JsonV),
    Lte(QueryAttributeV, JsonV),
    Pattern(QueryAttributeV, Seq<char>),
    NotPattern(QueryAttributeV, Seq<char>),
    And(Seq<QExpressionV>),
    Or(Seq<QExpressionV>),
}

/// View of a `q` expression.
pub open spec fn expression_view(e: QExpression) -> QExpressionV
    decreases e,
{
    match e {
        QExpression::Exists(a) => QExpressionV::Exists(a@),
        QExpression::Eq(a, o) => QExpressionV::Eq(a@, o@),
        QExpression::Neq(a, o) => QExpressionV::Neq(a@, o@),
        QExpression::Gt(a, v) => QExpressionV::Gt(a@, v@),
        QExpression::Gte(a, v) => QExpressionV::Gte(a@, v@),
        QExpression::Lt(a, v) => QExpressionV::Lt(a@, v@),
        QExpression::Lte(a, v) => QExpressionV::Lte(a@, v@),
        QExpression::Pattern(a, p) => QExpressionV::Pattern(a@, p@),
        QExpression::NotPattern(a, p) => QExpressionV::NotPattern(a@, p@),
        QExpression::And(parts) => QExpressionV::And(
            Seq::new(
                parts@.len(),
                |i: int|
                    if 0 <= i < parts@.len() {
                        expression_view(parts@[i])
                    } else {
                        QExpressionV::And(Seq::empty())
                    },
            ),
        ),
        QExpression::Or(parts) => QExpressionV::Or(
            Seq::new(
                parts@.len(),
                |i: int|
                    if 0 <= i < parts@.len() {
                        expression_view(parts@[i])
                    } else {
                        QExpressionV::And(Seq::empty())
                    },
            ),
        ),
    }
}

impl View for QExpression {
    type V = QExpressionV;

    open spec fn view(&self) -> QExpressionV {
        expression_view(*self)
    }
}

/// Views of a sequence of expressions.
pub open spec fn expression_views(parts: Seq<QExpression>) -> Seq<QExpressionV> {
    parts.map_values(|e: QExpression| e@)
}

/// The view of an `And` node is the views of its parts.
pub proof fn lemma_and_view(parts: Vec<QExpression>)
    ensures
        QExpression::And(parts)@ == QExpressionV::And(expression_views(parts@)),
{
    reveal_with_fuel(expression_view, 2);
    let ev = expression_views(parts@);
    match expression_view(QExpression::And(parts)) {
        QExpressionV::And(s) => {
            assert forall|i: int| 0 <= i < ev.len() implies #[trigger] s[i] == ev[i] by {
                assert(s[i] == expression_view(parts@[i]));
            }
            assert(s =~= ev);
        },
        _ => {},
    }
}

/// The view of an `Or` node is the views of its parts.
pub proof fn lemma_or_view(parts: Vec<QExpression>)
    ensures
        QExpression::Or(parts)@ == QExpressionV::Or(expression_views(parts@)),
{
    reveal_with_fuel(expression_view, 2);
    let ev = expression_views(parts@);
    match expression_view(QExpression::Or(parts)) {
        QExpressionV::Or(s) => {
            assert forall|i: int| 0 <= i < ev.len() implies #[trigger] s[i] == ev[i] by {
                assert(s[i] == expression_view(parts@[i]));
            }
            assert(s =~= ev);
        },
        _ => {},
    }
}

/// All members present: the sequence of their contents; else `None`.
pub open spec fn all_some<T>(s: Seq<Option<T>>) -> Option<Seq<T>> {
    if forall|i: int| 0 <= i < s.len() ==> #[trigger] s[i] is Some {
        Some(s.map_values(|o: Option<T>| o->0))
    } else {
        None
    }
}

/// Position of the first item of `s` that fails `ok` (the length when
/// every item passes).
pub open spec fn first_failing<T>(s: Seq<T>, ok: spec_fn(T) -> bool) -> int {
    if exists|i: int| 0 <= i < s.len() && !ok(s[i]) {
        choose|i: int| 0 <= i < s.len() && !ok(s[i]) && forall|k: int| 0 <= k < i ==> ok(s[k])
    } else {
        s.len() as int
    }
}

/// An item that fails, after items that all pass, is the first that fails.
pub proof fn lemma_first_failing<T>(s: Seq<T>, ok: spec_fn(T) -> bool, i: int)
    requires
        0 <= i < s.len(),
        !ok(s[i]),
        forall|k: int| 0 <= k < i ==> ok(s[k]),
    ensures
        first_failing(s, ok) == i,
{
    let c = choose|c: int| 0 <= c < s.len() && !ok(s[c]) && forall|k: int| 0 <= k < c ==> ok(s[k]);
    assert(0 <= c < s.len() && !ok(s[c]) && forall|k: int| 0 <= k < c ==> ok(s[k]));
    if c < i {
        assert(ok(s[c]));
    }
    if c > i {
        assert(ok(s[i]));
    }
}

/// The message of a failed name check for a name of kind `label`.
pub open spec fn name_error(value: Seq<char>, label: Seq<char>) -> Seq<char> {
    if value.len() == 0 {
        "invalid "@ + label + " name"@
    } else {
        "invalid "@ + label + " name "@ + value
    }
}

/// A valid name: a letter, then letters, digits or underscores.
pub open spec fn valid_name(s: Seq<char>) -> bool {
    &&& s.len() > 0
    &&& char_alphabetic(s[0])
    &&& forall|i: int| 1 <= i < s.len() ==> char_alphanumeric(#[trigger] s[i]) || s[i] == '_'
}

/// The names of a dotted path: the trimmed non-empty pieces between dots,
/// each a valid name, and at least one.
pub open spec fn dotted_names(raw: Seq<char>) -> Option<Seq<Seq<char>>> {
    let names = split_items(raw, '.');
    if names.len() > 0 && forall|i: int| 0 <= i < names.len() ==> valid_name(#[trigger] names[i]) {
        Some(names)
    } else {
        None
    }
}

/// Position of the delimiter that closes the group opened at `from`.
pub open spec fn matching_close(s: Seq<char>, from: int, open: char, close: char) -> Option<int> {
    if exists|k: int| from <= k < s.len() && closes_at(s, from, k, open, close) {
        Some(
            choose|k: int|
                from <= k < s.len() && closes_at(s, from, k, open, close) && forall|j: int|
                    from <= j < k ==> !closes_at(s, from, j, open, close),
        )
    } else {
        None
    }
}

/// A plain attribute path, with an optional trailing selector in brackets.
pub open spec fn value_path(raw: Seq<char>) -> Option<QueryAttributeV> {
    match first_top_char(raw, '[') {
        Some(start) => match matching_close(raw, start, '[', ']') {
            None => None,
            Some(end) => if end + 1 != raw.len() || !(0 <= start < end) {
                None
            } else {
                let trailing = trim(raw.subrange(start + 1, end));
                let tp = if trailing == seq!['*'] {
                    Some(TrailingPathV::AnyLanguage)
                } else {
                    match dotted_names(trailing) {
                        Some(n) => Some(TrailingPathV::Members(n)),
                        None => None,
                    }
                };
                match tp {
                    None => None,
                    Some(t) => match dotted_names(trim(raw.take(start))) {
                        Some(segments) => Some(
                            QueryAttributeV::ValuePath { segments, trailing_path: Some(t) },
                        ),
                        None => None,
                    },
                }
            },
        },
        None => match dotted_names(trim(raw)) {
            Some(segments) => Some(QueryAttributeV::ValuePath { segments, trailing_path: None }),
            None => None,
        },
    }
}

/// An attribute path: a relation followed by a linked-entity path in
/// braces, or a plain attribute path.
pub open spec fn query_attribute(raw: Seq<char>) -> Option<QueryAttributeV>
    decreases raw.len(), 0int,
{
    let t = trim(raw);
    if t.len() == 0 {
        None
    } else {
        match first_top_char(t, '{') {
            Some(open) => {
                let relation = trim(t.take(open));
                if !valid_name(relation) {
                    None
                } else {
                    match matching_close(t, open, '{', '}') {
                        None => None,
                        Some(close) => if close + 1 != t.len() || !(0 <= open < close)
                            || t.len() > raw.len() {
                            None
                        } else {
                            match linked_path(t.subrange(open + 1, close)) {
                                Some((entity_types, attribute)) => Some(
                                    QueryAttributeV::LinkedEntity {
                                        relation,
                                        entity_types,
                                        attribute: Box::new(attribute),
                                    },
                                ),
                                None => None,
                            }
                        },
                    }
                }
            },
            None => value_path(t),
        }
    }
}

/// A linked-entity path: optional entity types before a top-level `:`,
/// then an attribute path.
pub open spec fn linked_path(raw: Seq<char>) -> Option<(Seq<Seq<char>>, QueryAttributeV)>
    decreases raw.len(), 1int,
{
    match first_top_char(raw, ':') {
        Some(i) => {
            let types = split_items(raw.take(i), ',');
            if !(forall|k: int| 0 <= k < types.len() ==> valid_name(#[trigger] types[k])) || types.len()
                == 0 || !(0 <= i < raw.len()) {
                None
            } else {
                match query_attribute(raw.skip(i + 1)) {
                    Some(a) => Some((types, a)),
                    None => None,
                }
            }
        },
        None => match query_attribute(raw) {
            Some(a) => Some((Seq::empty(), a)),
            None => None,
        },
    }
}

/// The message for a dotted path that `dotted_names` refuses: that of its
/// first invalid name, else the path itself.
pub open spec fn dotted_error(raw: Seq<char>, label: Seq<char>) -> Seq<char> {
    let names = split_items(raw, '.');
    let i = first_failing(names, |n: Seq<char>| valid_name(n));
    if 0 <= i < names.len() {
        name_error(names[i], label)
    } else {
        "invalid "@ + label + " path "@ + raw
    }
}

/// The message for an attribute path that `value_path` refuses.
pub open spec fn value_path_error(raw: Seq<char>) -> Seq<char> {
    match first_top_char(raw, '[') {
        Some(start) => match matching_close(raw, start, '[', ']') {
            None => "invalid query attribute path "@ + raw,
            Some(end) => if end + 1 != raw.len() || !(0 <= start < end) {
                "invalid query attribute path "@ + raw
            } else {
                let trailing = trim(raw.subrange(start + 1, end));
                if trailing != seq!['*'] && dotted_names(trailing) is None {
                    dotted_error(trailing, "query trailing path"@)
                } else {
                    dotted_error(trim(raw.take(start)), "query attribute"@)
                }
            },
        },
        None => dotted_error(trim(raw), "query attribute"@),
    }
}

/// The message for an attribute path that `query_attribute` refuses.
pub open spec fn attribute_error(raw: Seq<char>) -> Seq<char>
    decreases raw.len(), 0int,
{
    let t = trim(raw);
    if t.len() == 0 {
        "empty q attribute path"@
    } else {
        match first_top_char(t, '{') {
            Some(open) => {
                let relation = trim(t.take(open));
                if !valid_name(relation) {
                    name_error(relation, "query relation"@)
                } else {
                    match matching_close(t, open, '{', '}') {
                        None => "invalid linked entity path "@ + t,
                        Some(close) => if close + 1 != t.len() || !(0 <= open < close) || t.len()
                            > raw.len() {
                            "invalid linked entity path "@ + t
                        } else {
                            linked_error(t.subrange(open + 1, close))
                        },
                    }
                }
            },
            None => value_path_error(t),
        }
    }
}

/// The message for a linked-entity path that `linked_path` refuses.
pub open spec fn linked_error(raw: Seq<char>) -> Seq<char>
    decreases raw.len(), 1int,
{
    match first_top_char(raw, ':') {
        Some(i) => {
            let types = split_items(raw.take(i), ',');
            let k = first_failing(types, |n: Seq<char>| valid_name(n));
            if 0 <= k < types.len() {
                name_error(types[k], "query entity type"@)
            } else if types.len() == 0 || !(0 <= i < raw.len()) {
                "invalid linked entity path "@ + raw
            } else {
                attribute_error(raw.skip(i + 1))
            }
        },
        None => attribute_error(raw),
    }
}

/// The position found by `find_matching_delimiter` is `matching_close`.
proof fn lemma_matching_close(s: Seq<char>, from: int, open: char, close: char, r: Option<usize>)
    requires
        match r {
            Some(k) => from <= k < s.len() && closes_at(s, from, k as int, open, close) && forall|j: int|
                from <= j < k ==> !closes_at(s, from, j, open, close),
            None => forall|j: int| from <= j < s.len() ==> !closes_at(s, from, j, open, close),
        },
    ensures
        match r {
            Some(k) => matching_close(s, from, open, close) == Some(k as int),
            None => matching_close(s, from, open, close) is None,
        },
{
    match r {
        Some(k) => {
            assert(from <= k < s.len() && closes_at(s, from, k as int, open, close));
            let c = choose|c: int|
                from <= c < s.len() && closes_at(s, from, c, open, close) && forall|j: int|
                    from <= j < c ==> !closes_at(s, from, j, open, close);
            if c < k {
                assert(!closes_at(s, from, c, open, close));
            }
            if c > k {
                assert(!closes_at(s, from, k as int, open, close));
            }
        },
        None => {},
    }
}

/// An error for a malformed piece of text: `before`, the text, `after`.
fn invalid_text(before: &str, text: &Vec<char>, after: &str) -> (r: BrokerError)
    ensures
        r is BadRequest,
        error_message(r) == before@ + text@ + after@,
{
    BrokerError::BadRequest(text_around(before, text, after))
}

/// Validates attribute, relation, and scope segment names.
pub fn validate_name(value: &Vec<char>, label: &str) -> (r: Result<(), BrokerError>)
    ensures
        r is Ok <==> valid_name(value@),
        r matches Err(e) ==> e is BadRequest && error_message(e) == name_error(value@, label@),
{
    if value.len() == 0 {
        let empty: Vec<char> = Vec::new();
        let l = chars_of(label);
        let m = join_chars(&l, &empty);
        let r = invalid_text("invalid ", &m, " name");
        assert(error_message(r) =~= name_error(value@, label@));
        return Err(r);
    }
    if !is_alphabetic(value[0]) {
        return Err(bad_name(value, label));
    }
    let mut i: usize = 1;
    while i < value.len()
        invariant
            1 <= i <= value.len(),
            forall|k: int| 1 <= k < i ==> char_alphanumeric(#[trigger] value@[k]) || value@[k] == '_',
        decreases value.len() - i,
    {
        let c = value[i];
        if !(is_alphanumeric(c) || c == '_') {
            return Err(bad_name(value, label));
        }
        i += 1;
    }
    Ok(())
}

/// The error for a non-empty name that is not valid.
fn bad_name(value: &Vec<char>, label: &str) -> (r: BrokerError)
    requires
        value.len() > 0,
    ensures
        r is BadRequest,
        error_message(r) == name_error(value@, label@),
{
    let l = chars_of(label);
    let sp = chars_of(" name ");
    let m = join_chars(&l, &sp);
    let m2 = join_chars(&m, value);
    let r = invalid_text("invalid ", &m2, "");
    proof {
        reveal_strlit("");
    }
    assert(error_message(r) =~= name_error(value@, label@));
    r
}

/// Validates each name of a list.
pub fn validate_names(items: &Vec<Vec<char>>, label: &str) -> (r: Result<(), BrokerError>)
    ensures
        r is Ok <==> forall|k: int| 0 <= k < items.len() ==> valid_name(#[trigger] items@[k]@),
        r matches Err(e) ==> e is BadRequest && {
            let k = first_failing(items@.map_values(|v: Vec<char>| v@), |n: Seq<char>| valid_name(n));
            0 <= k < items.len() && error_message(e) == name_error(items@[k]@, label@)
        },
{
    let mut k: usize = 0;
    while k < items.len()
        invariant
            k <= items.len(),
            forall|m: int| 0 <= m < k ==> valid_name(#[trigger] items@[m]@),
        decreases items.len() - k,
    {
        match validate_name(&items[k], label) {
            Ok(()) => {},
            Err(e) => {
                proof {
                    let vs = items@.map_values(|v: Vec<char>| v@);
                    assert forall|m: int| 0 <= m < k implies (|n: Seq<char>| valid_name(n))(
                        #[trigger] vs[m],
                    ) by {
                        assert(vs[m] == items@[m]@);
                    }
                    assert(vs[k as int] == items@[k as int]@);
                    lemma_first_failing(vs, |n: Seq<char>| valid_name(n), k as int);
                }
                return Err(e);
            },
        }
        k += 1;
    }
    Ok(())
}

/// Splits dotted path into validated segment names.
pub fn parse_dotted_names(raw: &Vec<char>, label: &str) -> (r: Result<Vec<String>, BrokerError>)
    ensures
        match r {
            Ok(v) => dotted_names(raw@) == Some(views(v@)),
            Err(e) => dotted_names(raw@) is None && e is BadRequest && error_message(e) == dotted_error(
                raw@,
                label@,
            ),
        },
{
    let items = split_items_chars(raw, '.');
    let ghost names = split_items(raw@, '.');
    assert(items@.map_values(|v: Vec<char>| v@) == names);
    let mut i: usize = 0;
    while i < items.len()
        invariant
            i <= items.len(),
            items@.map_values(|v: Vec<char>| v@) == names,
            names == split_items(raw@, '.'),
            forall|k: int| 0 <= k < i ==> valid_name(#[trigger] names[k]),
        decreases items.len() - i,
    {
        assert(names[i as int] == items@[i as int]@);
        match validate_name(&items[i], label) {
            Ok(()) => {},
            Err(e) => {
                assert(!valid_name(names[i as int]));
                proof {
                    assert forall|k: int| 0 <= k < i implies (|n: Seq<char>| valid_name(n))(
                        #[trigger] names[k],
                    ) by {}
                    lemma_first_failing(names, |n: Seq<char>| valid_name(n), i as int);
                }
                return Err(e);
            },
        }
        i += 1;
    }
    if items.len() == 0 {
        let l = chars_of(label);
        let sp = chars_of(" path ");
        let m = join_chars(&l, &sp);
        let m2 = join_chars(&m, raw);
        let err = invalid_text("invalid ", &m2, "");
        proof {
            reveal_strlit("");
        }
        assert(error_message(err) =~= dotted_error(raw@, label@));
        return Err(err);
    }
    let r = strings_of(&items);
    assert(views(r@) =~= names);
    Ok(r)
}

/// Parses plain attribute path with optional trailing member selector.
pub fn parse_value_path(raw: &Vec<char>) -> (r: Result<QueryAttribute, BrokerError>)
    ensures
        match r {
            Ok(a) => value_path(raw@) == Some(a@),
            Err(e) => value_path(raw@) is None && e is BadRequest && error_message(e) == value_path_error(
                raw@,
            ),
        },
{
    match find_top_level_char(raw, '[') {
        Some(start) => {
            let end_opt = find_matching_delimiter(raw, start, '[', ']');
            proof {
                lemma_matching_close(raw@, start as int, '[', ']', end_opt);
            }
            match end_opt {
                None => {
                    let err = invalid_text("invalid query attribute path ", raw, "");
                    proof {
                        reveal_strlit("");
                    }
                    assert(error_message(err) =~= value_path_error(raw@));
                    Err(err)
                },
                Some(end) => {
                    if end + 1 != raw.len() {
                        let err = invalid_text("invalid query attribute path ", raw, "");
                        proof {
                            reveal_strlit("");
                        }
                        assert(error_message(err) =~= value_path_error(raw@));
                        return Err(err);
                    }
                    assert(end != start);
                    let inner = sub_chars(raw, start + 1, end);
                    let trailing = trim_chars(&inner);
                    let tp = if trailing.len() == 1 && trailing[0] == '*' {
                        assert(trailing@ =~= seq!['*']);
                        TrailingPath::AnyLanguage
                    } else {
                        assert(trailing@ != seq!['*']);
                        match parse_dotted_names(&trailing, "query trailing path") {
                            Ok(n) => TrailingPath::Members(n),
                            Err(e) => {
                                return Err(e);
                            },
                        }
                    };
                    let base = sub_chars(raw, 0, start);
                    let bt = trim_chars(&base);
                    assert(base@ =~= raw@.take(start as int));
                    match parse_dotted_names(&bt, "query attribute") {
                        Ok(segments) => Ok(
                            QueryAttribute::ValuePath { segments, trailing_path: Some(tp) },
                        ),
                        Err(e) => Err(e),
                    }
                },
            }
        },
        None => {
            let t = trim_chars(raw);
            match parse_dotted_names(&t, "query attribute") {
                Ok(segments) => Ok(QueryAttribute::ValuePath { segments, trailing_path: None }),
                Err(e) => Err(e),
            }
        },
    }
}

/// Parses query attribute path, including linked-entity syntax.
pub fn parse_query_attribute(raw: &Vec<char>) -> (r: Result<QueryAttribute, BrokerError>)
    ensures
        match r {
            Ok(a) => query_attribute(raw@) == Some(a@),
            Err(e) => query_attribute(raw@) is None && e is BadRequest && error_message(e) == attribute_error(
                raw@,
            ),
        },
    decreases raw.len(), 0int,
{
    let t = trim_chars(raw);
    proof {
        lemma_trim_is_subrange(raw@);
    }
    if t.len() == 0 {
        return Err(BrokerError::bad_request("empty q attribute path"));
    }
    match find_top_level_char(&t, '{') {
        Some(open) => {
            let rel0 = sub_chars(&t, 0, open);
            assert(rel0@ =~= t@.take(open as int));
            let relation = trim_chars(&rel0);
            match validate_name(&relation, "query relation") {
                Ok(()) => {},
                Err(e) => {
                    return Err(e);
                },
            }
            let close_opt = find_matching_delimiter(&t, open, '{', '}');
            proof {
                lemma_matching_close(t@, open as int, '{', '}', close_opt);
            }
            match close_opt {
                None => {
                    let err = invalid_text("invalid linked entity path ", &t, "");
                    proof {
                        reveal_strlit("");
                    }
                    assert(error_message(err) =~= attribute_error(raw@));
                    Err(err)
                },
                Some(close) => {
                    if close + 1 != t.len() {
                        let err = invalid_text("invalid linked entity path ", &t, "");
                        proof {
                            reveal_strlit("");
                        }
                        assert(error_message(err) =~= attribute_error(raw@));
                        return Err(err);
                    }
                    assert(close != open);
                    let inner = sub_chars(&t, open + 1, close);
                    match parse_linked_entity_path(&inner) {
                        Ok((entity_types, attribute)) => {
                            let rel = string_of(&relation);
                            let r = QueryAttribute::LinkedEntity {
                                relation: rel,
                                entity_types,
                                attribute: Box::new(attribute),
                            };
                            Ok(r)
                        },
                        Err(e) => Err(e),
                    }
                },
            }
        },
        None => parse_value_path(&t),
    }
}

/// Parses linked-entity type filter and nested attribute path.
pub fn parse_linked_entity_path(raw: &Vec<char>) -> (r: Result<(Vec<String>, QueryAttribute), BrokerError>)
    ensures
        match r {
            Ok((types, a)) => linked_path(raw@) == Some((views(types@), a@)),
            Err(e) => linked_path(raw@) is None && e is BadRequest && error_message(e) == linked_error(raw@),
        },
    decreases raw.len(), 1int,
{
    match find_top_level_char(raw, ':') {
        Some(i) => {
            let head = sub_chars(raw, 0, i);
            assert(head@ =~= raw@.take(i as int));
            let items = split_items_chars(&head, ',');
            let ghost types = split_items(raw@.take(i as int), ',');
            match validate_names(&items, "query entity type") {
                Ok(()) => {
                    assert forall|m: int| 0 <= m < types.len() implies valid_name(
                        #[trigger] types[m],
                    ) by {
                        assert(types[m] == items@[m]@);
                    }
                },
                Err(e) => {
                    proof {
                        let m = choose|m: int| 0 <= m < items.len() && !valid_name(#[trigger] items@[m]@);
                        assert(types[m] == items@[m]@);
                        assert(items@.map_values(|v: Vec<char>| v@) =~= types);
                    }
                    return Err(e);
                },
            }
            if items.len() == 0 {
                let err = invalid_text("invalid linked entity path ", raw, "");
                proof {
                    reveal_strlit("");
                }
                assert(error_message(err) =~= linked_error(raw@));
                return Err(err);
            }
            assert(first_failing(types, |n: Seq<char>| valid_name(n)) == types.len());
            let rest = sub_chars(raw, i + 1, raw.len());
            assert(rest@ =~= raw@.skip(i + 1));
            match parse_query_attribute(&rest) {
                Ok(a) => {
                    let names = strings_of(&items);
                    assert(views(names@) =~= types);
                    Ok((names, a))
                },
                Err(e) => Err(e),
            }
        },
        None => match parse_query_attribute(raw) {
            Ok(a) => {
                let names: Vec<String> = Vec::new();
                assert(views(names@) =~= Seq::<Seq<char>>::empty());
                Ok((names, a))
            },
            Err(e) => Err(e),
        },
    }
}

/// Whether `regex::Regex::new` accepts a pattern.
pub uninterp spec fn regex_compiles(pattern: Seq<char>) -> bool;

/// Whether the regex of a pattern matches somewhere in a text, as
/// `regex::Regex::is_match` decides it.
pub uninterp spec fn regex_finds(pattern: Seq<char>, text: Seq<char>) -> bool;

/// Compiles a pattern with `regex::Regex::new`; `Ok` exactly when it
/// compiles (named `regex_compiles`), else the error's display text, of
/// which nothing is said.
#[verifier::external_body]
pub(crate) fn check_regex(pattern: &str) -> (r: Result<(), String>)
    ensures
        r is Ok <==> regex_compiles(pattern@),
{
    regex::Regex::new(pattern).map(|_| ()).map_err(|e| e.to_string())
}

/// Compiles a pattern with `regex::Regex::new` and calls `is_match` on a
/// text; the result is named `regex_finds`.
#[verifier::external_body]
pub(crate) fn regex_is_match(pattern: &str, text: &str) -> (r: bool)
    requires
        regex_compiles(pattern@),
    ensures
        r == regex_finds(pattern@, text@),
{
    match regex::Regex::new(pattern) {
        Ok(re) => re.is_match(text),
        Err(_) => false,
    }
}

/// A `q` literal as a JSON value: JSON text when it starts like a JSON
/// string, array or object; `true`/`false` in any ASCII case; a number
/// when it reads as a finite number; otherwise the text as a string.
pub open spec fn query_value(raw: Seq<char>) -> Option<JsonV> {
    if raw.len() > 0 && (raw[0] == '"' || raw[0] == '[' || raw[0] == '{') {
        json_text_value(raw)
    } else if eq_ignore_ascii_case(raw, "true"@) {
        Some(JsonV::Bool(true))
    } else if eq_ignore_ascii_case(raw, "false"@) {
        Some(JsonV::Bool(false))
    } else if decimal_bits(raw) is Some {
        Some(JsonV::Number(raw))
    } else {
        Some(JsonV::Str(raw))
    }
}

/// A literal that can be ordered: a number or a string.
pub open spec fn comparable_value(raw: Seq<char>) -> Option<JsonV> {
    match query_value(raw) {
        Some(v) => if v is Number || v is Str {
            Some(v)
        } else {
            None
        },
        None => None,
    }
}

/// Least top-level position of a text at which `needle` occurs.
pub open spec fn first_top_occurrence(s: Seq<char>, needle: Seq<char>) -> Option<int> {
    if exists|k: int| 0 <= k < s.len() && top_at(s, k) && occurs_at(s, k, needle) {
        Some(
            choose|k: int|
                0 <= k < s.len() && top_at(s, k) && occurs_at(s, k, needle) && forall|j: int|
                    0 <= j < k ==> !(top_at(s, j) && occurs_at(s, j, needle)),
        )
    } else {
        None
    }
}

/// The right-hand side of `==`/`!=`: a range `a..b`, a comma list, or one
/// value.
pub open spec fn equality_operand(raw: Seq<char>) -> Option<EqualityOperandV> {
    match first_top_occurrence(raw, seq!['.', '.']) {
        Some(k) => match (
            comparable_value(trim(raw.take(k))),
            comparable_value(trim(raw.skip(k + 2))),
        ) {
            (Some(a), Some(b)) => Some(EqualityOperandV::Range(a, b)),
            _ => None,
        },
        None => {
            let parts = split_top(raw, seq![',']);
            if parts.len() > 1 {
                match all_some(parts.map_values(|p: Seq<char>| query_value(trim(p)))) {
                    Some(vs) => Some(EqualityOperandV::List(vs)),
                    None => None,
                }
            } else {
                match query_value(trim(raw)) {
                    Some(v) => Some(EqualityOperandV::Single(v)),
                    None => None,
                }
            }
        },
    }
}

/// A regular-expression operand: a JSON string literal or the raw text;
/// it must compile.
pub open spec fn regex_pattern(raw: Seq<char>) -> Option<Seq<char>> {
    let p = if raw.len() > 0 && raw[0] == '"' {
        json_text_string(raw)
    } else {
        Some(raw)
    };
    match p {
        Some(p) => if regex_compiles(p) {
            Some(p)
        } else {
            None
        },
        None => None,
    }
}

/// The first top-level operator of a term: its position and its index in
/// the operator list.
pub open spec fn first_top_operator(s: Seq<char>) -> Option<(int, int)> {
    if exists|k: int| 0 <= k < s.len() && top_at(s, k) && operator_occurs(s, k) {
        let k = choose|k: int|
            0 <= k < s.len() && top_at(s, k) && operator_occurs(s, k) && forall|j: int|
                0 <= j < k ==> !(top_at(s, j) && operator_occurs(s, j));
        Some((k, operator_at(s, k)))
    } else {
        None
    }
}

/// A disjunction of conjunctions.
pub open spec fn q_or(e: Seq<char>) -> Option<QExpressionV>
    decreases e.len(), 5int, 0int,
{
    let s = strip_parens(e);
    let parts = split_top(s, seq!['|']);
    if s.len() > e.len() {
        None
    } else if parts.len() > 1 {
        match or_parts(parts, e.len() as int) {
            Some(v) => Some(QExpressionV::Or(v)),
            None => None,
        }
    } else {
        q_and(s)
    }
}

/// The conjunctions of the parts of a disjunction, each no longer than
/// `bound`; `None` when one of them does not parse.
pub open spec fn or_parts(parts: Seq<Seq<char>>, bound: int) -> Option<Seq<QExpressionV>>
    decreases bound, 4int, parts.len(),
{
    if parts.len() == 0 {
        Some(Seq::empty())
    } else if parts.last().len() > bound || bound < 0 {
        None
    } else {
        match (or_parts(parts.drop_last(), bound), q_and(parts.last())) {
            (Some(v), Some(x)) => Some(v.push(x)),
            _ => None,
        }
    }
}

/// A conjunction of terms.
pub open spec fn q_and(e: Seq<char>) -> Option<QExpressionV>
    decreases e.len(), 3int, 0int,
{
    let s = strip_parens(e);
    let parts = split_top(s, seq![';']);
    if s.len() > e.len() {
        None
    } else if parts.len() > 1 {
        match and_parts(parts, e.len() as int) {
            Some(v) => Some(QExpressionV::And(v)),
            None => None,
        }
    } else {
        q_term(s)
    }
}

/// The terms of the parts of a conjunction, each no longer than `bound`;
/// `None` when one of them does not parse.
pub open spec fn and_parts(parts: Seq<Seq<char>>, bound: int) -> Option<Seq<QExpressionV>>
    decreases bound, 2int, parts.len(),
{
    if parts.len() == 0 {
        Some(Seq::empty())
    } else if parts.last().len() > bound || bound < 0 {
        None
    } else {
        match (and_parts(parts.drop_last(), bound), q_term(parts.last())) {
            (Some(v), Some(x)) => Some(v.push(x)),
            _ => None,
        }
    }
}

/// The expression a term builds from its operator (by index in the
/// operator list), attribute and right-hand side.
pub open spec fn operator_term(j: int, a: QueryAttributeV, right: Seq<char>) -> Option<QExpressionV> {
    if j == 0 {
        match regex_pattern(right) {
            Some(p) => Some(QExpressionV::NotPattern(a, p)),
            None => None,
        }
    } else if j == 1 {
        match regex_pattern(right) {
            Some(p) => Some(QExpressionV::Pattern(a, p)),
            None => None,
        }
    } else if j == 2 {
        match comparable_value(right) {
            Some(v) => Some(QExpressionV::Gte(a, v)),
            None => None,
        }
    } else if j == 3 {
        match comparable_value(right) {
            Some(v) => Some(QExpressionV::Lte(a, v)),
            None => None,
        }
    } else if j == 4 {
        match equality_operand(right) {
            Some(o) => Some(QExpressionV::Neq(a, o)),
            None => None,
        }
    } else if j == 5 {
        match equality_operand(right) {
            Some(o) => Some(QExpressionV::Eq(a, o)),
            None => None,
        }
    } else if j == 6 {
        match comparable_value(right) {
            Some(v) => Some(QExpressionV::Gt(a, v)),
            None => None,
        }
    } else {
        match comparable_value(right) {
            Some(v) => Some(QExpressionV::Lt(a, v)),
            None => None,
        }
    }
}

/// One term: a parenthesised expression, an attribute alone, or an
/// attribute, an operator and a right-hand side.
pub open spec fn q_term(e: Seq<char>) -> Option<QExpressionV>
    decreases e.len(), 1int, 0int,
{
    let t = trim(e);
    if wrapped(t) && 2 <= t.len() <= e.len() {
        q_or(t.subrange(1, t.len() - 1))
    } else {
        match first_top_operator(t) {
            None => match query_attribute(t) {
                Some(a) => Some(QExpressionV::Exists(a)),
                None => None,
            },
            Some((k, j)) => match query_attribute(t.take(k)) {
                None => None,
                Some(a) => {
                    let right = trim(t.skip(k + q_operator(j).len()));
                    if right.len() == 0 {
                        None
                    } else {
                        operator_term(j, a, right)
                    }
                },
            },
        }
    }
}

/// The failure of a disjunction that `q_or` refuses: that of its first
/// refused part.
pub open spec fn q_or_error(e: Seq<char>) -> ParseFailure
    decreases e.len(), 5int,
{
    let s = strip_parens(e);
    let parts = split_top(s, seq!['|']);
    if s.len() > e.len() {
        ParseFailure::Message(Seq::empty())
    } else if parts.len() > 1 {
        let i = first_failing(parts, |p: Seq<char>| and_result(p) is Some);
        if 0 <= i < parts.len() && parts[i].len() <= e.len() {
            q_and_error(parts[i])
        } else {
            ParseFailure::Message(Seq::empty())
        }
    } else {
        q_and_error(s)
    }
}

/// The failure of a conjunction that `q_and` refuses: that of its first
/// refused term.
pub open spec fn q_and_error(e: Seq<char>) -> ParseFailure
    decreases e.len(), 3int,
{
    let s = strip_parens(e);
    let parts = split_top(s, seq![';']);
    if s.len() > e.len() {
        ParseFailure::Message(Seq::empty())
    } else if parts.len() > 1 {
        let i = first_failing(parts, |p: Seq<char>| term_result(p) is Some);
        if 0 <= i < parts.len() && parts[i].len() <= e.len() {
            q_term_error(parts[i])
        } else {
            ParseFailure::Message(Seq::empty())
        }
    } else {
        q_term_error(s)
    }
}

/// The failure of a term that `q_term` refuses.
pub open spec fn q_term_error(e: Seq<char>) -> ParseFailure
    decreases e.len(), 1int,
{
    let t = trim(e);
    if wrapped(t) && 2 <= t.len() <= e.len() {
        q_or_error(t.subrange(1, t.len() - 1))
    } else {
        match first_top_operator(t) {
            None => ParseFailure::Message(attribute_error(t)),
            Some((k, j)) => if query_attribute(t.take(k)) is None {
                ParseFailure::Message(attribute_error(t.take(k)))
            } else {
                let right = trim(t.skip(k + q_operator(j).len()));
                if right.len() == 0 {
                    ParseFailure::Message("missing right-hand side in q expression term: "@ + t)
                } else {
                    operator_error(j, right)
                }
            },
        }
    }
}

/// `q_or_error`, held opaque so that proofs unfold it only on request.
#[verifier::opaque]
pub open spec fn or_failure(e: Seq<char>) -> ParseFailure {
    q_or_error(e)
}

/// `q_and_error`, held opaque so that proofs unfold it only on request.
#[verifier::opaque]
pub open spec fn and_failure(e: Seq<char>) -> ParseFailure {
    q_and_error(e)
}

/// `q_term_error`, held opaque so that proofs unfold it only on request.
#[verifier::opaque]
pub open spec fn term_failure(e: Seq<char>) -> ParseFailure {
    q_term_error(e)
}

/// The failure of a `q` parameter that `q_expression` refuses.
pub open spec fn q_expression_error(q: Option<Seq<char>>) -> ParseFailure {
    match q {
        Some(text) => q_or_error(trim(text)),
        None => ParseFailure::Message(Seq::empty()),
    }
}

/// An optional `q` parameter: absent or blank means no filter.
pub open spec fn q_expression(q: Option<Seq<char>>) -> Option<Option<QExpressionV>> {
    match q {
        None => Some(None),
        Some(text) => if trim(text).len() == 0 {
            Some(None)
        } else {
            match q_or(trim(text)) {
                Some(e) => Some(Some(e)),
                None => None,
            }
        },
    }
}

/// The failure of a literal that `query_value` refuses: JSON text that
/// does not parse.
pub open spec fn value_error(raw: Seq<char>) -> ParseFailure {
    ParseFailure::Detailed("invalid q literal "@ + raw)
}

/// The failure of a literal that `comparable_value` refuses.
pub open spec fn comparable_error(raw: Seq<char>) -> ParseFailure {
    if query_value(raw) is None {
        value_error(raw)
    } else {
        ParseFailure::Message("invalid comparable q literal "@ + raw)
    }
}

/// The failure of an operand that `equality_operand` refuses: that of
/// the first bound or list item refused.
pub open spec fn operand_error(raw: Seq<char>) -> ParseFailure {
    match first_top_occurrence(raw, seq!['.', '.']) {
        Some(k) => if comparable_value(trim(raw.take(k))) is None {
            comparable_error(trim(raw.take(k)))
        } else {
            comparable_error(trim(raw.skip(k + 2)))
        },
        None => {
            let parts = split_top(raw, seq![',']);
            if parts.len() > 1 {
                value_error(
                    trim(parts[first_failing(parts, |p: Seq<char>| query_value(trim(p)) is Some)]),
                )
            } else {
                value_error(trim(raw))
            }
        },
    }
}

/// The failure of a regular-expression operand that `regex_pattern`
/// refuses: a JSON string that does not parse, or a pattern that does not
/// compile.
pub open spec fn regex_error(raw: Seq<char>) -> ParseFailure {
    if raw.len() > 0 && raw[0] == '"' {
        match json_text_string(raw) {
            Some(p) => ParseFailure::Detailed("invalid q regex "@ + p),
            None => ParseFailure::Detailed("invalid q regex "@ + raw),
        }
    } else {
        ParseFailure::Detailed("invalid q regex "@ + raw)
    }
}

/// The failure of a right-hand side that `operator_term` refuses.
pub open spec fn operator_error(j: int, right: Seq<char>) -> ParseFailure {
    if j == 0 || j == 1 {
        regex_error(right)
    } else if j == 4 || j == 5 {
        operand_error(right)
    } else {
        comparable_error(right)
    }
}

/// An error for a malformed piece of text with a detail:
/// `before`, the text, `": "`, the detail.
fn invalid_with_detail(before: &str, text: &Vec<char>, detail: &String) -> (r: BrokerError)
    ensures
        r is BadRequest,
        error_message(r) == before@ + text@ + ": "@ + detail@,
{
    let sep = chars_of(": ");
    let d = chars_of(detail.as_str());
    let sd = join_chars(&sep, &d);
    let m = join_chars(text, &sd);
    let r = BrokerError::BadRequest(text_around(before, &m, ""));
    proof {
        reveal_strlit("");
    }
    assert(error_message(r) =~= before@ + text@ + ": "@ + detail@);
    r
}

/// Parses `q` literal into JSON value.
pub fn parse_query_value(raw: &Vec<char>) -> (r: Result<Json, BrokerError>)
    ensures
        match r {
            Ok(v) => query_value(raw@) == Some(v@),
            Err(e) => query_value(raw@) is None && e is BadRequest && failure_message(
                error_message(e),
                value_error(raw@),
            ),
        },
{
    if raw.len() > 0 && (raw[0] == '"' || raw[0] == '[' || raw[0] == '{') {
        let text = string_of(raw);
        match parse_json_text(text.as_str()) {
            Ok(v) => Ok(v),
            Err(detail) => {
                let err = invalid_with_detail("invalid q literal ", raw, &detail);
                proof {
                    lemma_detailed_failure(error_message(err), "invalid q literal "@ + raw@, detail@);
                }
                assert(failure_message(error_message(err), value_error(raw@)));
                Err(err)
            },
        }
    } else {
        let tr = chars_of("true");
        let fa = chars_of("false");
        if chars_eq_ignore_ascii_case(raw, &tr) {
            Ok(Json::Bool(true))
        } else if chars_eq_ignore_ascii_case(raw, &fa) {
            Ok(Json::Bool(false))
        } else {
            let text = string_of(raw);
            match finite_number_bits(text.as_str()) {
                Some(_) => Ok(Json::Number(text)),
                None => Ok(Json::Str(text)),
            }
        }
    }
}

/// Parses comparable `q` literal restricted to strings or numbers.
pub fn parse_comparable_value(raw: &Vec<char>) -> (r: Result<Json, BrokerError>)
    ensures
        match r {
            Ok(v) => comparable_value(raw@) == Some(v@),
            Err(e) => comparable_value(raw@) is None && e is BadRequest && failure_message(
                error_message(e),
                comparable_error(raw@),
            ),
        },
{
    let v = match parse_query_value(raw) {
        Ok(v) => v,
        Err(e) => {
            return Err(e);
        },
    };
    match v {
        Json::Number(_) | Json::Str(_) => Ok(v),
        _ => {
            let err = invalid_text("invalid comparable q literal ", raw, "");
            proof {
                reveal_strlit("");
            }
            assert(error_message(err) =~= "invalid comparable q literal "@ + raw@);
            Err(err)
        },
    }
}

/// The position found by `split_once_top_level` is `first_top_occurrence`.
proof fn lemma_first_top_occurrence(s: Seq<char>, needle: Seq<char>, k: int)
    requires
        0 <= k < s.len(),
        top_at(s, k),
        occurs_at(s, k, needle),
        forall|j: int| 0 <= j < k ==> !(top_at(s, j) && occurs_at(s, j, needle)),
    ensures
        first_top_occurrence(s, needle) == Some(k),
{
    let c = choose|c: int|
        0 <= c < s.len() && top_at(s, c) && occurs_at(s, c, needle) && forall|j: int|
            0 <= j < c ==> !(top_at(s, j) && occurs_at(s, j, needle));
    if c < k {
        assert(!(top_at(s, c) && occurs_at(s, c, needle)));
    }
    if c > k {
        assert(!(top_at(s, k) && occurs_at(s, k, needle)));
    }
}

/// Parses equality operand as single value, list, or range.
pub fn parse_equality_operand(raw: &Vec<char>) -> (r: Result<EqualityOperand, BrokerError>)
    ensures
        match r {
            Ok(o) => equality_operand(raw@) == Some(o@),
            Err(e) => equality_operand(raw@) is None && e is BadRequest && failure_message(
                error_message(e),
                operand_error(raw@),
            ),
        },
{
    let dots = vec!['.', '.'];
    assert(dots@ =~= seq!['.', '.']);
    match split_once_top_level(raw, &dots) {
        Some((lower, upper)) => {
            proof {
                let k = choose|k: int|
                    0 <= k < raw.len() && top_at(raw@, k) && occurs_at(raw@, k, dots@) && (forall|j: int|
                        0 <= j < k ==> !(top_at(raw@, j) && occurs_at(raw@, j, dots@))) && lower@
                        == raw@.take(k) && upper@ == raw@.skip(k + dots.len());
                lemma_first_top_occurrence(raw@, dots@, k);
                assert(lower@ == raw@.take(first_top_occurrence(raw@, seq!['.', '.'])->0));
                assert(upper@ == raw@.skip(first_top_occurrence(raw@, seq!['.', '.'])->0 + 2));
            }
            let lt = trim_chars(&lower);
            let ut = trim_chars(&upper);
            let a = match parse_comparable_value(&lt) {
                Ok(a) => a,
                Err(e) => {
                    return Err(e);
                },
            };
            let b = match parse_comparable_value(&ut) {
                Ok(b) => b,
                Err(e) => {
                    return Err(e);
                },
            };
            Ok(EqualityOperand::Range(a, b))
        },
        None => {
            assert(first_top_occurrence(raw@, dots@) is None);
            let comma = vec![','];
            assert(comma@ =~= seq![',']);
            assert(!structural(comma@[0]));
            let parts = split_top_level(raw, &comma);
            let ghost ps = split_top(raw@, seq![',']);
            if parts.len() > 1 {
                let mut vals: Vec<Json> = Vec::new();
                let mut i: usize = 0;
                while i < parts.len()
                    invariant
                        i <= parts.len(),
                        parts@.map_values(|v: Vec<char>| v@) == ps,
                        ps == split_top(raw@, seq![',']),
                        parts.len() > 1,
                        first_top_occurrence(raw@, seq!['.', '.']) is None,
                        vals.len() == i,
                        forall|k: int| 0 <= k < i ==> query_value(trim(#[trigger] ps[k])) == Some(vals@[k]@),
                    decreases parts.len() - i,
                {
                    assert(ps[i as int] == parts@[i as int]@);
                    let t = trim_chars(&parts[i]);
                    match parse_query_value(&t) {
                        Ok(v) => {
                            vals.push(v);
                        },
                        Err(e) => {
                            assert(parts@.map_values(|p: Vec<char>| p@) == ps);
                            assert(ps.map_values(|p: Seq<char>| query_value(trim(p)))[i as int] is None);
                            assert(all_some(ps.map_values(|p: Seq<char>| query_value(trim(p)))) is None);
                            proof {
                                assert forall|k: int| 0 <= k < i implies (|p: Seq<char>| query_value(trim(p)) is Some)(
                                    #[trigger] ps[k],
                                ) by {}
                                lemma_first_failing(ps, |p: Seq<char>| query_value(trim(p)) is Some, i as int);
                            }
                            return Err(e);
                        },
                    }
                    i += 1;
                }
                proof {
                    let qs = ps.map_values(|p: Seq<char>| query_value(trim(p)));
                    assert forall|k: int| 0 <= k < qs.len() implies #[trigger] qs[k] is Some by {
                        assert(qs[k] == query_value(trim(ps[k])));
                    }
                    lemma_array_view(vals);
                    assert(qs.map_values(|o: Option<JsonV>| o->0) =~= json_views(vals@));
                }
                Ok(EqualityOperand::List(vals))
            } else {
                let t = trim_chars(raw);
                match parse_query_value(&t) {
                    Ok(v) => Ok(EqualityOperand::Single(v)),
                    Err(e) => Err(e),
                }
            }
        },
    }
}

/// Validates and normalizes regex operand.
pub fn parse_regex_pattern(raw: &Vec<char>) -> (r: Result<String, BrokerError>)
    ensures
        match r {
            Ok(p) => regex_pattern(raw@) == Some(p@),
            Err(e) => regex_pattern(raw@) is None && e is BadRequest && failure_message(
                error_message(e),
                regex_error(raw@),
            ),
        },
{
    let pattern = if raw.len() > 0 && raw[0] == '"' {
        let text = string_of(raw);
        match parse_json_string(text.as_str()) {
            Ok(p) => p,
            Err(detail) => {
                let err = invalid_with_detail("invalid q regex ", raw, &detail);
                proof {
                    lemma_detailed_failure(error_message(err), "invalid q regex "@ + raw@, detail@);
                }
                assert(failure_message(error_message(err), regex_error(raw@)));
                return Err(err);
            },
        }
    } else {
        string_of(raw)
    };
    match check_regex(pattern.as_str()) {
        Ok(()) => Ok(pattern),
        Err(detail) => {
            let pc = chars_of(pattern.as_str());
            let err = invalid_with_detail("invalid q regex ", &pc, &detail);
            proof {
                lemma_detailed_failure(error_message(err), "invalid q regex "@ + pattern@, detail@);
            }
            assert(failure_message(error_message(err), regex_error(raw@)));
            Err(err)
        },
    }
}

/// The operator found by `find_top_level_operator` is `first_top_operator`.
proof fn lemma_first_top_operator(s: Seq<char>, k: int, j: int)
    requires
        0 <= k < s.len(),
        top_at(s, k),
        0 <= j < 8,
        occurs_at(s, k, q_operator(j)),
        forall|i: int| 0 <= i < j ==> !occurs_at(s, k, q_operator(i)),
        forall|m: int| 0 <= m < k ==> !(top_at(s, m) && operator_occurs(s, m)),
    ensures
        first_top_operator(s) == Some((k, j)),
{
    assert(operator_occurs(s, k));
    let c = choose|c: int|
        0 <= c < s.len() && top_at(s, c) && operator_occurs(s, c) && forall|m: int|
            0 <= m < c ==> !(top_at(s, m) && operator_occurs(s, m));
    if c < k {
        assert(!(top_at(s, c) && operator_occurs(s, c)));
    }
    if c > k {
        assert(!(top_at(s, k) && operator_occurs(s, k)));
    }
    assert(c == k);
    let o = operator_at(s, k);
    assert(0 <= o < 8 && occurs_at(s, k, q_operator(o)) && forall|i: int|
        0 <= i < o ==> !occurs_at(s, k, q_operator(i)));
    if o < j {
        assert(!occurs_at(s, k, q_operator(o)));
    }
    if o > j {
        assert(!occurs_at(s, k, q_operator(j)));
    }
}

/// Builds the expression of a term from its operator index, attribute and
/// right-hand side.
fn build_operator_term(j: usize, a: QueryAttribute, right: &Vec<char>) -> (r: Result<QExpression, BrokerError>)
    requires
        j < 8,
    ensures
        match r {
            Ok(e) => operator_term(j as int, a@, right@) == Some(e@),
            Err(e) => operator_term(j as int, a@, right@) is None && e is BadRequest && failure_message(
                error_message(e),
                operator_error(j as int, right@),
            ),
        },
{
    if j == 0 || j == 1 {
        match parse_regex_pattern(right) {
            Ok(p) => if j == 0 {
                Ok(QExpression::NotPattern(a, p))
            } else {
                Ok(QExpression::Pattern(a, p))
            },
            Err(e) => Err(e),
        }
    } else if j == 4 || j == 5 {
        match parse_equality_operand(right) {
            Ok(o) => if j == 4 {
                Ok(QExpression::Neq(a, o))
            } else {
                Ok(QExpression::Eq(a, o))
            },
            Err(e) => Err(e),
        }
    } else {
        match parse_comparable_value(right) {
            Ok(v) => if j == 2 {
                Ok(QExpression::Gte(a, v))
            } else if j == 3 {
                Ok(QExpression::Lte(a, v))
            } else if j == 6 {
                Ok(QExpression::Gt(a, v))
            } else {
                Ok(QExpression::Lt(a, v))
            },
            Err(e) => Err(e),
        }
    }
}

/// `q_or`, held opaque so that proofs unfold it only on request.
#[verifier::opaque]
pub open spec fn or_result(e: Seq<char>) -> Option<QExpressionV> {
    q_or(e)
}

/// `q_and`, held opaque so that proofs unfold it only on request.
#[verifier::opaque]
pub open spec fn and_result(e: Seq<char>) -> Option<QExpressionV> {
    q_and(e)
}

/// `q_term`, held opaque so that proofs unfold it only on request.
#[verifier::opaque]
pub open spec fn term_result(e: Seq<char>) -> Option<QExpressionV> {
    q_term(e)
}

/// `or_parts`, held opaque so that proofs unfold it only on request.
#[verifier::opaque]
pub open spec fn or_list(ps: Seq<Seq<char>>, bound: int) -> Option<Seq<QExpressionV>> {
    or_parts(ps, bound)
}

/// `and_parts`, held opaque so that proofs unfold it only on request.
#[verifier::opaque]
pub open spec fn and_list(ps: Seq<Seq<char>>, bound: int) -> Option<Seq<QExpressionV>> {
    and_parts(ps, bound)
}

/// One unfolding of `q_or`.
proof fn lemma_or_result(e: Seq<char>)
    ensures
        or_result(e) == (if strip_parens(e).len() > e.len() {
            None
        } else if split_top(strip_parens(e), seq!['|']).len() > 1 {
            match or_list(split_top(strip_parens(e), seq!['|']), e.len() as int) {
                Some(v) => Some(QExpressionV::Or(v)),
                None => None,
            }
        } else {
            and_result(strip_parens(e))
        }),
{
    reveal(or_result);
    reveal(or_list);
    reveal(and_result);
}

/// One unfolding of `q_and`.
proof fn lemma_and_result(e: Seq<char>)
    ensures
        and_result(e) == (if strip_parens(e).len() > e.len() {
            None
        } else if split_top(strip_parens(e), seq![';']).len() > 1 {
            match and_list(split_top(strip_parens(e), seq![';']), e.len() as int) {
                Some(v) => Some(QExpressionV::And(v)),
                None => None,
            }
        } else {
            term_result(strip_parens(e))
        }),
{
    reveal(and_result);
    reveal(and_list);
    reveal(term_result);
}

/// One unfolding of `q_term`.
proof fn lemma_term_result(e: Seq<char>)
    ensures
        term_result(e) == (if wrapped(trim(e)) && 2 <= trim(e).len() <= e.len() {
            or_result(trim(e).subrange(1, trim(e).len() - 1))
        } else {
            match first_top_operator(trim(e)) {
                None => match query_attribute(trim(e)) {
                    Some(a) => Some(QExpressionV::Exists(a)),
                    None => None,
                },
                Some((k, j)) => match query_attribute(trim(e).take(k)) {
                    None => None,
                    Some(a) => {
                        let right = trim(trim(e).skip(k + q_operator(j).len()));
                        if right.len() == 0 {
                            None
                        } else {
                            operator_term(j, a, right)
                        }
                    },
                },
            }
        }),
{
    reveal(term_result);
    reveal(or_result);
}

/// One more part of a disjunction.
proof fn lemma_or_list_step(ps: Seq<Seq<char>>, bound: int, i: int)
    requires
        0 <= i < ps.len(),
        ps[i].len() <= bound,
    ensures
        (or_list(ps.take(i), bound) is Some && and_result(ps[i]) is Some) ==> or_list(ps.take(i + 1), bound)
            == Some(or_list(ps.take(i), bound)->0.push(and_result(ps[i])->0)),
        !(or_list(ps.take(i), bound) is Some && and_result(ps[i]) is Some) ==> or_list(ps.take(i + 1), bound) is None,
{
    reveal(or_list);
    reveal(and_result);
    lemma_or_parts_step(ps, bound, i);
}

/// One more part of a conjunction.
proof fn lemma_and_list_step(ps: Seq<Seq<char>>, bound: int, i: int)
    requires
        0 <= i < ps.len(),
        ps[i].len() <= bound,
    ensures
        (and_list(ps.take(i), bound) is Some && term_result(ps[i]) is Some) ==> and_list(ps.take(i + 1), bound)
            == Some(and_list(ps.take(i), bound)->0.push(term_result(ps[i])->0)),
        !(and_list(ps.take(i), bound) is Some && term_result(ps[i]) is Some) ==> and_list(ps.take(i + 1), bound) is None,
{
    reveal(and_list);
    reveal(term_result);
    lemma_and_parts_step(ps, bound, i);
}

/// A failing part makes the whole disjunction fail.
proof fn lemma_or_list_none(ps: Seq<Seq<char>>, bound: int, i: int)
    requires
        0 <= i < ps.len(),
        or_list(ps.take(i + 1), bound) is None,
    ensures
        or_list(ps, bound) is None,
{
    reveal(or_list);
    lemma_or_parts_none(ps, bound, i);
}

/// A failing part makes the whole conjunction fail.
proof fn lemma_and_list_none(ps: Seq<Seq<char>>, bound: int, i: int)
    requires
        0 <= i < ps.len(),
        and_list(ps.take(i + 1), bound) is None,
    ensures
        and_list(ps, bound) is None,
{
    reveal(and_list);
    lemma_and_parts_none(ps, bound, i);
}

/// Parses top-level OR branches in `q` expression.
#[verifier::rlimit(30)]
pub fn parse_q_or(e: &Vec<char>) -> (r: Result<QExpression, BrokerError>)
    ensures
        match r {
            Ok(x) => or_result(e@) == Some(x@),
            Err(err) => or_result(e@) is None && err is BadRequest && failure_message(
                error_message(err),
                or_failure(e@),
            ),
        },
    decreases e.len(), 5int, 0int,
{
    proof {
        lemma_or_result(e@);
    }
    let s = strip_wrapping_parentheses(e);
    proof {
        lemma_strip_parens_len(e@);
    }
    let sepv = vec!['|'];
    assert(sepv@ =~= seq!['|']);
    assert(!structural(sepv@[0]));
    let parts = split_top_level(&s, &sepv);
    let ghost ps = split_top(s@, seq!['|']);
    proof {
        lemma_split_top_not_longer(s@, seq!['|']);
    }
    if parts.len() > 1 {
        let mut out: Vec<QExpression> = Vec::new();
        let mut i: usize = 0;
        assert(ps.take(0) =~= Seq::<Seq<char>>::empty());
        assert(expression_views(out@) =~= Seq::<QExpressionV>::empty());
        proof {
            reveal(or_list);
            reveal_with_fuel(or_parts, 1);
        }
        while i < parts.len()
            invariant
                i <= parts.len(),
                parts@.map_values(|v: Vec<char>| v@) == ps,
                forall|k: int| 0 <= k < ps.len() ==> #[trigger] ps[k].len() <= s@.len(),
                s@.len() <= e@.len(),
                s@ == strip_parens(e@),
                ps == split_top(s@, seq!['|']),
                ps.len() > 1,
                or_list(ps.take(i as int), e@.len() as int) == Some(expression_views(out@)),
                forall|k: int| 0 <= k < i ==> and_result(#[trigger] ps[k]) is Some,
            decreases parts.len() - i,
        {
            assert(ps[i as int] == parts@[i as int]@);
            assert(parts@[i as int]@.len() <= e.len());
            proof {
                lemma_or_list_step(ps, e@.len() as int, i as int);
            }
            match parse_q_and(&parts[i]) {
                Ok(x) => {
                    out.push(x);
                    assert(expression_views(out@) =~= expression_views(out@.drop_last()).push(x@));
                },
                Err(err) => {
                    proof {
                        lemma_or_list_none(ps, e@.len() as int, i as int);
                        lemma_or_result(e@);
                        assert forall|k: int| 0 <= k < i implies (|p: Seq<char>| and_result(p) is Some)(
                            #[trigger] ps[k],
                        ) by {}
                        lemma_first_failing(ps, |p: Seq<char>| and_result(p) is Some, i as int);
                    }
                    assert(or_failure(e@) == and_failure(ps[i as int])) by {
                        reveal(or_failure);
                        reveal(and_failure);
                    }
                    return Err(err);
                },
            }
            i += 1;
        }
        assert(ps.take(parts.len() as int) =~= ps);
        proof {
            lemma_or_view(out);
        }
        Ok(QExpression::Or(out))
    } else {
        assert(or_failure(e@) == and_failure(s@)) by {
            reveal(or_failure);
            reveal(and_failure);
        }
        parse_q_and(&s)
    }
}

/// One more part: `or_parts` of a longer prefix.
proof fn lemma_or_parts_step(ps: Seq<Seq<char>>, bound: int, i: int)
    requires
        0 <= i < ps.len(),
        ps[i].len() <= bound,
    ensures
        (or_parts(ps.take(i), bound) is Some && q_and(ps[i]) is Some) ==> or_parts(ps.take(i + 1), bound)
            == Some(or_parts(ps.take(i), bound)->0.push(q_and(ps[i])->0)),
        !(or_parts(ps.take(i), bound) is Some && q_and(ps[i]) is Some) ==> or_parts(ps.take(i + 1), bound) is None,
{
    let t = ps.take(i + 1);
    assert(t.drop_last() =~= ps.take(i));
    assert(t.last() == ps[i]);
    assert(!(t.last().len() > bound || bound < 0));
    assert(t.len() != 0);
    lemma_or_parts_unfold(t, bound);
}

/// Unfolds `or_parts` once.
proof fn lemma_or_parts_unfold(t: Seq<Seq<char>>, bound: int)
    requires
        t.len() > 0,
        t.last().len() <= bound,
        0 <= bound,
    ensures
        or_parts(t, bound) == match (or_parts(t.drop_last(), bound), q_and(t.last())) {
            (Some(v), Some(x)) => Some(v.push(x)),
            _ => None,
        },
{
    assert(!(t.last().len() > bound || bound < 0));
    assert(t.len() != 0);
    let a = or_parts(t.drop_last(), bound);
    let b = q_and(t.last());
    assert(or_parts(t, bound) == match (a, b) {
        (Some(v), Some(x)) => Some(v.push(x)),
        _ => None,
    });
}

/// A part that fails makes every longer prefix fail.
proof fn lemma_or_parts_none(ps: Seq<Seq<char>>, bound: int, i: int)
    requires
        0 <= i < ps.len(),
        or_parts(ps.take(i + 1), bound) is None,
    ensures
        or_parts(ps, bound) is None,
    decreases ps.len() - i,
{
    if i + 1 < ps.len() {
        
        assert(ps.take(i + 2).drop_last() =~= ps.take(i + 1));
        lemma_or_parts_none(ps, bound, i + 1);
    } else {
        assert(ps.take(i + 1) =~= ps);
    }
}

/// One more part: `and_parts` of a longer prefix.
proof fn lemma_and_parts_step(ps: Seq<Seq<char>>, bound: int, i: int)
    requires
        0 <= i < ps.len(),
        ps[i].len() <= bound,
    ensures
        (and_parts(ps.take(i), bound) is Some && q_term(ps[i]) is Some) ==> and_parts(ps.take(i + 1), bound)
            == Some(and_parts(ps.take(i), bound)->0.push(q_term(ps[i])->0)),
        !(and_parts(ps.take(i), bound) is Some && q_term(ps[i]) is Some) ==> and_parts(ps.take(i + 1), bound) is None,
{
    let t = ps.take(i + 1);
    assert(t.drop_last() =~= ps.take(i));
    assert(t.last() == ps[i]);
    assert(!(t.last().len() > bound || bound < 0));
    assert(t.len() != 0);
    lemma_and_parts_unfold(t, bound);
}

/// Unfolds `and_parts` once.
proof fn lemma_and_parts_unfold(t: Seq<Seq<char>>, bound: int)
    requires
        t.len() > 0,
        t.last().len() <= bound,
        0 <= bound,
    ensures
        and_parts(t, bound) == match (and_parts(t.drop_last(), bound), q_term(t.last())) {
            (Some(v), Some(x)) => Some(v.push(x)),
            _ => None,
        },
{
    assert(!(t.last().len() > bound || bound < 0));
    assert(t.len() != 0);
    let a = and_parts(t.drop_last(), bound);
    let b = q_term(t.last());
    assert(and_parts(t, bound) == match (a, b) {
        (Some(v), Some(x)) => Some(v.push(x)),
        _ => None,
    });
}

/// A part that fails makes every longer prefix fail.
proof fn lemma_and_parts_none(ps: Seq<Seq<char>>, bound: int, i: int)
    requires
        0 <= i < ps.len(),
        and_parts(ps.take(i + 1), bound) is None,
    ensures
        and_parts(ps, bound) is None,
    decreases ps.len() - i,
{
    if i + 1 < ps.len() {
        
        assert(ps.take(i + 2).drop_last() =~= ps.take(i + 1));
        lemma_and_parts_none(ps, bound, i + 1);
    } else {
        assert(ps.take(i + 1) =~= ps);
    }
}

/// Parses top-level AND branches in `q` expression.
#[verifier::rlimit(30)]
pub fn parse_q_and(e: &Vec<char>) -> (r: Result<QExpression, BrokerError>)
    ensures
        match r {
            Ok(x) => and_result(e@) == Some(x@),
            Err(err) => and_result(e@) is None && err is BadRequest && failure_message(
                error_message(err),
                and_failure(e@),
            ),
        },
    decreases e.len(), 3int, 0int,
{
    proof {
        lemma_and_result(e@);
    }
    let s = strip_wrapping_parentheses(e);
    proof {
        lemma_strip_parens_len(e@);
    }
    let sepv = vec![';'];
    assert(sepv@ =~= seq![';']);
    assert(!structural(sepv@[0]));
    let parts = split_top_level(&s, &sepv);
    let ghost ps = split_top(s@, seq![';']);
    proof {
        lemma_split_top_not_longer(s@, seq![';']);
    }
    if parts.len() > 1 {
        let mut out: Vec<QExpression> = Vec::new();
        let mut i: usize = 0;
        assert(ps.take(0) =~= Seq::<Seq<char>>::empty());
        assert(expression_views(out@) =~= Seq::<QExpressionV>::empty());
        proof {
            reveal(and_list);
            reveal_with_fuel(and_parts, 1);
        }
        while i < parts.len()
            invariant
                i <= parts.len(),
                parts@.map_values(|v: Vec<char>| v@) == ps,
                forall|k: int| 0 <= k < ps.len() ==> #[trigger] ps[k].len() <= s@.len(),
                s@.len() <= e@.len(),
                s@ == strip_parens(e@),
                ps == split_top(s@, seq![';']),
                ps.len() > 1,
                and_list(ps.take(i as int), e@.len() as int) == Some(expression_views(out@)),
                forall|k: int| 0 <= k < i ==> term_result(#[trigger] ps[k]) is Some,
            decreases parts.len() - i,
        {
            assert(ps[i as int] == parts@[i as int]@);
            assert(parts@[i as int]@.len() <= e.len());
            proof {
                lemma_and_list_step(ps, e@.len() as int, i as int);
            }
            match parse_q_term(&parts[i]) {
                Ok(x) => {
                    out.push(x);
                    assert(expression_views(out@) =~= expression_views(out@.drop_last()).push(x@));
                },
                Err(err) => {
                    proof {
                        lemma_and_list_none(ps, e@.len() as int, i as int);
                        lemma_and_result(e@);
                        assert forall|k: int| 0 <= k < i implies (|p: Seq<char>| term_result(p) is Some)(
                            #[trigger] ps[k],
                        ) by {}
                        lemma_first_failing(ps, |p: Seq<char>| term_result(p) is Some, i as int);
                    }
                    assert(and_failure(e@) == term_failure(ps[i as int])) by {
                        reveal(and_failure);
                        reveal(term_failure);
                    }
                    return Err(err);
                },
            }
            i += 1;
        }
        assert(ps.take(parts.len() as int) =~= ps);
        proof {
            lemma_and_view(out);
        }
        Ok(QExpression::And(out))
    } else {
        assert(and_failure(e@) == term_failure(s@)) by {
            reveal(and_failure);
            reveal(term_failure);
        }
        parse_q_term(&s)
    }
}

/// Parses one `q` term or parenthesized group.
#[verifier::rlimit(40)]
pub fn parse_q_term(e: &Vec<char>) -> (r: Result<QExpression, BrokerError>)
    ensures
        match r {
            Ok(x) => term_result(e@) == Some(x@),
            Err(err) => term_result(e@) is None && err is BadRequest && failure_message(
                error_message(err),
                term_failure(e@),
            ),
        },
    decreases e.len(), 1int, 0int,
{
    proof {
        lemma_term_result(e@);
    }
    let t = trim_chars(e);
    proof {
        lemma_trim_is_subrange(e@);
    }
    if is_wrapped_by_parentheses(&t) {
        assert(t.len() >= 2) by {
            if t.len() == 1 {
                assert(t@[0] == t@.last());
            }
        }
        let inner = sub_chars(&t, 1, t.len() - 1);
        assert(term_failure(e@) == or_failure(inner@)) by {
            reveal(term_failure);
            reveal(or_failure);
        }
        return parse_q_or(&inner);
    }
    match find_top_level_operator(&t) {
        None => {
            match parse_query_attribute(&t) {
                Ok(a) => Ok(QExpression::Exists(a)),
                Err(err) => {
                    assert(term_failure(e@) == ParseFailure::Message(attribute_error(t@))) by {
                        reveal(term_failure);
                    }
                    Err(err)
                },
            }
        },
        Some((k, j)) => {
            proof {
                lemma_first_top_operator(t@, k as int, j as int);
            }
            let head = sub_chars(&t, 0, k);
            assert(head@ =~= t@.take(k as int));
            let a = match parse_query_attribute(&head) {
                Ok(a) => a,
                Err(err) => {
                    assert(term_failure(e@) == ParseFailure::Message(attribute_error(head@))) by {
                        reveal(term_failure);
                    }
                    return Err(err);
                },
            };
            let op = operator_chars(j);
            let rest = sub_chars(&t, k + op.len(), t.len());
            assert(rest@ =~= t@.skip(k + q_operator(j as int).len()));
            let right = trim_chars(&rest);
            assert(term_failure(e@) == (if right@.len() == 0 {
                ParseFailure::Message("missing right-hand side in q expression term: "@ + t@)
            } else {
                operator_error(j as int, right@)
            })) by {
                reveal(term_failure);
            }
            if right.len() == 0 {
                let err = invalid_text("missing right-hand side in q expression term: ", &t, "");
                proof {
                    reveal_strlit("");
                }
                assert(error_message(err) =~= "missing right-hand side in q expression term: "@ + t@);
                return Err(err);
            }
            build_operator_term(j, a, &right)
        },
    }
}

/// Parses optional `q` string into expression tree.
pub fn parse_q_expression(q: Option<&str>) -> (r: Result<Option<QExpression>, BrokerError>)
    ensures
        match r {
            Ok(x) => q_expression(match q {
                Some(t) => Some(t@),
                None => None,
            }) == Some(
                match x {
                    Some(e) => Some(e@),
                    None => None,
                },
            ),
            Err(err) => q_expression(match q {
                Some(t) => Some(t@),
                None => None,
            }) is None && err is BadRequest && failure_message(
                error_message(err),
                q_expression_error(
                    match q {
                        Some(t) => Some(t@),
                        None => None,
                    },
                ),
            ),
        },
{
    match q {
        None => Ok(None),
        Some(text) => {
            let t = trim_chars(&chars_of(text));
            if t.len() == 0 {
                Ok(None)
            } else {
                proof {
                    reveal(or_result);
                    reveal(or_failure);
                }
                match parse_q_or(&t) {
                    Ok(e) => Ok(Some(e)),
                    Err(err) => Err(err),
                }
            }
        },
    }
}

} // verus!
