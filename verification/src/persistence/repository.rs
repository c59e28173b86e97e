//! Rules shared by the repositories: status fields of stored payloads,
//! notification delivery counters, and the query-plan filter applied to
//! stored documents.
use vstd::prelude::*;
use crate::config::{decimal_string, decimal_text, parse_unsigned, parse_unsigned_text};
use crate::domain::TemporalEntityDocument;
use crate::error::{BrokerError, error_message};
use crate::json::{Json, JsonV, clone_json, entry_views, lemma_object_view, map_insert, member_index, member_position, object_insert};
use crate::query::language::{check_regex, regex_compiles, regex_finds, regex_is_match};
use crate::query::planner::QueryPlan;
use crate::services::common::{entity_type_matches, id_text, type_matches};
use crate::store::{StoredDocument, StoredV, stored_views};
use crate::text::{chars_of, concat_str, string_from, string_of, str_eq, views};

verus! {

/// A value after setting one of its top-level members; other values are
/// left as they are.
pub open spec fn with_status_field(document: JsonV, field: Seq<char>, value: JsonV) -> JsonV {
    match document {
        JsonV::Object(m) => JsonV::Object(object_insert(m, field, value)),
        _ => document,
    }
}

/// Updates one top-level status field in a JSON payload.
pub fn update_status_field(document: &mut Json, field: &str, value: Json)
    ensures
        final(document)@ == with_status_field(old(document)@, field@, value@),
{
    let mut taken = Json::Null;
    std::mem::swap(&mut taken, document);
    match taken {
        Json::Object(mut entries) => {
            proof {
                lemma_object_view(entries);
            }
            map_insert(&mut entries, string_from(field), value);
            proof {
                lemma_object_view(entries);
            }
            *document = Json::Object(entries);
        },
        other => {
            *document = other;
        },
    }
}

/// The value of a JSON number as an unsigned 64-bit integer, when its text
/// is one (digits only, in range); `None` for other texts.
pub open spec fn number_u64(text: Seq<char>) -> Option<int> {
    if text.len() > 0 && text[0] == '+' {
        None
    } else {
        parse_unsigned(text, u64::MAX as int)
    }
}

/// A counter member of a notification: its unsigned value, 0 when absent
/// or not an unsigned integer.
pub open spec fn counter(members: Seq<(Seq<char>, JsonV)>, key: Seq<char>) -> int {
    match JsonV::Object(members).get(key) {
        Some(JsonV::Number(t)) => match number_u64(t) {
            Some(n) => n,
            None => 0,
        },
        _ => 0,
    }
}

/// A notification's members after recording deliveries: `timesSent` grows
/// by the attempts, `status` is `ok` only when none failed, the last
/// notification (and the last success, the last failure) is `now`, and
/// `timesFailed` grows by the failures.
pub open spec fn delivered_members(n: Seq<(Seq<char>, JsonV)>, successes: nat, failures: nat, now: Seq<char>) -> Seq<(Seq<char>, JsonV)> {
    let sent = counter(n, "timesSent"@) + successes + failures;
    let n1 = object_insert(n, "timesSent"@, JsonV::Number(decimal_text(sent as nat)));
    let n2 = object_insert(n1, "status"@, JsonV::Str(if failures == 0 { "ok"@ } else { "failed"@ }));
    let n3 = object_insert(n2, "lastNotification"@, JsonV::Str(now));
    let n4 = if successes > 0 {
        object_insert(n3, "lastSuccess"@, JsonV::Str(now))
    } else {
        n3
    };
    if failures > 0 {
        let failed = counter(n4, "timesFailed"@) + failures;
        object_insert(
            object_insert(n4, "timesFailed"@, JsonV::Number(decimal_text(failed as nat))),
            "lastFailure"@,
            JsonV::Str(now),
        )
    } else {
        n4
    }
}

/// A subscription payload after recording deliveries: nothing changes when
/// there were none; else its `notification` object (when it has one) gets
/// the counters, and `modifiedAt` is `now`.
pub open spec fn delivered(document: JsonV, successes: nat, failures: nat, now: Seq<char>) -> JsonV {
    if successes + failures == 0 {
        document
    } else {
        let updated = match document {
            JsonV::Object(m) => match member_index(m, "notification"@) {
                Some(i) => match m[i].1 {
                    JsonV::Object(n) => JsonV::Object(
                        m.update(i, ("notification"@, JsonV::Object(delivered_members(n, successes, failures, now)))),
                    ),
                    _ => document,
                },
                None => document,
            },
            _ => document,
        };
        with_status_field(updated, "modifiedAt"@, JsonV::Str(now))
    }
}

/// The counters of a payload stay within `u64` after recording deliveries.
pub open spec fn delivery_counts_fit(document: JsonV, successes: nat, failures: nat) -> bool {
    &&& successes + failures <= u64::MAX
    &&& match document {
        JsonV::Object(m) => match member_index(m, "notification"@) {
            Some(i) => match m[i].1 {
                JsonV::Object(n) => counter(n, "timesSent"@) + successes + failures <= u64::MAX && counter(
                    n,
                    "timesFailed"@,
                ) + failures <= u64::MAX,
                _ => true,
            },
            None => true,
        },
        _ => true,
    }
}

/// Reads a counter member of a notification.
fn read_counter(entries: &Vec<(String, Json)>, key: &str) -> (r: u64)
    ensures
        r as int == counter(entry_views(entries@), key@),
{
    proof {
        lemma_object_view(*entries);
    }
    match member_position(entries, key) {
        Some(i) => match &entries[i].1 {
            Json::Number(t) => {
                let cs = chars_of(t.as_str());
                if cs.len() > 0 && cs[0] == '+' {
                    0
                } else {
                    match parse_unsigned_text(&cs, u64::MAX) {
                        Some(v) => v,
                        None => 0,
                    }
                }
            },
            _ => 0,
        },
        None => 0,
    }
}

/// A JSON number holding an unsigned integer.
fn number_of(n: u64) -> (r: Json)
    ensures
        r@ == JsonV::Number(decimal_text(n as nat)),
{
    let cs = decimal_string(n);
    Json::Number(string_of(&cs))
}

/// Records notification deliveries (successes and failures) at `now` in a
/// subscription payload.
pub fn update_delivery_fields(document: &mut Json, successes: u64, failures: u64, now: &str)
    requires
        delivery_counts_fit(old(document)@, successes as nat, failures as nat),
    ensures
        final(document)@ == delivered(old(document)@, successes as nat, failures as nat, now@),
{
    let attempts = successes + failures;
    if attempts == 0 {
        return;
    }
    let mut taken = Json::Null;
    std::mem::swap(&mut taken, document);
    let ghost d0 = taken@;
    let updated = match taken {
        Json::Object(mut entries) => {
            proof {
                lemma_object_view(entries);
            }
            let ghost m = entry_views(entries@);
            match member_position(&entries, "notification") {
                Some(i) => {
                    let item = clone_json(&entries[i].1);
                    match item {
                        Json::Object(mut n) => {
                            proof {
                                lemma_object_view(n);
                            }
                            let ghost nv = entry_views(n@);
                            let sent = read_counter(&n, "timesSent") + attempts;
                            map_insert(&mut n, string_from("timesSent"), number_of(sent));
                            let ghost n1 = entry_views(n@);
                            let status = if failures == 0 {
                                string_from("ok")
                            } else {
                                string_from("failed")
                            };
                            let ghost sv = status@;
                            map_insert(&mut n, string_from("status"), Json::Str(status));
                            let ghost n2 = entry_views(n@);
                            map_insert(&mut n, string_from("lastNotification"), Json::Str(string_from(now)));
                            let ghost n3 = entry_views(n@);
                            if successes > 0 {
                                map_insert(&mut n, string_from("lastSuccess"), Json::Str(string_from(now)));
                            }
                            let ghost n4 = entry_views(n@);
                            proof {
                                reveal_strlit("timesSent");
                                reveal_strlit("timesFailed");
                                reveal_strlit("status");
                                reveal_strlit("lastNotification");
                                reveal_strlit("lastSuccess");
                                assert("timesFailed"@.len() == 11);
                                assert("timesSent"@.len() == 9);
                                assert("timesFailed"@ != "timesSent"@);
                                assert("status"@.len() == 6);
                                assert("lastNotification"@.len() == 16);
                                assert("lastSuccess"@[0] != "timesFailed"@[0]);
                                crate::json::lemma_object_insert_get(nv, "timesSent"@, JsonV::Number(decimal_text(sent as nat)), "timesFailed"@);
                                crate::json::lemma_object_insert_get(n1, "status"@, JsonV::Str(sv), "timesFailed"@);
                                crate::json::lemma_object_insert_get(n2, "lastNotification"@, JsonV::Str(now@), "timesFailed"@);
                                crate::json::lemma_object_insert_get(n3, "lastSuccess"@, JsonV::Str(now@), "timesFailed"@);
                                assert(counter(n4, "timesFailed"@) == counter(nv, "timesFailed"@));
                            }
                            if failures > 0 {
                                let failed = read_counter(&n, "timesFailed") + failures;
                                map_insert(&mut n, string_from("timesFailed"), number_of(failed));
                                map_insert(&mut n, string_from("lastFailure"), Json::Str(string_from(now)));
                            }
                            assert(entry_views(n@) == delivered_members(nv, successes as nat, failures as nat, now@));
                            proof {
                                lemma_object_view(n);
                            }
                            let ghost nn = Json::Object(n)@;
                            entries.set(i, (string_from("notification"), Json::Object(n)));
                            assert(entry_views(entries@) =~= m.update(i as int, ("notification"@, nn)));
                        },
                        _ => {},
                    }
                },
                None => {},
            }
            proof {
                lemma_object_view(entries);
            }
            Json::Object(entries)
        },
        other => other,
    };
    *document = updated;
    update_status_field(document, "modifiedAt", Json::Str(string_from(now)));
}

/// The id pattern of a plan, if any, compiles.
pub open spec fn pattern_usable(plan: QueryPlan) -> bool {
    plan.id_pattern matches Some(p) ==> regex_compiles(p@)
}

/// An entity passes the plan's filters: one of the ids (when ids are
/// given), one of the types (when types are given), the id pattern, and
/// every required attribute present.
pub open spec fn plan_admits(entity: JsonV, plan: QueryPlan) -> bool {
    &&& (plan.ids@.len() > 0 ==> exists|k: int| 0 <= k < plan.ids@.len() && #[trigger] plan.ids@[k]@ == id_text(entity))
    &&& (plan.entity_types@.len() > 0 ==> exists|k: int|
        0 <= k < plan.entity_types@.len() && type_matches(entity.get("type"@), #[trigger] plan.entity_types@[k]@))
    &&& (plan.id_pattern matches Some(p) ==> regex_finds(p@, id_text(entity)))
    &&& forall|k: int| 0 <= k < plan.attrs@.len() ==> entity.get(#[trigger] plan.attrs@[k]@) is Some
}

/// The first `limit` items, or all when there is no limit.
pub open spec fn limited<T>(s: Seq<T>, limit: Option<usize>) -> Seq<T> {
    match limit {
        Some(l) => if (l as int) < s.len() {
            s.take(l as int)
        } else {
            s
        },
        None => s,
    }
}

/// Whether an entity passes the plan's filters.
pub(crate) fn plan_matches(entity: &Json, plan: &QueryPlan) -> (r: bool)
    requires
        pattern_usable(*plan),
    ensures
        r == plan_admits(entity@, *plan),
{
    let id: String = match entity.get_str("id") {
        Some(s) => string_from(s.as_str()),
        None => String::new(),
    };
    assert(id@ == id_text(entity@));
    if plan.ids.len() > 0 {
        let mut found = false;
        let mut k: usize = 0;
        while k < plan.ids.len()
            invariant
                k <= plan.ids.len(),
                found == exists|j: int| 0 <= j < k && #[trigger] plan.ids@[j]@ == id@,
            decreases plan.ids.len() - k,
        {
            if str_eq(plan.ids[k].as_str(), id.as_str()) {
                found = true;
            }
            k += 1;
        }
        if !found {
            return false;
        }
    }
    if plan.entity_types.len() > 0 {
        let mut found = false;
        let mut k: usize = 0;
        while k < plan.entity_types.len()
            invariant
                k <= plan.entity_types.len(),
                found == exists|j: int|
                    0 <= j < k && type_matches(entity@.get("type"@), #[trigger] plan.entity_types@[j]@),
            decreases plan.entity_types.len() - k,
        {
            if entity_type_matches(entity.get_member("type"), plan.entity_types[k].as_str()) {
                found = true;
            }
            k += 1;
        }
        if !found {
            return false;
        }
    }
    match &plan.id_pattern {
        Some(p) => {
            if !regex_is_match(p.as_str(), id.as_str()) {
                return false;
            }
        },
        None => {},
    }
    let mut k: usize = 0;
    while k < plan.attrs.len()
        invariant
            k <= plan.attrs.len(),
            forall|j: int| 0 <= j < k ==> entity@.get(#[trigger] plan.attrs@[j]@) is Some,
        decreases plan.attrs.len() - k,
    {
        if entity.get_member(plan.attrs[k].as_str()).is_none() {
            return false;
        }
        k += 1;
    }
    true
}

/// The error for an id pattern that does not compile: `invalid idPattern: `
/// and the compiler's message.
pub(crate) fn pattern_error(plan: &QueryPlan) -> (r: Option<BrokerError>)
    ensures
        r is None <==> pattern_usable(*plan),
        r matches Some(e) ==> e is BadRequest && crate::text::has_prefix(error_message(e), "invalid idPattern: "@),
{
    match &plan.id_pattern {
        Some(p) => match check_regex(p.as_str()) {
            Ok(()) => None,
            Err(message) => {
                let text = concat_str("invalid idPattern: ", message.as_str());
                assert(text@.subrange(0, "invalid idPattern: "@.len() as int) =~= "invalid idPattern: "@);
                Some(BrokerError::BadRequest(text))
            },
        },
        None => None,
    }
}

/// Applies the plan's filters and limit to stored entity documents, in
/// order; an id pattern that does not compile is a bad request.
pub fn filter_entity_documents(documents: Vec<StoredDocument>, plan: &QueryPlan) -> (r: Result<Vec<StoredDocument>, BrokerError>)
    ensures
        r is Ok <==> pattern_usable(*plan),
        r matches Ok(v) ==> v@ == limited(documents@.filter(|d: StoredDocument| plan_admits(d.doc@, *plan)), plan.limit),
        r matches Err(e) ==> e is BadRequest && crate::text::has_prefix(error_message(e), "invalid idPattern: "@),
{
    match pattern_error(plan) {
        Some(e) => {
            return Err(e);
        },
        None => {},
    }
    let ghost s = documents@;
    let ghost pred = |d: StoredDocument| plan_admits(d.doc@, *plan);
    assert(s.len() == documents.len());
    let mut rest = documents;
    let mut kept: Vec<StoredDocument> = Vec::new();
    let mut i: usize = 0;
    while rest.len() > 0
        invariant
            i <= s.len(),
            s.len() <= usize::MAX,
            rest@ == s.skip(i as int),
            pattern_usable(*plan),
            pred == (|d: StoredDocument| plan_admits(d.doc@, *plan)),
            kept@ == s.take(i as int).filter(pred),
        decreases rest.len(),
    {
        proof {
            crate::query::eval::lemma_filter_take(s, pred, i as int);
        }
        let d = rest.remove(0);
        assert(d == s[i as int]);
        if plan_matches(&d.doc, plan) {
            kept.push(d);
        }
        assert(s.skip(i as int).drop_first() =~= s.skip(i + 1));
        i += 1;
    }
    assert(s.take(i as int) =~= s);
    match plan.limit {
        Some(l) => {
            if l < kept.len() {
                kept.truncate(l);
            }
        },
        None => {},
    }
    Ok(kept)
}

/// Applies the plan's filters and limit to temporal entity documents, in
/// order; an id pattern that does not compile is a bad request.
pub fn filter_temporal_documents(documents: Vec<TemporalEntityDocument>, plan: &QueryPlan) -> (r: Result<Vec<TemporalEntityDocument>, BrokerError>)
    ensures
        r is Ok <==> pattern_usable(*plan),
        r matches Ok(v) ==> v@ == limited(documents@.filter(|d: TemporalEntityDocument| plan_admits(d.doc@, *plan)), plan.limit),
        r matches Err(e) ==> e is BadRequest && crate::text::has_prefix(error_message(e), "invalid idPattern: "@),
{
    match pattern_error(plan) {
        Some(e) => {
            return Err(e);
        },
        None => {},
    }
    let ghost s = documents@;
    let ghost pred = |d: TemporalEntityDocument| plan_admits(d.doc@, *plan);
    assert(s.len() == documents.len());
    let mut rest = documents;
    let mut kept: Vec<TemporalEntityDocument> = Vec::new();
    let mut i: usize = 0;
    while rest.len() > 0
        invariant
            i <= s.len(),
            s.len() <= usize::MAX,
            rest@ == s.skip(i as int),
            pattern_usable(*plan),
            pred == (|d: TemporalEntityDocument| plan_admits(d.doc@, *plan)),
            kept@ == s.take(i as int).filter(pred),
        decreases rest.len(),
    {
        proof {
            crate::query::eval::lemma_filter_take(s, pred, i as int);
        }
        let d = rest.remove(0);
        assert(d == s[i as int]);
        if plan_matches(&d.doc, plan) {
            kept.push(d);
        }
        assert(s.skip(i as int).drop_first() =~= s.skip(i + 1));
        i += 1;
    }
    assert(s.take(i as int) =~= s);
    match plan.limit {
        Some(l) => {
            if l < kept.len() {
                kept.truncate(l);
            }
        },
        None => {},
    }
    Ok(kept)
}

/// A counter is never negative.
proof fn lemma_counter_nonneg(n: Seq<(Seq<char>, JsonV)>, key: Seq<char>)
    ensures
        counter(n, key) >= 0,
{
    match JsonV::Object(n).get(key) {
        Some(JsonV::Number(t)) => {
            if !(t.len() > 0 && t[0] == '+') {
                let d = crate::config::unsigned_digits(t);
                if d.len() > 0 && crate::config::all_digits(d) {
                    crate::config::lemma_digits_nonneg(d);
                }
            }
        },
        _ => {},
    }
}

/// A counter set to a number reads back as that number.
proof fn lemma_counter_set(n: Seq<(Seq<char>, JsonV)>, key: Seq<char>, value: nat)
    requires
        value <= u64::MAX,
    ensures
        counter(object_insert(n, key, JsonV::Number(decimal_text(value))), key) == value,
{
    crate::json::lemma_object_insert_get(n, key, JsonV::Number(decimal_text(value)), key);
    crate::config::lemma_decimal_text_value(value);
}

/// Recording deliveries counts every attempt: `timesSent` grows by the
/// successes and failures, and `timesFailed` by the failures when there
/// were any (else it is left as it was).
pub proof fn law_delivery_counts(n: Seq<(Seq<char>, JsonV)>, successes: nat, failures: nat, now: Seq<char>)
    requires
        counter(n, "timesSent"@) + successes + failures <= u64::MAX,
        counter(n, "timesFailed"@) + failures <= u64::MAX,
    ensures
        counter(delivered_members(n, successes, failures, now), "timesSent"@) == counter(n, "timesSent"@) + successes
            + failures,
        counter(delivered_members(n, successes, failures, now), "timesFailed"@) == counter(n, "timesFailed"@) + failures,
{
    reveal_strlit("timesSent");
    reveal_strlit("timesFailed");
    reveal_strlit("status");
    reveal_strlit("lastNotification");
    reveal_strlit("lastSuccess");
    reveal_strlit("lastFailure");
    assert("timesFailed"@.len() == 11);
    assert("timesSent"@.len() == 9);
    assert("status"@.len() == 6);
    assert("lastNotification"@.len() == 16);
    assert("lastFailure"@.len() == 11);
    assert("lastSuccess"@[0] != "timesFailed"@[0]);
    assert("lastSuccess"@[0] != "timesSent"@[0]);
    assert("lastFailure"@[0] != "timesFailed"@[0]);
    assert("lastFailure"@[0] != "timesSent"@[0]);
    lemma_counter_nonneg(n, "timesSent"@);
    lemma_counter_nonneg(n, "timesFailed"@);
    let sent = counter(n, "timesSent"@) + successes + failures;
    let status = JsonV::Str(if failures == 0 { "ok"@ } else { "failed"@ });
    let n1 = object_insert(n, "timesSent"@, JsonV::Number(decimal_text(sent as nat)));
    let n2 = object_insert(n1, "status"@, status);
    let n3 = object_insert(n2, "lastNotification"@, JsonV::Str(now));
    let n4 = if successes > 0 {
        object_insert(n3, "lastSuccess"@, JsonV::Str(now))
    } else {
        n3
    };
    lemma_counter_set(n, "timesSent"@, sent as nat);
    crate::json::lemma_object_insert_get(n, "timesSent"@, JsonV::Number(decimal_text(sent as nat)), "timesFailed"@);
    crate::json::lemma_object_insert_get(n1, "status"@, status, "timesSent"@);
    crate::json::lemma_object_insert_get(n1, "status"@, status, "timesFailed"@);
    crate::json::lemma_object_insert_get(n2, "lastNotification"@, JsonV::Str(now), "timesSent"@);
    crate::json::lemma_object_insert_get(n2, "lastNotification"@, JsonV::Str(now), "timesFailed"@);
    crate::json::lemma_object_insert_get(n3, "lastSuccess"@, JsonV::Str(now), "timesSent"@);
    crate::json::lemma_object_insert_get(n3, "lastSuccess"@, JsonV::Str(now), "timesFailed"@);
    assert(counter(n4, "timesSent"@) == sent);
    assert(counter(n4, "timesFailed"@) == counter(n, "timesFailed"@));
    if failures > 0 {
        let failed = counter(n4, "timesFailed"@) + failures;
        let n5 = object_insert(n4, "timesFailed"@, JsonV::Number(decimal_text(failed as nat)));
        lemma_counter_set(n4, "timesFailed"@, failed as nat);
        crate::json::lemma_object_insert_get(n4, "timesFailed"@, JsonV::Number(decimal_text(failed as nat)), "timesSent"@);
        crate::json::lemma_object_insert_get(n5, "lastFailure"@, JsonV::Str(now), "timesSent"@);
        crate::json::lemma_object_insert_get(n5, "lastFailure"@, JsonV::Str(now), "timesFailed"@);
    }
}

} // verus!
