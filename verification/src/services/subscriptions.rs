//! Subscription operations on a subscription repository: create, list,
//! retrieve, patch and delete.
use vstd::prelude::*;
use crate::domain::SubscriptionDocument;
use crate::error::{BrokerError, error_message, error_status};
use crate::headers::RequestContext;
use crate::json::{Json, JsonV, apply_merge_patch, entry_views, json_views, lemma_array_view, lemma_object_view, map_insert, merge_patched};
use crate::persistence::memory::{MemorySubscriptionRepository, subscription_views};
use crate::persistence::repository::{limited, with_status_field};
use crate::query::planner::opt_text;
use crate::query::types::{QueryResult, SubscriptionQuery};
use crate::services::common::{prepare_subscription_at, subscription_preparation};
use crate::services::entities::err_view;
use crate::store::{StoredV, lookup, store_put, store_remove};
use crate::text::{chars_of, string_from, text_around};

verus! {

/// The message of an absent subscription.
pub open spec fn missing_subscription(id: Seq<char>) -> Seq<char> {
    "subscription "@ + id + " was not found"@
}

/// Creating a subscription at `now`, with `generated` the random part of
/// an id it lacks: the store afterwards and the id, or the error.
pub open spec fn create_spec(
    s: Seq<StoredV>,
    tenant: Seq<char>,
    link: Option<Seq<char>>,
    subscription: JsonV,
    now: Seq<char>,
    generated: Seq<char>,
) -> (Seq<StoredV>, Result<Seq<char>, (u16, Seq<char>)>) {
    let (doc, prepared) = subscription_preparation(subscription, link, now, generated);
    match prepared {
        Err(m) => (s, Err((400u16, m))),
        Ok(id) => if lookup(s, tenant, id) is Some {
            (s, Err((409u16, "subscription "@ + id + " already exists"@)))
        } else {
            (store_put(s, tenant, id, doc), Ok(id))
        },
    }
}

/// Creates and stores a subscription of the request's tenant at a given
/// time, and returns its id.
pub fn create_at(
    repository: &mut MemorySubscriptionRepository,
    context: &RequestContext,
    subscription: Json,
    now: &str,
    generated: &str,
) -> (r: Result<String, BrokerError>)
    requires
        old(repository).wf(),
    ensures
        final(repository).wf(),
        create_spec(old(repository)@, context.tenant@, opt_text(context.link_header), subscription@, now@, generated@)
            == (
            final(repository)@,
            match r {
                Ok(id) => Ok::<Seq<char>, (u16, Seq<char>)>(id@),
                Err(e) => Err(err_view(e)),
            },
        ),
{
    let mut subscription = subscription;
    let subscription_id = prepare_subscription_at(&mut subscription, context, now, generated)?;
    let document = SubscriptionDocument {
        tenant: string_from(context.tenant.as_str()),
        ngsi_id: string_from(subscription_id.as_str()),
        doc: subscription,
    };
    repository.insert(document)?;
    Ok(subscription_id)
}

/// Creates and stores a subscription of the request's tenant now, with a
/// fresh random id part for a subscription without id, and returns its id.
pub fn create(repository: &mut MemorySubscriptionRepository, context: &RequestContext, subscription: Json) -> (r: Result<String, BrokerError>)
    requires
        old(repository).wf(),
    ensures
        final(repository).wf(),
        exists|now: Seq<char>, generated: Seq<char>| #[trigger]
            create_spec(old(repository)@, context.tenant@, opt_text(context.link_header), subscription@, now, generated)
                == (
                final(repository)@,
                match r {
                    Ok(id) => Ok::<Seq<char>, (u16, Seq<char>)>(id@),
                    Err(e) => Err(err_view(e)),
                },
            ),
{
    let now = crate::time::now_timestamp();
    let generated = crate::services::common::new_uuid();
    create_at(repository, context, subscription, now.as_str(), generated.as_str())
}

/// Listing the subscriptions of a tenant: at most `limit` documents in
/// storage order, counted.
pub open spec fn list_spec(s: Seq<StoredV>, tenant: Seq<char>, limit: Option<usize>) -> Seq<JsonV> {
    limited(s.filter(|d: StoredV| d.tenant == tenant), limit).map_values(|d: StoredV| d.doc)
}

/// Lists the subscriptions stored for the request's tenant.
pub fn list(repository: &MemorySubscriptionRepository, context: &RequestContext, query: &SubscriptionQuery) -> (r: QueryResult)
    ensures
        r.body@ == JsonV::Array(list_spec(repository@, context.tenant@, query.limit)),
        r.total_count == list_spec(repository@, context.tenant@, query.limit).len(),
{
    let items = repository.list(context.tenant.as_str(), query.limit);
    let ghost iv = subscription_views(items@);
    let total_count = items.len();
    assert(iv.len() == items.len());
    let mut docs: Vec<Json> = Vec::new();
    let mut rest = items;
    let mut i: usize = 0;
    while rest.len() > 0
        invariant
            i <= iv.len(),
            iv.len() == i + rest.len(),
            iv.len() <= usize::MAX,
            subscription_views(rest@) == iv.skip(i as int),
            json_views(docs@) == iv.take(i as int).map_values(|d: StoredV| d.doc),
        decreases rest.len(),
    {
        let ghost before = rest@;
        assert(subscription_views(before)[0] == before[0]@);
        let d = rest.remove(0);
        assert(subscription_views(rest@) =~= subscription_views(before).drop_first());
        assert(iv.skip(i as int).drop_first() =~= iv.skip(i + 1));
        let ghost dv = d.doc@;
        docs.push(d.doc);
        assert(iv.take(i + 1).map_values(|d: StoredV| d.doc) =~= iv.take(i as int).map_values(|d: StoredV| d.doc).push(dv));
        i += 1;
    }
    assert(iv.take(i as int) =~= iv);
    proof {
        lemma_array_view(docs);
    }
    QueryResult { body: Json::Array(docs), total_count }
}

/// Retrieves the payload of a subscription of the request's tenant.
pub fn get(repository: &MemorySubscriptionRepository, context: &RequestContext, subscription_id: &str) -> (r: Result<Json, BrokerError>)
    ensures
        match lookup(repository@, context.tenant@, subscription_id@) {
            Some(doc) => r matches Ok(d) && d@ == doc,
            None => r matches Err(e) && err_view(e) == (404u16, missing_subscription(subscription_id@)),
        },
{
    match repository.get(context.tenant.as_str(), subscription_id) {
        Some(document) => Ok(document.doc),
        None => {
            let id = chars_of(subscription_id);
            Err(BrokerError::NotFound(text_around("subscription ", &id, " was not found")))
        },
    }
}

/// A subscription after a merge patch at `now`: the patch applied, `id`
/// kept, `modifiedAt` set.
pub open spec fn patched_subscription(doc: JsonV, patch: JsonV, id: Seq<char>, now: Seq<char>) -> JsonV {
    with_status_field(
        with_status_field(merge_patched(doc, patch), "id"@, JsonV::Str(id)),
        "modifiedAt"@,
        JsonV::Str(now),
    )
}

/// Applies a merge patch to a stored subscription at a given time.
pub fn patch(
    repository: &mut MemorySubscriptionRepository,
    context: &RequestContext,
    subscription_id: &str,
    merge_patch: &Json,
    now: &str,
) -> (r: Result<(), BrokerError>)
    requires
        old(repository).wf(),
    ensures
        final(repository).wf(),
        match lookup(old(repository)@, context.tenant@, subscription_id@) {
            Some(doc) => r is Ok && final(repository)@ == store_put(
                old(repository)@,
                context.tenant@,
                subscription_id@,
                patched_subscription(doc, merge_patch@, subscription_id@, now@),
            ),
            None => final(repository)@ == old(repository)@ && (r matches Err(e) && err_view(e) == (
                404u16,
                missing_subscription(subscription_id@),
            )),
        },
{
    let mut existing = match repository.get(context.tenant.as_str(), subscription_id) {
        Some(d) => d,
        None => {
            let id = chars_of(subscription_id);
            return Err(BrokerError::NotFound(text_around("subscription ", &id, " was not found")));
        },
    };
    apply_merge_patch(&mut existing.doc, merge_patch);
    crate::persistence::repository::update_status_field(
        &mut existing.doc,
        "id",
        Json::Str(string_from(subscription_id)),
    );
    crate::persistence::repository::update_status_field(&mut existing.doc, "modifiedAt", Json::Str(string_from(now)));
    repository.replace(existing);
    Ok(())
}

/// Deletes a subscription of the request's tenant.
pub fn delete(repository: &mut MemorySubscriptionRepository, context: &RequestContext, subscription_id: &str) -> (r: Result<(), BrokerError>)
    requires
        old(repository).wf(),
    ensures
        final(repository).wf(),
        final(repository)@ == store_remove(old(repository)@, context.tenant@, subscription_id@),
        match lookup(old(repository)@, context.tenant@, subscription_id@) {
            Some(_) => r is Ok,
            None => r matches Err(e) && err_view(e) == (404u16, missing_subscription(subscription_id@)),
        },
{
    match repository.delete(context.tenant.as_str(), subscription_id) {
        Some(_) => Ok(()),
        None => {
            let id = chars_of(subscription_id);
            Err(BrokerError::NotFound(text_around("subscription ", &id, " was not found")))
        },
    }
}

/// A created subscription reads back as prepared, under the id returned.
pub proof fn law_subscription_create_then_get(
    s: Seq<StoredV>,
    tenant: Seq<char>,
    link: Option<Seq<char>>,
    subscription: JsonV,
    now: Seq<char>,
    generated: Seq<char>,
)
    requires
        crate::store::distinct_keys(s),
    ensures
        create_spec(s, tenant, link, subscription, now, generated).1 matches Ok(id) ==> lookup(
            create_spec(s, tenant, link, subscription, now, generated).0,
            tenant,
            id,
        ) == Some(subscription_preparation(subscription, link, now, generated).0),
{
    let (doc, prepared) = subscription_preparation(subscription, link, now, generated);
    match prepared {
        Ok(id) => {
            crate::store::lemma_put_lookup(s, tenant, id, doc);
        },
        Err(_) => {},
    }
}

/// After deleting a subscription it can no longer be found.
pub proof fn law_subscription_delete_then_absent(s: Seq<StoredV>, tenant: Seq<char>, id: Seq<char>)
    requires
        crate::store::distinct_keys(s),
    ensures
        lookup(store_remove(s, tenant, id), tenant, id) is None,
{
    crate::store::lemma_remove_lookup(s, tenant, id);
}

} // verus!
