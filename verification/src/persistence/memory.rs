//! In-memory repositories: subscriptions keyed by tenant and id, and the
//! replicated entity mutation log keyed by event id.
use vstd::prelude::*;
use crate::domain::{SubscriptionDocument, TemporalEntityDocument, TemporalV, copy_temporal};
use crate::error::{BrokerError, error_message};
use crate::json::{Json, JsonV, clone_json};
use crate::persistence::repository::{delivered, delivery_counts_fit, limited, update_delivery_fields};
use crate::services::discovery::{insert_sorted, strictly_sorted, text_before, text_precedes};
use crate::store::{
    StoredV, distinct_keys, find_doc, find_doc_from, lemma_find_doc, lemma_put_lookup, lemma_remove_lookup, lookup,
    store_put, store_remove,
};
use crate::text::{chars_of, str_eq, string_from, text_around, views};

verus! {

impl View for SubscriptionDocument {
    type V = StoredV;

    open spec fn view(&self) -> StoredV {
        StoredV { tenant: self.tenant@, id: self.ngsi_id@, doc: self.doc@ }
    }
}

/// Views of subscription documents, in order.
pub open spec fn subscription_views(docs: Seq<SubscriptionDocument>) -> Seq<StoredV> {
    docs.map_values(|d: SubscriptionDocument| d@)
}

/// A copy of a subscription document.
fn copy_subscription(d: &SubscriptionDocument) -> (r: SubscriptionDocument)
    ensures
        r@ == d@,
{
    SubscriptionDocument {
        tenant: string_from(d.tenant.as_str()),
        ngsi_id: string_from(d.ngsi_id.as_str()),
        doc: clone_json(&d.doc),
    }
}

/// Subscriptions of all tenants.
pub struct MemorySubscriptionRepository {
    documents: Vec<SubscriptionDocument>,
}

impl View for MemorySubscriptionRepository {
    type V = Seq<StoredV>;

    closed spec fn view(&self) -> Seq<StoredV> {
        subscription_views(self.documents@)
    }
}

/// The store after recording deliveries on the subscription of a key; the
/// store is unchanged when the key is not stored.
pub open spec fn with_deliveries(
    s: Seq<StoredV>,
    tenant: Seq<char>,
    id: Seq<char>,
    successes: nat,
    failures: nat,
    now: Seq<char>,
) -> Seq<StoredV> {
    match find_doc(s, tenant, id) {
        Some(k) => s.update(k, StoredV { doc: delivered(s[k].doc, successes, failures, now), ..s[k] }),
        None => s,
    }
}

/// The counters of the subscription of a key stay within `u64` after
/// recording deliveries.
pub open spec fn deliveries_fit(s: Seq<StoredV>, tenant: Seq<char>, id: Seq<char>, successes: nat, failures: nat) -> bool {
    match lookup(s, tenant, id) {
        Some(doc) => delivery_counts_fit(doc, successes, failures),
        None => successes + failures <= u64::MAX,
    }
}

/// The tenants of stored documents, each once.
pub open spec fn tenants_of(s: Seq<StoredV>) -> Set<Seq<char>> {
    s.map_values(|d: StoredV| d.tenant).to_set()
}

impl MemorySubscriptionRepository {
    /// No key is stored twice.
    pub open spec fn wf(&self) -> bool {
        distinct_keys(self@)
    }

    /// An empty repository.
    pub fn new() -> (r: Self)
        ensures
            r.wf(),
            r@ == Seq::<StoredV>::empty(),
    {
        let r = MemorySubscriptionRepository { documents: Vec::new() };
        assert(r@ =~= Seq::<StoredV>::empty());
        r
    }

    /// Position of the subscription of a key.
    fn position(&self, tenant: &str, subscription_id: &str) -> (r: Option<usize>)
        ensures
            match r {
                Some(k) => find_doc(self@, tenant@, subscription_id@) == Some(k as int) && k < self@.len(),
                None => find_doc(self@, tenant@, subscription_id@) is None,
            },
    {
        let ghost s = self@;
        let mut k: usize = 0;
        while k < self.documents.len()
            invariant
                k <= self.documents.len(),
                s == subscription_views(self.documents@),
                find_doc(s, tenant@, subscription_id@) == find_doc_from(s, tenant@, subscription_id@, k as int),
            decreases self.documents.len() - k,
        {
            assert(s[k as int] == self.documents@[k as int]@);
            if str_eq(self.documents[k].tenant.as_str(), tenant) && str_eq(
                self.documents[k].ngsi_id.as_str(),
                subscription_id,
            ) {
                return Some(k);
            }
            k += 1;
        }
        None
    }

    /// The subscription of a tenant and id.
    pub fn get(&self, tenant: &str, subscription_id: &str) -> (r: Option<SubscriptionDocument>)
        ensures
            match r {
                Some(d) => lookup(self@, tenant@, subscription_id@) == Some(d.doc@) && d.tenant@ == tenant@
                    && d.ngsi_id@ == subscription_id@,
                None => lookup(self@, tenant@, subscription_id@) is None,
            },
    {
        match self.position(tenant, subscription_id) {
            Some(k) => {
                proof {
                    lemma_find_doc(self@, tenant@, subscription_id@);
                }
                assert(self@[k as int] == self.documents@[k as int]@);
                Some(copy_subscription(&self.documents[k]))
            },
            None => None,
        }
    }

    /// Inserts a new subscription; one of the same key is a conflict.
    pub fn insert(&mut self, document: SubscriptionDocument) -> (r: Result<(), BrokerError>)
        requires
            old(self).wf(),
        ensures
            final(self).wf(),
            match r {
                Ok(()) => lookup(old(self)@, document.tenant@, document.ngsi_id@) is None && final(self)@
                    == store_put(old(self)@, document.tenant@, document.ngsi_id@, document.doc@),
                Err(e) => lookup(old(self)@, document.tenant@, document.ngsi_id@) is Some && final(self)@
                    == old(self)@ && e is Conflict && error_message(e) == "subscription "@ + document.ngsi_id@
                    + " already exists"@,
            },
    {
        match self.position(document.tenant.as_str(), document.ngsi_id.as_str()) {
            Some(_) => {
                let id = chars_of(document.ngsi_id.as_str());
                Err(BrokerError::Conflict(text_around("subscription ", &id, " already exists")))
            },
            None => {
                proof {
                    lemma_put_lookup(self@, document.tenant@, document.ngsi_id@, document.doc@);
                }
                let ghost s = self@;
                let ghost dv = document@;
                self.documents.push(document);
                assert(self@ =~= s.push(dv));
                Ok(())
            },
        }
    }

    /// Replaces the subscription of a key, or stores it when absent.
    pub fn replace(&mut self, document: SubscriptionDocument)
        requires
            old(self).wf(),
        ensures
            final(self).wf(),
            final(self)@ == store_put(old(self)@, document.tenant@, document.ngsi_id@, document.doc@),
    {
        proof {
            lemma_put_lookup(self@, document.tenant@, document.ngsi_id@, document.doc@);
        }
        let ghost s = self@;
        let ghost dv = document@;
        match self.position(document.tenant.as_str(), document.ngsi_id.as_str()) {
            Some(k) => {
                self.documents.set(k, document);
                assert(self@ =~= s.update(k as int, dv));
            },
            None => {
                self.documents.push(document);
                assert(self@ =~= s.push(dv));
            },
        }
    }

    /// Deletes the subscription of a key and returns it.
    pub fn delete(&mut self, tenant: &str, subscription_id: &str) -> (r: Option<SubscriptionDocument>)
        requires
            old(self).wf(),
        ensures
            final(self).wf(),
            final(self)@ == store_remove(old(self)@, tenant@, subscription_id@),
            match r {
                Some(d) => lookup(old(self)@, tenant@, subscription_id@) == Some(d.doc@) && d.tenant@ == tenant@
                    && d.ngsi_id@ == subscription_id@,
                None => lookup(old(self)@, tenant@, subscription_id@) is None,
            },
    {
        proof {
            lemma_remove_lookup(self@, tenant@, subscription_id@);
            lemma_find_doc(self@, tenant@, subscription_id@);
        }
        let ghost s = self@;
        match self.position(tenant, subscription_id) {
            Some(k) => {
                assert(s[k as int] == self.documents@[k as int]@);
                let d = self.documents.remove(k);
                assert(self@ =~= s.remove(k as int));
                Some(d)
            },
            None => None,
        }
    }

    /// The subscriptions of a tenant in storage order, at most `limit`.
    pub fn list(&self, tenant: &str, limit: Option<usize>) -> (r: Vec<SubscriptionDocument>)
        ensures
            subscription_views(r@) == limited(self@.filter(|d: StoredV| d.tenant == tenant@), limit),
    {
        let ghost s = self@;
        let ghost pred = |d: StoredV| d.tenant == tenant@;
        let mut r: Vec<SubscriptionDocument> = Vec::new();
        let mut k: usize = 0;
        while k < self.documents.len()
            invariant
                k <= self.documents.len(),
                s == subscription_views(self.documents@),
                pred == (|d: StoredV| d.tenant == tenant@),
                subscription_views(r@) == s.take(k as int).filter(pred),
            decreases self.documents.len() - k,
        {
            proof {
                crate::query::eval::lemma_filter_take(s, pred, k as int);
            }
            assert(s[k as int] == self.documents@[k as int]@);
            if str_eq(self.documents[k].tenant.as_str(), tenant) {
                let ghost before = subscription_views(r@);
                r.push(copy_subscription(&self.documents[k]));
                assert(subscription_views(r@) =~= before.push(s[k as int]));
            }
            k += 1;
        }
        assert(s.take(self.documents.len() as int) =~= s);
        match limit {
            Some(l) => {
                if l < r.len() {
                    let ghost before = r@;
                    r.truncate(l);
                    assert(subscription_views(r@) =~= subscription_views(before).take(l as int));
                }
            },
            None => {},
        }
        r
    }

    /// The tenants that have subscriptions, each once, in text order.
    pub fn list_tenants(&self) -> (r: Vec<String>)
        ensures
            strictly_sorted(views(r@)),
            views(r@).to_set() == tenants_of(self@),
    {
        let ghost s = self@;
        let mut r: Vec<String> = Vec::new();
        let mut k: usize = 0;
        assert(views(r@).to_set() =~= s.take(0).map_values(|d: StoredV| d.tenant).to_set());
        while k < self.documents.len()
            invariant
                k <= self.documents.len(),
                s == subscription_views(self.documents@),
                strictly_sorted(views(r@)),
                views(r@).to_set() == s.take(k as int).map_values(|d: StoredV| d.tenant).to_set(),
            decreases self.documents.len() - k,
        {
            assert(s[k as int] == self.documents@[k as int]@);
            insert_sorted(&mut r, self.documents[k].tenant.as_str());
            assert(s.take(k + 1).map_values(|d: StoredV| d.tenant) =~= s.take(k as int).map_values(
                |d: StoredV| d.tenant,
            ).push(s[k as int].tenant));
            proof {
                crate::services::discovery::lemma_push_to_set(
                    s.take(k as int).map_values(|d: StoredV| d.tenant),
                    s[k as int].tenant,
                );
            }
            k += 1;
        }
        assert(s.take(self.documents.len() as int) =~= s);
        r
    }

    /// Records a batch of notification deliveries on the subscription of a
    /// key; nothing happens when it is not stored.
    pub fn mark_delivery_batch(&mut self, tenant: &str, subscription_id: &str, successes: u64, failures: u64, now: &str)
        requires
            old(self).wf(),
            deliveries_fit(old(self)@, tenant@, subscription_id@, successes as nat, failures as nat),
        ensures
            final(self).wf(),
            final(self)@ == with_deliveries(old(self)@, tenant@, subscription_id@, successes as nat, failures as nat, now@),
    {
        let ghost s = self@;
        match self.position(tenant, subscription_id) {
            Some(k) => {
                proof {
                    lemma_find_doc(s, tenant@, subscription_id@);
                }
                assert(s[k as int] == self.documents@[k as int]@);
                let mut d = copy_subscription(&self.documents[k]);
                update_delivery_fields(&mut d.doc, successes, failures, now);
                let ghost dv = d@;
                self.documents.set(k, d);
                assert(self@ =~= s.update(k as int, dv));
                assert forall|a: int, b: int| 0 <= a < b < self@.len() implies !(#[trigger] self@[a].tenant
                    == #[trigger] self@[b].tenant && self@[a].id == self@[b].id) by {
                    assert(self@[a].tenant == s[a].tenant && self@[a].id == s[a].id);
                    assert(self@[b].tenant == s[b].tenant && self@[b].id == s[b].id);
                }
            },
            None => {},
        }
    }

    /// Records one notification delivery, successful or failed.
    pub fn mark_delivery(&mut self, tenant: &str, subscription_id: &str, success: bool, now: &str)
        requires
            old(self).wf(),
            deliveries_fit(
                old(self)@,
                tenant@,
                subscription_id@,
                if success { 1 } else { 0 },
                if success { 0 } else { 1 },
            ),
        ensures
            final(self).wf(),
            final(self)@ == with_deliveries(
                old(self)@,
                tenant@,
                subscription_id@,
                if success { 1 } else { 0 },
                if success { 0 } else { 1 },
                now@,
            ),
    {
        let successes: u64 = if success { 1 } else { 0 };
        let failures: u64 = if success { 0 } else { 1 };
        self.mark_delivery_batch(tenant, subscription_id, successes, failures, now);
    }
}

/// A replicated entity mutation event: its id, the time it was made at its
/// origin in milliseconds, and its payload.
#[derive(Clone, Debug)]
pub struct EntityMutationDocument {
    pub event_id: String,
    pub created_at_millis: i64,
    pub doc: Json,
}

/// The view of a mutation event.
pub struct MutationV {
    pub event_id: Seq<char>,
    pub created_at_millis: i64,
    pub doc: JsonV,
}

impl View for EntityMutationDocument {
    type V = MutationV;

    open spec fn view(&self) -> MutationV {
        MutationV { event_id: self.event_id@, created_at_millis: self.created_at_millis, doc: self.doc@ }
    }
}

/// Views of mutation events, in order.
pub open spec fn mutation_views(docs: Seq<EntityMutationDocument>) -> Seq<MutationV> {
    docs.map_values(|d: EntityMutationDocument| d@)
}

/// Event order: by origin time, then by event id.
pub open spec fn event_before(a: MutationV, b: MutationV) -> bool {
    a.created_at_millis < b.created_at_millis || (a.created_at_millis == b.created_at_millis && text_before(
        a.event_id,
        b.event_id,
    ))
}

/// Events in strictly increasing event order.
pub open spec fn events_sorted(s: Seq<MutationV>) -> bool {
    forall|i: int, j: int| 0 <= i < j < s.len() ==> event_before(#[trigger] s[i], #[trigger] s[j])
}

/// No two events share an id.
pub open spec fn distinct_events(s: Seq<MutationV>) -> bool {
    forall|i: int, j: int| 0 <= i < j < s.len() ==> #[trigger] s[i].event_id != #[trigger] s[j].event_id
}

/// Position of the first event with an id at or after `k`.
pub open spec fn event_index_from(s: Seq<MutationV>, id: Seq<char>, k: int) -> Option<int>
    decreases s.len() - k,
{
    if k < 0 || k >= s.len() {
        None
    } else if s[k].event_id == id {
        Some(k)
    } else {
        event_index_from(s, id, k + 1)
    }
}

/// The log after storing an event: an event of the same id is replaced in
/// place, else the event is appended.
pub open spec fn event_put(s: Seq<MutationV>, d: MutationV) -> Seq<MutationV> {
    match event_index_from(s, d.event_id, 0) {
        Some(k) => s.update(k, d),
        None => s.push(d),
    }
}

/// The log after storing events in order.
pub open spec fn events_put(s: Seq<MutationV>, ds: Seq<MutationV>) -> Seq<MutationV>
    decreases ds.len(),
{
    if ds.len() == 0 {
        s
    } else {
        event_put(events_put(s, ds.drop_last()), ds.last())
    }
}

/// The search finds the first event of an id.
proof fn lemma_event_index_from(s: Seq<MutationV>, id: Seq<char>, k: int)
    requires
        0 <= k,
    ensures
        match event_index_from(s, id, k) {
            Some(j) => k <= j < s.len() && s[j].event_id == id && forall|m: int| k <= m < j ==> #[trigger] s[m].event_id != id,
            None => forall|m: int| k <= m < s.len() ==> #[trigger] s[m].event_id != id,
        },
    decreases s.len() - k,
{
    if k < s.len() && s[k].event_id != id {
        lemma_event_index_from(s, id, k + 1);
    }
}

/// Storing an event keeps event ids distinct.
pub proof fn lemma_event_put_distinct(s: Seq<MutationV>, d: MutationV)
    requires
        distinct_events(s),
    ensures
        distinct_events(event_put(s, d)),
{
    lemma_event_index_from(s, d.event_id, 0);
    let t = event_put(s, d);
    assert forall|i: int, j: int| 0 <= i < j < t.len() implies #[trigger] t[i].event_id != #[trigger] t[j].event_id by {
        match event_index_from(s, d.event_id, 0) {
            Some(k) => {
                if i != k && j != k {
                    assert(t[i] == s[i] && t[j] == s[j]);
                } else if i == k {
                    assert(t[j] == s[j]);
                    assert(s[k].event_id == d.event_id);
                } else {
                    assert(t[i] == s[i]);
                    assert(s[k].event_id == d.event_id);
                }
            },
            None => {
                if j < s.len() {
                    assert(t[i] == s[i] && t[j] == s[j]);
                } else {
                    assert(t[i] == s[i]);
                }
            },
        }
    }
}

/// Event order is transitive.
pub proof fn lemma_event_before_transitive(a: MutationV, b: MutationV, c: MutationV)
    requires
        event_before(a, b),
        event_before(b, c),
    ensures
        event_before(a, c),
{
    if a.created_at_millis == b.created_at_millis && b.created_at_millis == c.created_at_millis {
        crate::services::discovery::lemma_before_transitive(a.event_id, b.event_id, c.event_id);
    }
}

/// Of two events with different ids, exactly one comes first.
pub proof fn lemma_event_before_total(a: MutationV, b: MutationV)
    ensures
        a.event_id != b.event_id ==> (event_before(a, b) || event_before(b, a)),
        !(event_before(a, b) && event_before(b, a)),
{
    crate::services::discovery::lemma_before_total(a.event_id, b.event_id);
}

/// A copy of a mutation event.
fn copy_mutation(d: &EntityMutationDocument) -> (r: EntityMutationDocument)
    ensures
        r@ == d@,
{
    EntityMutationDocument {
        event_id: string_from(d.event_id.as_str()),
        created_at_millis: d.created_at_millis,
        doc: clone_json(&d.doc),
    }
}

/// Whether event `a` comes before event `b`.
fn event_precedes(a: &EntityMutationDocument, b: &EntityMutationDocument) -> (r: bool)
    ensures
        r == event_before(a@, b@),
{
    a.created_at_millis < b.created_at_millis || (a.created_at_millis == b.created_at_millis && text_precedes(
        a.event_id.as_str(),
        b.event_id.as_str(),
    ))
}

/// The replicated entity mutation log, keyed by event id.
pub struct MemoryEntityMutationRepository {
    documents: Vec<EntityMutationDocument>,
}

impl View for MemoryEntityMutationRepository {
    type V = Seq<MutationV>;

    closed spec fn view(&self) -> Seq<MutationV> {
        mutation_views(self.documents@)
    }
}

impl MemoryEntityMutationRepository {
    /// No event id is stored twice.
    pub open spec fn wf(&self) -> bool {
        distinct_events(self@)
    }

    /// An empty log.
    pub fn new() -> (r: Self)
        ensures
            r.wf(),
            r@ == Seq::<MutationV>::empty(),
    {
        let r = MemoryEntityMutationRepository { documents: Vec::new() };
        assert(r@ =~= Seq::<MutationV>::empty());
        r
    }

    /// Stores one event, replacing an event of the same id.
    fn put_event(&mut self, document: EntityMutationDocument)
        requires
            old(self).wf(),
        ensures
            final(self).wf(),
            final(self)@ == event_put(old(self)@, document@),
    {
        let ghost s = self@;
        let ghost dv = document@;
        proof {
            lemma_event_put_distinct(s, dv);
        }
        let mut k: usize = 0;
        while k < self.documents.len()
            invariant
                k <= self.documents.len(),
                s == mutation_views(self.documents@),
                event_index_from(s, dv.event_id, 0) == event_index_from(s, dv.event_id, k as int),
                dv == document@,
                s == old(self)@,
                distinct_events(event_put(s, dv)),
            decreases self.documents.len() - k,
        {
            assert(s[k as int] == self.documents@[k as int]@);
            if str_eq(self.documents[k].event_id.as_str(), document.event_id.as_str()) {
                assert(event_index_from(s, dv.event_id, k as int) == Some(k as int));
                self.documents.set(k, document);
                assert(self@ =~= s.update(k as int, dv));
                return;
            }
            k += 1;
        }
        self.documents.push(document);
        assert(self@ =~= s.push(dv));
    }

    /// Stores events in order.
    fn put_events(&mut self, documents: Vec<EntityMutationDocument>)
        requires
            old(self).wf(),
        ensures
            final(self).wf(),
            final(self)@ == events_put(old(self)@, mutation_views(documents@)),
    {
        let ghost s0 = self@;
        let ghost ds = mutation_views(documents@);
        assert(ds.len() == documents.len());
        let mut rest = documents;
        let mut i: usize = 0;
        assert(ds.take(0) =~= Seq::<MutationV>::empty());
        while rest.len() > 0
            invariant
                self.wf(),
                i <= ds.len(),
                ds.len() == i + rest.len(),
                ds.len() <= usize::MAX,
                mutation_views(rest@) == ds.skip(i as int),
                self@ == events_put(s0, ds.take(i as int)),
            decreases rest.len(),
        {
            let ghost before = rest@;
            assert(mutation_views(before)[0] == before[0]@);
            let d = rest.remove(0);
            assert(d@ == ds[i as int]);
            assert(mutation_views(rest@) =~= mutation_views(before).drop_first());
            assert(ds.take(i + 1).drop_last() =~= ds.take(i as int));
            self.put_event(d);
            assert(ds.skip(i as int).drop_first() =~= ds.skip(i + 1));
            i += 1;
        }
        assert(ds.take(i as int) =~= ds);
    }

    /// The events made at or after `created_after_millis`, in event order.
    fn events_after(&self, created_after_millis: i64) -> (r: Vec<EntityMutationDocument>)
        requires
            self.wf(),
        ensures
            events_sorted(mutation_views(r@)),
            mutation_views(r@).to_set() == self@.filter(
                |d: MutationV| d.created_at_millis >= created_after_millis,
            ).to_set(),
    {
        let ghost s = self@;
        let ghost pred = |d: MutationV| d.created_at_millis >= created_after_millis;
        let mut out: Vec<EntityMutationDocument> = Vec::new();
        let mut k: usize = 0;
        assert(mutation_views(out@).to_set() =~= s.take(0).filter(pred).to_set());
        while k < self.documents.len()
            invariant
                k <= self.documents.len(),
                s == mutation_views(self.documents@),
                distinct_events(s),
                pred == (|d: MutationV| d.created_at_millis >= created_after_millis),
                events_sorted(mutation_views(out@)),
                mutation_views(out@).to_set() == s.take(k as int).filter(pred).to_set(),
            decreases self.documents.len() - k,
        {
            proof {
                crate::query::eval::lemma_filter_take(s, pred, k as int);
            }
            let ghost x = s[k as int];
            assert(x == self.documents@[k as int]@);
            if self.documents[k].created_at_millis >= created_after_millis {
                let ghost ov = mutation_views(out@);
                assert forall|m: int| 0 <= m < ov.len() implies #[trigger] ov[m].event_id != x.event_id by {
                    assert(ov.to_set().contains(ov[m]));
                    assert(s.take(k as int).filter(pred).contains(ov[m]));
                    s.take(k as int).lemma_filter_contains_rev(pred, ov[m]);
                    assert(s.take(k as int).contains(ov[m]));
                    let q = choose|q: int| 0 <= q < k && s.take(k as int)[q] == ov[m];
                    assert(s[q] == ov[m]);
                }
                let mut p: usize = 0;
                while p < out.len() && event_precedes(&out[p], &self.documents[k])
                    invariant
                        p <= out.len(),
                        k < self.documents.len(),
                        ov == mutation_views(out@),
                        x == self.documents@[k as int]@,
                        forall|m: int| 0 <= m < p ==> event_before(#[trigger] ov[m], x),
                    decreases out.len() - p,
                {
                    p += 1;
                }
                let c = copy_mutation(&self.documents[k]);
                out.insert(p, c);
                let ghost nv = mutation_views(out@);
                assert(nv =~= ov.insert(p as int, x));
                proof {
                    ov.insert_ensures(p as int, x);
                    if p < ov.len() {
                        lemma_event_before_total(ov[p as int], x);
                    }
                    assert forall|i: int, j: int| 0 <= i < j < nv.len() implies event_before(#[trigger] nv[i], #[trigger] nv[j]) by {
                        if j < p {
                        } else if j == p {
                        } else if i < p {
                            assert(nv[j] == ov[j - 1]);
                            lemma_event_before_total(ov[p as int], x);
                            if j - 1 > p {
                                lemma_event_before_transitive(x, ov[p as int], ov[j - 1]);
                            }
                            lemma_event_before_transitive(ov[i], x, ov[j - 1]);
                        } else if i == p {
                            assert(nv[j] == ov[j - 1]);
                            if j - 1 > p {
                                lemma_event_before_transitive(x, ov[p as int], ov[j - 1]);
                            }
                        } else {
                            assert(nv[i] == ov[i - 1] && nv[j] == ov[j - 1]);
                        }
                    }
                    assert forall|y: MutationV| #[trigger] nv.to_set().contains(y) <==> ov.to_set().insert(x).contains(y) by {
                        if nv.contains(y) {
                            let q = choose|q: int| 0 <= q < nv.len() && nv[q] == y;
                            if q < p {
                                assert(ov[q] == y);
                            } else if q > p {
                                assert(ov[q - 1] == y);
                            }
                        }
                        if ov.contains(y) {
                            let q = choose|q: int| 0 <= q < ov.len() && ov[q] == y;
                            if q < p {
                                assert(nv[q] == y);
                            } else {
                                assert(nv[q + 1] == y);
                            }
                        }
                        if y == x {
                            assert(nv[p as int] == y);
                        }
                    }
                    assert(nv.to_set() =~= ov.to_set().insert(x));
                    s.take(k as int).filter(pred).lemma_push_to_set_commute(x);
                }
            } else {
            }
            k += 1;
        }
        assert(s.take(self.documents.len() as int) =~= s);
        out
    }
}

/// Position of the first temporal document of a key at or after `k`.
pub open spec fn temporal_index_from(s: Seq<TemporalV>, tenant: Seq<char>, id: Seq<char>, k: int) -> Option<int>
    decreases s.len() - k,
{
    if k < 0 || k >= s.len() {
        None
    } else if s[k].tenant == tenant && s[k].id == id {
        Some(k)
    } else {
        temporal_index_from(s, tenant, id, k + 1)
    }
}

/// The temporal document of a key, if stored.
pub open spec fn temporal_lookup(s: Seq<TemporalV>, tenant: Seq<char>, id: Seq<char>) -> Option<TemporalV> {
    match temporal_index_from(s, tenant, id, 0) {
        Some(k) => Some(s[k]),
        None => None,
    }
}

/// The documents after storing one: a document of the same key is
/// replaced in place, else the document is appended.
pub open spec fn temporal_put(s: Seq<TemporalV>, d: TemporalV) -> Seq<TemporalV> {
    match temporal_index_from(s, d.tenant, d.id, 0) {
        Some(k) => s.update(k, d),
        None => s.push(d),
    }
}

/// The documents after removing the document of a key.
pub open spec fn temporal_remove(s: Seq<TemporalV>, tenant: Seq<char>, id: Seq<char>) -> Seq<TemporalV> {
    match temporal_index_from(s, tenant, id, 0) {
        Some(k) => s.remove(k),
        None => s,
    }
}

/// No two temporal documents share tenant and id.
pub open spec fn distinct_temporal(s: Seq<TemporalV>) -> bool {
    forall|a: int, b: int| 0 <= a < b < s.len() ==> !(#[trigger] s[a].tenant == #[trigger] s[b].tenant && s[a].id == s[b].id)
}

/// The search finds the first document of a key.
proof fn lemma_temporal_index_from(s: Seq<TemporalV>, tenant: Seq<char>, id: Seq<char>, k: int)
    requires
        0 <= k,
    ensures
        match temporal_index_from(s, tenant, id, k) {
            Some(j) => k <= j < s.len() && s[j].tenant == tenant && s[j].id == id && forall|m: int|
                k <= m < j ==> !(#[trigger] s[m].tenant == tenant && s[m].id == id),
            None => forall|m: int| k <= m < s.len() ==> !(#[trigger] s[m].tenant == tenant && s[m].id == id),
        },
    decreases s.len() - k,
{
    if k < s.len() && !(s[k].tenant == tenant && s[k].id == id) {
        lemma_temporal_index_from(s, tenant, id, k + 1);
    }
}

/// Temporal documents of all tenants, keyed by tenant and entity id.
pub struct MemoryTemporalRepository {
    documents: Vec<TemporalEntityDocument>,
}

/// Views of temporal documents, in order.
pub open spec fn temporal_views(docs: Seq<TemporalEntityDocument>) -> Seq<TemporalV> {
    docs.map_values(|d: TemporalEntityDocument| d@)
}

impl View for MemoryTemporalRepository {
    type V = Seq<TemporalV>;

    closed spec fn view(&self) -> Seq<TemporalV> {
        temporal_views(self.documents@)
    }
}

impl MemoryTemporalRepository {
    /// No key is stored twice.
    pub open spec fn wf(&self) -> bool {
        distinct_temporal(self@)
    }

    /// An empty repository.
    pub fn new() -> (r: Self)
        ensures
            r.wf(),
            r@ == Seq::<TemporalV>::empty(),
    {
        let r = MemoryTemporalRepository { documents: Vec::new() };
        assert(r@ =~= Seq::<TemporalV>::empty());
        r
    }

    /// Position of the document of a key.
    fn position(&self, tenant: &str, entity_id: &str) -> (r: Option<usize>)
        ensures
            match r {
                Some(k) => temporal_index_from(self@, tenant@, entity_id@, 0) == Some(k as int) && k < self@.len(),
                None => temporal_index_from(self@, tenant@, entity_id@, 0) is None,
            },
    {
        let ghost s = self@;
        let mut k: usize = 0;
        while k < self.documents.len()
            invariant
                k <= self.documents.len(),
                s == temporal_views(self.documents@),
                temporal_index_from(s, tenant@, entity_id@, 0) == temporal_index_from(s, tenant@, entity_id@, k as int),
            decreases self.documents.len() - k,
        {
            assert(s[k as int] == self.documents@[k as int]@);
            if str_eq(self.documents[k].tenant.as_str(), tenant) && str_eq(self.documents[k].ngsi_id.as_str(), entity_id) {
                return Some(k);
            }
            k += 1;
        }
        None
    }

    /// The temporal document of an entity.
    pub fn get(&self, tenant: &str, entity_id: &str) -> (r: Option<TemporalEntityDocument>)
        ensures
            match r {
                Some(d) => temporal_lookup(self@, tenant@, entity_id@) == Some(d@),
                None => temporal_lookup(self@, tenant@, entity_id@) is None,
            },
    {
        match self.position(tenant, entity_id) {
            Some(k) => {
                assert(self@[k as int] == self.documents@[k as int]@);
                Some(copy_temporal(&self.documents[k]))
            },
            None => None,
        }
    }

    /// Stores a temporal document, replacing one of the same key; returns
    /// whether it was new.
    pub fn upsert(&mut self, document: TemporalEntityDocument) -> (created: bool)
        requires
            old(self).wf(),
        ensures
            final(self).wf(),
            created == temporal_lookup(old(self)@, document.tenant@, document.ngsi_id@) is None,
            final(self)@ == temporal_put(old(self)@, document@),
    {
        let ghost s = self@;
        let ghost dv = document@;
        proof {
            lemma_temporal_index_from(s, dv.tenant, dv.id, 0);
        }
        match self.position(document.tenant.as_str(), document.ngsi_id.as_str()) {
            Some(k) => {
                self.documents.set(k, document);
                assert(self@ =~= s.update(k as int, dv));
                assert forall|a: int, b: int| 0 <= a < b < self@.len() implies !(#[trigger] self@[a].tenant
                    == #[trigger] self@[b].tenant && self@[a].id == self@[b].id) by {
                    assert(self@[a].tenant == s[a].tenant && self@[a].id == s[a].id);
                    assert(self@[b].tenant == s[b].tenant && self@[b].id == s[b].id);
                }
                false
            },
            None => {
                self.documents.push(document);
                assert(self@ =~= s.push(dv));
                assert forall|a: int, b: int| 0 <= a < b < self@.len() implies !(#[trigger] self@[a].tenant
                    == #[trigger] self@[b].tenant && self@[a].id == self@[b].id) by {
                    if b < s.len() {
                        assert(self@[a] == s[a] && self@[b] == s[b]);
                    } else {
                        assert(self@[a] == s[a]);
                    }
                }
                true
            },
        }
    }

    /// Deletes the temporal document of an entity; returns whether one was
    /// stored.
    pub fn delete(&mut self, tenant: &str, entity_id: &str) -> (r: bool)
        requires
            old(self).wf(),
        ensures
            final(self).wf(),
            r == temporal_lookup(old(self)@, tenant@, entity_id@) is Some,
            final(self)@ == temporal_remove(old(self)@, tenant@, entity_id@),
    {
        let ghost s = self@;
        match self.position(tenant, entity_id) {
            Some(k) => {
                let _ = self.documents.remove(k);
                assert(self@ =~= s.remove(k as int));
                assert forall|a: int, b: int| 0 <= a < b < self@.len() implies !(#[trigger] self@[a].tenant
                    == #[trigger] self@[b].tenant && self@[a].id == self@[b].id) by {
                    let sa = if a < k { a } else { a + 1 };
                    let sb = if b < k { b } else { b + 1 };
                    assert(self@[a] == s[sa] && self@[b] == s[sb]);
                }
                true
            },
            None => false,
        }
    }

    /// The temporal documents of a tenant that pass a query plan's
    /// filters, in storage order, at most the plan's limit; an id pattern
    /// that does not compile is a bad request.
    pub fn query(&self, tenant: &str, plan: &crate::query::planner::QueryPlan) -> (r: Result<Vec<TemporalEntityDocument>, BrokerError>)
        ensures
            r is Ok <==> crate::persistence::repository::pattern_usable(*plan),
            r matches Ok(v) ==> temporal_views(v@) == limited(
                self@.filter(|d: TemporalV| d.tenant == tenant@ && crate::persistence::repository::plan_admits(d.doc, *plan)),
                plan.limit,
            ),
            r matches Err(e) ==> e is BadRequest && crate::text::has_prefix(error_message(e), "invalid idPattern: "@),
    {
        match crate::persistence::repository::pattern_error(plan) {
            Some(e) => {
                return Err(e);
            },
            None => {},
        }
        let ghost s = self@;
        let ghost pred = |d: TemporalV| d.tenant == tenant@ && crate::persistence::repository::plan_admits(d.doc, *plan);
        let mut r: Vec<TemporalEntityDocument> = Vec::new();
        let mut k: usize = 0;
        while k < self.documents.len()
            invariant
                k <= self.documents.len(),
                s == temporal_views(self.documents@),
                crate::persistence::repository::pattern_usable(*plan),
                pred == (|d: TemporalV| d.tenant == tenant@ && crate::persistence::repository::plan_admits(d.doc, *plan)),
                temporal_views(r@) == s.take(k as int).filter(pred),
            decreases self.documents.len() - k,
        {
            proof {
                crate::query::eval::lemma_filter_take(s, pred, k as int);
            }
            assert(s[k as int] == self.documents@[k as int]@);
            if str_eq(self.documents[k].tenant.as_str(), tenant) && crate::persistence::repository::plan_matches(
                &self.documents[k].doc,
                plan,
            ) {
                let ghost before = temporal_views(r@);
                r.push(copy_temporal(&self.documents[k]));
                assert(temporal_views(r@) =~= before.push(s[k as int]));
            }
            k += 1;
        }
        assert(s.take(self.documents.len() as int) =~= s);
        match plan.limit {
            Some(l) => {
                if l < r.len() {
                    let ghost before = r@;
                    r.truncate(l);
                    assert(temporal_views(r@) =~= temporal_views(before).take(l as int));
                }
            },
            None => {},
        }
        Ok(r)
    }

    /// The temporal documents of a tenant, in storage order.
    pub fn tenant_documents(&self, tenant: &str) -> (r: Vec<TemporalEntityDocument>)
        ensures
            temporal_views(r@) == self@.filter(|d: TemporalV| d.tenant == tenant@),
    {
        let ghost s = self@;
        let ghost pred = |d: TemporalV| d.tenant == tenant@;
        let mut r: Vec<TemporalEntityDocument> = Vec::new();
        let mut k: usize = 0;
        while k < self.documents.len()
            invariant
                k <= self.documents.len(),
                s == temporal_views(self.documents@),
                pred == (|d: TemporalV| d.tenant == tenant@),
                temporal_views(r@) == s.take(k as int).filter(pred),
            decreases self.documents.len() - k,
        {
            proof {
                crate::query::eval::lemma_filter_take(s, pred, k as int);
            }
            assert(s[k as int] == self.documents@[k as int]@);
            if str_eq(self.documents[k].tenant.as_str(), tenant) {
                let ghost before = temporal_views(r@);
                r.push(copy_temporal(&self.documents[k]));
                assert(temporal_views(r@) =~= before.push(s[k as int]));
            }
            k += 1;
        }
        assert(s.take(self.documents.len() as int) =~= s);
        r
    }
}

/// Operations of a replicated entity mutation log.
pub trait EntityMutationRepository {
    /// The log is well formed.
    spec fn log_ok(&self) -> bool;

    /// Appends one mutation event.
    fn insert(&mut self, document: EntityMutationDocument) -> (r: Result<(), BrokerError>)
        requires
            old(self).log_ok(),
        ensures
            final(self).log_ok(),
    ;

    /// Appends mutation events in order.
    fn insert_many(&mut self, documents: Vec<EntityMutationDocument>) -> (r: Result<(), BrokerError>)
        requires
            old(self).log_ok(),
        ensures
            final(self).log_ok(),
    ;

    /// Lists the events made at or after a time.
    fn list_after(&self, created_after_millis: i64) -> (r: Result<Vec<EntityMutationDocument>, BrokerError>)
        requires
            self.log_ok(),
    ;
}

impl EntityMutationRepository for MemoryEntityMutationRepository {
    open spec fn log_ok(&self) -> bool {
        self.wf()
    }

    /// Stores one event, replacing an event of the same id.
    fn insert(&mut self, document: EntityMutationDocument) -> (r: Result<(), BrokerError>)
        ensures
            r is Ok,
            final(self)@ == event_put(old(self)@, document@),
    {
        self.put_event(document);
        Ok(())
    }

    /// Stores events in order, each replacing an event of the same id.
    fn insert_many(&mut self, documents: Vec<EntityMutationDocument>) -> (r: Result<(), BrokerError>)
        ensures
            r is Ok,
            final(self)@ == events_put(old(self)@, mutation_views(documents@)),
    {
        self.put_events(documents);
        Ok(())
    }

    /// The events made at or after `created_after_millis`, in event order
    /// (origin time, then event id).
    fn list_after(&self, created_after_millis: i64) -> (r: Result<Vec<EntityMutationDocument>, BrokerError>)
        ensures
            r matches Ok(v) && events_sorted(mutation_views(v@)) && mutation_views(v@).to_set() == self@.filter(
                |d: MutationV| d.created_at_millis >= created_after_millis,
            ).to_set(),
    {
        Ok(self.events_after(created_after_millis))
    }
}

/// Storing the same event twice stores it once: the log after the second
/// insert is the log after the first.
pub proof fn law_event_insert_idempotent(s: Seq<MutationV>, d: MutationV)
    ensures
        event_put(event_put(s, d), d) == event_put(s, d),
{
    let t = event_put(s, d);
    lemma_event_index_from(s, d.event_id, 0);
    lemma_event_index_from(t, d.event_id, 0);
    match event_index_from(s, d.event_id, 0) {
        Some(k) => {
            match event_index_from(t, d.event_id, 0) {
                Some(j) => {
                    if j < k {
                        assert(t[j] == s[j]);
                    } else if j > k {
                        assert(t[k].event_id == d.event_id);
                    }
                    assert(t.update(j, d) =~= t);
                },
                None => {
                    assert(t[k].event_id == d.event_id);
                },
            }
        },
        None => {
            match event_index_from(t, d.event_id, 0) {
                Some(j) => {
                    if j < s.len() {
                        assert(t[j] == s[j]);
                    }
                    assert(t.update(j, d) =~= t);
                },
                None => {
                    assert(t[s.len() as int].event_id == d.event_id);
                },
            }
        },
    }
}

/// A stored temporal document reads back; removing a key leaves it absent.
pub proof fn lemma_temporal_put_remove_lookup(s: Seq<TemporalV>, d: TemporalV, tenant: Seq<char>, id: Seq<char>)
    ensures
        temporal_lookup(temporal_put(s, d), d.tenant, d.id) == Some(d),
        distinct_temporal(s) ==> temporal_lookup(temporal_remove(s, tenant, id), tenant, id) is None,
{
    lemma_temporal_index_from(s, d.tenant, d.id, 0);
    let t = temporal_put(s, d);
    lemma_temporal_index_from(t, d.tenant, d.id, 0);
    match temporal_index_from(s, d.tenant, d.id, 0) {
        Some(k) => {
            match temporal_index_from(t, d.tenant, d.id, 0) {
                Some(j) => {
                    if j < k {
                        assert(t[j] == s[j]);
                    } else if j > k {
                        assert(t[k] == d);
                    }
                },
                None => {
                    assert(t[k] == d);
                },
            }
        },
        None => {
            match temporal_index_from(t, d.tenant, d.id, 0) {
                Some(j) => {
                    if j < s.len() {
                        assert(t[j] == s[j]);
                    }
                },
                None => {
                    assert(t[s.len() as int] == d);
                },
            }
        },
    }
    lemma_temporal_index_from(s, tenant, id, 0);
    let u = temporal_remove(s, tenant, id);
    lemma_temporal_index_from(u, tenant, id, 0);
    if distinct_temporal(s) {
        match temporal_index_from(s, tenant, id, 0) {
            Some(k) => {
                match temporal_index_from(u, tenant, id, 0) {
                    Some(j) => {
                        if j < k {
                            assert(u[j] == s[j]);
                        } else {
                            assert(u[j] == s[j + 1]);
                        }
                    },
                    None => {},
                }
            },
            None => {},
        }
    }
}

} // verus!
