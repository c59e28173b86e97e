//! In-memory entity storage keyed by tenant and entity id.
use vstd::prelude::*;
use crate::error::{BrokerError, error_message};
use crate::json::{Json, JsonV, clone_json};
use crate::text::{chars_eq, chars_of, str_eq, text_around};

verus! {

/// A stored entity document with its tenant and id.
#[derive(Clone, Debug)]
pub struct StoredDocument {
    pub tenant: String,
    pub ngsi_id: String,
    pub doc: Json,
}

/// The view of a stored document.
pub struct StoredV {
    pub tenant: Seq<char>,
    pub id: Seq<char>,
    pub doc: JsonV,
}

impl View for StoredDocument {
    type V = StoredV;

    open spec fn view(&self) -> StoredV {
        StoredV { tenant: self.tenant@, id: self.ngsi_id@, doc: self.doc@ }
    }
}

/// Documents held in a store, in order.
pub open spec fn stored_views(docs: Seq<StoredDocument>) -> Seq<StoredV> {
    docs.map_values(|d: StoredDocument| d@)
}

/// Position of the first document of `tenant` and `id` at or after `k`.
pub open spec fn find_doc_from(s: Seq<StoredV>, tenant: Seq<char>, id: Seq<char>, k: int) -> Option<int>
    decreases s.len() - k,
{
    if k < 0 || k >= s.len() {
        None
    } else if s[k].tenant == tenant && s[k].id == id {
        Some(k)
    } else {
        find_doc_from(s, tenant, id, k + 1)
    }
}

/// Position of the document of `tenant` and `id`.
pub open spec fn find_doc(s: Seq<StoredV>, tenant: Seq<char>, id: Seq<char>) -> Option<int> {
    find_doc_from(s, tenant, id, 0)
}

/// The document of `tenant` and `id`, if stored.
pub open spec fn lookup(s: Seq<StoredV>, tenant: Seq<char>, id: Seq<char>) -> Option<JsonV> {
    match find_doc(s, tenant, id) {
        Some(k) => Some(s[k].doc),
        None => None,
    }
}

/// The store after putting a document: replaced in place when its key is
/// stored, else appended.
pub open spec fn store_put(s: Seq<StoredV>, tenant: Seq<char>, id: Seq<char>, doc: JsonV) -> Seq<StoredV> {
    match find_doc(s, tenant, id) {
        Some(k) => s.update(k, StoredV { tenant, id, doc }),
        None => s.push(StoredV { tenant, id, doc }),
    }
}

/// The store after removing the document of a key.
pub open spec fn store_remove(s: Seq<StoredV>, tenant: Seq<char>, id: Seq<char>) -> Seq<StoredV> {
    match find_doc(s, tenant, id) {
        Some(k) => s.remove(k),
        None => s,
    }
}

/// No two stored documents share tenant and id.
pub open spec fn distinct_keys(s: Seq<StoredV>) -> bool {
    forall|a: int, b: int|
        0 <= a < b < s.len() ==> !(#[trigger] s[a].tenant == #[trigger] s[b].tenant && s[a].id == s[b].id)
}

/// The search finds the first matching position at or after `k`.
pub proof fn lemma_find_doc_from(s: Seq<StoredV>, tenant: Seq<char>, id: Seq<char>, k: int)
    requires
        0 <= k,
    ensures
        match find_doc_from(s, tenant, id, k) {
            Some(j) => k <= j < s.len() && s[j].tenant == tenant && s[j].id == id && forall|m: int|
                k <= m < j ==> !(#[trigger] s[m].tenant == tenant && s[m].id == id),
            None => forall|m: int| k <= m < s.len() ==> !(#[trigger] s[m].tenant == tenant && s[m].id == id),
        },
    decreases s.len() - k,
{
    if k < s.len() {
        lemma_find_doc_from(s, tenant, id, k + 1);
    }
}

/// Facts about `find_doc`: the position found is the first match.
pub proof fn lemma_find_doc(s: Seq<StoredV>, tenant: Seq<char>, id: Seq<char>)
    ensures
        match find_doc(s, tenant, id) {
            Some(j) => 0 <= j < s.len() && s[j].tenant == tenant && s[j].id == id && forall|m: int|
                0 <= m < j ==> !(#[trigger] s[m].tenant == tenant && s[m].id == id),
            None => forall|m: int| 0 <= m < s.len() ==> !(#[trigger] s[m].tenant == tenant && s[m].id == id),
        },
{
    lemma_find_doc_from(s, tenant, id, 0);
}

/// In a store with distinct keys, a matching position is the one found.
pub proof fn lemma_find_unique(s: Seq<StoredV>, tenant: Seq<char>, id: Seq<char>, j: int)
    requires
        distinct_keys(s),
        0 <= j < s.len(),
        s[j].tenant == tenant,
        s[j].id == id,
    ensures
        find_doc(s, tenant, id) == Some(j),
{
    lemma_find_doc(s, tenant, id);
    match find_doc(s, tenant, id) {
        Some(k) => {
            if k < j {
                assert(!(s[k].tenant == s[j].tenant && s[k].id == s[j].id));
            } else if k > j {
                assert(!(s[j].tenant == tenant && s[j].id == id));
            }
        },
        None => {
            assert(!(s[j].tenant == tenant && s[j].id == id));
        },
    }
}

/// Reading back a put gives the document put.
pub proof fn lemma_put_lookup(s: Seq<StoredV>, tenant: Seq<char>, id: Seq<char>, doc: JsonV)
    requires
        distinct_keys(s),
    ensures
        lookup(store_put(s, tenant, id, doc), tenant, id) == Some(doc),
        distinct_keys(store_put(s, tenant, id, doc)),
{
    lemma_find_doc(s, tenant, id);
    let t = store_put(s, tenant, id, doc);
    match find_doc(s, tenant, id) {
        Some(k) => {
            assert forall|a: int, b: int| 0 <= a < b < t.len() implies !(#[trigger] t[a].tenant
                == #[trigger] t[b].tenant && t[a].id == t[b].id) by {
                if a == k {
                    assert(!(s[a].tenant == s[b].tenant && s[a].id == s[b].id));
                } else if b == k {
                    assert(!(s[a].tenant == s[b].tenant && s[a].id == s[b].id));
                } else {
                    assert(!(s[a].tenant == s[b].tenant && s[a].id == s[b].id));
                }
            }
            lemma_find_unique(t, tenant, id, k);
        },
        None => {
            assert forall|a: int, b: int| 0 <= a < b < t.len() implies !(#[trigger] t[a].tenant
                == #[trigger] t[b].tenant && t[a].id == t[b].id) by {
                if b == s.len() {
                    assert(!(s[a].tenant == tenant && s[a].id == id));
                } else {
                    assert(!(s[a].tenant == s[b].tenant && s[a].id == s[b].id));
                }
            }
            lemma_find_unique(t, tenant, id, s.len() as int);
        },
    }
}

/// A put leaves the documents of other keys as they were.
pub proof fn lemma_put_other(
    s: Seq<StoredV>,
    tenant: Seq<char>,
    id: Seq<char>,
    doc: JsonV,
    tenant2: Seq<char>,
    id2: Seq<char>,
)
    requires
        distinct_keys(s),
        !(tenant2 == tenant && id2 == id),
    ensures
        lookup(store_put(s, tenant, id, doc), tenant2, id2) == lookup(s, tenant2, id2),
{
    lemma_put_lookup(s, tenant, id, doc);
    let t = store_put(s, tenant, id, doc);
    lemma_find_doc(s, tenant, id);
    lemma_find_doc(s, tenant2, id2);
    lemma_find_doc(t, tenant2, id2);
    match find_doc(s, tenant2, id2) {
        Some(j) => {
            assert(t[j] == s[j]);
            lemma_find_unique(t, tenant2, id2, j);
        },
        None => {
            match find_doc(t, tenant2, id2) {
                Some(j) => {
                    if j < s.len() {
                        assert(t[j] == s[j]);
                    }
                },
                None => {},
            }
        },
    }
}

/// After a removal the key is gone, and keys stay distinct.
pub proof fn lemma_remove_lookup(s: Seq<StoredV>, tenant: Seq<char>, id: Seq<char>)
    requires
        distinct_keys(s),
    ensures
        lookup(store_remove(s, tenant, id), tenant, id) is None,
        distinct_keys(store_remove(s, tenant, id)),
{
    lemma_find_doc(s, tenant, id);
    let t = store_remove(s, tenant, id);
    lemma_find_doc(t, tenant, id);
    match find_doc(s, tenant, id) {
        Some(k) => {
            assert forall|a: int, b: int| 0 <= a < b < t.len() implies !(#[trigger] t[a].tenant
                == #[trigger] t[b].tenant && t[a].id == t[b].id) by {
                let sa = if a < k { a } else { a + 1 };
                let sb = if b < k { b } else { b + 1 };
                assert(t[a] == s[sa]);
                assert(t[b] == s[sb]);
                assert(!(s[sa].tenant == s[sb].tenant && s[sa].id == s[sb].id));
            }
            match find_doc(t, tenant, id) {
                Some(j) => {
                    let sj = if j < k { j } else { j + 1 };
                    assert(t[j] == s[sj]);
                    if sj < k {
                        assert(!(s[sj].tenant == tenant && s[sj].id == id));
                    } else {
                        assert(!(s[k].tenant == s[sj].tenant && s[k].id == s[sj].id));
                    }
                },
                None => {},
            }
        },
        None => {},
    }
}

/// A removal leaves the documents of other keys as they were.
pub proof fn lemma_remove_other(s: Seq<StoredV>, tenant: Seq<char>, id: Seq<char>, tenant2: Seq<char>, id2: Seq<char>)
    requires
        distinct_keys(s),
        !(tenant2 == tenant && id2 == id),
    ensures
        lookup(store_remove(s, tenant, id), tenant2, id2) == lookup(s, tenant2, id2),
{
    lemma_remove_lookup(s, tenant, id);
    let t = store_remove(s, tenant, id);
    lemma_find_doc(s, tenant, id);
    lemma_find_doc(s, tenant2, id2);
    lemma_find_doc(t, tenant2, id2);
    match find_doc(s, tenant, id) {
        Some(k) => {
            match find_doc(s, tenant2, id2) {
                Some(j) => {
                    let tj = if j < k { j } else { j - 1 };
                    assert(j != k);
                    assert(t[tj] == s[j]);
                    lemma_find_unique(t, tenant2, id2, tj);
                },
                None => {
                    match find_doc(t, tenant2, id2) {
                        Some(j) => {
                            let sj = if j < k { j } else { j + 1 };
                            assert(t[j] == s[sj]);
                        },
                        None => {},
                    }
                },
            }
        },
        None => {},
    }
}

/// Position in a batch of the first document whose key is already
/// stored.
pub open spec fn first_taken(s: Seq<StoredV>, docs: Seq<StoredV>) -> Option<int>
    decreases docs.len(),
{
    if docs.len() == 0 {
        None
    } else {
        match first_taken(s, docs.drop_last()) {
            Some(i) => Some(i),
            None => if lookup(s, docs.last().tenant, docs.last().id) is Some {
                Some(docs.len() - 1)
            } else {
                None
            },
        }
    }
}

/// The store after putting documents in order.
pub open spec fn put_all(s: Seq<StoredV>, docs: Seq<StoredV>) -> Seq<StoredV>
    decreases docs.len(),
{
    if docs.len() == 0 {
        s
    } else {
        let t = put_all(s, docs.drop_last());
        store_put(t, docs.last().tenant, docs.last().id, docs.last().doc)
    }
}

/// Entity documents of all tenants.
#[derive(Clone, Debug)]
pub struct MemoryEntityRepository {
    documents: Vec<StoredDocument>,
}

impl View for MemoryEntityRepository {
    type V = Seq<StoredV>;

    closed spec fn view(&self) -> Seq<StoredV> {
        stored_views(self.documents@)
    }
}

impl MemoryEntityRepository {
    /// The store is well formed: no key is stored twice.
    pub open spec fn wf(&self) -> bool {
        distinct_keys(self@)
    }

    /// An empty store.
    pub fn new() -> (r: Self)
        ensures
            r.wf(),
            r@ == Seq::<StoredV>::empty(),
    {
        let r = MemoryEntityRepository { documents: Vec::new() };
        assert(r@ =~= Seq::<StoredV>::empty());
        r
    }

    /// Position of the document of a key.
    fn position(&self, tenant: &str, entity_id: &str) -> (r: Option<usize>)
        ensures
            match r {
                Some(k) => find_doc(self@, tenant@, entity_id@) == Some(k as int) && k < self@.len(),
                None => find_doc(self@, tenant@, entity_id@) is None,
            },
    {
        let ghost s = self@;
        let mut k: usize = 0;
        while k < self.documents.len()
            invariant
                k <= self.documents.len(),
                s == stored_views(self.documents@),
                find_doc(s, tenant@, entity_id@) == find_doc_from(s, tenant@, entity_id@, k as int),
            decreases self.documents.len() - k,
        {
            assert(s[k as int] == self.documents@[k as int]@);
            if str_eq(self.documents[k].tenant.as_str(), tenant) && str_eq(
                self.documents[k].ngsi_id.as_str(),
                entity_id,
            ) {
                return Some(k);
            }
            k += 1;
        }
        None
    }

    /// Retrieves the document of a tenant and id.
    pub fn get(&self, tenant: &str, entity_id: &str) -> (r: Option<&StoredDocument>)
        ensures
            match r {
                Some(d) => lookup(self@, tenant@, entity_id@) == Some(d.doc@) && d.tenant@ == tenant@
                    && d.ngsi_id@ == entity_id@,
                None => lookup(self@, tenant@, entity_id@) is None,
            },
    {
        match self.position(tenant, entity_id) {
            Some(k) => {
                proof {
                    lemma_find_doc(self@, tenant@, entity_id@);
                }
                assert(self@[k as int] == self.documents@[k as int]@);
                Some(&self.documents[k])
            },
            None => None,
        }
    }

    /// Inserts a new document; a document of the same key is a conflict.
    pub fn insert(&mut self, document: StoredDocument) -> (r: Result<(), BrokerError>)
        requires
            old(self).wf(),
        ensures
            final(self).wf(),
            match r {
                Ok(()) => lookup(old(self)@, document.tenant@, document.ngsi_id@) is None && final(self)@
                    == store_put(old(self)@, document.tenant@, document.ngsi_id@, document.doc@),
                Err(e) => lookup(old(self)@, document.tenant@, document.ngsi_id@) is Some && final(self)@
                    == old(self)@ && e is Conflict && error_message(e) == "entity "@ + document.ngsi_id@
                    + " already exists"@,
            },
    {
        match self.position(document.tenant.as_str(), document.ngsi_id.as_str()) {
            Some(_) => {
                let id = chars_of(document.ngsi_id.as_str());
                Err(BrokerError::Conflict(text_around("entity ", &id, " already exists")))
            },
            None => {
                proof {
                    lemma_put_lookup(self@, document.tenant@, document.ngsi_id@, document.doc@);
                }
                let ghost s = self@;
                let ghost dv = document@;
                self.documents.push(document);
                assert(self@ =~= s.push(dv));
                Ok(())
            },
        }
    }

    /// Replaces the document of a key, or stores it when absent.
    pub fn replace(&mut self, document: StoredDocument)
        requires
            old(self).wf(),
        ensures
            final(self).wf(),
            final(self)@ == store_put(old(self)@, document.tenant@, document.ngsi_id@, document.doc@),
    {
        proof {
            lemma_put_lookup(self@, document.tenant@, document.ngsi_id@, document.doc@);
        }
        let ghost s = self@;
        let ghost dv = document@;
        match self.position(document.tenant.as_str(), document.ngsi_id.as_str()) {
            Some(k) => {
                self.documents.set(k, document);
                assert(self@ =~= s.update(k as int, dv));
            },
            None => {
                self.documents.push(document);
                assert(self@ =~= s.push(dv));
            },
        }
    }

    /// Deletes the document of a key and returns it.
    pub fn delete(&mut self, tenant: &str, entity_id: &str) -> (r: Option<StoredDocument>)
        requires
            old(self).wf(),
        ensures
            final(self).wf(),
            final(self)@ == store_remove(old(self)@, tenant@, entity_id@),
            match r {
                Some(d) => lookup(old(self)@, tenant@, entity_id@) == Some(d.doc@) && d.tenant@ == tenant@
                    && d.ngsi_id@ == entity_id@,
                None => lookup(old(self)@, tenant@, entity_id@) is None,
            },
    {
        proof {
            lemma_remove_lookup(self@, tenant@, entity_id@);
            lemma_find_doc(self@, tenant@, entity_id@);
        }
        let ghost s = self@;
        match self.position(tenant, entity_id) {
            Some(k) => {
                assert(s[k as int] == self.documents@[k as int]@);
                let d = self.documents.remove(k);
                assert(self@ =~= s.remove(k as int));
                Some(d)
            },
            None => None,
        }
    }

    /// The documents of a tenant, in storage order.
    pub fn tenant_documents(&self, tenant: &str) -> (r: Vec<Json>)
        ensures
            crate::json::json_views(r@) == self@.filter(|d: StoredV| d.tenant == tenant@).map_values(
                |d: StoredV| d.doc,
            ),
    {
        let ghost s = self@;
        let ghost pred = |d: StoredV| d.tenant == tenant@;
        let mut r: Vec<Json> = Vec::new();
        let mut k: usize = 0;
        while k < self.documents.len()
            invariant
                k <= self.documents.len(),
                s == stored_views(self.documents@),
                pred == (|d: StoredV| d.tenant == tenant@),
                crate::json::json_views(r@) == s.take(k as int).filter(pred).map_values(
                    |d: StoredV| d.doc,
                ),
            decreases self.documents.len() - k,
        {
            proof {
                crate::query::eval::lemma_filter_take(s, pred, k as int);
            }
            assert(s[k as int] == self.documents@[k as int]@);
            if str_eq(self.documents[k].tenant.as_str(), tenant) {
                let ghost before = crate::json::json_views(r@);
                r.push(clone_json(&self.documents[k].doc));
                assert(crate::json::json_views(r@) =~= before.push(s[k as int].doc));
                assert(s.take(k + 1).filter(pred).map_values(|d: StoredV| d.doc) =~= s.take(
                    k as int,
                ).filter(pred).map_values(|d: StoredV| d.doc).push(s[k as int].doc));
            } else {
                assert(s.take(k + 1).filter(pred).map_values(|d: StoredV| d.doc) =~= s.take(
                    k as int,
                ).filter(pred).map_values(|d: StoredV| d.doc));
            }
            k += 1;
        }
        assert(s.take(self.documents.len() as int) =~= s);
        r
    }
    /// The documents of a tenant that pass a query plan's filters, in
    /// storage order, at most the plan's limit; an id pattern that does not
    /// compile is a bad request.
    pub fn query(&self, tenant: &str, plan: &crate::query::planner::QueryPlan) -> (r: Result<Vec<StoredDocument>, BrokerError>)
        ensures
            r is Ok <==> crate::persistence::repository::pattern_usable(*plan),
            r matches Ok(v) ==> stored_views(v@) == crate::persistence::repository::limited(
                self@.filter(|d: StoredV| d.tenant == tenant@ && crate::persistence::repository::plan_admits(d.doc, *plan)),
                plan.limit,
            ),
            r matches Err(e) ==> e is BadRequest && crate::text::has_prefix(error_message(e), "invalid idPattern: "@),
    {
        match crate::persistence::repository::pattern_error(plan) {
            Some(e) => {
                return Err(e);
            },
            None => {},
        }
        let ghost s = self@;
        let ghost pred = |d: StoredV| d.tenant == tenant@ && crate::persistence::repository::plan_admits(d.doc, *plan);
        let mut r: Vec<StoredDocument> = Vec::new();
        let mut k: usize = 0;
        while k < self.documents.len()
            invariant
                k <= self.documents.len(),
                s == stored_views(self.documents@),
                crate::persistence::repository::pattern_usable(*plan),
                pred == (|d: StoredV| d.tenant == tenant@ && crate::persistence::repository::plan_admits(d.doc, *plan)),
                stored_views(r@) == s.take(k as int).filter(pred),
            decreases self.documents.len() - k,
        {
            proof {
                crate::query::eval::lemma_filter_take(s, pred, k as int);
            }
            assert(s[k as int] == self.documents@[k as int]@);
            if str_eq(self.documents[k].tenant.as_str(), tenant) && crate::persistence::repository::plan_matches(
                &self.documents[k].doc,
                plan,
            ) {
                let ghost before = stored_views(r@);
                let d = StoredDocument {
                    tenant: crate::text::string_from(self.documents[k].tenant.as_str()),
                    ngsi_id: crate::text::string_from(self.documents[k].ngsi_id.as_str()),
                    doc: clone_json(&self.documents[k].doc),
                };
                r.push(d);
                assert(stored_views(r@) =~= before.push(s[k as int]));
            }
            k += 1;
        }
        assert(s.take(self.documents.len() as int) =~= s);
        match plan.limit {
            Some(l) => {
                if l < r.len() {
                    let ghost before = r@;
                    r.truncate(l);
                    assert(stored_views(r@) =~= stored_views(before).take(l as int));
                }
            },
            None => {},
        }
        Ok(r)
    }
    /// The tenants that have entities, each once, in text order.
    pub fn list_tenants(&self) -> (r: Vec<String>)
        ensures
            crate::services::discovery::strictly_sorted(crate::text::views(r@)),
            crate::text::views(r@).to_set() == self@.map_values(|d: StoredV| d.tenant).to_set(),
    {
        let ghost s = self@;
        let mut r: Vec<String> = Vec::new();
        let mut k: usize = 0;
        assert(crate::text::views(r@).to_set() =~= s.take(0).map_values(|d: StoredV| d.tenant).to_set());
        while k < self.documents.len()
            invariant
                k <= self.documents.len(),
                s == stored_views(self.documents@),
                crate::services::discovery::strictly_sorted(crate::text::views(r@)),
                crate::text::views(r@).to_set() == s.take(k as int).map_values(|d: StoredV| d.tenant).to_set(),
            decreases self.documents.len() - k,
        {
            assert(s[k as int] == self.documents@[k as int]@);
            crate::services::discovery::insert_sorted(&mut r, self.documents[k].tenant.as_str());
            assert(s.take(k + 1).map_values(|d: StoredV| d.tenant) =~= s.take(k as int).map_values(
                |d: StoredV| d.tenant,
            ).push(s[k as int].tenant));
            proof {
                crate::services::discovery::lemma_push_to_set(
                    s.take(k as int).map_values(|d: StoredV| d.tenant),
                    s[k as int].tenant,
                );
            }
            k += 1;
        }
        assert(s.take(self.documents.len() as int) =~= s);
        r
    }
    /// Inserts a batch of new documents: when a document's key is already
    /// stored, nothing is inserted and the first such document is a
    /// conflict; else every document is put, in order.
    pub fn insert_many(&mut self, documents: Vec<StoredDocument>) -> (r: Result<(), BrokerError>)
        requires
            old(self).wf(),
        ensures
            final(self).wf(),
            match first_taken(old(self)@, stored_views(documents@)) {
                Some(i) => final(self)@ == old(self)@ && (r matches Err(e) && e is Conflict && error_message(e) == "entity "@
                    + stored_views(documents@)[i].id + " already exists"@),
                None => r is Ok && final(self)@ == put_all(old(self)@, stored_views(documents@)),
            },
    {
        let ghost s0 = self@;
        let ghost dv = stored_views(documents@);
        let mut i: usize = 0;
        while i < documents.len()
            invariant
                i <= documents.len(),
                s0 == self@,
                self.wf(),
                dv == stored_views(documents@),
                first_taken(s0, dv.take(i as int)) is None,
            decreases documents.len() - i,
        {
            assert(dv.take(i + 1).drop_last() =~= dv.take(i as int));
            assert(dv.take(i + 1).last() == documents@[i as int]@);
            if self.get(documents[i].tenant.as_str(), documents[i].ngsi_id.as_str()).is_some() {
                proof {
                    lemma_first_taken_prefix(s0, dv, i as int + 1);
                }
                let id = chars_of(documents[i].ngsi_id.as_str());
                return Err(BrokerError::Conflict(text_around("entity ", &id, " already exists")));
            }
            i += 1;
        }
        assert(dv.take(documents.len() as int) =~= dv);
        let mut rest = documents;
        let mut k: usize = 0;
        assert(dv.len() == rest.len());
        assert(dv.take(0) =~= Seq::<StoredV>::empty());
        while rest.len() > 0
            invariant
                k <= dv.len(),
                dv.len() == k + rest.len(),
                dv.len() <= usize::MAX,
                stored_views(rest@) == dv.skip(k as int),
                self.wf(),
                self@ == put_all(s0, dv.take(k as int)),
            decreases rest.len(),
        {
            let ghost before = rest@;
            assert(stored_views(before)[0] == before[0]@);
            let d = rest.remove(0);
            assert(stored_views(rest@) =~= stored_views(before).drop_first());
            assert(d@ == dv[k as int]);
            assert(dv.take(k + 1).drop_last() =~= dv.take(k as int));
            self.replace(d);
            assert(dv.skip(k as int).drop_first() =~= dv.skip(k + 1));
            k += 1;
        }
        assert(dv.take(k as int) =~= dv);
        Ok(())
    }
}

/// The first taken position of a prefix is that of any longer prefix.
proof fn lemma_first_taken_prefix(s: Seq<StoredV>, docs: Seq<StoredV>, n: int)
    requires
        0 < n <= docs.len(),
        first_taken(s, docs.take(n - 1)) is None,
        lookup(s, docs[n - 1].tenant, docs[n - 1].id) is Some,
    ensures
        first_taken(s, docs) == Some(n - 1),
    decreases docs.len(),
{
    assert(docs.take(n).drop_last() =~= docs.take(n - 1));
    if n < docs.len() {
        assert(docs.drop_last().take(n - 1) =~= docs.take(n - 1));
        assert(docs.drop_last()[n - 1] == docs[n - 1]);
        lemma_first_taken_prefix(s, docs.drop_last(), n);
    } else {
        assert(docs.take(n) =~= docs);
    }
}

} // verus!
