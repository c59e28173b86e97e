//! The swarm mutation log: the mutations that the brokers of a swarm
//! replicate, each kept once per tenant and mutation id, in the order of
//! the time it was recorded.
use vstd::prelude::*;
use crate::error::{BrokerError, error_message};
use crate::json::{Json, JsonV, clone_json};
use crate::text::{chars_of, str_eq, text_around};

verus! {

/// A logged swarm mutation: its tenant, its id, the time it was recorded
/// in nanoseconds, and the mutation document.
#[derive(Debug)]
pub struct SwarmMutationRecord {
    pub tenant: String,
    pub mutation_id: String,
    pub recorded_at_nanos: i64,
    pub doc: Json,
}

/// The view of a logged mutation.
pub struct SwarmRecordV {
    pub tenant: Seq<char>,
    pub mutation_id: Seq<char>,
    pub recorded_at_nanos: i64,
    pub doc: JsonV,
}

impl View for SwarmMutationRecord {
    type V = SwarmRecordV;

    open spec fn view(&self) -> SwarmRecordV {
        SwarmRecordV {
            tenant: self.tenant@,
            mutation_id: self.mutation_id@,
            recorded_at_nanos: self.recorded_at_nanos,
            doc: self.doc@,
        }
    }
}

/// Views of logged mutations, in order.
pub open spec fn record_views(s: Seq<SwarmMutationRecord>) -> Seq<SwarmRecordV> {
    s.map_values(|r: SwarmMutationRecord| r@)
}

/// Records in order of the time they were recorded.
pub open spec fn by_recording_time(s: Seq<SwarmRecordV>) -> bool {
    forall|i: int, j: int|
        0 <= i < j < s.len() ==> #[trigger] s[i].recorded_at_nanos <= #[trigger] s[j].recorded_at_nanos
}

/// A record is of a tenant and a mutation id.
pub open spec fn record_of(r: SwarmRecordV, tenant: Seq<char>, mutation_id: Seq<char>) -> bool {
    r.tenant == tenant && r.mutation_id == mutation_id
}

/// No two records share a tenant and a mutation id.
pub open spec fn distinct_records(s: Seq<SwarmRecordV>) -> bool {
    forall|i: int, j: int|
        0 <= i < j < s.len() ==> !record_of(#[trigger] s[i], s[j].tenant, #[trigger] s[j].mutation_id)
}

/// The log holds a record of a tenant and a mutation id.
pub open spec fn logged(s: Seq<SwarmRecordV>, tenant: Seq<char>, mutation_id: Seq<char>) -> bool {
    exists|i: int| 0 <= i < s.len() && record_of(#[trigger] s[i], tenant, mutation_id)
}

/// The document logged for a tenant and a mutation id.
pub open spec fn logged_doc(s: Seq<SwarmRecordV>, tenant: Seq<char>, mutation_id: Seq<char>) -> Option<JsonV> {
    if logged(s, tenant, mutation_id) {
        Some(s[choose|i: int| 0 <= i < s.len() && record_of(#[trigger] s[i], tenant, mutation_id)].doc)
    } else {
        None
    }
}

/// The log after adding a record: placed after every record recorded no
/// later than it.
pub open spec fn log_insert(s: Seq<SwarmRecordV>, r: SwarmRecordV) -> Seq<SwarmRecordV>
    decreases s.len(),
{
    if s.len() == 0 {
        seq![r]
    } else if s.last().recorded_at_nanos <= r.recorded_at_nanos {
        s.push(r)
    } else {
        log_insert(s.drop_last(), r).push(s.last())
    }
}

/// A record is of a tenant and was recorded after a cursor.
pub open spec fn after_cursor(r: SwarmRecordV, tenant: Seq<char>, since: Option<i64>) -> bool {
    r.tenant == tenant && match since {
        Some(c) => r.recorded_at_nanos > c,
        None => true,
    }
}

/// The documents of the records of a tenant recorded after a cursor, in
/// log order, at most `limit` of them (no bound when `limit` is zero).
pub open spec fn listed_since(s: Seq<SwarmRecordV>, tenant: Seq<char>, since: Option<i64>, limit: nat) -> Seq<JsonV> {
    let f = s.filter(|r: SwarmRecordV| after_cursor(r, tenant, since)).map_values(|r: SwarmRecordV| r.doc);
    if limit == 0 || f.len() <= limit {
        f
    } else {
        f.take(limit as int)
    }
}

/// Adding a record puts it at the position after the last record recorded
/// no later than it.
proof fn lemma_log_insert_at(s: Seq<SwarmRecordV>, r: SwarmRecordV, k: int)
    requires
        0 <= k <= s.len(),
        k == 0 || s[k - 1].recorded_at_nanos <= r.recorded_at_nanos,
        forall|m: int| k <= m < s.len() ==> #[trigger] s[m].recorded_at_nanos > r.recorded_at_nanos,
    ensures
        log_insert(s, r) == s.insert(k, r),
    decreases s.len(),
{
    if s.len() == 0 {
        assert(s.insert(k, r) =~= seq![r]);
    } else if s.last().recorded_at_nanos <= r.recorded_at_nanos {
        assert(k == s.len());
        assert(s.insert(k, r) =~= s.push(r));
    } else {
        assert(k < s.len());
        let t = s.drop_last();
        lemma_log_insert_at(t, r, k);
        assert(s.insert(k, r) =~= t.insert(k, r).push(s.last()));
    }
}

/// Adding a new record keeps the log ordered and free of duplicates, and
/// the log then gives the record's document for its key and the same
/// documents as before for every other key.
proof fn lemma_insert_new(s: Seq<SwarmRecordV>, r: SwarmRecordV, k: int)
    requires
        0 <= k <= s.len(),
        by_recording_time(s),
        distinct_records(s),
        !logged(s, r.tenant, r.mutation_id),
        k == 0 || s[k - 1].recorded_at_nanos <= r.recorded_at_nanos,
        forall|m: int| k <= m < s.len() ==> #[trigger] s[m].recorded_at_nanos > r.recorded_at_nanos,
    ensures
        by_recording_time(s.insert(k, r)),
        distinct_records(s.insert(k, r)),
        logged_doc(s.insert(k, r), r.tenant, r.mutation_id) == Some(r.doc),
        forall|t: Seq<char>, id: Seq<char>|
            !(t == r.tenant && id == r.mutation_id) ==> #[trigger] logged_doc(s.insert(k, r), t, id)
                == logged_doc(s, t, id),
{
    let n = s.insert(k, r);
    assert forall|i: int, j: int| 0 <= i < j < n.len() implies #[trigger] n[i].recorded_at_nanos
        <= #[trigger] n[j].recorded_at_nanos by {
        if j < k {
        } else if i > k {
            assert(n[i] == s[i - 1] && n[j] == s[j - 1]);
        } else if i == k {
            assert(n[j] == s[j - 1]);
        } else if j == k {
            assert(n[i] == s[i]);
            assert(s[i].recorded_at_nanos <= s[k - 1].recorded_at_nanos);
        } else {
            assert(n[i] == s[i] && n[j] == s[j - 1]);
        }
    }
    assert forall|i: int, j: int| 0 <= i < j < n.len() implies !record_of(
        #[trigger] n[i],
        n[j].tenant,
        #[trigger] n[j].mutation_id,
    ) by {
        if i == k {
            assert(n[j] == s[j - 1]);
        } else if j == k {
            assert(n[i] == s[i]);
        } else {
            let si = if i < k { i } else { i - 1 };
            let sj = if j < k { j } else { j - 1 };
            assert(n[i] == s[si] && n[j] == s[sj]);
        }
    }
    assert(record_of(n[k], r.tenant, r.mutation_id));
    let c = choose|i: int| 0 <= i < n.len() && record_of(#[trigger] n[i], r.tenant, r.mutation_id);
    if c != k {
        let sc = if c < k { c } else { c - 1 };
        assert(n[c] == s[sc]);
        assert(record_of(s[sc], r.tenant, r.mutation_id));
    }
    assert forall|t: Seq<char>, id: Seq<char>| !(t == r.tenant && id == r.mutation_id) implies #[trigger] logged_doc(
        n,
        t,
        id,
    ) == logged_doc(s, t, id) by {
        if logged(s, t, id) {
            let a = choose|i: int| 0 <= i < s.len() && record_of(#[trigger] s[i], t, id);
            let na = if a < k { a } else { a + 1 };
            assert(n[na] == s[a]);
            assert(record_of(n[na], t, id));
            let b = choose|i: int| 0 <= i < n.len() && record_of(#[trigger] n[i], t, id);
            if b != na {
                if b == k {
                    assert(record_of(r, t, id));
                } else {
                    let sb = if b < k { b } else { b - 1 };
                    assert(n[b] == s[sb]);
                    assert(record_of(s[sb], t, id));
                    if sb < a {
                        assert(!record_of(s[sb], s[a].tenant, s[a].mutation_id));
                    } else {
                        assert(!record_of(s[a], s[sb].tenant, s[sb].mutation_id));
                    }
                }
            }
        } else {
            if logged(n, t, id) {
                let b = choose|i: int| 0 <= i < n.len() && record_of(#[trigger] n[i], t, id);
                if b != k {
                    let sb = if b < k { b } else { b - 1 };
                    assert(n[b] == s[sb]);
                    assert(record_of(s[sb], t, id));
                }
            }
        }
    }
}

/// A mutation written to the log is read back: after the log accepts a
/// record, the document of its tenant and mutation id is the record's, and
/// the documents of every other key are those from before.
pub proof fn law_swarm_read_back(s: Seq<SwarmRecordV>, r: SwarmRecordV)
    requires
        by_recording_time(s),
        distinct_records(s),
        !logged(s, r.tenant, r.mutation_id),
    ensures
        logged_doc(log_insert(s, r), r.tenant, r.mutation_id) == Some(r.doc),
        forall|t: Seq<char>, id: Seq<char>|
            !(t == r.tenant && id == r.mutation_id) ==> #[trigger] logged_doc(log_insert(s, r), t, id)
                == logged_doc(s, t, id),
{
    let k = insert_point(s, r.recorded_at_nanos);
    lemma_insert_point(s, r.recorded_at_nanos);
    lemma_log_insert_at(s, r, k);
    lemma_insert_new(s, r, k);
}

/// The position after the last record recorded no later than `t`, in an
/// ordered log.
spec fn insert_point(s: Seq<SwarmRecordV>, t: i64) -> int
    decreases s.len(),
{
    if s.len() == 0 || s.last().recorded_at_nanos <= t {
        s.len() as int
    } else {
        insert_point(s.drop_last(), t)
    }
}

/// The insertion point of an ordered log splits it at `t`.
proof fn lemma_insert_point(s: Seq<SwarmRecordV>, t: i64)
    requires
        by_recording_time(s),
    ensures
        0 <= insert_point(s, t) <= s.len(),
        insert_point(s, t) == 0 || s[insert_point(s, t) - 1].recorded_at_nanos <= t,
        forall|m: int| insert_point(s, t) <= m < s.len() ==> #[trigger] s[m].recorded_at_nanos > t,
    decreases s.len(),
{
    if s.len() > 0 && s.last().recorded_at_nanos > t {
        let d = s.drop_last();
        assert(by_recording_time(d)) by {
            assert forall|i: int, j: int| 0 <= i < j < d.len() implies #[trigger] d[i].recorded_at_nanos
                <= #[trigger] d[j].recorded_at_nanos by {
                assert(d[i] == s[i] && d[j] == s[j]);
            }
        }
        lemma_insert_point(d, t);
        let k = insert_point(d, t);
        assert forall|m: int| k <= m < s.len() implies #[trigger] s[m].recorded_at_nanos > t by {
            if m < d.len() {
                assert(d[m] == s[m]);
            }
        }
        if k > 0 {
            assert(d[k - 1] == s[k - 1]);
        }
    }
}

/// The swarm mutation log of every tenant.
pub struct MemorySwarmMutationRepository {
    records: Vec<SwarmMutationRecord>,
}

impl View for MemorySwarmMutationRepository {
    type V = Seq<SwarmRecordV>;

    closed spec fn view(&self) -> Seq<SwarmRecordV> {
        record_views(self.records@)
    }
}

impl MemorySwarmMutationRepository {
    /// The log is ordered by recording time and holds each key once.
    pub open spec fn wf(&self) -> bool {
        by_recording_time(self@) && distinct_records(self@)
    }

    /// An empty log.
    pub fn new() -> (r: Self)
        ensures
            r.wf(),
            r@ == Seq::<SwarmRecordV>::empty(),
    {
        let r = MemorySwarmMutationRepository { records: Vec::new() };
        assert(r@ =~= Seq::<SwarmRecordV>::empty());
        r
    }

    /// Position of the record of a tenant and a mutation id.
    fn position(&self, tenant: &str, mutation_id: &str) -> (r: Option<usize>)
        requires
            self.wf(),
        ensures
            match r {
                Some(i) => i < self@.len() && record_of(self@[i as int], tenant@, mutation_id@)
                    && logged_doc(self@, tenant@, mutation_id@) == Some(self@[i as int].doc),
                None => !logged(self@, tenant@, mutation_id@),
            },
    {
        let ghost s = self@;
        let mut i: usize = 0;
        while i < self.records.len()
            invariant
                i <= self.records.len(),
                s == record_views(self.records@),
                distinct_records(s),
                forall|m: int| 0 <= m < i ==> !record_of(#[trigger] s[m], tenant@, mutation_id@),
            decreases self.records.len() - i,
        {
            assert(s[i as int] == self.records@[i as int]@);
            if str_eq(self.records[i].tenant.as_str(), tenant) && str_eq(
                self.records[i].mutation_id.as_str(),
                mutation_id,
            ) {
                proof {
                    let c = choose|m: int| 0 <= m < s.len() && record_of(#[trigger] s[m], tenant@, mutation_id@);
                    if c != i {
                        if c < i {
                            assert(!record_of(s[c], tenant@, mutation_id@));
                        } else {
                            assert(!record_of(s[i as int], s[c].tenant, s[c].mutation_id));
                        }
                    }
                }
                return Some(i);
            }
            i += 1;
        }
        None
    }

    /// The document logged for a tenant and a mutation id.
    pub fn get(&self, tenant: &str, mutation_id: &str) -> (r: Option<Json>)
        requires
            self.wf(),
        ensures
            match r {
                Some(d) => logged_doc(self@, tenant@, mutation_id@) == Some(d@),
                None => logged_doc(self@, tenant@, mutation_id@) is None,
            },
    {
        match self.position(tenant, mutation_id) {
            Some(i) => {
                assert(self@[i as int] == self.records@[i as int]@);
                Some(clone_json(&self.records[i].doc))
            },
            None => None,
        }
    }

    /// Adds a record; a second record of the same tenant and mutation id is
    /// refused with an internal error, and the log is left as it was.
    pub fn insert(&mut self, record: SwarmMutationRecord) -> (r: Result<(), BrokerError>)
        requires
            old(self).wf(),
        ensures
            final(self).wf(),
            match r {
                Ok(()) => !logged(old(self)@, record.tenant@, record.mutation_id@) && final(self)@ == log_insert(
                    old(self)@,
                    record@,
                ),
                Err(e) => logged(old(self)@, record.tenant@, record.mutation_id@) && e is Internal
                    && error_message(e) == "swarm mutation already recorded: "@ + record.mutation_id@
                    && final(self)@ == old(self)@,
            },
    {
        if self.position(record.tenant.as_str(), record.mutation_id.as_str()).is_some() {
            let id = chars_of(record.mutation_id.as_str());
            let e = BrokerError::Internal(text_around("swarm mutation already recorded: ", &id, ""));
            proof {
                reveal_strlit("");
            }
            assert(error_message(e) =~= "swarm mutation already recorded: "@ + record.mutation_id@);
            return Err(e);
        }
        let ghost s = self@;
        let ghost rv = record@;
        let t = record.recorded_at_nanos;
        let mut k: usize = self.records.len();
        while k > 0 && self.records[k - 1].recorded_at_nanos > t
            invariant
                k <= self.records.len(),
                s == record_views(self.records@),
                forall|m: int| k <= m < s.len() ==> #[trigger] s[m].recorded_at_nanos > t,
            decreases k,
        {
            assert(s[k - 1] == self.records@[k - 1]@);
            k -= 1;
        }
        if k > 0 {
            assert(s[k - 1] == self.records@[k - 1]@);
        }
        proof {
            lemma_log_insert_at(s, rv, k as int);
            lemma_insert_new(s, rv, k as int);
        }
        self.records.insert(k, record);
        assert(self@ =~= s.insert(k as int, rv));
        Ok(())
    }

    /// The documents of a tenant's records recorded after a cursor, in the
    /// order of recording, at most `limit` of them (no bound when `limit`
    /// is zero).
    pub fn list_since(&self, tenant: &str, since: Option<i64>, limit: usize) -> (r: Vec<Json>)
        ensures
            crate::json::json_views(r@) == listed_since(self@, tenant@, since, limit as nat),
    {
        let ghost s = self@;
        let ghost p = |r: SwarmRecordV| after_cursor(r, tenant@, since);
        let ghost d = |r: SwarmRecordV| r.doc;
        let mut out: Vec<Json> = Vec::new();
        let mut i: usize = 0;
        assert(s.take(0).filter(p) =~= Seq::<SwarmRecordV>::empty());
        assert(crate::json::json_views(out@) =~= Seq::<JsonV>::empty());
        while i < self.records.len()
            invariant
                i <= self.records.len(),
                s == record_views(self.records@),
                p == (|r: SwarmRecordV| after_cursor(r, tenant@, since)),
                d == (|r: SwarmRecordV| r.doc),
                ({
                    let f = s.take(i as int).filter(p).map_values(d);
                    crate::json::json_views(out@) == if limit == 0 || f.len() <= limit {
                        f
                    } else {
                        f.take(limit as int)
                    }
                }),
            decreases self.records.len() - i,
        {
            let ghost f0 = s.take(i as int).filter(p).map_values(d);
            proof {
                crate::query::eval::lemma_filter_take(s, p, i as int);
            }
            assert(s[i as int] == self.records@[i as int]@);
            let rec = &self.records[i];
            let wanted = str_eq(rec.tenant.as_str(), tenant) && match since {
                Some(c) => rec.recorded_at_nanos > c,
                None => true,
            };
            if wanted {
                assert(p(s[i as int]));
                let ghost f1 = s.take(i + 1).filter(p).map_values(d);
                assert(f1 =~= f0.push(s[i as int].doc));
                if limit == 0 || out.len() < limit {
                    let ghost before = out@;
                    out.push(clone_json(&rec.doc));
                    assert(crate::json::json_views(out@) =~= crate::json::json_views(before).push(
                        s[i as int].doc,
                    ));
                    assert(crate::json::json_views(out@) =~= (if limit == 0 || f1.len() <= limit {
                        f1
                    } else {
                        f1.take(limit as int)
                    }));
                } else {
                    assert(f0.len() >= limit);
                    assert(f1.take(limit as int) =~= (if f0.len() <= limit {
                        f0
                    } else {
                        f0.take(limit as int)
                    }));
                }
            } else {
                assert(!p(s[i as int]));
                assert(s.take(i + 1).filter(p).map_values(d) =~= f0);
            }
            i += 1;
        }
        assert(s.take(self.records.len() as int) =~= s);
        out
    }
}

} // verus!
