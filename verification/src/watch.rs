//! Entity watching: the events between two snapshots of stored entities,
//! the attributes an update changed, and the suppression of events that
//! local writes already announced.
use vstd::prelude::*;
use crate::domain::{EntityEvent, EntityEventKind};
use crate::json::{Json, JsonV, attribute_names, clone_json, entity_attribute_names, is_reserved_member, reserved_member, json_same, opt_json_same};
use crate::query::eval::json_eq;
use crate::text::{chars_eq, chars_of, str_eq, string_from, views};

verus! {

/// An entity's key: its tenant and id.
#[derive(Clone, Debug)]
pub struct EntityKey {
    pub tenant: String,
    pub entity_id: String,
}

/// The view of an entity key.
pub open spec fn key_view(k: EntityKey) -> (Seq<char>, Seq<char>) {
    (k.tenant@, k.entity_id@)
}

/// Builds the key of an entity.
pub fn key(tenant: &str, entity_id: &str) -> (r: EntityKey)
    ensures
        key_view(r) == (tenant@, entity_id@),
{
    EntityKey { tenant: string_from(tenant), entity_id: string_from(entity_id) }
}

/// A copy of a key.
fn copy_key(k: &EntityKey) -> (r: EntityKey)
    ensures
        key_view(r) == key_view(*k),
{
    EntityKey { tenant: k.tenant.clone(), entity_id: k.entity_id.clone() }
}

/// Equality of keys.
fn same_key(a: &EntityKey, b: &EntityKey) -> (r: bool)
    ensures
        r == (key_view(*a) == key_view(*b)),
{
    str_eq(a.tenant.as_str(), b.tenant.as_str()) && str_eq(a.entity_id.as_str(), b.entity_id.as_str())
}

/// An attribute differs between two versions of an entity: it is not
/// reserved and its value (or absence) differs.
pub open spec fn attribute_differs(previous: JsonV, current: JsonV, name: Seq<char>) -> bool {
    !is_reserved_member(name) && !opt_json_same(previous.get(name), current.get(name))
}

/// Membership of a text in a vector of strings.
fn contains_name(items: &Vec<String>, s: &str) -> (r: bool)
    ensures
        r == views(items@).contains(s@),
{
    let mut i: usize = 0;
    while i < items.len()
        invariant
            i <= items.len(),
            forall|k: int| 0 <= k < i ==> views(items@)[k] != s@,
        decreases items.len() - i,
    {
        if str_eq(items[i].as_str(), s) {
            assert(views(items@)[i as int] == s@);
            return true;
        }
        i += 1;
    }
    false
}

/// Equality of optional JSON values.
fn same_member(a: Option<&Json>, b: Option<&Json>) -> (r: bool)
    ensures
        r == opt_json_same(
            match a {
                Some(x) => Some(x@),
                None => None,
            },
            match b {
                Some(y) => Some(y@),
                None => None,
            },
        ),
{
    match (a, b) {
        (Some(x), Some(y)) => json_eq(x, y),
        (None, None) => true,
        _ => false,
    }
}

/// Adds the differing names among `names` to `out`, keeping it free of
/// duplicates.
fn add_differing(out: &mut Vec<String>, names: &Vec<String>, previous: &Json, current: &Json)
    requires
        views(old(out)@).no_duplicates(),
        forall|x: Seq<char>| #[trigger] views(old(out)@).contains(x) ==> attribute_differs(previous@, current@, x),
    ensures
        views(final(out)@).no_duplicates(),
        forall|x: Seq<char>| #[trigger] views(final(out)@).contains(x) ==> attribute_differs(previous@, current@, x),
        forall|x: Seq<char>|
            #[trigger] views(final(out)@).contains(x) <== (views(old(out)@).contains(x) || (views(names@).contains(x)
                && attribute_differs(previous@, current@, x))),
        forall|x: Seq<char>|
            #[trigger] views(final(out)@).contains(x) ==> (views(old(out)@).contains(x) || views(names@).contains(x)),
{
    let ghost o0 = views(out@);
    let mut i: usize = 0;
    while i < names.len()
        invariant
            i <= names.len(),
            views(out@).no_duplicates(),
            forall|x: Seq<char>| #[trigger] views(out@).contains(x) ==> attribute_differs(previous@, current@, x),
            forall|x: Seq<char>|
                #[trigger] views(out@).contains(x) <== (o0.contains(x) || (views(names@).take(i as int).contains(x)
                    && attribute_differs(previous@, current@, x))),
            forall|x: Seq<char>|
                #[trigger] views(out@).contains(x) ==> (o0.contains(x) || views(names@).take(i as int).contains(x)),
        decreases names.len() - i,
    {
        let name = names[i].as_str();
        assert(views(names@)[i as int] == name@);
        assert(views(names@).take(i + 1) =~= views(names@).take(i as int).push(name@));
        let differs = !reserved_member(name) && !same_member(previous.get_member(name), current.get_member(name));
        assert(differs == attribute_differs(previous@, current@, name@));
        proof {
            lemma_take_push_contains(views(names@), i as int);
        }
        if differs && !contains_name(out, name) {
            let ghost before = views(out@);
            out.push(names[i].clone());
            assert(views(out@) =~= before.push(name@));
            assert forall|x: Seq<char>| #[trigger] views(out@).contains(x) implies (before.contains(x) || x == name@) by {
                if views(out@).contains(x) {
                    let k = choose|k: int| 0 <= k < views(out@).len() && views(out@)[k] == x;
                    if k < before.len() {
                        assert(before[k] == x);
                    }
                }
            }
            assert forall|x: Seq<char>| before.contains(x) implies #[trigger] views(out@).contains(x) by {
                let k = choose|k: int| 0 <= k < before.len() && before[k] == x;
                assert(views(out@)[k] == x);
            }
            assert(views(out@)[before.len() as int] == name@);
        }
        i += 1;
    }
    assert(views(names@).take(names.len() as int) =~= views(names@));
}

/// A prefix one item longer holds that item besides the shorter prefix's.
proof fn lemma_take_push_contains(s: Seq<Seq<char>>, i: int)
    requires
        0 <= i < s.len(),
    ensures
        forall|x: Seq<char>| #[trigger] s.take(i + 1).contains(x) <==> (s.take(i).contains(x) || x == s[i]),
{
    assert(s.take(i + 1) =~= s.take(i).push(s[i]));
    assert forall|x: Seq<char>| #[trigger] s.take(i + 1).contains(x) <==> (s.take(i).contains(x) || x == s[i]) by {
        if s.take(i + 1).contains(x) {
            let t = s.take(i + 1);
            let k = choose|k: int| 0 <= k < t.len() && #[trigger] t[k] == x;
            if k < i {
                assert(s.take(i)[k] == x);
            }
        }
        if s.take(i).contains(x) {
            let t = s.take(i);
            let k = choose|k: int| 0 <= k < t.len() && #[trigger] t[k] == x;
            assert(s.take(i + 1)[k] == x);
        }
        if x == s[i] {
            assert(s.take(i + 1)[i] == x);
        }
    }
}

/// Returns the changed non-reserved attribute names between two versions
/// of an entity: each name of either version whose value differs, once.
pub fn diff_attributes(previous: &Json, current: &Json) -> (r: Vec<String>)
    ensures
        views(r@).no_duplicates(),
        forall|x: Seq<char>|
            #[trigger] views(r@).contains(x) <==> ((previous@.keys().contains(x) || current@.keys().contains(x))
                && attribute_differs(previous@, current@, x)),
{
    let mut out: Vec<String> = Vec::new();
    assert(views(out@) =~= Seq::<Seq<char>>::empty());
    let prev_keys = previous.keys();
    let curr_keys = current.keys();
    add_differing(&mut out, &prev_keys, previous, current);
    add_differing(&mut out, &curr_keys, previous, current);
    out
}

/// An event of the watcher: an entity key, the document it concerns, and
/// the event.
#[derive(Clone, Debug)]
pub struct WatchEvent {
    pub key: EntityKey,
    pub document: Json,
    pub event: EntityEvent,
}

/// The document of a key in a snapshot (the first entry of the key).
pub open spec fn snapshot_get(s: Seq<((Seq<char>, Seq<char>), JsonV)>, k: (Seq<char>, Seq<char>)) -> Option<JsonV>
    decreases s.len(),
{
    if s.len() == 0 {
        None
    } else if s[0].0 == k {
        Some(s[0].1)
    } else {
        snapshot_get(s.drop_first(), k)
    }
}

/// The view of a snapshot.
pub open spec fn snapshot_view(s: Seq<(EntityKey, Json)>) -> Seq<((Seq<char>, Seq<char>), JsonV)> {
    s.map_values(|e: (EntityKey, Json)| (key_view(e.0), e.1@))
}

/// The kind of a watch event and the document it concerns, as views.
pub struct WatchEventV {
    pub key: (Seq<char>, Seq<char>),
    pub document: JsonV,
    pub kind: EntityEventKind,
}

/// Events for the entries of the current snapshot: created when the key
/// was not in the previous one, updated when its document changed.
pub open spec fn current_events(
    previous: Seq<((Seq<char>, Seq<char>), JsonV)>,
    current: Seq<((Seq<char>, Seq<char>), JsonV)>,
) -> Seq<WatchEventV>
    decreases current.len(),
{
    if current.len() == 0 {
        Seq::empty()
    } else {
        let rest = current_events(previous, current.drop_last());
        let (k, doc) = current.last();
        match snapshot_get(previous, k) {
            None => rest.push(WatchEventV { key: k, document: doc, kind: EntityEventKind::Created }),
            Some(p) => if !json_same(p, doc) {
                rest.push(WatchEventV { key: k, document: doc, kind: EntityEventKind::Updated })
            } else {
                rest
            },
        }
    }
}

/// Events for the entries of the previous snapshot whose key is gone.
pub open spec fn removed_events(
    previous: Seq<((Seq<char>, Seq<char>), JsonV)>,
    current: Seq<((Seq<char>, Seq<char>), JsonV)>,
) -> Seq<WatchEventV>
    decreases previous.len(),
{
    if previous.len() == 0 {
        Seq::empty()
    } else {
        let rest = removed_events(previous.drop_last(), current);
        let (k, doc) = previous.last();
        if snapshot_get(current, k) is None {
            rest.push(WatchEventV { key: k, document: doc, kind: EntityEventKind::Deleted })
        } else {
            rest
        }
    }
}

/// The view of a watch event.
pub open spec fn watch_event_view(e: WatchEvent) -> WatchEventV {
    WatchEventV { key: key_view(e.key), document: e.document@, kind: e.event.kind }
}

/// The changed attributes of a watch event: all attributes of a created or
/// deleted entity, the differing ones of an update.
pub open spec fn event_changes_ok(e: WatchEvent, previous: Seq<((Seq<char>, Seq<char>), JsonV)>) -> bool {
    match e.event.kind {
        EntityEventKind::Updated => snapshot_get(previous, key_view(e.key)) matches Some(p) && views(
            e.event.changed_attributes@,
        ).no_duplicates() && forall|x: Seq<char>|
            #[trigger] views(e.event.changed_attributes@).contains(x) <==> ((p.keys().contains(x)
                || e.document@.keys().contains(x)) && attribute_differs(p, e.document@, x)),
        _ => views(e.event.changed_attributes@) == attribute_names(e.document@),
    }
}

/// Looks up the document of a key in a snapshot.
fn snapshot_lookup<'a>(s: &'a Vec<(EntityKey, Json)>, k: &EntityKey) -> (r: Option<&'a Json>)
    ensures
        match r {
            Some(d) => snapshot_get(snapshot_view(s@), key_view(*k)) == Some(d@),
            None => snapshot_get(snapshot_view(s@), key_view(*k)) is None,
        },
{
    let ghost sv = snapshot_view(s@);
    assert(sv.skip(0) =~= sv);
    let mut i: usize = 0;
    while i < s.len()
        invariant
            i <= s.len(),
            sv == snapshot_view(s@),
            snapshot_get(sv, key_view(*k)) == snapshot_get(sv.skip(i as int), key_view(*k)),
        decreases s.len() - i,
    {
        assert(sv.skip(i as int)[0] == (key_view(s@[i as int].0), s@[i as int].1@));
        assert(sv.skip(i as int).drop_first() =~= sv.skip(i + 1));
        if same_key(&s[i].0, k) {
            return Some(&s[i].1);
        }
        i += 1;
    }
    assert(sv.skip(i as int).len() == 0);
    None
}

/// The events between two snapshots of stored entities: created and
/// updated entities in the order of the current snapshot, then deleted
/// ones in the order of the previous snapshot.
pub fn watch_events(previous: &Vec<(EntityKey, Json)>, current: &Vec<(EntityKey, Json)>) -> (r: Vec<WatchEvent>)
    ensures
        r@.map_values(|e: WatchEvent| watch_event_view(e)) == current_events(snapshot_view(previous@), snapshot_view(current@))
            + removed_events(snapshot_view(previous@), snapshot_view(current@)),
        forall|i: int| 0 <= i < r@.len() ==> event_changes_ok(#[trigger] r@[i], snapshot_view(previous@)),
{
    let ghost pv = snapshot_view(previous@);
    let ghost cv = snapshot_view(current@);
    let mut out: Vec<WatchEvent> = Vec::new();
    let mut i: usize = 0;
    while i < current.len()
        invariant
            i <= current.len(),
            pv == snapshot_view(previous@),
            cv == snapshot_view(current@),
            out@.map_values(|e: WatchEvent| watch_event_view(e)) == current_events(pv, cv.take(i as int)),
            forall|j: int| 0 <= j < out@.len() ==> event_changes_ok(#[trigger] out@[j], pv),
        decreases current.len() - i,
    {
        assert(cv.take(i + 1).drop_last() =~= cv.take(i as int));
        assert(cv.take(i + 1).last() == (key_view(current@[i as int].0), current@[i as int].1@));
        let k = &current[i].0;
        let doc = &current[i].1;
        let ghost before = out@.map_values(|e: WatchEvent| watch_event_view(e));
        match snapshot_lookup(previous, k) {
            None => {
                let ev = WatchEvent {
                    key: copy_key(k),
                    document: clone_json(doc),
                    event: EntityEvent { kind: EntityEventKind::Created, changed_attributes: entity_attribute_names(doc) },
                };
                out.push(ev);
                assert(out@.map_values(|e: WatchEvent| watch_event_view(e)) =~= before.push(
                    WatchEventV { key: key_view(*k), document: doc@, kind: EntityEventKind::Created },
                ));
            },
            Some(p) => {
                if !json_eq(p, doc) {
                    let ev = WatchEvent {
                        key: copy_key(k),
                        document: clone_json(doc),
                        event: EntityEvent { kind: EntityEventKind::Updated, changed_attributes: diff_attributes(p, doc) },
                    };
                    out.push(ev);
                    assert(out@.map_values(|e: WatchEvent| watch_event_view(e)) =~= before.push(
                        WatchEventV { key: key_view(*k), document: doc@, kind: EntityEventKind::Updated },
                    ));
                }
            },
        }
        i += 1;
    }
    assert(cv.take(current.len() as int) =~= cv);
    let ghost head = out@.map_values(|e: WatchEvent| watch_event_view(e));
    let ghost n0 = out@.len();
    let mut j: usize = 0;
    while j < previous.len()
        invariant
            j <= previous.len(),
            pv == snapshot_view(previous@),
            cv == snapshot_view(current@),
            head == current_events(pv, cv),
            out@.map_values(|e: WatchEvent| watch_event_view(e)) == head + removed_events(pv.take(j as int), cv),
            forall|m: int| 0 <= m < out@.len() ==> event_changes_ok(#[trigger] out@[m], pv),
        decreases previous.len() - j,
    {
        assert(pv.take(j + 1).drop_last() =~= pv.take(j as int));
        assert(pv.take(j + 1).last() == (key_view(previous@[j as int].0), previous@[j as int].1@));
        let k = &previous[j].0;
        let doc = &previous[j].1;
        let ghost before = out@.map_values(|e: WatchEvent| watch_event_view(e));
        if snapshot_lookup(current, k).is_none() {
            let ev = WatchEvent {
                key: copy_key(k),
                document: clone_json(doc),
                event: EntityEvent { kind: EntityEventKind::Deleted, changed_attributes: entity_attribute_names(doc) },
            };
            out.push(ev);
            assert(out@.map_values(|e: WatchEvent| watch_event_view(e)) =~= before.push(
                WatchEventV { key: key_view(*k), document: doc@, kind: EntityEventKind::Deleted },
            ));
        }
        j += 1;
    }
    assert(pv.take(previous.len() as int) =~= pv);
    out
}

/// Local writes whose watch events are to be suppressed: for each key,
/// the written document, or none for a deletion.
#[derive(Clone, Debug)]
pub struct EntityWatchState {
    pending_local: Vec<(EntityKey, Option<Json>)>,
}

/// The view of an optional document.
pub open spec fn opt_doc(o: Option<Json>) -> Option<JsonV> {
    match o {
        Some(d) => Some(d@),
        None => None,
    }
}

/// The view of a pending local write.
pub open spec fn pending_view(s: Seq<(EntityKey, Option<Json>)>) -> Seq<((Seq<char>, Seq<char>), Option<JsonV>)> {
    s.map_values(
        |e: (EntityKey, Option<Json>)|
            (
                key_view(e.0),
                match e.1 {
                    Some(d) => Some(d@),
                    None => None,
                },
            ),
    )
}

/// The pending write of a key (the first entry of the key).
pub open spec fn pending_get(s: Seq<((Seq<char>, Seq<char>), Option<JsonV>)>, k: (Seq<char>, Seq<char>)) -> Option<Option<JsonV>>
    decreases s.len(),
{
    if s.len() == 0 {
        None
    } else if s[0].0 == k {
        Some(s[0].1)
    } else {
        pending_get(s.drop_first(), k)
    }
}

impl View for EntityWatchState {
    type V = Seq<((Seq<char>, Seq<char>), Option<JsonV>)>;

    closed spec fn view(&self) -> Seq<((Seq<char>, Seq<char>), Option<JsonV>)> {
        pending_view(self.pending_local@)
    }
}

/// No key has two pending writes.
pub open spec fn distinct_pending(s: Seq<((Seq<char>, Seq<char>), Option<JsonV>)>) -> bool {
    forall|i: int, j: int| 0 <= i < j < s.len() ==> #[trigger] s[i].0 != #[trigger] s[j].0
}

impl EntityWatchState {
    /// No key has two pending writes.
    pub closed spec fn wf(&self) -> bool {
        distinct_pending(self@)
    }

    /// No pending local writes.
    pub fn new() -> (r: Self)
        ensures
            r.wf(),
            forall|k: (Seq<char>, Seq<char>)| pending_get(r@, k) is None,
    {
        let r = EntityWatchState { pending_local: Vec::new() };
        assert(r@ =~= Seq::<((Seq<char>, Seq<char>), Option<JsonV>)>::empty());
        r
    }

    /// Position of the pending write of a key.
    fn position(&self, k: &EntityKey) -> (r: Option<usize>)
        ensures
            match r {
                Some(i) => i < self@.len() && self@[i as int].0 == key_view(*k) && (forall|m: int|
                    0 <= m < i ==> self@[m].0 != key_view(*k)) && pending_get(self@, key_view(*k))
                    == Some(self@[i as int].1) && pending_get(self@.remove(i as int), key_view(*k))
                    == pending_get(self@.skip(i + 1), key_view(*k)),
                None => pending_get(self@, key_view(*k)) is None,
            },
    {
        let ghost sv = self@;
        assert(sv.skip(0) =~= sv);
        let mut i: usize = 0;
        while i < self.pending_local.len()
            invariant
                i <= self.pending_local.len(),
                sv == self@,
                sv == pending_view(self.pending_local@),
                pending_get(sv, key_view(*k)) == pending_get(sv.skip(i as int), key_view(*k)),
                forall|m: int| 0 <= m < i ==> sv[m].0 != key_view(*k),
            decreases self.pending_local.len() - i,
        {
            assert(sv.skip(i as int)[0] == sv[i as int]);
            assert(sv.skip(i as int).drop_first() =~= sv.skip(i + 1));
            assert(sv[i as int].0 == key_view(self.pending_local@[i as int].0));
            if same_key(&self.pending_local[i].0, k) {
                proof {
                    lemma_pending_get_prefix(sv, i as int, key_view(*k));
                }
                return Some(i);
            }
            i += 1;
        }
        assert(sv.skip(i as int).len() == 0);
        None
    }

    /// Records a pending write for a key, replacing an earlier one.
    fn record(&mut self, k: EntityKey, value: Option<Json>)
        requires
            old(self).wf(),
        ensures
            final(self).wf(),
            pending_get(final(self)@, key_view(k)) == Some(opt_doc(value)),
            forall|other: (Seq<char>, Seq<char>)|
                other != key_view(k) ==> #[trigger] pending_get(final(self)@, other) == pending_get(old(self)@, other),
    {
        let ghost kv = key_view(k);
        let ghost vv = opt_doc(value);
        let ghost s0 = self@;
        match self.position(&k) {
            Some(i) => {
                self.pending_local.set(i, (k, value));
                assert(self@ =~= s0.update(i as int, (kv, vv)));
                assert forall|a: int, b: int| 0 <= a < b < self@.len() implies #[trigger] self@[a].0 != #[trigger] self@[b].0 by {
                    assert(self@[a].0 == s0[a].0 && self@[b].0 == s0[b].0);
                }
                proof {
                    lemma_pending_update(s0, i as int, kv, vv);
                }
            },
            None => {
                self.pending_local.push((k, value));
                assert(self@ =~= s0.push((kv, vv)));
                assert forall|a: int, b: int| 0 <= a < b < self@.len() implies #[trigger] self@[a].0 != #[trigger] self@[b].0 by {
                    if b == s0.len() {
                        assert(self@[a] == s0[a]);
                        lemma_pending_absent(s0, kv, a);
                    } else {
                        assert(self@[a] == s0[a] && self@[b] == s0[b]);
                    }
                }
                proof {
                    lemma_pending_push(s0, kv, vv);
                }
            },
        }
    }

    /// Records a local write so that the watcher suppresses its duplicate
    /// delivery.
    pub fn record_local_upsert(&mut self, tenant: &str, entity_id: &str, entity: &Json)
        requires
            old(self).wf(),
        ensures
            final(self).wf(),
            pending_get(final(self)@, (tenant@, entity_id@)) == Some(Some(entity@)),
            forall|other: (Seq<char>, Seq<char>)|
                other != (tenant@, entity_id@) ==> #[trigger] pending_get(final(self)@, other) == pending_get(
                    old(self)@,
                    other,
                ),
    {
        self.record(key(tenant, entity_id), Some(clone_json(entity)));
    }

    /// Records a local delete so that the watcher suppresses its duplicate
    /// delivery.
    pub fn record_local_delete(&mut self, tenant: &str, entity_id: &str)
        requires
            old(self).wf(),
        ensures
            final(self).wf(),
            pending_get(final(self)@, (tenant@, entity_id@)) == Some(None::<JsonV>),
            forall|other: (Seq<char>, Seq<char>)|
                other != (tenant@, entity_id@) ==> #[trigger] pending_get(final(self)@, other) == pending_get(
                    old(self)@,
                    other,
                ),
    {
        self.record(key(tenant, entity_id), None);
    }

    /// Suppresses an event whose outcome a local write announced: when the
    /// pending write of the key is the current document (or a deletion and
    /// the entity is gone), it is consumed and the event suppressed.
    pub fn suppress_if_local(&mut self, k: &EntityKey, current: Option<&Json>) -> (r: bool)
        requires
            old(self).wf(),
        ensures
            final(self).wf(),
            r == (pending_get(old(self)@, key_view(*k)) matches Some(p) && opt_json_same(
                p,
                match current {
                    Some(c) => Some(c@),
                    None => None,
                },
            )),
            r ==> pending_get(final(self)@, key_view(*k)) is None,
            forall|other: (Seq<char>, Seq<char>)|
                other != key_view(*k) ==> #[trigger] pending_get(final(self)@, other) == pending_get(old(self)@, other),
            !r ==> final(self)@ == old(self)@,
    {
        match self.position(k) {
            Some(i) => {
                let matches = match (&self.pending_local[i].1, current) {
                    (Some(expected), Some(c)) => json_eq(expected, c),
                    (None, None) => true,
                    _ => false,
                };
                assert(self@[i as int].1 == match self.pending_local@[i as int].1 {
                    Some(d) => Some(d@),
                    None => None::<JsonV>,
                });
                if matches {
                    let ghost s0 = self@;
                    let _ = self.pending_local.remove(i);
                    assert(self@ =~= s0.remove(i as int));
                    proof {
                        let kv = key_view(*k);
                        assert forall|m: int| 0 <= m < s0.skip(i + 1).len() implies #[trigger] s0.skip(i + 1)[m].0 != kv by {
                            assert(s0.skip(i + 1)[m] == s0[i + 1 + m]);
                        }
                        lemma_pending_none(s0.skip(i + 1), kv);
                        assert forall|other: (Seq<char>, Seq<char>)| other != kv implies #[trigger] pending_get(self@, other)
                            == pending_get(s0, other) by {
                            lemma_pending_remove_other(s0, i as int, kv, other);
                        }
                        assert forall|a: int, b: int| 0 <= a < b < self@.len() implies #[trigger] self@[a].0 != #[trigger] self@[b].0 by {
                            let sa = if a < i { a } else { a + 1 };
                            let sb = if b < i { b } else { b + 1 };
                            assert(self@[a] == s0[sa] && self@[b] == s0[sb]);
                        }
                    }
                    true
                } else {
                    false
                }
            },
            None => false,
        }
    }
}

/// The pending write found at `i` is the first of its key, and removing it
/// leaves the pending writes after it.
proof fn lemma_pending_get_prefix(s: Seq<((Seq<char>, Seq<char>), Option<JsonV>)>, i: int, k: (Seq<char>, Seq<char>))
    requires
        0 <= i < s.len(),
        s[i].0 == k,
        forall|m: int| 0 <= m < i ==> s[m].0 != k,
    ensures
        pending_get(s, k) == Some(s[i].1),
        pending_get(s.remove(i), k) == pending_get(s.skip(i + 1), k),
    decreases i,
{
    if i > 0 {
        lemma_pending_get_prefix(s.drop_first(), i - 1, k);
        assert(s.drop_first().remove(i - 1) =~= s.remove(i).drop_first());
        assert(s.drop_first().skip(i) =~= s.skip(i + 1));
        assert(s.remove(i)[0] == s[0]);
    } else {
        assert(s.remove(0) =~= s.skip(1));
    }
}

/// Updating the first entry of key `k` (at `i`) sets the pending write of
/// `k` and keeps the others.
proof fn lemma_pending_update(
    s: Seq<((Seq<char>, Seq<char>), Option<JsonV>)>,
    i: int,
    k: (Seq<char>, Seq<char>),
    v: Option<JsonV>,
)
    requires
        0 <= i < s.len(),
        s[i].0 == k,
        forall|m: int| 0 <= m < i ==> s[m].0 != k,
    ensures
        pending_get(s.update(i, (k, v)), k) == Some(v),
        forall|other: (Seq<char>, Seq<char>)|
            other != k ==> #[trigger] pending_get(s.update(i, (k, v)), other) == pending_get(s, other),
    decreases s.len(),
{
    if i > 0 {
        assert(s[0].0 != k);
        lemma_pending_update(s.drop_first(), i - 1, k, v);
        assert(s.update(i, (k, v)).drop_first() =~= s.drop_first().update(i - 1, (k, v)));
    }
    assert forall|other: (Seq<char>, Seq<char>)| other != k implies #[trigger] pending_get(s.update(i, (k, v)), other)
        == pending_get(s, other) by {
        lemma_pending_update_other(s, i, k, v, other);
    }
}

/// Updating an entry of key `k` keeps the pending write of another key.
proof fn lemma_pending_update_other(
    s: Seq<((Seq<char>, Seq<char>), Option<JsonV>)>,
    i: int,
    k: (Seq<char>, Seq<char>),
    v: Option<JsonV>,
    other: (Seq<char>, Seq<char>),
)
    requires
        0 <= i < s.len(),
        s[i].0 == k,
        other != k,
    ensures
        pending_get(s.update(i, (k, v)), other) == pending_get(s, other),
    decreases s.len(),
{
    if s[0].0 != other && i > 0 {
        lemma_pending_update_other(s.drop_first(), i - 1, k, v, other);
        assert(s.update(i, (k, v)).drop_first() =~= s.drop_first().update(i - 1, (k, v)));
    } else if s[0].0 != other {
        assert(s.update(i, (k, v)).drop_first() =~= s.drop_first());
    }
}

/// Appending an entry of a key absent so far sets its pending write and
/// keeps the others.
proof fn lemma_pending_push(s: Seq<((Seq<char>, Seq<char>), Option<JsonV>)>, k: (Seq<char>, Seq<char>), v: Option<JsonV>)
    requires
        pending_get(s, k) is None,
    ensures
        pending_get(s.push((k, v)), k) == Some(v),
        forall|other: (Seq<char>, Seq<char>)| other != k ==> #[trigger] pending_get(s.push((k, v)), other) == pending_get(s, other),
    decreases s.len(),
{
    if s.len() > 0 {
        lemma_pending_push(s.drop_first(), k, v);
        assert(s.push((k, v)).drop_first() =~= s.drop_first().push((k, v)));
    }
    assert forall|other: (Seq<char>, Seq<char>)| other != k implies #[trigger] pending_get(s.push((k, v)), other)
        == pending_get(s, other) by {
        lemma_pending_push_other(s, k, v, other);
    }
}

/// Appending an entry keeps the pending write of another key.
proof fn lemma_pending_push_other(
    s: Seq<((Seq<char>, Seq<char>), Option<JsonV>)>,
    k: (Seq<char>, Seq<char>),
    v: Option<JsonV>,
    other: (Seq<char>, Seq<char>),
)
    requires
        other != k,
    ensures
        pending_get(s.push((k, v)), other) == pending_get(s, other),
    decreases s.len(),
{
    if s.len() == 0 {
        assert(s.push((k, v)).drop_first() =~= s);
    } else {
        assert(s.push((k, v))[0] == s[0]);
        if s[0].0 != other {
            lemma_pending_push_other(s.drop_first(), k, v, other);
            assert(s.push((k, v)).drop_first() =~= s.drop_first().push((k, v)));
        }
    }
}

/// A key found at no position has no pending write.
proof fn lemma_pending_none(s: Seq<((Seq<char>, Seq<char>), Option<JsonV>)>, k: (Seq<char>, Seq<char>))
    requires
        forall|m: int| 0 <= m < s.len() ==> #[trigger] s[m].0 != k,
    ensures
        pending_get(s, k) is None,
    decreases s.len(),
{
    if s.len() > 0 {
        assert forall|m: int| 0 <= m < s.drop_first().len() implies #[trigger] s.drop_first()[m].0 != k by {
            assert(s.drop_first()[m] == s[m + 1]);
        }
        lemma_pending_none(s.drop_first(), k);
    }
}

/// A key without a pending write is at no position.
proof fn lemma_pending_absent(s: Seq<((Seq<char>, Seq<char>), Option<JsonV>)>, k: (Seq<char>, Seq<char>), m: int)
    requires
        pending_get(s, k) is None,
        0 <= m < s.len(),
    ensures
        s[m].0 != k,
    decreases s.len(),
{
    if m > 0 {
        assert(s.drop_first()[m - 1] == s[m]);
        lemma_pending_absent(s.drop_first(), k, m - 1);
    }
}

/// Removing an entry of key `k` keeps the pending write of another key.
proof fn lemma_pending_remove_other(
    s: Seq<((Seq<char>, Seq<char>), Option<JsonV>)>,
    i: int,
    k: (Seq<char>, Seq<char>),
    other: (Seq<char>, Seq<char>),
)
    requires
        0 <= i < s.len(),
        s[i].0 == k,
        other != k,
    ensures
        pending_get(s.remove(i), other) == pending_get(s, other),
    decreases s.len(),
{
    if i == 0 {
        assert(s.remove(0) =~= s.drop_first());
    } else {
        assert(s.remove(i)[0] == s[0]);
        if s[0].0 != other {
            lemma_pending_remove_other(s.drop_first(), i - 1, k, other);
            assert(s.remove(i).drop_first() =~= s.drop_first().remove(i - 1));
        }
    }
}

} // verus!
