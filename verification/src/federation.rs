//! SWIM membership of federated brokers: peer records, their merge rules,
//! and the helpers that decide which peers to synchronise with.
use vstd::prelude::*;
use crate::config::AppConfig;
use crate::error::BrokerError;
use crate::json::{Json, JsonV};
use crate::text::{chars_eq, chars_of, ends_with_chars, has_suffix, string_from, string_of, join_chars, views};
use crate::time::{parse_rfc3339, rfc3339_instant};

verus! {

/// SWIM status of a peer.
#[derive(PartialEq, Eq, Structural, Clone, Copy, Debug)]
pub enum PeerStatus {
    Alive,
    Suspect,
    Dead,
}

/// SWIM view of peer membership shared between brokers.
#[derive(Clone, Debug)]
pub struct SwimPeer {
    pub peer_id: String,
    pub endpoint: String,
    pub aliases: Vec<String>,
    pub capabilities: Vec<String>,
    pub neighbors: Vec<String>,
    pub status: PeerStatus,
    pub incarnation: u64,
    pub tenant: Option<String>,
}

/// SWIM event kinds used for membership and mutation dissemination.
#[derive(PartialEq, Eq, Structural, Clone, Copy, Debug)]
pub enum SwimEventKind {
    Alive,
    Suspect,
    Dead,
    Mutation,
}

/// A SWIM membership event as peers exchange it, with the mutation it
/// carries, if any.
#[derive(Clone, Debug)]
pub struct SwimEventEnvelope {
    pub kind: SwimEventKind,
    pub source: SwimPeer,
    pub peer: SwimPeer,
    pub mutation: Option<Json>,
    pub recorded_at: String,
}

/// A SWIM event queued for delivery to a peer endpoint of a tenant.
#[derive(Clone, Debug)]
pub struct SwimEnvelope {
    pub tenant: String,
    pub endpoint: String,
    pub payload: SwimEventEnvelope,
}

/// A persisted peer record of a tenant.
#[derive(Clone, Debug)]
pub struct PeerDocument {
    pub tenant: String,
    pub peer_id: String,
    pub endpoint: String,
    pub aliases: Vec<String>,
    pub capabilities: Vec<String>,
    pub neighbors: Vec<String>,
    pub status: PeerStatus,
    pub incarnation: u64,
    pub updated_at: String,
    pub last_synced_at: Option<String>,
    pub last_synced_at_nanos: Option<i64>,
    pub last_mutation_cursor_nanos: Option<i64>,
}

/// View of a peer record.
pub struct PeerDocumentV {
    pub tenant: Seq<char>,
    pub peer_id: Seq<char>,
    pub endpoint: Seq<char>,
    pub aliases: Seq<Seq<char>>,
    pub capabilities: Seq<Seq<char>>,
    pub neighbors: Seq<Seq<char>>,
    pub status: PeerStatus,
    pub incarnation: u64,
    pub updated_at: Seq<char>,
    pub last_synced_at: Option<Seq<char>>,
    pub last_synced_at_nanos: Option<i64>,
    pub last_mutation_cursor_nanos: Option<i64>,
}

impl View for PeerDocument {
    type V = PeerDocumentV;

    open spec fn view(&self) -> PeerDocumentV {
        PeerDocumentV {
            tenant: self.tenant@,
            peer_id: self.peer_id@,
            endpoint: self.endpoint@,
            aliases: views(self.aliases@),
            capabilities: views(self.capabilities@),
            neighbors: views(self.neighbors@),
            status: self.status,
            incarnation: self.incarnation,
            updated_at: self.updated_at@,
            last_synced_at: match self.last_synced_at {
                Some(s) => Some(s@),
                None => None,
            },
            last_synced_at_nanos: self.last_synced_at_nanos,
            last_mutation_cursor_nanos: self.last_mutation_cursor_nanos,
        }
    }
}

/// View of a SWIM peer.
pub struct SwimPeerV {
    pub peer_id: Seq<char>,
    pub endpoint: Seq<char>,
    pub aliases: Seq<Seq<char>>,
    pub capabilities: Seq<Seq<char>>,
    pub neighbors: Seq<Seq<char>>,
    pub status: PeerStatus,
    pub incarnation: u64,
    pub tenant: Option<Seq<char>>,
}

impl View for SwimPeer {
    type V = SwimPeerV;

    open spec fn view(&self) -> SwimPeerV {
        SwimPeerV {
            peer_id: self.peer_id@,
            endpoint: self.endpoint@,
            aliases: views(self.aliases@),
            capabilities: views(self.capabilities@),
            neighbors: views(self.neighbors@),
            status: self.status,
            incarnation: self.incarnation,
            tenant: match self.tenant {
                Some(s) => Some(s@),
                None => None,
            },
        }
    }
}

/// Rank of a status for tie-breaking: alive 1, suspect 2, dead 3.
pub open spec fn rank(status: PeerStatus) -> int {
    match status {
        PeerStatus::Alive => 1,
        PeerStatus::Suspect => 2,
        PeerStatus::Dead => 3,
    }
}

/// Ranks SWIM statuses for tie-breaking.
pub fn status_rank(status: PeerStatus) -> (r: u8)
    ensures
        r as int == rank(status),
{
    match status {
        PeerStatus::Alive => 1,
        PeerStatus::Suspect => 2,
        PeerStatus::Dead => 3,
    }
}

/// Nanoseconds since the epoch of an instant given as seconds and
/// sub-second nanoseconds; outside the `i64` range, the product of its
/// microseconds and 1000 wrapped to 64 bits.
pub open spec fn instant_nanos(secs: i64, nanos: u32) -> i64 {
    let total = secs * 1_000_000_000 + nanos;
    if i64::MIN <= total <= i64::MAX {
        total as i64
    } else {
        ((secs * 1_000_000 + nanos / 1000) * 1000) as i64
    }
}

/// Nanoseconds since the epoch of an RFC 3339 timestamp.
pub open spec fn timestamp_nanos(text: Seq<char>) -> Option<i64> {
    match rfc3339_instant(text) {
        Some((s, n)) => Some(instant_nanos(s, n)),
        None => None,
    }
}

/// Parses RFC3339 timestamp into nanoseconds since epoch.
pub fn timestamp_to_nanos(value: &str) -> (r: Option<i64>)
    ensures
        r == timestamp_nanos(value@),
{
    match parse_rfc3339(value) {
        None => None,
        Some((secs, nanos)) => {
            let total: i128 = secs as i128 * 1_000_000_000 + nanos as i128;
            if i64::MIN as i128 <= total && total <= i64::MAX as i128 {
                Some(total as i64)
            } else {
                let micros: i128 = secs as i128 * 1_000_000 + (nanos / 1000) as i128;
                let wide: i128 = micros * 1000;
                Some(wide as i64)
            }
        },
    }
}

/// Nanoseconds of a timestamp, zero when it does not parse.
pub open spec fn nanos_or_zero(text: Seq<char>) -> i64 {
    match timestamp_nanos(text) {
        Some(n) => n,
        None => 0,
    }
}

/// Incoming membership state supersedes the existing one: a higher
/// incarnation; or the same incarnation and a higher-ranked status; or the
/// same incarnation and status and an update no older.
pub open spec fn membership_newer(existing: PeerDocumentV, incoming: PeerDocumentV) -> bool {
    ||| incoming.incarnation > existing.incarnation
    ||| (incoming.incarnation == existing.incarnation && rank(incoming.status) > rank(existing.status))
    ||| (incoming.incarnation == existing.incarnation && incoming.status == existing.status
        && nanos_or_zero(incoming.updated_at) >= nanos_or_zero(existing.updated_at))
}

/// Returns true when incoming membership state supersedes existing state.
pub fn incoming_membership_is_newer(existing: &PeerDocument, incoming: &PeerDocument) -> (r: bool)
    ensures
        r == membership_newer(existing@, incoming@),
{
    if incoming.incarnation > existing.incarnation {
        return true;
    }
    if incoming.incarnation == existing.incarnation && status_rank(incoming.status) > status_rank(
        existing.status,
    ) {
        return true;
    }
    if incoming.incarnation == existing.incarnation && incoming.status == existing.status {
        let a = match timestamp_to_nanos(incoming.updated_at.as_str()) {
            Some(n) => n,
            None => 0,
        };
        let b = match timestamp_to_nanos(existing.updated_at.as_str()) {
            Some(n) => n,
            None => 0,
        };
        return a >= b;
    }
    false
}

/// The first list, extended by the non-empty items of the second that it
/// (as extended so far) does not hold.
pub open spec fn merged_strings(left: Seq<Seq<char>>, right: Seq<Seq<char>>) -> Seq<Seq<char>>
    decreases right.len(),
{
    if right.len() == 0 {
        left
    } else {
        let m = merged_strings(left, right.drop_last());
        let x = right.last();
        if x.len() > 0 && !m.contains(x) {
            m.push(x)
        } else {
            m
        }
    }
}

/// Extends first string list with unique non-empty values from second.
pub fn merge_strings(left: Vec<String>, right: Vec<String>) -> (r: Vec<String>)
    ensures
        views(r@) == merged_strings(views(left@), views(right@)),
{
    let mut out = left;
    let ghost lv = views(out@);
    let ghost rv = views(right@);
    let mut i: usize = 0;
    assert(rv.take(0) =~= Seq::<Seq<char>>::empty());
    while i < right.len()
        invariant
            i <= right.len(),
            rv == views(right@),
            views(out@) == merged_strings(lv, rv.take(i as int)),
        decreases right.len() - i,
    {
        assert(rv.take(i + 1).drop_last() =~= rv.take(i as int));
        assert(rv.take(i + 1).last() == right@[i as int]@);
        let item = chars_of(right[i].as_str());
        let ghost m = views(out@);
        let mut found = false;
        let mut k: usize = 0;
        while k < out.len()
            invariant
                k <= out.len(),
                m == views(out@),
                item@ == right@[i as int]@,
                found == exists|j: int| 0 <= j < k && m[j] == item@,
            decreases out.len() - k,
        {
            let e = chars_of(out[k].as_str());
            assert(m[k as int] == out@[k as int]@);
            if chars_eq(&e, &item) {
                found = true;
            }
            k += 1;
        }
        assert(found == m.contains(item@)) by {
            if m.contains(item@) {
                let j = choose|j: int| 0 <= j < m.len() && m[j] == item@;
                assert(0 <= j < out.len());
            }
        }
        if item.len() > 0 && !found {
            let s = right[i].clone();
            let ghost before = out@;
            out.push(s);
            assert(views(out@) =~= views(before).push(s@));
        }
        i += 1;
    }
    assert(rv.take(right.len() as int) =~= rv);
    out
}

/// The merge of two peer records: identity and sync cursors from the
/// existing record, endpoint from the incoming one, lists merged, and the
/// membership state (status, incarnation, update time) of whichever is
/// newer.
pub open spec fn merged_peer(existing: PeerDocumentV, incoming: PeerDocumentV) -> PeerDocumentV {
    let newer = membership_newer(existing, incoming);
    PeerDocumentV {
        tenant: existing.tenant,
        peer_id: existing.peer_id,
        endpoint: incoming.endpoint,
        aliases: merged_strings(existing.aliases, incoming.aliases),
        capabilities: merged_strings(existing.capabilities, incoming.capabilities),
        neighbors: merged_strings(existing.neighbors, incoming.neighbors),
        status: if newer {
            incoming.status
        } else {
            existing.status
        },
        incarnation: if newer {
            incoming.incarnation
        } else {
            existing.incarnation
        },
        updated_at: if newer {
            incoming.updated_at
        } else {
            existing.updated_at
        },
        last_synced_at: existing.last_synced_at,
        last_synced_at_nanos: existing.last_synced_at_nanos,
        last_mutation_cursor_nanos: existing.last_mutation_cursor_nanos,
    }
}

/// Merges existing and incoming peer documents using SWIM ordering rules.
pub fn merge_peer_documents(existing: PeerDocument, incoming: PeerDocument) -> (r: PeerDocument)
    ensures
        r@ == merged_peer(existing@, incoming@),
{
    let use_incoming_state = incoming_membership_is_newer(&existing, &incoming);
    let PeerDocument {
        tenant,
        peer_id,
        endpoint: _,
        aliases,
        capabilities,
        neighbors,
        status,
        incarnation,
        updated_at,
        last_synced_at,
        last_synced_at_nanos,
        last_mutation_cursor_nanos,
    } = existing;
    let PeerDocument {
        endpoint: in_endpoint,
        aliases: in_aliases,
        capabilities: in_capabilities,
        neighbors: in_neighbors,
        status: in_status,
        incarnation: in_incarnation,
        updated_at: in_updated_at,
        ..
    } = incoming;
    PeerDocument {
        tenant,
        peer_id,
        endpoint: in_endpoint,
        aliases: merge_strings(aliases, in_aliases),
        capabilities: merge_strings(capabilities, in_capabilities),
        neighbors: merge_strings(neighbors, in_neighbors),
        status: if use_incoming_state {
            in_status
        } else {
            status
        },
        incarnation: if use_incoming_state {
            in_incarnation
        } else {
            incarnation
        },
        updated_at: if use_incoming_state {
            in_updated_at
        } else {
            updated_at
        },
        last_synced_at,
        last_synced_at_nanos,
        last_mutation_cursor_nanos,
    }
}

/// A text without its trailing slashes.
pub open spec fn trim_end_slashes(s: Seq<char>) -> Seq<char>
    decreases s.len(),
{
    if s.len() > 0 && s.last() == '/' {
        trim_end_slashes(s.drop_last())
    } else {
        s
    }
}

/// The NGSI-LD base path.
pub open spec fn base_path() -> Seq<char> {
    "/ngsi-ld/v1"@
}

/// An endpoint in canonical form: unchanged when it ends with the NGSI-LD
/// base path, else without trailing slashes and with the base path added.
pub open spec fn normalized_endpoint(e: Seq<char>) -> Seq<char> {
    if has_suffix(e, base_path()) {
        e
    } else {
        trim_end_slashes(e) + base_path()
    }
}

/// Removes trailing slashes.
fn trim_end_slash_chars(s: &Vec<char>) -> (r: Vec<char>)
    ensures
        r@ == trim_end_slashes(s@),
{
    let mut n = s.len();
    assert(s@.take(n as int) =~= s@);
    while n > 0 && s[n - 1] == '/'
        invariant
            n <= s.len(),
            trim_end_slashes(s@) == trim_end_slashes(s@.take(n as int)),
        decreases n,
    {
        assert(s@.take(n as int).drop_last() =~= s@.take(n - 1));
        assert(s@.take(n as int).last() == s@[n - 1]);
        n -= 1;
    }
    let r = crate::text::sub_chars(s, 0, n);
    assert(r@ =~= s@.take(n as int));
    r
}

/// Normalizes peer endpoint to canonical NGSI-LD base URL.
pub fn normalize_peer_endpoint(endpoint: &str) -> (r: String)
    ensures
        r@ == normalized_endpoint(endpoint@),
{
    let e = chars_of(endpoint);
    let base = chars_of("/ngsi-ld/v1");
    if ends_with_chars(&e, &base) {
        string_from(endpoint)
    } else {
        let t = trim_end_slash_chars(&e);
        proof {
            assert(e@.take(e.len() as int) =~= e@);
        }
        let j = join_chars(&t, &base);
        string_of(&j)
    }
}

/// The mutation version is not older than the current one: it always wins
/// when either time does not parse.
pub open spec fn version_not_older(current: Option<JsonV>, candidate: Seq<char>) -> bool {
    let cur = match current {
        Some(JsonV::Str(t)) => timestamp_nanos(t),
        _ => None,
    };
    match (cur, timestamp_nanos(candidate)) {
        (_, None) => true,
        (None, Some(_)) => true,
        (Some(c), Some(d)) => d >= c,
    }
}

/// Returns true when candidate mutation version is not older.
pub fn mutation_is_newer(current: Option<&Json>, candidate: &str) -> (r: bool)
    ensures
        r == version_not_older(
            match current {
                Some(v) => Some(v@),
                None => None,
            },
            candidate@,
        ),
{
    let cur = match current {
        Some(Json::Str(t)) => timestamp_to_nanos(t.as_str()),
        _ => None,
    };
    match (cur, timestamp_to_nanos(candidate)) {
        (_, None) => true,
        (None, Some(_)) => true,
        (Some(c), Some(d)) => d >= c,
    }
}

/// A record names the local broker: its id or endpoint, or an alias equal
/// to one of them.
pub open spec fn names_local(peer_id: Seq<char>, endpoint: Seq<char>, aliases: Seq<Seq<char>>, broker_id: Seq<char>, public_endpoint: Seq<char>) -> bool {
    ||| peer_id == broker_id
    ||| endpoint == public_endpoint
    ||| exists|i: int| 0 <= i < aliases.len() && (#[trigger] aliases[i] == broker_id || aliases[i] == public_endpoint)
}

/// Whether identity fields name the local broker.
fn identity_is_local(peer_id: &String, endpoint: &String, aliases: &Vec<String>, config: &AppConfig) -> (r: bool)
    ensures
        r == names_local(peer_id@, endpoint@, views(aliases@), config.broker_id@, config.public_endpoint@),
{
    let bid = chars_of(config.broker_id.as_str());
    let pe = chars_of(config.public_endpoint.as_str());
    if chars_eq(&chars_of(peer_id.as_str()), &bid) || chars_eq(&chars_of(endpoint.as_str()), &pe) {
        return true;
    }
    let ghost av = views(aliases@);
    let mut i: usize = 0;
    while i < aliases.len()
        invariant
            i <= aliases.len(),
            av == views(aliases@),
            bid@ == config.broker_id@,
            pe@ == config.public_endpoint@,
            forall|k: int| 0 <= k < i ==> !(#[trigger] av[k] == bid@ || av[k] == pe@),
        decreases aliases.len() - i,
    {
        let a = chars_of(aliases[i].as_str());
        assert(av[i as int] == a@);
        if chars_eq(&a, &bid) || chars_eq(&a, &pe) {
            return true;
        }
        i += 1;
    }
    false
}

/// Returns true when persisted peer record refers to local broker.
pub fn same_local_peer(peer: &PeerDocument, config: &AppConfig) -> (r: bool)
    ensures
        r == names_local(peer@.peer_id, peer@.endpoint, peer@.aliases, config.broker_id@, config.public_endpoint@),
{
    identity_is_local(&peer.peer_id, &peer.endpoint, &peer.aliases, config)
}

/// Skips sync for current broker aliases and endpoint.
pub fn should_skip_peer_sync(config: &AppConfig, peer: &PeerDocument) -> (r: bool)
    ensures
        r == names_local(peer@.peer_id, peer@.endpoint, peer@.aliases, config.broker_id@, config.public_endpoint@),
{
    identity_is_local(&peer.peer_id, &peer.endpoint, &peer.aliases, config)
}

/// Returns true when SWIM peer payload refers to local broker.
pub fn same_local_swim_peer(peer: &SwimPeer, config: &AppConfig) -> (r: bool)
    ensures
        r == names_local(peer@.peer_id, peer@.endpoint, peer@.aliases, config.broker_id@, config.public_endpoint@),
{
    identity_is_local(&peer.peer_id, &peer.endpoint, &peer.aliases, config)
}

/// Copies a list of strings.
fn copy_strings(v: &Vec<String>) -> (r: Vec<String>)
    ensures
        views(r@) == views(v@),
{
    let mut out: Vec<String> = Vec::new();
    let mut i: usize = 0;
    while i < v.len()
        invariant
            i <= v.len(),
            views(out@) == views(v@).take(i as int),
        decreases v.len() - i,
    {
        let ghost before = out@;
        let s = v[i].clone();
        out.push(s);
        assert(views(out@) =~= views(before).push(s@));
        assert(views(v@).take(i + 1) =~= views(v@).take(i as int).push(v@[i as int]@));
        i += 1;
    }
    assert(views(v@).take(v.len() as int) =~= views(v@));
    out
}

/// Each endpoint normalized.
pub open spec fn normalized_all(v: Seq<Seq<char>>) -> Seq<Seq<char>> {
    v.map_values(|e: Seq<char>| normalized_endpoint(e))
}

/// Normalizes each endpoint of a list.
fn normalize_all(v: &Vec<String>) -> (r: Vec<String>)
    ensures
        views(r@) == normalized_all(views(v@)),
{
    let mut out: Vec<String> = Vec::new();
    let mut i: usize = 0;
    while i < v.len()
        invariant
            i <= v.len(),
            views(out@) == normalized_all(views(v@)).take(i as int),
        decreases v.len() - i,
    {
        let ghost before = out@;
        let s = normalize_peer_endpoint(v[i].as_str());
        out.push(s);
        assert(views(out@) =~= views(before).push(s@));
        assert(normalized_all(views(v@)).take(i + 1) =~= normalized_all(views(v@)).take(i as int).push(
            normalized_endpoint(v@[i as int]@),
        ));
        i += 1;
    }
    assert(normalized_all(views(v@)).take(v.len() as int) =~= normalized_all(views(v@)));
    out
}

/// Converts persisted peer document into SWIM wire model.
pub fn swim_peer_from_document(peer: &PeerDocument) -> (r: SwimPeer)
    ensures
        r@ == (SwimPeerV {
            peer_id: peer@.peer_id,
            endpoint: peer@.endpoint,
            aliases: peer@.aliases,
            capabilities: peer@.capabilities,
            neighbors: peer@.neighbors,
            status: peer@.status,
            incarnation: peer@.incarnation,
            tenant: Some(peer@.tenant),
        }),
{
    SwimPeer {
        peer_id: peer.peer_id.clone(),
        endpoint: peer.endpoint.clone(),
        aliases: copy_strings(&peer.aliases),
        capabilities: copy_strings(&peer.capabilities),
        neighbors: copy_strings(&peer.neighbors),
        status: peer.status,
        incarnation: peer.incarnation,
        tenant: Some(peer.tenant.clone()),
    }
}

/// Converts inbound SWIM peer into persisted peer document.
pub fn peer_document_from_swim(tenant: &str, peer: SwimPeer, updated_at: String) -> (r: PeerDocument)
    ensures
        r@ == (PeerDocumentV {
            tenant: tenant@,
            peer_id: peer@.peer_id,
            endpoint: normalized_endpoint(peer@.endpoint),
            aliases: peer@.aliases,
            capabilities: peer@.capabilities,
            neighbors: normalized_all(peer@.neighbors),
            status: peer@.status,
            incarnation: peer@.incarnation,
            updated_at: updated_at@,
            last_synced_at: None,
            last_synced_at_nanos: None,
            last_mutation_cursor_nanos: None,
        }),
{
    let endpoint = normalize_peer_endpoint(peer.endpoint.as_str());
    let neighbors = normalize_all(&peer.neighbors);
    PeerDocument {
        tenant: string_from(tenant),
        peer_id: peer.peer_id,
        endpoint,
        aliases: peer.aliases,
        capabilities: peer.capabilities,
        neighbors,
        status: peer.status,
        incarnation: peer.incarnation,
        updated_at,
        last_synced_at: None,
        last_synced_at_nanos: None,
        last_mutation_cursor_nanos: None,
    }
}

/// Builds local broker membership payload for SWIM messages; `seeds` are
/// the configured seed endpoints.
pub fn local_swim_peer(config: &AppConfig, seeds: &Vec<String>, tenant: &str, incarnation: u64, status: PeerStatus) -> (r: SwimPeer)
    ensures
        r@ == (SwimPeerV {
            peer_id: config.broker_id@,
            endpoint: config.public_endpoint@,
            aliases: seq![config.broker_id@, config.public_endpoint@],
            capabilities: seq!["p2p"@, "swim"@, "swarm-sync"@],
            neighbors: normalized_all(views(seeds@)),
            status,
            incarnation,
            tenant: Some(tenant@),
        }),
{
    let mut aliases: Vec<String> = Vec::new();
    aliases.push(config.broker_id.clone());
    aliases.push(config.public_endpoint.clone());
    assert(views(aliases@) =~= seq![config.broker_id@, config.public_endpoint@]);
    let mut capabilities: Vec<String> = Vec::new();
    capabilities.push(string_from("p2p"));
    capabilities.push(string_from("swim"));
    capabilities.push(string_from("swarm-sync"));
    assert(views(capabilities@) =~= seq!["p2p"@, "swim"@, "swarm-sync"@]);
    SwimPeer {
        peer_id: config.broker_id.clone(),
        endpoint: config.public_endpoint.clone(),
        aliases,
        capabilities,
        neighbors: normalize_all(seeds),
        status,
        incarnation,
        tenant: Some(string_from(tenant)),
    }
}

/// Merging string lists keeps the first list as a prefix of the result.
pub proof fn law_merge_strings_keeps_left(left: Seq<Seq<char>>, right: Seq<Seq<char>>)
    ensures
        merged_strings(left, right).len() >= left.len(),
        merged_strings(left, right).take(left.len() as int) == left,
    decreases right.len(),
{
    if right.len() > 0 {
        law_merge_strings_keeps_left(left, right.drop_last());
        let m = merged_strings(left, right.drop_last());
        assert(m.push(right.last()).take(left.len() as int) =~= m.take(left.len() as int));
    } else {
        assert(left.take(left.len() as int) =~= left);
    }
}

/// After merging string lists, the result holds every non-empty item of
/// the second list, and every item of the result comes from the first
/// list or is a non-empty item of the second.
pub proof fn law_merge_strings_members(left: Seq<Seq<char>>, right: Seq<Seq<char>>)
    ensures
        forall|j: int| 0 <= j < right.len() && right[j].len() > 0 ==> merged_strings(left, right).contains(
            #[trigger] right[j],
        ),
        forall|x: Seq<char>| #[trigger] merged_strings(left, right).contains(x) ==> left.contains(x) || (
        right.contains(x) && x.len() > 0),
    decreases right.len(),
{
    if right.len() > 0 {
        let r0 = right.drop_last();
        law_merge_strings_members(left, r0);
        let m = merged_strings(left, r0);
        let x = right.last();
        assert forall|j: int| 0 <= j < right.len() && right[j].len() > 0 implies merged_strings(
            left,
            right,
        ).contains(#[trigger] right[j]) by {
            if j < right.len() - 1 {
                assert(r0[j] == right[j]);
                assert(m.contains(r0[j]));
                let k = choose|k: int| 0 <= k < m.len() && m[k] == r0[j];
                if x.len() > 0 && !m.contains(x) {
                    assert(m.push(x)[k] == right[j]);
                }
            } else {
                if x.len() > 0 && !m.contains(x) {
                    assert(m.push(x)[m.len() as int] == x);
                }
            }
        }
        assert forall|y: Seq<char>| #[trigger] merged_strings(left, right).contains(y) implies left.contains(
            y,
        ) || (right.contains(y) && y.len() > 0) by {
            if x.len() > 0 && !m.contains(x) {
                let k = choose|k: int| 0 <= k < m.len() + 1 && m.push(x)[k] == y;
                if k < m.len() {
                    assert(m.contains(y));
                    if r0.contains(y) {
                        let q = choose|q: int| 0 <= q < r0.len() && r0[q] == y;
                        assert(right[q] == y);
                    }
                } else {
                    assert(right[right.len() - 1] == y);
                }
            } else {
                if r0.contains(y) {
                    let q = choose|q: int| 0 <= q < r0.len() && r0[q] == y;
                    assert(right[q] == y);
                }
            }
        }
    }
}

/// No item occurs twice.
pub open spec fn distinct(s: Seq<Seq<char>>) -> bool {
    forall|i: int, j: int| 0 <= i < j < s.len() ==> s[i] != s[j]
}

/// Merging into a list without repeats gives a list without repeats.
pub proof fn law_merge_strings_distinct(left: Seq<Seq<char>>, right: Seq<Seq<char>>)
    requires
        distinct(left),
    ensures
        distinct(merged_strings(left, right)),
    decreases right.len(),
{
    if right.len() > 0 {
        law_merge_strings_distinct(left, right.drop_last());
        let m = merged_strings(left, right.drop_last());
        let x = right.last();
        if x.len() > 0 && !m.contains(x) {
            let n = m.push(x);
            assert forall|i: int, j: int| 0 <= i < j < n.len() implies n[i] != n[j] by {
                if j == m.len() {
                    assert(n[i] == m[i]);
                } else {
                    assert(n[i] == m[i] && n[j] == m[j]);
                }
            }
        }
    }
}

/// Merging the same second list twice changes nothing more.
pub proof fn law_merge_strings_idempotent(left: Seq<Seq<char>>, right: Seq<Seq<char>>)
    ensures
        merged_strings(merged_strings(left, right), right) == merged_strings(left, right),
{
    let m = merged_strings(left, right);
    law_merge_strings_members(left, right);
    lemma_merge_absorbed(m, right, right.len() as int);
    assert(right.take(right.len() as int) =~= right);
}

/// Merging items that the list already holds (or that are empty) leaves
/// it unchanged.
proof fn lemma_merge_absorbed(m: Seq<Seq<char>>, right: Seq<Seq<char>>, n: int)
    requires
        0 <= n <= right.len(),
        forall|j: int| 0 <= j < right.len() && right[j].len() > 0 ==> m.contains(#[trigger] right[j]),
    ensures
        merged_strings(m, right.take(n)) == m,
    decreases n,
{
    if n > 0 {
        lemma_merge_absorbed(m, right, n - 1);
        assert(right.take(n).drop_last() =~= right.take(n - 1));
        assert(right.take(n).last() == right[n - 1]);
    } else {
        assert(right.take(0).len() == 0);
    }
}

/// A normalized endpoint ends with the NGSI-LD base path, and normalizing
/// it again changes nothing.
pub proof fn law_normalize_endpoint(e: Seq<char>)
    ensures
        has_suffix(normalized_endpoint(e), base_path()),
        normalized_endpoint(normalized_endpoint(e)) == normalized_endpoint(e),
{
    let n = normalized_endpoint(e);
    if !has_suffix(e, base_path()) {
        let t = trim_end_slashes(e);
        assert((t + base_path()).subrange(t.len() as int, (t + base_path()).len() as int) =~= base_path());
    }
}

/// The merged record carries the higher incarnation of the two.
pub proof fn law_merge_incarnation_max(existing: PeerDocumentV, incoming: PeerDocumentV)
    ensures
        merged_peer(existing, incoming).incarnation == if existing.incarnation >= incoming.incarnation {
            existing.incarnation
        } else {
            incoming.incarnation
        },
{
}

/// At equal incarnations, the merged record carries the higher-ranked
/// status of the two (dead over suspect over alive).
pub proof fn law_merge_status_precedence(existing: PeerDocumentV, incoming: PeerDocumentV)
    requires
        existing.incarnation == incoming.incarnation,
    ensures
        rank(merged_peer(existing, incoming).status) == if rank(existing.status) >= rank(incoming.status) {
            rank(existing.status)
        } else {
            rank(incoming.status)
        },
{
}

/// The membership state (status and incarnation) of a merge does not
/// depend on which record is the existing one.
pub proof fn law_merge_state_symmetric(a: PeerDocumentV, b: PeerDocumentV)
    ensures
        merged_peer(a, b).status == merged_peer(b, a).status,
        merged_peer(a, b).incarnation == merged_peer(b, a).incarnation,
{
    if a.incarnation == b.incarnation && rank(a.status) == rank(b.status) {
        assert(a.status == b.status) by {
            match a.status {
                PeerStatus::Alive => {},
                PeerStatus::Suspect => {},
                PeerStatus::Dead => {},
            }
        }
    }
}

/// Merging a record with itself gives the record back.
pub proof fn law_merge_self(d: PeerDocumentV)
    ensures
        merged_peer(d, d) == d,
{
    law_merge_strings_members(d.aliases, d.aliases);
    assert forall|j: int| 0 <= j < d.aliases.len() && d.aliases[j].len() > 0 implies d.aliases.contains(
        #[trigger] d.aliases[j],
    ) by {}
    lemma_merge_absorbed(d.aliases, d.aliases, d.aliases.len() as int);
    assert(d.aliases.take(d.aliases.len() as int) =~= d.aliases);
    assert forall|j: int| 0 <= j < d.capabilities.len() && d.capabilities[j].len() > 0 implies d.capabilities.contains(
        #[trigger] d.capabilities[j],
    ) by {}
    lemma_merge_absorbed(d.capabilities, d.capabilities, d.capabilities.len() as int);
    assert(d.capabilities.take(d.capabilities.len() as int) =~= d.capabilities);
    assert forall|j: int| 0 <= j < d.neighbors.len() && d.neighbors[j].len() > 0 implies d.neighbors.contains(
        #[trigger] d.neighbors[j],
    ) by {}
    lemma_merge_absorbed(d.neighbors, d.neighbors, d.neighbors.len() as int);
    assert(d.neighbors.take(d.neighbors.len() as int) =~= d.neighbors);
}

/// A value clamped to the `i64` range, as saturating arithmetic gives it.
pub open spec fn saturated(x: int) -> int {
    if x > i64::MAX {
        i64::MAX as int
    } else if x < i64::MIN {
        i64::MIN as int
    } else {
        x
    }
}

/// The status membership expiry gives a remote peer at `now_nanos`: an
/// alive peer not heard from for the suspect timeout becomes suspect, a
/// suspect peer not heard from for twice the timeout becomes dead; the
/// local broker, a peer without a readable update time, and every other
/// peer are left alone.
pub open spec fn expiry_status(peer: PeerDocumentV, local: bool, now_nanos: i64, suspect_timeout_nanos: int) -> Option<PeerStatus> {
    if local {
        None
    } else {
        match timestamp_nanos(peer.updated_at) {
            None => None,
            Some(updated) => {
                let age = saturated(now_nanos - updated);
                if peer.status == PeerStatus::Alive && age >= suspect_timeout_nanos {
                    Some(PeerStatus::Suspect)
                } else if peer.status == PeerStatus::Suspect && age >= saturated(suspect_timeout_nanos * 2) {
                    Some(PeerStatus::Dead)
                } else {
                    None
                }
            },
        }
    }
}

/// A difference of two `i64` values, saturated.
fn saturating_difference(a: i64, b: i64) -> (r: i64)
    ensures
        r as int == saturated(a - b),
{
    let d: i128 = a as i128 - b as i128;
    if d > i64::MAX as i128 {
        i64::MAX
    } else if d < i64::MIN as i128 {
        i64::MIN
    } else {
        d as i64
    }
}

/// The status to publish for a peer when membership expires at
/// `now_nanos`, with the suspect timeout in milliseconds.
pub fn peer_expiry(peer: &PeerDocument, config: &AppConfig, now_nanos: i64, suspect_timeout_ms: u64) -> (r: Option<PeerStatus>)
    requires
        suspect_timeout_ms * 1_000_000 <= i64::MAX,
    ensures
        r == expiry_status(
            peer@,
            names_local(peer@.peer_id, peer@.endpoint, peer@.aliases, config.broker_id@, config.public_endpoint@),
            now_nanos,
            suspect_timeout_ms * 1_000_000,
        ),
{
    if same_local_peer(peer, config) {
        return None;
    }
    let updated = match timestamp_to_nanos(peer.updated_at.as_str()) {
        Some(u) => u,
        None => {
            return None;
        },
    };
    let timeout: i64 = (suspect_timeout_ms * 1_000_000) as i64;
    let age = saturating_difference(now_nanos, updated);
    let twice: i64 = if timeout > i64::MAX / 2 {
        i64::MAX
    } else {
        timeout * 2
    };
    match peer.status {
        PeerStatus::Alive => if age >= timeout {
            Some(PeerStatus::Suspect)
        } else {
            None
        },
        PeerStatus::Suspect => if age >= twice {
            Some(PeerStatus::Dead)
        } else {
            None
        },
        PeerStatus::Dead => None,
    }
}

/// What handling an inbound SWIM event asks for.
#[derive(Clone, Debug)]
pub enum SwimEventPlan {
    /// The event speaks ill of the local broker: announce it alive with at
    /// least this incarnation.
    AnnounceLocal(u64),
    /// Record the event's peer; when `replay` holds, the event's mutation
    /// is applied and logged unless it was seen before.
    RecordPeer { replay: bool },
}

/// Decides how an inbound SWIM event is handled: a suspect or dead report
/// about the local broker is refuted by announcing it with a higher
/// incarnation; any other event records its peer, and a mutation event
/// carrying a mutation replays it.
pub fn swim_event_plan(event: &SwimEventEnvelope, config: &AppConfig) -> (r: SwimEventPlan)
    ensures
        (event.kind != SwimEventKind::Mutation && event.kind != SwimEventKind::Alive && names_local(
            event.peer@.peer_id,
            event.peer@.endpoint,
            event.peer@.aliases,
            config.broker_id@,
            config.public_endpoint@,
        )) ==> r == SwimEventPlan::AnnounceLocal(
            if event.peer.incarnation == u64::MAX { u64::MAX } else { (event.peer.incarnation + 1) as u64 },
        ),
        !(event.kind != SwimEventKind::Mutation && event.kind != SwimEventKind::Alive && names_local(
            event.peer@.peer_id,
            event.peer@.endpoint,
            event.peer@.aliases,
            config.broker_id@,
            config.public_endpoint@,
        )) ==> r == (SwimEventPlan::RecordPeer {
            replay: event.kind == SwimEventKind::Mutation && event.mutation is Some,
        }),
{
    let refutes = match event.kind {
        SwimEventKind::Suspect => true,
        SwimEventKind::Dead => true,
        _ => false,
    };
    if refutes && same_local_swim_peer(&event.peer, config) {
        return SwimEventPlan::AnnounceLocal(event.peer.incarnation.saturating_add(1));
    }
    let replay = match event.kind {
        SwimEventKind::Mutation => event.mutation.is_some(),
        _ => false,
    };
    SwimEventPlan::RecordPeer { replay }
}

/// The mutation cursor after pulling mutations recorded at the given
/// times: the latest of the previous cursor and those times.
pub open spec fn cursor_after(since: Option<i64>, recorded: Seq<i64>) -> Option<i64>
    decreases recorded.len(),
{
    if recorded.len() == 0 {
        since
    } else {
        let c = cursor_after(since, recorded.drop_last());
        let t = recorded.last();
        match c {
            Some(x) => Some(if x >= t { x } else { t }),
            None => Some(t),
        }
    }
}

/// Advances a mutation cursor over the times at which pulled mutations
/// were recorded.
pub fn mutation_cursor(since: Option<i64>, recorded: &Vec<i64>) -> (r: Option<i64>)
    ensures
        r == cursor_after(since, recorded@),
{
    let mut cursor = since;
    let mut i: usize = 0;
    while i < recorded.len()
        invariant
            i <= recorded.len(),
            cursor == cursor_after(since, recorded@.take(i as int)),
        decreases recorded.len() - i,
    {
        assert(recorded@.take(i + 1).drop_last() =~= recorded@.take(i as int));
        let t = recorded[i];
        cursor = match cursor {
            Some(x) => Some(if x >= t { x } else { t }),
            None => Some(t),
        };
        i += 1;
    }
    assert(recorded@.take(recorded.len() as int) =~= recorded@);
    cursor
}

/// A peer record after a successful pull at `now`: alive, updated and
/// synced at `now`, with the new cursor when there is one.
pub open spec fn synced(peer: PeerDocumentV, now: Seq<char>, cursor: Option<i64>) -> PeerDocumentV {
    PeerDocumentV {
        status: PeerStatus::Alive,
        updated_at: now,
        last_synced_at: Some(now),
        last_synced_at_nanos: timestamp_nanos(now),
        last_mutation_cursor_nanos: match cursor {
            Some(c) => Some(c),
            None => peer.last_mutation_cursor_nanos,
        },
        ..peer
    }
}

/// Marks a peer record synced at `now` with the cursor reached.
pub fn synced_peer(peer: &PeerDocument, now: &str, cursor: Option<i64>) -> (r: PeerDocument)
    ensures
        r@ == synced(peer@, now@, cursor),
{
    PeerDocument {
        tenant: string_from(peer.tenant.as_str()),
        peer_id: string_from(peer.peer_id.as_str()),
        endpoint: string_from(peer.endpoint.as_str()),
        aliases: copy_strings(&peer.aliases),
        capabilities: copy_strings(&peer.capabilities),
        neighbors: copy_strings(&peer.neighbors),
        status: PeerStatus::Alive,
        incarnation: peer.incarnation,
        updated_at: string_from(now),
        last_synced_at: Some(string_from(now)),
        last_synced_at_nanos: timestamp_to_nanos(now),
        last_mutation_cursor_nanos: match cursor {
            Some(c) => Some(c),
            None => peer.last_mutation_cursor_nanos,
        },
    }
}

/// Views of peer records, in order.
pub open spec fn peer_views(peers: Seq<PeerDocument>) -> Seq<PeerDocumentV> {
    peers.map_values(|p: PeerDocument| p@)
}

/// A peer record names the local broker.
pub open spec fn names_local_peer(p: PeerDocumentV, config: AppConfig) -> bool {
    names_local(p.peer_id, p.endpoint, p.aliases, config.broker_id@, config.public_endpoint@)
}

/// What a sync round asks its runner to do next.
#[derive(PartialEq, Eq, Structural, Clone, Copy, Debug)]
pub enum RoundAction {
    /// Pull the mutations of the peer at this position.
    Pull(usize),
    /// The round is over.
    Done,
}

/// The action of a round that goes on at position `from`: pull from the
/// first peer at or after it that is not the local broker, or stop.
pub open spec fn round_action_from(peers: Seq<PeerDocumentV>, from: int, config: AppConfig) -> RoundAction {
    if exists|k: int| from <= k < peers.len() && !names_local_peer(#[trigger] peers[k], config) {
        let k = choose|k: int|
            from <= k < peers.len() && !names_local_peer(#[trigger] peers[k], config) && forall|j: int|
                from <= j < k ==> names_local_peer(#[trigger] peers[j], config);
        RoundAction::Pull(k as usize)
    } else {
        RoundAction::Done
    }
}

/// The peers of a round after pulling from the one at `i`: a pull that
/// succeeded marks it synced at `now` with the cursor moved over the
/// recording times of the mutations pulled; a failed pull leaves every
/// peer as it was.
pub open spec fn round_peers_after(
    peers: Seq<PeerDocumentV>,
    i: int,
    outcome: Result<Seq<i64>, BrokerError>,
    now: Seq<char>,
) -> Seq<PeerDocumentV> {
    match outcome {
        Ok(recorded) => peers.update(i, synced(peers[i], now, cursor_after(peers[i].last_mutation_cursor_nanos, recorded))),
        Err(_) => peers,
    }
}

/// The first action of a sync round over the peers of a tenant.
pub fn round_start(peers: &Vec<PeerDocument>, config: &AppConfig) -> (r: RoundAction)
    ensures
        r == round_action_from(peer_views(peers@), 0, *config),
{
    next_round_action(peers, 0, config)
}

/// The action of a round that goes on at position `from`.
fn next_round_action(peers: &Vec<PeerDocument>, from: usize, config: &AppConfig) -> (r: RoundAction)
    requires
        from <= peers.len(),
    ensures
        r == round_action_from(peer_views(peers@), from as int, *config),
{
    let ghost pv = peer_views(peers@);
    let mut k = from;
    while k < peers.len()
        invariant
            from <= k <= peers.len(),
            pv == peer_views(peers@),
            forall|j: int| from <= j < k ==> names_local_peer(#[trigger] pv[j], *config),
        decreases peers.len() - k,
    {
        assert(pv[k as int] == peers@[k as int]@);
        if !should_skip_peer_sync(config, &peers[k]) {
            proof {
                let c = choose|c: int|
                    from <= c < pv.len() && !names_local_peer(#[trigger] pv[c], *config) && forall|j: int|
                        from <= j < c ==> names_local_peer(#[trigger] pv[j], *config);
                assert(!names_local_peer(pv[k as int], *config));
                if c < k {
                    assert(names_local_peer(pv[c], *config));
                }
                if c > k {
                    assert(names_local_peer(pv[k as int], *config));
                }
            }
            return RoundAction::Pull(k);
        }
        k += 1;
    }
    RoundAction::Done
}

/// One step of a sync round: given the outcome of pulling from the peer at
/// `i` (the recording times of the mutations pulled and applied, or the
/// error), the peers to store and what to do next. A peer that fails does
/// not end the round: it is left as it was and the round goes on with the
/// next peer that is not the local broker.
pub fn sync_round_step(
    peers: Vec<PeerDocument>,
    i: usize,
    outcome: Result<Vec<i64>, BrokerError>,
    now: &str,
    config: &AppConfig,
) -> (r: (Vec<PeerDocument>, RoundAction))
    requires
        i < peers.len(),
    ensures
        peer_views(r.0@) == round_peers_after(
            peer_views(peers@),
            i as int,
            match outcome {
                Ok(v) => Ok(v@),
                Err(e) => Err(e),
            },
            now@,
        ),
        r.1 == round_action_from(peer_views(peers@), i + 1, *config),
{
    let ghost pv = peer_views(peers@);
    let action = next_round_action(&peers, i + 1, config);
    let mut peers = peers;
    match outcome {
        Ok(recorded) => {
            assert(pv[i as int] == peers@[i as int]@);
            let cursor = mutation_cursor(peers[i].last_mutation_cursor_nanos, &recorded);
            let updated = synced_peer(&peers[i], now, cursor);
            peers.set(i, updated);
            assert(peer_views(peers@) =~= pv.update(
                i as int,
                synced(pv[i as int], now@, cursor_after(pv[i as int].last_mutation_cursor_nanos, recorded@)),
            ));
        },
        Err(_) => {},
    }
    (peers, action)
}

/// The cursor never moves back: it is at least the previous cursor and
/// every recorded time pulled.
pub proof fn law_cursor_monotone(since: Option<i64>, recorded: Seq<i64>)
    ensures
        since matches Some(s) ==> cursor_after(since, recorded) matches Some(c) && c >= s,
        forall|i: int| 0 <= i < recorded.len() ==> (cursor_after(since, recorded) matches Some(c) && c >= #[trigger] recorded[i]),
    decreases recorded.len(),
{
    if recorded.len() > 0 {
        law_cursor_monotone(since, recorded.drop_last());
        assert forall|i: int| 0 <= i < recorded.len() implies (cursor_after(since, recorded) matches Some(c) && c >= #[trigger] recorded[i]) by {
            if i < recorded.len() - 1 {
                assert(recorded.drop_last()[i] == recorded[i]);
            }
        }
    }
}

/// The record of a seed peer: keyed by its normalized endpoint, which is
/// also one of its aliases; an existing record keeps its membership state,
/// a new one starts suspect at incarnation 0 with the `p2p` and `swim`
/// capabilities, updated at `now`.
pub open spec fn seeded_peer(tenant: Seq<char>, seed: Seq<char>, existing: Option<PeerDocumentV>, now: Seq<char>) -> PeerDocumentV {
    let endpoint = normalized_endpoint(seed);
    match existing {
        Some(p) => PeerDocumentV {
            tenant,
            peer_id: endpoint,
            endpoint,
            aliases: merged_strings(p.aliases, seq![endpoint]),
            ..p
        },
        None => PeerDocumentV {
            tenant,
            peer_id: endpoint,
            endpoint,
            aliases: merged_strings(Seq::empty(), seq![endpoint]),
            capabilities: seq!["p2p"@, "swim"@],
            neighbors: Seq::empty(),
            status: PeerStatus::Suspect,
            incarnation: 0,
            updated_at: now,
            last_synced_at: None,
            last_synced_at_nanos: None,
            last_mutation_cursor_nanos: None,
        },
    }
}

/// Builds the record of a seed peer from its configured endpoint and the
/// record already stored under that endpoint, if any.
pub fn seed_peer_document(tenant: &str, seed: &str, existing: Option<&PeerDocument>, now: &str) -> (r: PeerDocument)
    ensures
        r@ == seeded_peer(
            tenant@,
            seed@,
            match existing {
                Some(p) => Some(p@),
                None => None,
            },
            now@,
        ),
{
    let endpoint = normalize_peer_endpoint(seed);
    let mut own: Vec<String> = Vec::new();
    own.push(string_from(endpoint.as_str()));
    assert(views(own@) =~= seq![endpoint@]);
    match existing {
        Some(p) => {
            let aliases = merge_strings(copy_strings(&p.aliases), own);
            PeerDocument {
                tenant: string_from(tenant),
                peer_id: string_from(endpoint.as_str()),
                endpoint,
                aliases,
                capabilities: copy_strings(&p.capabilities),
                neighbors: copy_strings(&p.neighbors),
                status: p.status,
                incarnation: p.incarnation,
                updated_at: string_from(p.updated_at.as_str()),
                last_synced_at: match &p.last_synced_at {
                    Some(t) => Some(string_from(t.as_str())),
                    None => None,
                },
                last_synced_at_nanos: p.last_synced_at_nanos,
                last_mutation_cursor_nanos: p.last_mutation_cursor_nanos,
            }
        },
        None => {
            let empty: Vec<String> = Vec::new();
            assert(views(empty@) =~= Seq::<Seq<char>>::empty());
            let aliases = merge_strings(empty, own);
            let mut capabilities: Vec<String> = Vec::new();
            capabilities.push(string_from("p2p"));
            capabilities.push(string_from("swim"));
            assert(views(capabilities@) =~= seq!["p2p"@, "swim"@]);
            let neighbors: Vec<String> = Vec::new();
            assert(views(neighbors@) =~= Seq::<Seq<char>>::empty());
            PeerDocument {
                tenant: string_from(tenant),
                peer_id: string_from(endpoint.as_str()),
                endpoint,
                aliases,
                capabilities,
                neighbors,
                status: PeerStatus::Suspect,
                incarnation: 0,
                updated_at: string_from(now),
                last_synced_at: None,
                last_synced_at_nanos: None,
                last_mutation_cursor_nanos: None,
            }
        },
    }
}

} // verus!
