//! Resolution of JSON-LD context terms, as a state machine.
//!
//! Resolution walks the inline `@context` and the `Link` header's context
//! breadth-first: arrays are expanded, objects contribute their term
//! definitions and queue their nested `@context`, and each remote context URL
//! is fetched once. Fetching is outside work: a step that needs a document
//! says so, and the caller hands the document back with `supply`.
use vstd::prelude::*;
use crate::headers::{context_of_link, parse_context_link};
use crate::json::{entry_views, json_views, lemma_array_view, lemma_object_view, Json, JsonV};
use crate::text::{chars_of, has_prefix, starts_with_chars, string_from};

verus! {

/// Position of the first definition of `key` at or after `from`.
pub open spec fn term_index_from(terms: Seq<(Seq<char>, Seq<char>)>, key: Seq<char>, from: int) -> Option<int>
    decreases terms.len() - from,
{
    if from < 0 || from >= terms.len() {
        None
    } else if terms[from].0 == key {
        Some(from)
    } else {
        term_index_from(terms, key, from + 1)
    }
}

/// Terms after defining `key` as `uri`: an earlier definition is replaced
/// in place, else the definition is appended.
pub open spec fn term_insert(terms: Seq<(Seq<char>, Seq<char>)>, key: Seq<char>, uri: Seq<char>) -> Seq<(Seq<char>, Seq<char>)> {
    match term_index_from(terms, key, 0) {
        Some(i) => terms.update(i, (key, uri)),
        None => terms.push((key, uri)),
    }
}

/// No term is defined twice.
pub open spec fn distinct_terms(terms: Seq<(Seq<char>, Seq<char>)>) -> bool {
    forall|i: int, j: int| 0 <= i < j < terms.len() ==> #[trigger] terms[i].0 != #[trigger] terms[j].0
}

/// The expanded IRI of a term definition: the string itself, or the `@id`
/// member of an object when it is a string.
pub open spec fn term_uri(definition: JsonV) -> Option<Seq<char>> {
    match definition {
        JsonV::Str(uri) => Some(uri),
        JsonV::Object(_) => definition.get_str("@id"@),
        _ => None,
    }
}

/// Terms after reading the members of a context object in order; the
/// `@context` member and members without an IRI define nothing.
pub open spec fn with_members(terms: Seq<(Seq<char>, Seq<char>)>, members: Seq<(Seq<char>, JsonV)>) -> Seq<(Seq<char>, Seq<char>)>
    decreases members.len(),
{
    if members.len() == 0 {
        terms
    } else {
        let before = with_members(terms, members.drop_last());
        let (key, definition) = members.last();
        if key == "@context"@ {
            before
        } else {
            match term_uri(definition) {
                Some(uri) => term_insert(before, key, uri),
                None => before,
            }
        }
    }
}

/// A context reference is fetched only when it is an HTTP(S) URL.
pub open spec fn is_remote(url: Seq<char>) -> bool {
    has_prefix(url, "http://"@) || has_prefix(url, "https://"@)
}

/// View of a resolution in progress: the queue of context values still to
/// read, the terms found so far, and the context URLs already seen.
pub struct ResolutionV {
    pub queue: Seq<JsonV>,
    pub terms: Seq<(Seq<char>, Seq<char>)>,
    pub visited: Seq<Seq<char>>,
}

/// View of what a step asks of the caller.
pub enum StepV {
    Pending,
    Fetch(Seq<char>),
    Done,
}

/// One step: the value at the head of the queue is read.
pub open spec fn resolution_step(st: ResolutionV) -> (ResolutionV, StepV) {
    if st.queue.len() == 0 {
        (st, StepV::Done)
    } else {
        let rest = st.queue.drop_first();
        match st.queue[0] {
            JsonV::Str(url) => if st.visited.contains(url) {
                (ResolutionV { queue: rest, ..st }, StepV::Pending)
            } else {
                let next = ResolutionV { queue: rest, visited: st.visited.push(url), ..st };
                if is_remote(url) {
                    (next, StepV::Fetch(url))
                } else {
                    (next, StepV::Pending)
                }
            },
            JsonV::Array(items) => (ResolutionV { queue: rest + items, ..st }, StepV::Pending),
            JsonV::Object(members) => {
                let nested = match JsonV::Object(members).get("@context"@) {
                    Some(c) => seq![c],
                    None => Seq::empty(),
                };
                (ResolutionV { queue: rest + nested, terms: with_members(st.terms, members), ..st }, StepV::Pending)
            },
            _ => (ResolutionV { queue: rest, ..st }, StepV::Pending),
        }
    }
}

/// The queue a resolution starts with: the inline context, then the context
/// named by the `Link` header when it names one.
pub open spec fn initial_queue(context_value: Option<JsonV>, link_header: Option<Seq<char>>) -> Seq<JsonV> {
    let inline = match context_value {
        Some(c) => seq![c],
        None => Seq::empty(),
    };
    let linked = match link_header {
        Some(l) => match context_of_link(l) {
            Some(c) => seq![c],
            None => Seq::empty(),
        },
        None => Seq::empty(),
    };
    inline + linked
}

/// What a step asks of the caller.
pub enum ResolutionStep {
    /// A value was read; step again.
    Pending,
    /// The context document at this URL is needed: fetch it and `supply` it.
    Fetch(String),
    /// The queue is empty: the terms are complete.
    Done,
}

impl View for ResolutionStep {
    type V = StepV;

    open spec fn view(&self) -> StepV {
        match self {
            ResolutionStep::Pending => StepV::Pending,
            ResolutionStep::Fetch(u) => StepV::Fetch(u@),
            ResolutionStep::Done => StepV::Done,
        }
    }
}

/// A resolution of context terms in progress.
pub struct ContextResolution {
    queue: Vec<Json>,
    terms: Vec<(String, String)>,
    visited: Vec<String>,
}

impl View for ContextResolution {
    type V = ResolutionV;

    closed spec fn view(&self) -> ResolutionV {
        ResolutionV {
            queue: json_views(self.queue@),
            terms: self.terms@.map_values(|p: (String, String)| (p.0@, p.1@)),
            visited: self.visited@.map_values(|s: String| s@),
        }
    }
}

/// Position of the definition of `key` in a term list.
fn term_position(terms: &Vec<(String, String)>, key: &Vec<char>) -> (r: Option<usize>)
    ensures
        match r {
            Some(i) => i < terms.len() && term_index_from(
                terms@.map_values(|p: (String, String)| (p.0@, p.1@)),
                key@,
                0,
            ) == Some(i as int),
            None => term_index_from(terms@.map_values(|p: (String, String)| (p.0@, p.1@)), key@, 0) is None,
        },
{
    let ghost tv = terms@.map_values(|p: (String, String)| (p.0@, p.1@));
    let mut i: usize = 0;
    while i < terms.len()
        invariant
            i <= terms.len(),
            tv == terms@.map_values(|p: (String, String)| (p.0@, p.1@)),
            term_index_from(tv, key@, 0) == term_index_from(tv, key@, i as int),
        decreases terms.len() - i,
    {
        let k = chars_of(terms[i].0.as_str());
        assert(tv[i as int].0 == k@);
        if crate::text::chars_eq(&k, key) {
            return Some(i);
        }
        i += 1;
    }
    None
}

/// Defines a term, replacing an earlier definition.
fn define_term(terms: &mut Vec<(String, String)>, key: String, uri: String)
    ensures
        final(terms)@.map_values(|p: (String, String)| (p.0@, p.1@)) == term_insert(
            old(terms)@.map_values(|p: (String, String)| (p.0@, p.1@)),
            key@,
            uri@,
        ),
{
    let ghost tv = terms@.map_values(|p: (String, String)| (p.0@, p.1@));
    let ghost kv = key@;
    let ghost uv = uri@;
    let k = chars_of(key.as_str());
    match term_position(terms, &k) {
        Some(i) => {
            terms.set(i, (key, uri));
            assert(terms@.map_values(|p: (String, String)| (p.0@, p.1@)) =~= tv.update(i as int, (kv, uv)));
        },
        None => {
            terms.push((key, uri));
            assert(terms@.map_values(|p: (String, String)| (p.0@, p.1@)) =~= tv.push((kv, uv)));
        },
    }
}

/// Inserting a term keeps the terms free of repeated definitions.
pub proof fn lemma_term_insert_distinct(terms: Seq<(Seq<char>, Seq<char>)>, key: Seq<char>, uri: Seq<char>)
    requires
        distinct_terms(terms),
    ensures
        distinct_terms(term_insert(terms, key, uri)),
{
    lemma_term_index_from(terms, key, 0);
}

/// The search finds the first definition of `key` from `from` on.
proof fn lemma_term_index_from(terms: Seq<(Seq<char>, Seq<char>)>, key: Seq<char>, from: int)
    requires
        0 <= from,
    ensures
        match term_index_from(terms, key, from) {
            Some(i) => from <= i < terms.len() && terms[i].0 == key,
            None => forall|j: int| from <= j < terms.len() ==> #[trigger] terms[j].0 != key,
        },
    decreases terms.len() - from,
{
    if from < terms.len() && terms[from].0 != key {
        lemma_term_index_from(terms, key, from + 1);
    }
}

/// Reading members keeps the terms free of repeated definitions.
pub proof fn lemma_with_members_distinct(terms: Seq<(Seq<char>, Seq<char>)>, members: Seq<(Seq<char>, JsonV)>)
    requires
        distinct_terms(terms),
    ensures
        distinct_terms(with_members(terms, members)),
    decreases members.len(),
{
    if members.len() > 0 {
        lemma_with_members_distinct(terms, members.drop_last());
        let before = with_members(terms, members.drop_last());
        let (key, definition) = members.last();
        match term_uri(definition) {
            Some(uri) => lemma_term_insert_distinct(before, key, uri),
            None => {},
        }
    }
}

/// The IRI of a term definition.
fn term_definition_uri(definition: &Json) -> (r: Option<String>)
    ensures
        match r {
            Some(u) => term_uri(definition@) == Some(u@),
            None => term_uri(definition@) is None,
        },
{
    match definition {
        Json::Str(uri) => Some(string_from(uri.as_str())),
        Json::Object(entries) => {
            proof {
                lemma_object_view(*entries);
            }
            match definition.get_str("@id") {
                Some(id) => Some(string_from(id.as_str())),
                None => None,
            }
        },
        _ => None,
    }
}

impl ContextResolution {
    /// The terms found so far have no repeated definition.
    pub closed spec fn wf(&self) -> bool {
        distinct_terms(self@.terms)
    }

    /// Starts a resolution from an entity's `@context` value and the
    /// request's `Link` header.
    pub fn start(context_value: Option<&Json>, link_header: Option<&str>) -> (r: Self)
        ensures
            r.wf(),
            r@.queue == initial_queue(
                match context_value {
                    Some(c) => Some(c@),
                    None => None,
                },
                match link_header {
                    Some(l) => Some(l@),
                    None => None,
                },
            ),
            r@.terms.len() == 0,
            r@.visited.len() == 0,
    {
        let mut queue: Vec<Json> = Vec::new();
        match context_value {
            Some(c) => queue.push(crate::json::clone_json(c)),
            None => {},
        }
        match link_header {
            Some(l) => match parse_context_link(l) {
                Some(linked) => queue.push(linked),
                None => {},
            },
            None => {},
        }
        let r = ContextResolution { queue, terms: Vec::new(), visited: Vec::new() };
        assert(r@.terms =~= Seq::<(Seq<char>, Seq<char>)>::empty());
        assert(r@.visited =~= Seq::<Seq<char>>::empty());
        assert(r@.queue =~= initial_queue(
            match context_value {
                Some(c) => Some(c@),
                None => None,
            },
            match link_header {
                Some(l) => Some(l@),
                None => None,
            },
        ));
        r
    }

    /// Reads the value at the head of the queue and says what the caller
    /// must do next.
    pub fn step(&mut self) -> (r: ResolutionStep)
        requires
            old(self).wf(),
        ensures
            final(self).wf(),
            resolution_step(old(self)@) == (final(self)@, r@),
    {
        let ghost st = self@;
        if self.queue.len() == 0 {
            return ResolutionStep::Done;
        }
        let value = self.queue.remove(0);
        assert(json_views(self.queue@) =~= st.queue.drop_first());
        match value {
            Json::Str(url) => {
                let u = chars_of(url.as_str());
                let mut seen = false;
                let mut i: usize = 0;
                while i < self.visited.len()
                    invariant
                        i <= self.visited.len(),
                        self@.visited == st.visited,
                        u@ == url@,
                        seen == (exists|j: int| 0 <= j < i && st.visited[j] == url@),
                    decreases self.visited.len() - i,
                {
                    let v = chars_of(self.visited[i].as_str());
                    assert(st.visited[i as int] == v@);
                    if crate::text::chars_eq(&v, &u) {
                        seen = true;
                    }
                    i += 1;
                }
                assert(seen == st.visited.contains(url@));
                if seen {
                    return ResolutionStep::Pending;
                }
                let ghost vv = self@.visited;
                self.visited.push(string_from(url.as_str()));
                assert(self@.visited =~= vv.push(url@));
                let http = chars_of("http://");
                let https = chars_of("https://");
                if starts_with_chars(&u, &http) || starts_with_chars(&u, &https) {
                    ResolutionStep::Fetch(url)
                } else {
                    ResolutionStep::Pending
                }
            },
            Json::Array(mut items) => {
                proof {
                    lemma_array_view(items);
                }
                let ghost q = self.queue@;
                let ghost iv = items@;
                self.queue.append(&mut items);
                assert(json_views(self.queue@) =~= json_views(q) + json_views(iv));
                ResolutionStep::Pending
            },
            Json::Object(entries) => {
                proof {
                    lemma_object_view(entries);
                }
                let ghost ev = entry_views(entries@);
                let ghost t0 = self@.terms;
                let whole = Json::Object(entries);
                assert(whole@ == JsonV::Object(ev));
                match whole.get_member("@context") {
                    Some(nested) => {
                        let ghost q = self.queue@;
                        self.queue.push(crate::json::clone_json(nested));
                        assert(json_views(self.queue@) =~= json_views(q) + seq![nested@]);
                    },
                    None => {
                        assert(json_views(self.queue@) =~= json_views(self.queue@) + Seq::<JsonV>::empty());
                    },
                }
                let entries = match whole {
                    Json::Object(e) => e,
                    _ => Vec::new(),
                };
                assert(entry_views(entries@) == ev);
                let mut k: usize = 0;
                while k < entries.len()
                    invariant
                        k <= entries.len(),
                        entry_views(entries@) == ev,
                        self@.terms == with_members(t0, ev.take(k as int)),
                        distinct_terms(self@.terms),
                        self@.queue == resolution_step(st).0.queue,
                        self@.visited == st.visited,
                    decreases entries.len() - k,
                {
                    assert(ev.take(k + 1).drop_last() =~= ev.take(k as int));
                    assert(ev.take(k + 1).last() == ev[k as int]);
                    let key = &entries[k].0;
                    let is_context = crate::text::str_eq(key.as_str(), "@context");
                    if !is_context {
                        match term_definition_uri(&entries[k].1) {
                            Some(uri) => {
                                proof {
                                    lemma_term_insert_distinct(self@.terms, key@, uri@);
                                }
                                define_term(&mut self.terms, string_from(key.as_str()), uri);
                            },
                            None => {},
                        }
                    }
                    k += 1;
                }
                assert(ev.take(entries.len() as int) =~= ev);
                ResolutionStep::Pending
            },
            _ => ResolutionStep::Pending,
        }
    }

    /// Hands back the context document fetched for a `Fetch` step: it is
    /// read after the values already queued.
    pub fn supply(&mut self, document: Json)
        requires
            old(self).wf(),
        ensures
            final(self).wf(),
            final(self)@ == (ResolutionV { queue: old(self)@.queue.push(document@), ..old(self)@ }),
    {
        let ghost q = self.queue@;
        self.queue.push(document);
        assert(json_views(self.queue@) =~= json_views(q).push(document@));
    }

    /// The terms found so far, each with its expanded IRI.
    pub fn terms(&self) -> (r: Vec<(String, String)>)
        ensures
            r@.map_values(|p: (String, String)| (p.0@, p.1@)) == self@.terms,
    {
        let mut r: Vec<(String, String)> = Vec::new();
        let mut i: usize = 0;
        while i < self.terms.len()
            invariant
                i <= self.terms.len(),
                r@.map_values(|p: (String, String)| (p.0@, p.1@)) == self@.terms.take(i as int),
            decreases self.terms.len() - i,
        {
            let ghost before = r@.map_values(|p: (String, String)| (p.0@, p.1@));
            let pair = (string_from(self.terms[i].0.as_str()), string_from(self.terms[i].1.as_str()));
            let ghost pv = (pair.0@, pair.1@);
            r.push(pair);
            assert(r@.map_values(|p: (String, String)| (p.0@, p.1@)) =~= before.push(pv));
            assert(self@.terms.take(i + 1) =~= self@.terms.take(i as int).push(pv));
            i += 1;
        }
        assert(self@.terms.take(self.terms.len() as int) =~= self@.terms);
        r
    }
}

/// Each context URL is fetched at most once: a step asks for a URL only
/// when it is remote and was not seen before, and marks it seen.
pub proof fn law_context_url_fetched_once(st: ResolutionV)
    ensures
        resolution_step(st).1 matches StepV::Fetch(url) ==> {
            &&& is_remote(url)
            &&& !st.visited.contains(url)
            &&& resolution_step(st).0.visited.contains(url)
        },
        forall|u: Seq<char>| st.visited.contains(u) ==> #[trigger] resolution_step(st).0.visited.contains(u),
{
    let next = resolution_step(st).0;
    if st.queue.len() > 0 {
        match st.queue[0] {
            JsonV::Str(url) => {
                if !st.visited.contains(url) {
                    assert(next.visited == st.visited.push(url));
                    assert(next.visited[st.visited.len() as int] == url);
                    assert forall|u: Seq<char>| st.visited.contains(u) implies #[trigger] next.visited.contains(u) by {
                        let j = choose|j: int| 0 <= j < st.visited.len() && st.visited[j] == u;
                        assert(next.visited[j] == u);
                    }
                }
            },
            _ => {},
        }
    }
}

/// Resolution is done exactly when nothing is left to read, and a done
/// step changes nothing.
pub proof fn law_context_done_when_queue_empty(st: ResolutionV)
    ensures
        (resolution_step(st).1 is Done) <==> st.queue.len() == 0,
        resolution_step(st).1 is Done ==> resolution_step(st).0 == st,
{
}

} // verus!
