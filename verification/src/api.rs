//! Request-level rules of the HTTP API: raw query strings, update options,
//! and the context of the source identity document.
use vstd::prelude::*;
use crate::json::{Json, JsonV, lemma_array_view, lemma_object_view, map_insert, object_insert, entry_views, json_views};
use crate::text::{has_infix, str_contains, string_from};

verus! {

/// The ETSI NGSI-LD core context, version 1.8.
pub open spec fn core_context() -> Seq<char> {
    "https://uri.etsi.org/ngsi-ld/v1/ngsi-ld-core-context-v1.8.jsonld"@
}

/// A raw query string, or none when it is empty.
pub fn normalize_query_string(raw: &str) -> (r: Option<String>)
    ensures
        match r {
            Some(s) => raw@.len() > 0 && s@ == raw@,
            None => raw@.len() == 0,
        },
{
    let cs = crate::text::chars_of(raw);
    if cs.len() == 0 {
        None
    } else {
        Some(string_from(raw))
    }
}

/// The `options` parameter asks not to overwrite existing attributes.
pub fn no_overwrite_requested(options: Option<&str>) -> (r: bool)
    ensures
        r == (options matches Some(o) && has_infix(o@, "noOverwrite"@)),
{
    match options {
        Some(o) => str_contains(o, "noOverwrite"),
        None => false,
    }
}

/// The `@context` of the source identity document: the core context and
/// the term of the up time.
pub open spec fn source_identity_context() -> JsonV {
    JsonV::Array(
        seq![
            JsonV::Str(core_context()),
            JsonV::Object(seq![("contextSourceUpTime"@, JsonV::Str("ngsi-ld:contextSourceUptime"@))]),
        ],
    )
}

/// Sets the `@context` of a source identity document; other values stay.
pub fn apply_source_identity_context(body: &mut Json)
    ensures
        final(body)@ == match old(body)@ {
            JsonV::Object(m) => JsonV::Object(object_insert(m, "@context"@, source_identity_context())),
            other => other,
        },
{
    let mut taken = Json::Null;
    std::mem::swap(&mut taken, body);
    match taken {
        Json::Object(mut entries) => {
            proof {
                lemma_object_view(entries);
            }
            let mut term: Vec<(String, Json)> = Vec::new();
            term.push((string_from("contextSourceUpTime"), Json::Str(string_from("ngsi-ld:contextSourceUptime"))));
            proof {
                lemma_object_view(term);
                assert(entry_views(term@) =~= seq![("contextSourceUpTime"@, JsonV::Str("ngsi-ld:contextSourceUptime"@))]);
            }
            let mut items: Vec<Json> = Vec::new();
            items.push(Json::Str(string_from("https://uri.etsi.org/ngsi-ld/v1/ngsi-ld-core-context-v1.8.jsonld")));
            let ghost tv = Json::Object(term)@;
            items.push(Json::Object(term));
            proof {
                lemma_array_view(items);
                assert(json_views(items@) =~= source_identity_context()->Array_0);
            }
            map_insert(&mut entries, string_from("@context"), Json::Array(items));
            proof {
                lemma_object_view(entries);
            }
            *body = Json::Object(entries);
        },
        other => {
            *body = other;
        },
    }
}

} // verus!
