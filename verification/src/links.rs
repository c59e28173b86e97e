//! URLs of the broker: outbound target URLs for peers and subscribers, and
//! the broker's source identity (its URL and alias).
//!
//! URL parsing, path and query updates and joining are done by the `url`
//! crate. Between two such steps a URL is carried as its serialization,
//! which the crate parses back to the same URL.
use vstd::prelude::*;
use crate::error::{BrokerError, error_message};
use crate::federation::{trim_end_slashes, base_path};
use crate::json::Json;
use crate::text::{
    chars_of, ends_with_chars, has_prefix, has_suffix, join_chars, starts_with_chars, string_from,
    string_of, sub_chars, text_around,
};

verus! {

/// The serialization of the URL that `url::Url::parse` reads from a text.
pub uninterp spec fn url_serialization(text: Seq<char>) -> Option<Seq<char>>;

/// `Url::path` of the URL of a text.
pub uninterp spec fn url_path(text: Seq<char>) -> Seq<char>;

/// The serialization after `Url::set_path` with a path.
pub uninterp spec fn url_path_set(text: Seq<char>, path: Seq<char>) -> Seq<char>;

/// The serialization after `Url::set_query` with an optional query.
pub uninterp spec fn url_query_set(text: Seq<char>, query: Option<Seq<char>>) -> Seq<char>;

/// The serialization of `Url::join` with a relative reference, when it
/// succeeds.
pub uninterp spec fn url_joined(text: Seq<char>, reference: Seq<char>) -> Option<Seq<char>>;

/// The serialization after appending a query pair with
/// `Url::query_pairs_mut().append_pair`.
pub uninterp spec fn url_pair_appended(text: Seq<char>, key: Seq<char>, value: Seq<char>) -> Seq<char>;

/// A text that parses as a URL.
pub open spec fn is_url(text: Seq<char>) -> bool {
    url_serialization(text) is Some
}

/// Calls `Url::parse` and serializes the result; on failure returns the
/// error's display text, of which nothing is said. A serialization parses
/// again.
#[verifier::external_body]
pub(crate) fn parse_url(text: &str) -> (r: Result<String, String>)
    ensures
        match r {
            Ok(s) => url_serialization(text@) == Some(s@) && is_url(s@),
            Err(_) => url_serialization(text@) is None,
        },
{
    match url::Url::parse(text) {
        Ok(u) => Ok(u.to_string()),
        Err(e) => Err(e.to_string()),
    }
}

/// Parses a URL text and returns `Url::path`.
#[verifier::external_body]
fn path_of_url(text: &str) -> (r: String)
    requires
        is_url(text@),
    ensures
        r@ == url_path(text@),
{
    match url::Url::parse(text) {
        Ok(u) => u.path().to_string(),
        Err(_) => String::new(),
    }
}

/// Parses a URL text, calls `Url::set_path` and serializes the result.
#[verifier::external_body]
fn set_url_path(text: &str, path: &str) -> (r: String)
    requires
        is_url(text@),
    ensures
        r@ == url_path_set(text@, path@),
        is_url(r@),
{
    match url::Url::parse(text) {
        Ok(mut u) => {
            u.set_path(path);
            u.to_string()
        },
        Err(_) => String::new(),
    }
}

/// Parses a URL text, calls `Url::set_query` and serializes the result.
#[verifier::external_body]
fn set_url_query(text: &str, query: Option<&str>) -> (r: String)
    requires
        is_url(text@),
    ensures
        r@ == url_query_set(
            text@,
            match query {
                Some(q) => Some(q@),
                None => None,
            },
        ),
        is_url(r@),
{
    match url::Url::parse(text) {
        Ok(mut u) => {
            u.set_query(query);
            u.to_string()
        },
        Err(_) => String::new(),
    }
}

/// Parses a URL text, calls `Url::join` with a reference and serializes
/// the result; on failure returns the error's display text.
#[verifier::external_body]
fn join_url(text: &str, reference: &str) -> (r: Result<String, String>)
    requires
        is_url(text@),
    ensures
        match r {
            Ok(s) => url_joined(text@, reference@) == Some(s@) && is_url(s@),
            Err(_) => url_joined(text@, reference@) is None,
        },
{
    match url::Url::parse(text) {
        Ok(u) => match u.join(reference) {
            Ok(j) => Ok(j.to_string()),
            Err(e) => Err(e.to_string()),
        },
        Err(e) => Err(e.to_string()),
    }
}

/// Parses a URL text, appends a query pair and serializes the result.
#[verifier::external_body]
fn append_url_pair(text: &str, key: &str, value: &str) -> (r: String)
    requires
        is_url(text@),
    ensures
        r@ == url_pair_appended(text@, key@, value@),
{
    match url::Url::parse(text) {
        Ok(mut u) => {
            u.query_pairs_mut().append_pair(key, value);
            u.to_string()
        },
        Err(_) => String::new(),
    }
}

/// A text without its leading slashes.
pub open spec fn trim_start_slashes(s: Seq<char>) -> Seq<char>
    decreases s.len(),
{
    if s.len() > 0 && s[0] == '/' {
        trim_start_slashes(s.drop_first())
    } else {
        s
    }
}

/// Removes leading slashes.
fn trim_start_slash_chars(s: &Vec<char>) -> (r: Vec<char>)
    ensures
        r@ == trim_start_slashes(s@),
{
    let mut n: usize = 0;
    assert(s@.skip(0) =~= s@);
    while n < s.len() && s[n] == '/'
        invariant
            n <= s.len(),
            trim_start_slashes(s@) == trim_start_slashes(s@.skip(n as int)),
        decreases s.len() - n,
    {
        assert(s@.skip(n as int).drop_first() =~= s@.skip(n + 1));
        n += 1;
    }
    let r = sub_chars(s, n, s.len());
    assert(r@ =~= s@.skip(n as int));
    r
}

/// Removes trailing slashes.
fn trim_end_slash_chars(s: &Vec<char>) -> (r: Vec<char>)
    ensures
        r@ == trim_end_slashes(s@),
{
    let mut n = s.len();
    assert(s@.take(n as int) =~= s@);
    while n > 0 && s[n - 1] == '/'
        invariant
            n <= s.len(),
            trim_end_slashes(s@) == trim_end_slashes(s@.take(n as int)),
        decreases n,
    {
        assert(s@.take(n as int).drop_last() =~= s@.take(n - 1));
        assert(s@.take(n as int).last() == s@[n - 1]);
        n -= 1;
    }
    let r = sub_chars(s, 0, n);
    assert(r@ =~= s@.take(n as int));
    r
}

/// Kinds of notification targets.
#[derive(PartialEq, Eq, Structural, Clone, Copy, Debug)]
pub enum NotificationTargetKind {
    Subscription,
}

/// The notification target kind of envelopes that name none.
pub fn default_notification_target_kind() -> (r: NotificationTargetKind)
    ensures
        r == NotificationTargetKind::Subscription,
{
    NotificationTargetKind::Subscription
}

/// Errors of the delivery queue.
#[derive(Clone, Debug)]
pub enum QueueError {
    Other(String),
}

/// The join base and the relative reference of a target: an endpoint at
/// the NGSI-LD base path takes paths under that base relative to itself
/// and other paths relative to its prefix (query dropped); any other
/// endpoint takes the path relative to itself.
pub open spec fn target_parts(base: Seq<char>, path: Seq<char>) -> (Seq<char>, Seq<char>) {
    let base_path_of = trim_end_slashes(url_path(base));
    if has_suffix(base_path_of, base_path()) {
        if has_prefix(path, base_path()) {
            (base, trim_start_slashes(path.skip(base_path().len() as int)))
        } else {
            let prefix = trim_end_slashes(base_path_of.take(base_path_of.len() - base_path().len()));
            (
                url_query_set(url_path_set(base, prefix + seq!['/']), None),
                trim_start_slashes(path),
            )
        }
    } else {
        (base, trim_start_slashes(path))
    }
}

/// The target URL of an endpoint, a path and an optional query; `None`
/// when the endpoint or the joined path is no URL.
pub open spec fn target_url(endpoint: Seq<char>, path: Seq<char>, query: Option<Seq<char>>) -> Option<Seq<char>> {
    let e = if has_suffix(endpoint, seq!['/']) {
        endpoint
    } else {
        endpoint + seq!['/']
    };
    match url_serialization(e) {
        None => None,
        Some(base) => {
            let (join_base, relative) = target_parts(base, path);
            match url_joined(join_base, relative) {
                None => None,
                Some(u) => match query {
                    Some(q) => Some(url_query_set(u, Some(q))),
                    None => Some(u),
                },
            }
        },
    }
}

/// Builds the URL of a path on a peer or subscriber endpoint, without
/// repeating the NGSI-LD base path when the endpoint already ends with it.
pub fn build_target_url(endpoint: &str, path: &str, query: Option<&str>) -> (r: Result<String, QueueError>)
    ensures
        match r {
            Ok(u) => target_url(
                endpoint@,
                path@,
                match query {
                    Some(q) => Some(q@),
                    None => None,
                },
            ) == Some(u@),
            Err(_) => target_url(
                endpoint@,
                path@,
                match query {
                    Some(q) => Some(q@),
                    None => None,
                },
            ) is None,
        },
{
    let ec = chars_of(endpoint);
    let slash = chars_of("/");
    assert(slash@ =~= seq!['/']) by {
        reveal_strlit("/");
    }
    let e = if ends_with_chars(&ec, &slash) {
        string_from(endpoint)
    } else {
        string_of(&join_chars(&ec, &slash))
    };
    let base = match parse_url(e.as_str()) {
        Ok(b) => b,
        Err(detail) => {
            let ecs = chars_of(e.as_str());
            let m = text_around("invalid endpoint ", &ecs, ": ");
            return Err(QueueError::Other(string_of(&join_chars(&chars_of(m.as_str()), &chars_of(detail.as_str())))));
        },
    };
    let bp_raw = path_of_url(base.as_str());
    let bp = trim_end_slash_chars(&chars_of(bp_raw.as_str()));
    let ngsi = chars_of("/ngsi-ld/v1");
    let pc = chars_of(path);
    let (join_base, relative) = if ends_with_chars(&bp, &ngsi) {
        if starts_with_chars(&pc, &ngsi) {
            let rest = sub_chars(&pc, ngsi.len(), pc.len());
            assert(rest@ =~= path@.skip(base_path().len() as int));
            (string_from(base.as_str()), trim_start_slash_chars(&rest))
        } else {
            let head = sub_chars(&bp, 0, bp.len() - ngsi.len());
            let prefix = trim_end_slash_chars(&head);
            let with_slash = join_chars(&prefix, &slash);
            let p = string_of(&with_slash);
            let b1 = set_url_path(base.as_str(), p.as_str());
            let b2 = set_url_query(b1.as_str(), None);
            (b2, trim_start_slash_chars(&pc))
        }
    } else {
        (string_from(base.as_str()), trim_start_slash_chars(&pc))
    };
    let rel = string_of(&relative);
    let url = match join_url(join_base.as_str(), rel.as_str()) {
        Ok(u) => u,
        Err(detail) => {
            let m = text_around("invalid path ", &pc, ": ");
            return Err(QueueError::Other(string_of(&join_chars(&chars_of(m.as_str()), &chars_of(detail.as_str())))));
        },
    };
    match query {
        Some(q) => Ok(set_url_query(url.as_str(), Some(q))),
        None => Ok(url),
    }
}

/// The source identity URL of a broker for a tenant: its public endpoint
/// with `/info/sourceIdentity` added to the path and the tenant as query.
pub open spec fn source_identity_url(public_endpoint: Seq<char>, tenant: Seq<char>) -> Option<Seq<char>> {
    match url_serialization(public_endpoint) {
        None => None,
        Some(u) => {
            let path = trim_end_slashes(url_path(u)) + "/info/sourceIdentity"@;
            Some(url_pair_appended(url_path_set(u, path), "tenant"@, tenant))
        },
    }
}

/// Builds the broker's source identity URL for a tenant.
pub fn source_identity_id(public_endpoint: &str, tenant: &str) -> (r: Result<String, BrokerError>)
    ensures
        match r {
            Ok(s) => source_identity_url(public_endpoint@, tenant@) == Some(s@),
            Err(e) => source_identity_url(public_endpoint@, tenant@) is None && e is Internal,
        },
{
    let u = match parse_url(public_endpoint) {
        Ok(u) => u,
        Err(detail) => {
            let d = chars_of(detail.as_str());
            return Err(BrokerError::Internal(text_around("invalid BROKER_PUBLIC_ENDPOINT for source identity: ", &d, "")));
        },
    };
    let p = path_of_url(u.as_str());
    let t = trim_end_slash_chars(&chars_of(p.as_str()));
    let suffix = chars_of("/info/sourceIdentity");
    let path = string_of(&join_chars(&t, &suffix));
    let with_path = set_url_path(u.as_str(), path.as_str());
    Ok(append_url_pair(with_path.as_str(), "tenant", tenant))
}

/// Characters kept in a pseudonym component: ASCII letters and digits and
/// the token characters of RFC 7230.
pub open spec fn pseudonym_char(c: char) -> bool {
    ||| ('a' <= c <= 'z' || 'A' <= c <= 'Z' || '0' <= c <= '9')
    ||| c == '!' || c == '#' || c == '$' || c == '%' || c == '&' || c == '\'' || c == '*'
    ||| c == '+' || c == '-' || c == '.' || c == '^' || c == '_' || c == '`' || c == '|' || c == '~'
}

/// A pseudonym component: each character kept or replaced by `_`, and
/// `default` for an empty value.
pub open spec fn sanitized(value: Seq<char>) -> Seq<char> {
    if value.len() == 0 {
        "default"@
    } else {
        value.map_values(|c: char| if pseudonym_char(c) { c } else { '_' })
    }
}

/// Whether a character is kept in a pseudonym component.
fn is_pseudonym_char(c: char) -> (r: bool)
    ensures
        r == pseudonym_char(c),
{
    ('a' <= c && c <= 'z') || ('A' <= c && c <= 'Z') || ('0' <= c && c <= '9') || c == '!' || c
        == '#' || c == '$' || c == '%' || c == '&' || c == '\'' || c == '*' || c == '+' || c == '-'
        || c == '.' || c == '^' || c == '_' || c == '`' || c == '|' || c == '~'
}

/// Replaces characters outside the token alphabet by `_`.
pub fn sanitize_pseudonym_component(value: &str) -> (r: String)
    ensures
        r@ == sanitized(value@),
{
    let cs = chars_of(value);
    if cs.len() == 0 {
        return string_from("default");
    }
    let mut out: Vec<char> = Vec::new();
    let mut i: usize = 0;
    while i < cs.len()
        invariant
            i <= cs.len(),
            cs@ == value@,
            out@ == value@.map_values(|c: char| if pseudonym_char(c) { c } else { '_' }).take(i as int),
        decreases cs.len() - i,
    {
        let c = cs[i];
        let d = if is_pseudonym_char(c) {
            c
        } else {
            '_'
        };
        out.push(d);
        assert(out@ =~= value@.map_values(|c: char| if pseudonym_char(c) { c } else { '_' }).take(i + 1));
        i += 1;
    }
    assert(value@.map_values(|c: char| if pseudonym_char(c) { c } else { '_' }).take(cs.len() as int)
        =~= value@.map_values(|c: char| if pseudonym_char(c) { c } else { '_' }));
    string_of(&out)
}

/// The broker's alias for a tenant: both components sanitized, joined by
/// `-`.
pub fn source_identity_alias(broker_id: &str, tenant: &str) -> (r: String)
    ensures
        r@ == sanitized(broker_id@) + seq!['-'] + sanitized(tenant@),
{
    let a = sanitize_pseudonym_component(broker_id);
    let b = sanitize_pseudonym_component(tenant);
    let dash = chars_of("-");
    assert(dash@ =~= seq!['-']) by {
        reveal_strlit("-");
    }
    let ab = join_chars(&chars_of(a.as_str()), &dash);
    string_of(&join_chars(&ab, &chars_of(b.as_str())))
}

/// Every character of a sanitized component is kept by the alphabet, and
/// a component is never empty.
pub proof fn law_sanitized_alphabet(value: Seq<char>)
    ensures
        sanitized(value).len() > 0,
        forall|i: int| 0 <= i < sanitized(value).len() ==> pseudonym_char(#[trigger] sanitized(value)[i]),
{
    reveal_strlit("default");
    if value.len() > 0 {
        assert forall|i: int| 0 <= i < sanitized(value).len() implies pseudonym_char(#[trigger] sanitized(value)[i]) by {
            assert(pseudonym_char('_'));
        }
    }
}

} // verus!
