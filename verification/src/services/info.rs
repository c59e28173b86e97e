//! The broker's identity as a context source.
use vstd::prelude::*;
use crate::config::AppConfig;
use crate::domain::ContextSourceIdentity;
use crate::error::BrokerError;
use crate::headers::RequestContext;
use crate::links::{sanitized, source_identity_alias, source_identity_id, source_identity_url};
use crate::time::{duration_to_iso8601, iso8601_duration};
use crate::text::string_from;

verus! {

/// Describes the broker as a context source for the request's tenant,
/// after running `uptime_seconds`, at `now`. The id is the tenant's
/// identity URL under the public endpoint; an endpoint that does not form
/// one is an internal error.
pub fn source_identity(config: &AppConfig, context: &RequestContext, uptime_seconds: u64, now: &str) -> (r: Result<ContextSourceIdentity, BrokerError>)
    ensures
        match source_identity_url(config.public_endpoint@, context.tenant@) {
            Some(url) => r matches Ok(identity) && {
                &&& identity.id@ == url
                &&& identity.kind@ == "ContextSourceIdentity"@
                &&& identity.context_source_alias@ == sanitized(config.broker_id@) + seq!['-'] + sanitized(context.tenant@)
                &&& identity.context_source_up_time@ == iso8601_duration(uptime_seconds as nat)
                &&& identity.context_source_time_at@ == now@
            },
            None => r matches Err(e) && e is Internal,
        },
{
    let id = source_identity_id(config.public_endpoint.as_str(), context.tenant.as_str())?;
    Ok(ContextSourceIdentity {
        id,
        kind: string_from("ContextSourceIdentity"),
        context_source_alias: source_identity_alias(config.broker_id.as_str(), context.tenant.as_str()),
        context_source_up_time: duration_to_iso8601(uptime_seconds),
        context_source_time_at: string_from(now),
    })
}

} // verus!
