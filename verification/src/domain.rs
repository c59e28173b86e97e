//! Domain records of the broker: batch reports, attribute update reports,
//! discovery listings, temporal query input, context source identity, and
//! entity events.
use vstd::prelude::*;
use crate::error::{BrokerError, ProblemDetails, error_message, error_status};
use crate::json::Json;
use crate::text::string_from;

verus! {

/// A failed item of a batch operation.
#[derive(Clone, Debug)]
pub struct BatchEntityError {
    pub entity_id: String,
    pub registration_id: Option<String>,
    pub error: ProblemDetails,
}

/// The report of a batch operation: ids that succeeded and items that
/// failed.
#[derive(Clone, Debug)]
pub struct BatchOperationResult {
    pub success: Vec<String>,
    pub errors: Vec<BatchEntityError>,
}

impl BatchOperationResult {
    /// An empty report.
    pub fn new() -> (r: Self)
        ensures
            r.success@.len() == 0,
            r.errors@.len() == 0,
    {
        BatchOperationResult { success: Vec::new(), errors: Vec::new() }
    }
}

/// An attribute that an update left unchanged, with the reason.
#[derive(Clone, Debug)]
pub struct NotUpdatedDetails {
    pub attribute_name: String,
    pub reason: ProblemDetails,
}

/// The report of an attribute update.
#[derive(Clone, Debug)]
pub struct UpdateResult {
    pub updated: Vec<String>,
    pub not_updated: Vec<NotUpdatedDetails>,
}

impl UpdateResult {
    /// An empty report.
    pub fn new() -> (r: Self)
        ensures
            r.updated@.len() == 0,
            r.not_updated@.len() == 0,
    {
        UpdateResult { updated: Vec::new(), not_updated: Vec::new() }
    }
}

/// The outcome of a batch upsert without failures.
#[derive(Clone, Debug)]
pub struct BatchUpsertOutcome {
    pub created_ids: Vec<String>,
    pub had_updates: bool,
}

/// Details of one attribute in discovery listings.
#[derive(Clone, Debug)]
pub struct AttributeInfo {
    pub id: String,
    pub info_type: String,
    pub attribute_name: String,
    pub attribute_count: u64,
    pub attribute_types: Vec<String>,
    pub type_names: Vec<String>,
}

/// A listing of attribute names.
#[derive(Clone, Debug)]
pub struct AttributeList {
    pub id: String,
    pub list_type: String,
    pub attribute_list: Vec<String>,
}

/// Details of one entity type.
#[derive(Clone, Debug)]
pub struct EntityTypeInfo {
    pub id: String,
    pub info_type: String,
    pub entity_type_name: String,
    pub entity_count: u64,
    pub attribute_details: Vec<AttributeInfo>,
}

/// A listing of entity type names.
#[derive(Clone, Debug)]
pub struct EntityTypeList {
    pub id: String,
    pub list_type: String,
    pub type_list: Vec<String>,
}

/// Temporal query parameters of a temporal query body.
#[derive(Clone, Debug)]
pub struct TemporalQueryInput {
    pub time_rel: Option<String>,
    pub time_at: Option<String>,
    pub end_time_at: Option<String>,
    pub time_property: Option<String>,
    pub last_n: Option<u32>,
    pub aggr_methods: Option<String>,
    pub aggr_period_duration: Option<String>,
    pub options: Option<String>,
    pub format: Option<String>,
}

/// The broker's identity as a context source.
#[derive(Clone, Debug)]
pub struct ContextSourceIdentity {
    pub id: String,
    pub kind: String,
    pub context_source_alias: String,
    pub context_source_up_time: String,
    pub context_source_time_at: String,
}

/// Kinds of entity events.
#[derive(PartialEq, Eq, Structural, Clone, Copy, Debug)]
pub enum EntityEventKind {
    Created,
    Updated,
    Deleted,
}

/// An entity event with the attributes it changed.
#[derive(Clone, Debug)]
pub struct EntityEvent {
    pub kind: EntityEventKind,
    pub changed_attributes: Vec<String>,
}

/// A failure report is built for `status` and `detail` with the
/// batch-failure title.
pub open spec fn batch_error_of(e: BatchEntityError, entity_id: Seq<char>, status: u16, detail: Seq<char>) -> bool {
    &&& e.entity_id@ == entity_id
    &&& e.registration_id is None
    &&& e.error.problem_type matches Some(t) && t@ == "about:blank"@
    &&& e.error.title matches Some(t) && t@ == "BatchOperationFailed"@
    &&& e.error.status == status
    &&& e.error.detail@ == detail
}

/// Builds the failure report of a batch item.
pub fn batch_error(entity_id: &str, status: u16, detail: String) -> (r: BatchEntityError)
    ensures
        batch_error_of(r, entity_id@, status, detail@),
{
    BatchEntityError {
        entity_id: string_from(entity_id),
        registration_id: None,
        error: ProblemDetails {
            problem_type: Some(string_from("about:blank")),
            title: Some(string_from("BatchOperationFailed")),
            status,
            detail,
        },
    }
}

/// The failure report of a batch item for a broker error: its status and
/// message.
pub fn batch_error_for(entity_id: &str, error: &BrokerError) -> (r: BatchEntityError)
    ensures
        batch_error_of(r, entity_id@, error_status(*error), error_message(*error)),
{
    batch_error(entity_id, error.status_code(), error.message())
}

/// An attribute report is built for `status` and `detail` with the
/// update-failure title.
pub open spec fn not_updated_of(n: NotUpdatedDetails, attribute_name: Seq<char>, status: u16, detail: Seq<char>) -> bool {
    &&& n.attribute_name@ == attribute_name
    &&& n.reason.problem_type matches Some(t) && t@ == "about:blank"@
    &&& n.reason.title matches Some(t) && t@ == "UpdateFailed"@
    &&& n.reason.status == status
    &&& n.reason.detail@ == detail
}

/// Builds the report of an attribute that an update left unchanged.
pub fn not_updated(attribute_name: &str, status: u16, detail: String) -> (r: NotUpdatedDetails)
    ensures
        not_updated_of(r, attribute_name@, status, detail@),
{
    NotUpdatedDetails {
        attribute_name: string_from(attribute_name),
        reason: ProblemDetails {
            problem_type: Some(string_from("about:blank")),
            title: Some(string_from("UpdateFailed")),
            status,
            detail,
        },
    }
}

/// An effect of an entity operation for the caller to carry out: the
/// event, the entity it concerns (its document after the change, or the
/// removed document), the version stamp, and whether subscriptions are
/// notified; replication of the change is up to the caller.
#[derive(Clone, Debug)]
pub struct EntityChange {
    pub event: EntityEvent,
    pub entity_id: String,
    pub document: Json,
    pub version_at: String,
    pub notify: bool,
}

/// One recorded instance of a temporal attribute.
#[derive(Clone, Debug)]
pub struct TemporalAttributeRecord {
    pub attr_id: String,
    pub instance_id: String,
    pub observed_at: Option<String>,
    pub created_at: Option<String>,
    pub modified_at: Option<String>,
    pub deleted_at: Option<String>,
    pub value: Json,
}

/// The temporal document of an entity: its latest state and the recorded
/// attribute instances.
#[derive(Clone, Debug)]
pub struct TemporalEntityDocument {
    pub tenant: String,
    pub ngsi_id: String,
    pub doc: Json,
    pub history: Vec<TemporalAttributeRecord>,
}

/// A stored subscription with its tenant and id.
#[derive(Clone, Debug)]
pub struct SubscriptionDocument {
    pub tenant: String,
    pub ngsi_id: String,
    pub doc: Json,
}

/// A temporal query result: its body and the total number of matches.
#[derive(Clone, Debug)]
pub struct TemporalQueryResult {
    pub body: Json,
    pub total_count: usize,
}

/// View of a temporal attribute instance.
pub struct RecordV {
    pub attr_id: Seq<char>,
    pub instance_id: Seq<char>,
    pub observed_at: Option<Seq<char>>,
    pub created_at: Option<Seq<char>>,
    pub modified_at: Option<Seq<char>>,
    pub deleted_at: Option<Seq<char>>,
    pub value: crate::json::JsonV,
}

/// View of an optional text.
pub open spec fn opt_view(s: Option<String>) -> Option<Seq<char>> {
    match s {
        Some(t) => Some(t@),
        None => None,
    }
}

impl View for TemporalAttributeRecord {
    type V = RecordV;

    open spec fn view(&self) -> RecordV {
        RecordV {
            attr_id: self.attr_id@,
            instance_id: self.instance_id@,
            observed_at: opt_view(self.observed_at),
            created_at: opt_view(self.created_at),
            modified_at: opt_view(self.modified_at),
            deleted_at: opt_view(self.deleted_at),
            value: self.value@,
        }
    }
}

/// Views of temporal attribute instances.
pub open spec fn record_views(records: Seq<TemporalAttributeRecord>) -> Seq<RecordV> {
    records.map_values(|r: TemporalAttributeRecord| r@)
}

/// View of a temporal entity document.
pub struct TemporalV {
    pub tenant: Seq<char>,
    pub id: Seq<char>,
    pub doc: crate::json::JsonV,
    pub history: Seq<RecordV>,
}

impl View for TemporalEntityDocument {
    type V = TemporalV;

    open spec fn view(&self) -> TemporalV {
        TemporalV { tenant: self.tenant@, id: self.ngsi_id@, doc: self.doc@, history: record_views(self.history@) }
    }
}

/// A copy of an optional text.
fn copy_opt(s: &Option<String>) -> (r: Option<String>)
    ensures
        opt_view(r) == opt_view(*s),
{
    match s {
        Some(t) => Some(string_from(t.as_str())),
        None => None,
    }
}

/// A copy of a temporal attribute instance.
pub fn copy_record(r: &TemporalAttributeRecord) -> (c: TemporalAttributeRecord)
    ensures
        c@ == r@,
{
    TemporalAttributeRecord {
        attr_id: string_from(r.attr_id.as_str()),
        instance_id: string_from(r.instance_id.as_str()),
        observed_at: copy_opt(&r.observed_at),
        created_at: copy_opt(&r.created_at),
        modified_at: copy_opt(&r.modified_at),
        deleted_at: copy_opt(&r.deleted_at),
        value: crate::json::clone_json(&r.value),
    }
}

/// A copy of a temporal entity document.
pub fn copy_temporal(d: &TemporalEntityDocument) -> (c: TemporalEntityDocument)
    ensures
        c@ == d@,
{
    let mut history: Vec<TemporalAttributeRecord> = Vec::new();
    let mut i: usize = 0;
    while i < d.history.len()
        invariant
            i <= d.history.len(),
            record_views(history@) == record_views(d.history@).take(i as int),
        decreases d.history.len() - i,
    {
        let ghost before = record_views(history@);
        let c = copy_record(&d.history[i]);
        history.push(c);
        assert(record_views(history@) =~= before.push(d.history@[i as int]@));
        assert(record_views(d.history@).take(i + 1) =~= record_views(d.history@).take(i as int).push(d.history@[i as int]@));
        i += 1;
    }
    assert(record_views(d.history@).take(d.history.len() as int) =~= record_views(d.history@));
    TemporalEntityDocument {
        tenant: string_from(d.tenant.as_str()),
        ngsi_id: string_from(d.ngsi_id.as_str()),
        doc: crate::json::clone_json(&d.doc),
        history,
    }
}

} // verus!
