//! The structured write protocol from the agent into the knowledge base.
//!
//! Source material of any format is read and understood by the agent, which
//! hands over a versioned bundle of records. This module holds the protocol's
//! rules: strict validation, the change plan, idempotent upserts and the
//! provenance kept with every write.

pub mod apply;
pub mod plan;

use vstd::prelude::*;

use crate::compliance::control::ExcerptStatus;
use crate::project::matrix::needs_reason;
use crate::model::{
    id_text, ControlId, ControlStatus, IngestConfidence, ProjectFactKind, SourceCitation,
};
use crate::text::{
    ascii_hex, blank, chars_of, is_ascii_hex, is_blank, owned, str_eq, string_of, texts,
};

verus! {

/// The protocol version this library reads.
pub const SCHEMA_VERSION: &'static str = "complai.ingest/v1";

/// A versioned batch of records.
#[derive(Debug, Clone, PartialEq, Eq)]
pub struct IngestBundle {
    pub schema_version: String,
    pub records: Vec<IngestRecord>,
}

/// One record: what to write, where, from which source, how sure.
#[derive(Debug, Clone, PartialEq, Eq)]
#[allow(inconsistent_fields)]
pub enum IngestRecord {
    ControlContent {
        external_key: String,
        source: SourceCitation,
        confidence: IngestConfidence,
        target: ControlTarget,
        content: ControlContent,
    },
    SystemFact {
        external_key: String,
        source: SourceCitation,
        confidence: IngestConfidence,
        target: SystemTarget,
        content: SystemFactContent,
    },
    ProjectFact {
        external_key: String,
        source: SourceCitation,
        confidence: IngestConfidence,
        target: ProjectTarget,
        content: ProjectFactContent,
    },
    MatrixAssessment {
        external_key: String,
        source: SourceCitation,
        confidence: IngestConfidence,
        target: MatrixTarget,
        content: MatrixAssessmentContent,
    },
}

#[derive(Debug, Clone, PartialEq, Eq)]
pub struct ControlTarget {
    pub control: ControlId,
}

#[derive(Debug, Clone, PartialEq, Eq)]
pub struct SystemTarget {
    pub system: String,
}

#[derive(Debug, Clone, PartialEq, Eq)]
pub struct ProjectTarget {
    pub project: String,
}

#[derive(Debug, Clone, PartialEq, Eq)]
pub struct MatrixTarget {
    pub project: String,
    pub control: ControlId,
}

/// The body sections of a control; absent sections were not in the material.
///
/// A control that its framework's index does not list yet is created from
/// the record, which then names its `title`, `domain` and `category`, and its
/// `levels` where the framework has levels.
#[derive(Debug, Clone, PartialEq, Eq)]
pub struct ControlContent {
    pub requirement_summary: Option<String>,
    pub implementation_guidance: Option<String>,
    pub common_deficiencies: Option<String>,
    pub expected_evidence: Option<Vec<String>>,
    pub completeness: ExcerptStatus,
    pub title: Option<String>,
    pub domain: Option<String>,
    pub category: Option<String>,
    pub levels: Option<Vec<u8>>,
}

/// Whether a control content record names everything a new control needs.
pub open spec fn defines_control(c: ControlContent) -> bool {
    c.title is Some && c.domain is Some && c.category is Some
}

#[derive(Debug, Clone, PartialEq, Eq)]
pub struct SystemFactContent {
    pub domain: String,
    pub title: String,
    pub body: String,
    pub tags: Vec<String>,
    pub related_controls: Vec<ControlId>,
}

#[derive(Debug, Clone, PartialEq, Eq)]
pub struct ProjectFactContent {
    pub kind: ProjectFactKind,
    pub title: String,
    pub body: String,
    pub tags: Vec<String>,
    pub control: Option<ControlId>,
}

#[derive(Debug, Clone, PartialEq, Eq)]
pub struct MatrixAssessmentContent {
    pub status: ControlStatus,
    pub gap: Option<String>,
    pub remediation: Option<String>,
    pub owner: Option<String>,
}

/// What applying a record would do.
#[derive(Debug, Clone, Copy, PartialEq, Eq, Structural)]
pub enum PlanAction {
    Create,
    Update,
    Unchanged,
}

/// The printed name of a plan action.
pub open spec fn plan_action_text(a: PlanAction) -> Seq<char> {
    match a {
        PlanAction::Create => "create"@,
        PlanAction::Update => "update"@,
        PlanAction::Unchanged => "unchanged"@,
    }
}

impl PlanAction {
    pub fn as_str(&self) -> (s: &'static str)
        ensures
            s@ == plan_action_text(*self),
    {
        match self {
            PlanAction::Create => "create",
            PlanAction::Update => "update",
            PlanAction::Unchanged => "unchanged",
        }
    }
}

/// One line of a change plan.
#[derive(Debug, Clone, PartialEq, Eq)]
pub struct PlanItem {
    pub action: PlanAction,
    pub label: String,
}

/// Options of `apply`.
#[derive(Debug, Clone, Copy, PartialEq, Eq, Structural)]
pub struct ApplyOptions {
    pub allow_low_confidence: bool,
}

/// A field of a record, for error reports (`records[i].<field>`).
#[derive(Debug, Clone, Copy, PartialEq, Eq, Structural)]
pub enum Field {
    ExternalKey,
    SourceType,
    SourceTitle,
    SourceReference,
    SourceLocator,
    SourceSha256,
    TargetSystem,
    TargetProject,
    RequirementSummary,
    ImplementationGuidance,
    CommonDeficiencies,
    ExpectedEvidence,
    Domain,
    Category,
    Title,
    Body,
    Tags,
    Gap,
    Remediation,
    Owner,
}

/// Why one record of a bundle is refused.
#[derive(Debug, Clone, Copy, PartialEq, Eq, Structural)]
pub enum RecordFault {
    /// A required text that is blank.
    Blank(Field),
    /// A source digest that is not 64 hex digits.
    BadSha256,
    /// An external key used by an earlier record.
    DuplicateExternalKey,
    /// A control or matrix cell written by an earlier record.
    DuplicateTarget,
    /// A control content record without any section.
    NoSections,
    /// `completeness: empty`.
    EmptyCompleteness,
    /// `completeness: complete` without all three sections.
    IncompleteSections,
    /// The list entry at `position` repeats an earlier one.
    DuplicateValue { field: Field, position: usize },
    /// `status` partial, gap or na without a gap that explains it.
    MissingGap,
    /// `status` unassessed or met with a gap.
    UnexpectedGap,
}

/// Errors of the ingest protocol.
#[derive(Debug, Clone, Copy, PartialEq, Eq, Structural)]
pub enum IngestError {
    /// `schema_version` is not the supported one.
    SchemaVersion,
    /// The bundle has no records.
    EmptyRecords,
    /// The record at `index` is invalid.
    InvalidRecord { index: usize, fault: RecordFault },
}

/// The first fault of a list of strings: a blank entry, or an entry equal to
/// an earlier one.
pub open spec fn list_fault(values: Seq<Seq<char>>, field: Field) -> Option<RecordFault>
    decreases values.len(),
{
    if values.len() == 0 {
        None
    } else {
        match list_fault(values.drop_last(), field) {
            Some(f) => Some(f),
            None => if is_blank(values.last()) {
                Some(RecordFault::Blank(field))
            } else if values.drop_last().contains(values.last()) {
                Some(RecordFault::DuplicateValue { field, position: (values.len() - 1) as usize })
            } else {
                None
            },
        }
    }
}

/// Whether a text is a SHA-256 hex digest.
pub open spec fn is_sha256_hex(s: Seq<char>) -> bool {
    s.len() == 64 && forall|i: int| 0 <= i < s.len() ==> is_ascii_hex(#[trigger] s[i])
}

/// The first fault among the fields every record has.
pub open spec fn common_fault(key: Seq<char>, source: SourceCitation) -> Option<RecordFault> {
    if is_blank(key) {
        Some(RecordFault::Blank(Field::ExternalKey))
    } else if is_blank(source.kind@) {
        Some(RecordFault::Blank(Field::SourceType))
    } else if is_blank(source.title@) {
        Some(RecordFault::Blank(Field::SourceTitle))
    } else if is_blank(source.reference@) {
        Some(RecordFault::Blank(Field::SourceReference))
    } else if is_blank(source.locator@) {
        Some(RecordFault::Blank(Field::SourceLocator))
    } else {
        match source.sha256 {
            Some(h) => if is_sha256_hex(h@) {
                None
            } else {
                Some(RecordFault::BadSha256)
            },
            None => None,
        }
    }
}

/// An optional section that is present but blank.
pub open spec fn blank_section(s: Option<String>) -> bool {
    s matches Some(t) && is_blank(t@)
}

/// How many of the three sections are present.
pub open spec fn section_count(c: ControlContent) -> int {
    (if c.requirement_summary is Some { 1int } else { 0int }) + (if c.implementation_guidance is Some {
        1int
    } else {
        0int
    }) + (if c.common_deficiencies is Some { 1int } else { 0int })
}

/// The first fault of a control content record.
pub open spec fn control_content_fault(c: ControlContent) -> Option<RecordFault> {
    if blank_section(c.title) {
        Some(RecordFault::Blank(Field::Title))
    } else if blank_section(c.domain) {
        Some(RecordFault::Blank(Field::Domain))
    } else if blank_section(c.category) {
        Some(RecordFault::Blank(Field::Category))
    } else if blank_section(c.requirement_summary) {
        Some(RecordFault::Blank(Field::RequirementSummary))
    } else if blank_section(c.implementation_guidance) {
        Some(RecordFault::Blank(Field::ImplementationGuidance))
    } else if blank_section(c.common_deficiencies) {
        Some(RecordFault::Blank(Field::CommonDeficiencies))
    } else if section_count(c) == 0 {
        Some(RecordFault::NoSections)
    } else if c.completeness == ExcerptStatus::Empty {
        Some(RecordFault::EmptyCompleteness)
    } else if c.completeness == ExcerptStatus::Complete && section_count(c) != 3 {
        Some(RecordFault::IncompleteSections)
    } else {
        match c.expected_evidence {
            Some(list) => list_fault(texts(list@), Field::ExpectedEvidence),
            None => None,
        }
    }
}

/// The first fault of a system fact record.
pub open spec fn system_fact_fault(t: SystemTarget, c: SystemFactContent) -> Option<RecordFault> {
    if is_blank(t.system@) {
        Some(RecordFault::Blank(Field::TargetSystem))
    } else if is_blank(c.domain@) {
        Some(RecordFault::Blank(Field::Domain))
    } else if is_blank(c.title@) {
        Some(RecordFault::Blank(Field::Title))
    } else if is_blank(c.body@) {
        Some(RecordFault::Blank(Field::Body))
    } else {
        list_fault(texts(c.tags@), Field::Tags)
    }
}

/// The first fault of a project fact record.
pub open spec fn project_fact_fault(t: ProjectTarget, c: ProjectFactContent) -> Option<RecordFault> {
    if is_blank(t.project@) {
        Some(RecordFault::Blank(Field::TargetProject))
    } else if is_blank(c.title@) {
        Some(RecordFault::Blank(Field::Title))
    } else if is_blank(c.body@) {
        Some(RecordFault::Blank(Field::Body))
    } else {
        list_fault(texts(c.tags@), Field::Tags)
    }
}

/// The first fault of a matrix assessment record.
pub open spec fn matrix_fault(t: MatrixTarget, c: MatrixAssessmentContent) -> Option<RecordFault> {
    if is_blank(t.project@) {
        Some(RecordFault::Blank(Field::TargetProject))
    } else if blank_section(c.gap) {
        Some(RecordFault::Blank(Field::Gap))
    } else if blank_section(c.remediation) {
        Some(RecordFault::Blank(Field::Remediation))
    } else if blank_section(c.owner) {
        Some(RecordFault::Blank(Field::Owner))
    } else if needs_reason(c.status) && c.gap is None {
        Some(RecordFault::MissingGap)
    } else if !needs_reason(c.status) && c.gap is Some {
        Some(RecordFault::UnexpectedGap)
    } else {
        None
    }
}


/// The external key of a record.
pub open spec fn rec_key(r: IngestRecord) -> Seq<char> {
    match r {
        IngestRecord::ControlContent { external_key, .. } => external_key@,
        IngestRecord::SystemFact { external_key, .. } => external_key@,
        IngestRecord::ProjectFact { external_key, .. } => external_key@,
        IngestRecord::MatrixAssessment { external_key, .. } => external_key@,
    }
}

/// The source citation of a record.
pub open spec fn rec_source(r: IngestRecord) -> SourceCitation {
    match r {
        IngestRecord::ControlContent { source, .. } => source,
        IngestRecord::SystemFact { source, .. } => source,
        IngestRecord::ProjectFact { source, .. } => source,
        IngestRecord::MatrixAssessment { source, .. } => source,
    }
}

/// The confidence of a record.
pub open spec fn rec_confidence(r: IngestRecord) -> IngestConfidence {
    match r {
        IngestRecord::ControlContent { confidence, .. } => confidence,
        IngestRecord::SystemFact { confidence, .. } => confidence,
        IngestRecord::ProjectFact { confidence, .. } => confidence,
        IngestRecord::MatrixAssessment { confidence, .. } => confidence,
    }
}

/// The single target a record owns, if any: a control's content or one
/// matrix cell. Two records of a bundle may not own the same target.
pub open spec fn rec_singleton(r: IngestRecord) -> Option<Seq<char>> {
    match r {
        IngestRecord::ControlContent { target, .. } => Some("control:"@ + id_text(target.control@)),
        IngestRecord::MatrixAssessment { target, .. } => Some(
            "matrix:"@ + target.project@ + seq![':'] + id_text(target.control@),
        ),
        _ => None,
    }
}

/// The printed label of a record.
pub open spec fn rec_label(r: IngestRecord) -> Seq<char> {
    match r {
        IngestRecord::ControlContent { target, .. } => "control "@ + id_text(target.control@),
        IngestRecord::SystemFact { target, content, .. } => "system "@ + target.system@ + " / "@
            + content.title@,
        IngestRecord::ProjectFact { target, content, .. } => "project "@ + target.project@ + " / "@
            + content.title@,
        IngestRecord::MatrixAssessment { target, .. } => "matrix "@ + target.project@ + " / "@ + id_text(
            target.control@,
        ),
    }
}

/// The first fault of the kind-specific part of a record.
pub open spec fn kind_fault(r: IngestRecord) -> Option<RecordFault> {
    match r {
        IngestRecord::ControlContent { content, .. } => control_content_fault(content),
        IngestRecord::SystemFact { target, content, .. } => system_fact_fault(target, content),
        IngestRecord::ProjectFact { target, content, .. } => project_fact_fault(target, content),
        IngestRecord::MatrixAssessment { target, content, .. } => matrix_fault(target, content),
    }
}

/// The first fault of a record given the records before it.
pub open spec fn record_fault(r: IngestRecord, prev: Seq<IngestRecord>) -> Option<RecordFault> {
    match common_fault(rec_key(r), rec_source(r)) {
        Some(f) => Some(f),
        None => if exists|j: int| 0 <= j < prev.len() && rec_key(#[trigger] prev[j]) == rec_key(r) {
            Some(RecordFault::DuplicateExternalKey)
        } else if rec_singleton(r) is Some && exists|j: int|
            0 <= j < prev.len() && rec_singleton(#[trigger] prev[j]) == rec_singleton(r) {
            Some(RecordFault::DuplicateTarget)
        } else {
            kind_fault(r)
        },
    }
}

/// The first faulty record of a list, with its position and fault.
pub open spec fn first_fault(rs: Seq<IngestRecord>) -> Option<(int, RecordFault)>
    decreases rs.len(),
{
    if rs.len() == 0 {
        None
    } else {
        match first_fault(rs.drop_last()) {
            Some(x) => Some(x),
            None => match record_fault(rs.last(), rs.drop_last()) {
                Some(f) => Some(((rs.len() - 1) as int, f)),
                None => None,
            },
        }
    }
}

/// The verdict on a bundle's protocol constraints, independent of any target.
pub open spec fn bundle_check(b: IngestBundle) -> Result<(), IngestError> {
    if b.schema_version@ != SCHEMA_VERSION@ {
        Err(IngestError::SchemaVersion)
    } else if b.records@.len() == 0 {
        Err(IngestError::EmptyRecords)
    } else {
        match first_fault(b.records@) {
            Some((i, f)) => Err(IngestError::InvalidRecord { index: i as usize, fault: f }),
            None => Ok(()),
        }
    }
}

/// Refuses a blank text.
pub fn require_nonempty(value: &str, field: Field) -> (r: Result<(), RecordFault>)
    ensures
        r is Ok <==> !is_blank(value@),
        r is Err ==> r == Err::<(), RecordFault>(RecordFault::Blank(field)),
{
    if blank(value) {
        Err(RecordFault::Blank(field))
    } else {
        Ok(())
    }
}

fn optional_nonempty(value: &Option<String>, field: Field) -> (r: Result<(), RecordFault>)
    ensures
        r is Ok <==> !blank_section(*value),
        r is Err ==> r == Err::<(), RecordFault>(RecordFault::Blank(field)),
{
    match value {
        Some(v) => require_nonempty(v.as_str(), field),
        None => Ok(()),
    }
}

/// Refuses a list with a blank entry or a repeated entry.
pub fn validate_string_list(values: &Vec<String>, field: Field) -> (r: Result<(), RecordFault>)
    ensures
        r is Ok <==> list_fault(texts(values@), field) is None,
        r matches Err(f) ==> list_fault(texts(values@), field) == Some(f),
{
    let ghost all = texts(values@);
    let mut i: usize = 0;
    assert(all.take(0) =~= Seq::<Seq<char>>::empty());
    while i < values.len()
        invariant
            i <= values@.len(),
            all == texts(values@),
            list_fault(all.take(i as int), field) is None,
        decreases values.len() - i,
    {
        let ghost pre = all.take(i as int);
        assert(all.take(i + 1).drop_last() == pre);
        assert(all.take(i + 1).last() == values@[i as int]@);
        if blank(values[i].as_str()) {
            proof {
                lemma_list_fault_prefix(all, field, i + 1);
            }
            return Err(RecordFault::Blank(field));
        }
        let mut j: usize = 0;
        while j < i
            invariant
                j <= i,
                i < values@.len(),
                all == texts(values@),
                pre == all.take(i as int),
                list_fault(pre, field) is None,
                !is_blank(values@[i as int]@),
                all.take(i + 1).drop_last() == pre,
                all.take(i + 1).last() == values@[i as int]@,
                forall|k: int| 0 <= k < j ==> pre[k] != values@[i as int]@,
            decreases i - j,
        {
            if values[j] == values[i] {
                proof {
                    assert(pre[j as int] == values@[i as int]@);
                    assert(pre.contains(values@[i as int]@));
                    assert(list_fault(all.take(i + 1), field) == Some(
                        RecordFault::DuplicateValue { field, position: i },
                    ));
                    lemma_list_fault_prefix(all, field, i + 1);
                }
                return Err(RecordFault::DuplicateValue { field, position: i });
            }
            j += 1;
        }
        assert(!pre.contains(values@[i as int]@));
        i += 1;
    }
    assert(all.take(values.len() as int) == all);
    Ok(())
}

/// A fault found in a prefix is the fault of the whole list.
proof fn lemma_list_fault_prefix(values: Seq<Seq<char>>, field: Field, n: int)
    requires
        0 <= n <= values.len(),
        list_fault(values.take(n), field) is Some,
    ensures
        list_fault(values, field) == list_fault(values.take(n), field),
    decreases values.len() - n,
{
    if n < values.len() {
        assert(values.drop_last().take(n) == values.take(n));
        lemma_list_fault_prefix(values.drop_last(), field, n);
    } else {
        assert(values.take(n) == values);
    }
}

fn sha256_text(h: &str) -> (b: bool)
    ensures
        b == is_sha256_hex(h@),
{
    let v = chars_of(h);
    if v.len() != 64 {
        return false;
    }
    let mut i: usize = 0;
    while i < v.len()
        invariant
            i <= v@.len(),
            v@ == h@,
            forall|k: int| 0 <= k < i ==> is_ascii_hex(#[trigger] v@[k]),
        decreases v.len() - i,
    {
        if !ascii_hex(v[i]) {
            return false;
        }
        i += 1;
    }
    true
}

/// Checks the fields that every record has.
pub fn validate_common(record: &IngestRecord) -> (r: Result<(), RecordFault>)
    ensures
        r is Ok <==> common_fault(rec_key(*record), rec_source(*record)) is None,
        r matches Err(f) ==> common_fault(rec_key(*record), rec_source(*record)) == Some(f),
{
    require_nonempty(record.external_key(), Field::ExternalKey)?;
    let source = record.source();
    require_nonempty(source.kind.as_str(), Field::SourceType)?;
    require_nonempty(source.title.as_str(), Field::SourceTitle)?;
    require_nonempty(source.reference.as_str(), Field::SourceReference)?;
    require_nonempty(source.locator.as_str(), Field::SourceLocator)?;
    match &source.sha256 {
        Some(h) => {
            if sha256_text(h.as_str()) {
                Ok(())
            } else {
                Err(RecordFault::BadSha256)
            }
        },
        None => Ok(()),
    }
}

/// Checks a control content record.
pub fn validate_control_content(content: &ControlContent) -> (r: Result<(), RecordFault>)
    ensures
        r is Ok <==> control_content_fault(*content) is None,
        r matches Err(f) ==> control_content_fault(*content) == Some(f),
{
    optional_nonempty(&content.title, Field::Title)?;
    optional_nonempty(&content.domain, Field::Domain)?;
    optional_nonempty(&content.category, Field::Category)?;
    optional_nonempty(&content.requirement_summary, Field::RequirementSummary)?;
    optional_nonempty(&content.implementation_guidance, Field::ImplementationGuidance)?;
    optional_nonempty(&content.common_deficiencies, Field::CommonDeficiencies)?;
    let present: usize = (if content.requirement_summary.is_some() { 1 } else { 0 }) + (
    if content.implementation_guidance.is_some() {
        1
    } else {
        0
    }) + (if content.common_deficiencies.is_some() { 1 } else { 0 });
    if present == 0 {
        return Err(RecordFault::NoSections);
    }
    match content.completeness {
        ExcerptStatus::Empty => {
            return Err(RecordFault::EmptyCompleteness);
        },
        ExcerptStatus::Complete => {
            if present != 3 {
                return Err(RecordFault::IncompleteSections);
            }
        },
        ExcerptStatus::Partial => {},
    }
    match &content.expected_evidence {
        Some(list) => validate_string_list(list, Field::ExpectedEvidence),
        None => Ok(()),
    }
}

/// Checks the content of a system fact record.
pub fn validate_system_fact(content: &SystemFactContent) -> (r: Result<(), RecordFault>)
    ensures
        forall|t: SystemTarget| !is_blank(t.system@) ==> (r is Ok <==> system_fact_fault(t, *content) is None),
        forall|t: SystemTarget| #![auto] !is_blank(t.system@) ==> (r matches Err(f) ==> system_fact_fault(t, *content) == Some(f)),
{
    require_nonempty(content.domain.as_str(), Field::Domain)?;
    require_nonempty(content.title.as_str(), Field::Title)?;
    require_nonempty(content.body.as_str(), Field::Body)?;
    validate_string_list(&content.tags, Field::Tags)
}

/// Checks the content of a project fact record.
pub fn validate_project_fact(content: &ProjectFactContent) -> (r: Result<(), RecordFault>)
    ensures
        forall|t: ProjectTarget| !is_blank(t.project@) ==> (r is Ok <==> project_fact_fault(t, *content) is None),
        forall|t: ProjectTarget| #![auto] !is_blank(t.project@) ==> (r matches Err(f) ==> project_fact_fault(t, *content) == Some(f)),
{
    require_nonempty(content.title.as_str(), Field::Title)?;
    require_nonempty(content.body.as_str(), Field::Body)?;
    validate_string_list(&content.tags, Field::Tags)
}

/// Checks the content of a matrix assessment record.
pub fn validate_matrix_assessment(content: &MatrixAssessmentContent) -> (r: Result<(), RecordFault>)
    ensures
        forall|t: MatrixTarget| !is_blank(t.project@) ==> (r is Ok <==> matrix_fault(t, *content) is None),
        forall|t: MatrixTarget| #![auto] !is_blank(t.project@) ==> (r matches Err(f) ==> matrix_fault(t, *content) == Some(f)),
{
    optional_nonempty(&content.gap, Field::Gap)?;
    optional_nonempty(&content.remediation, Field::Remediation)?;
    optional_nonempty(&content.owner, Field::Owner)?;
    let explained = match content.status {
        ControlStatus::Partial | ControlStatus::Gap | ControlStatus::Na => true,
        ControlStatus::Unassessed | ControlStatus::Met => false,
    };
    if explained && content.gap.is_none() {
        return Err(RecordFault::MissingGap);
    }
    if !explained && content.gap.is_some() {
        return Err(RecordFault::UnexpectedGap);
    }
    Ok(())
}

proof fn lemma_first_fault_prefix(rs: Seq<IngestRecord>, n: int)
    requires
        0 <= n <= rs.len(),
        first_fault(rs.take(n)) is Some,
    ensures
        first_fault(rs) == first_fault(rs.take(n)),
    decreases rs.len() - n,
{
    if n < rs.len() {
        assert(rs.drop_last().take(n) == rs.take(n));
        lemma_first_fault_prefix(rs.drop_last(), n);
    } else {
        assert(rs.take(n) == rs);
    }
}

fn kind_check(record: &IngestRecord) -> (r: Result<(), RecordFault>)
    ensures
        r is Ok <==> kind_fault(*record) is None,
        r matches Err(f) ==> kind_fault(*record) == Some(f),
{
    match record {
        IngestRecord::ControlContent { content, .. } => validate_control_content(content),
        IngestRecord::SystemFact { target, content, .. } => {
            require_nonempty(target.system.as_str(), Field::TargetSystem)?;
            validate_system_fact(content)
        },
        IngestRecord::ProjectFact { target, content, .. } => {
            require_nonempty(target.project.as_str(), Field::TargetProject)?;
            validate_project_fact(content)
        },
        IngestRecord::MatrixAssessment { target, content, .. } => {
            require_nonempty(target.project.as_str(), Field::TargetProject)?;
            validate_matrix_assessment(content)
        },
    }
}

fn record_check(records: &Vec<IngestRecord>, i: usize) -> (r: Result<(), RecordFault>)
    requires
        i < records@.len(),
    ensures
        r is Ok <==> record_fault(records@[i as int], records@.take(i as int)) is None,
        r matches Err(f) ==> record_fault(records@[i as int], records@.take(i as int)) == Some(f),
{
    let record = &records[i];
    let ghost prev = records@.take(i as int);
    validate_common(record)?;
    let key = record.external_key();
    let mut j: usize = 0;
    while j < i
        invariant
            j <= i,
            i < records@.len(),
            prev == records@.take(i as int),
            key@ == rec_key(records@[i as int]),
            common_fault(rec_key(records@[i as int]), rec_source(records@[i as int])) is None,
            forall|k: int| 0 <= k < j ==> rec_key(#[trigger] prev[k]) != rec_key(records@[i as int]),
        decreases i - j,
    {
        if str_eq(records[j].external_key(), key) {
            assert(rec_key(prev[j as int]) == rec_key(records@[i as int]));
            return Err(RecordFault::DuplicateExternalKey);
        }
        j += 1;
    }
    match record.singleton_target() {
        Some(target) => {
            let mut j: usize = 0;
            while j < i
                invariant
                    j <= i,
                    i < records@.len(),
                    prev == records@.take(i as int),
                    rec_singleton(records@[i as int]) == Some(target@),
                    common_fault(rec_key(records@[i as int]), rec_source(records@[i as int])) is None,
                    forall|k: int| 0 <= k < i ==> rec_key(#[trigger] prev[k]) != rec_key(records@[i as int]),
                    forall|k: int| 0 <= k < j ==> rec_singleton(#[trigger] prev[k]) != rec_singleton(records@[i as int]),
                decreases i - j,
            {
                match records[j].singleton_target() {
                    Some(other) => {
                        if other == target {
                            assert(rec_singleton(prev[j as int]) == rec_singleton(records@[i as int]));
                            return Err(RecordFault::DuplicateTarget);
                        }
                    },
                    None => {},
                }
                j += 1;
            }
        },
        None => {},
    }
    kind_check(record)
}

/// Checks the protocol constraints that do not depend on any write target.
pub fn validate_bundle(bundle: &IngestBundle) -> (r: Result<(), IngestError>)
    ensures
        r == bundle_check(*bundle),
{
    if !str_eq(bundle.schema_version.as_str(), SCHEMA_VERSION) {
        return Err(IngestError::SchemaVersion);
    }
    if bundle.records.len() == 0 {
        return Err(IngestError::EmptyRecords);
    }
    let ghost rs = bundle.records@;
    let mut i: usize = 0;
    assert(rs.take(0) =~= Seq::<IngestRecord>::empty());
    while i < bundle.records.len()
        invariant
            i <= rs.len(),
            rs == bundle.records@,
            rs.len() > 0,
            bundle.schema_version@ == SCHEMA_VERSION@,
            first_fault(rs.take(i as int)) is None,
        decreases bundle.records.len() - i,
    {
        assert(rs.take(i + 1).drop_last() == rs.take(i as int));
        assert(rs.take(i + 1).last() == rs[i as int]);
        match record_check(&bundle.records, i) {
            Ok(()) => {},
            Err(f) => {
                proof {
                    assert(first_fault(rs.take(i + 1)) == Some((i as int, f)));
                    lemma_first_fault_prefix(rs, i + 1);
                }
                return Err(IngestError::InvalidRecord { index: i, fault: f });
            },
        }
        i += 1;
    }
    assert(rs.take(rs.len() as int) == rs);
    Ok(())
}

impl IngestRecord {
    pub fn external_key(&self) -> (s: &str)
        ensures
            s@ == rec_key(*self),
    {
        match self {
            IngestRecord::ControlContent { external_key, .. } => external_key.as_str(),
            IngestRecord::SystemFact { external_key, .. } => external_key.as_str(),
            IngestRecord::ProjectFact { external_key, .. } => external_key.as_str(),
            IngestRecord::MatrixAssessment { external_key, .. } => external_key.as_str(),
        }
    }

    pub fn source(&self) -> (s: &SourceCitation)
        ensures
            *s == rec_source(*self),
    {
        match self {
            IngestRecord::ControlContent { source, .. } => source,
            IngestRecord::SystemFact { source, .. } => source,
            IngestRecord::ProjectFact { source, .. } => source,
            IngestRecord::MatrixAssessment { source, .. } => source,
        }
    }

    pub fn confidence(&self) -> (c: IngestConfidence)
        ensures
            c == rec_confidence(*self),
    {
        match self {
            IngestRecord::ControlContent { confidence, .. } => *confidence,
            IngestRecord::SystemFact { confidence, .. } => *confidence,
            IngestRecord::ProjectFact { confidence, .. } => *confidence,
            IngestRecord::MatrixAssessment { confidence, .. } => *confidence,
        }
    }

    /// The target that only this record may write, as text.
    pub fn singleton_target(&self) -> (t: Option<String>)
        ensures
            t matches Some(x) ==> rec_singleton(*self) == Some(x@),
            t is None ==> rec_singleton(*self) is None,
    {
        match self {
            IngestRecord::ControlContent { target, .. } => {
                let mut v = chars_of("control:");
                let id = target.control.to_text();
                crate::text::append_str(&mut v, id.as_str());
                Some(string_of(&v))
            },
            IngestRecord::MatrixAssessment { target, .. } => {
                let mut v = chars_of("matrix:");
                crate::text::append_str(&mut v, target.project.as_str());
                v.push(':');
                let id = target.control.to_text();
                crate::text::append_str(&mut v, id.as_str());
                Some(string_of(&v))
            },
            _ => None,
        }
    }

    /// The label printed for this record in a plan.
    pub fn label(&self) -> (s: String)
        ensures
            s@ == rec_label(*self),
    {
        match self {
            IngestRecord::ControlContent { target, .. } => {
                let mut v = chars_of("control ");
                let id = target.control.to_text();
                crate::text::append_str(&mut v, id.as_str());
                string_of(&v)
            },
            IngestRecord::SystemFact { target, content, .. } => {
                let mut v = chars_of("system ");
                crate::text::append_str(&mut v, target.system.as_str());
                crate::text::append_str(&mut v, " / ");
                crate::text::append_str(&mut v, content.title.as_str());
                string_of(&v)
            },
            IngestRecord::ProjectFact { target, content, .. } => {
                let mut v = chars_of("project ");
                crate::text::append_str(&mut v, target.project.as_str());
                crate::text::append_str(&mut v, " / ");
                crate::text::append_str(&mut v, content.title.as_str());
                string_of(&v)
            },
            IngestRecord::MatrixAssessment { target, .. } => {
                let mut v = chars_of("matrix ");
                crate::text::append_str(&mut v, target.project.as_str());
                crate::text::append_str(&mut v, " / ");
                let id = target.control.to_text();
                crate::text::append_str(&mut v, id.as_str());
                string_of(&v)
            },
        }
    }
}

} // verus!
