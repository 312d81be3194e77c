//! The change plan of a bundle: per record, whether applying it creates,
//! updates or leaves its target unchanged, judged by the provenance that the
//! target already records.

use vstd::prelude::*;

use crate::digest::{sha256_digest, sha256_hex};
use crate::ingest::{
    bundle_check, defines_control, ControlContent, plan_action_text, rec_confidence, rec_key, rec_label, rec_source, validate_bundle,
    IngestBundle, IngestError, IngestRecord, PlanAction, PlanItem, ApplyOptions,
};
use crate::ingest::MatrixTarget;
use crate::model::{IngestConfidence, IngestMetadata};
use crate::project::matrix::{key_pos, Matrix};
use crate::sorted::{insert_sorted, lemma_is_sorted_set, lemma_push_to_set, sorted_set, strictly_sorted};
use crate::text::{append_dec, append_str, dec, hex_of, join, string_of, texts};

verus! {

impl IngestRecord {
    /// The provenance persisted with the target of this record:
    /// `record_json` is the record's JSON serialization, whose SHA-256 tells
    /// a changed record from an unchanged one.
    pub fn metadata(&self, record_json: &[u8]) -> (m: IngestMetadata)
        ensures
            m.external_key@ == rec_key(*self),
            m.record_sha256@ == hex_of(sha256_digest(record_json@)),
            m.source == rec_source(*self),
            m.confidence == rec_confidence(*self),
    {
        IngestMetadata {
            external_key: self.external_key().to_owned(),
            record_sha256: sha256_hex(record_json),
            source: self.source().duplicate(),
            confidence: self.confidence(),
        }
    }
}

/// What applying a record does to a target that recorded `existing`: an
/// import with the same key and digest changes nothing; a target without
/// provenance is created when the record kind creates missing targets.
pub open spec fn action_of(existing: Option<IngestMetadata>, incoming: IngestMetadata, missing_is_create: bool) -> PlanAction {
    match existing {
        Some(m) => if m.external_key@ == incoming.external_key@ && m.record_sha256@ == incoming.record_sha256@ {
            PlanAction::Unchanged
        } else {
            PlanAction::Update
        },
        None => if missing_is_create {
            PlanAction::Create
        } else {
            PlanAction::Update
        },
    }
}

/// The plan action of a record against its target's recorded provenance.
pub fn action_for(existing: Option<&IngestMetadata>, incoming: &IngestMetadata, missing_is_create: bool) -> (a: PlanAction)
    ensures
        a == action_of(match existing { Some(m) => Some(*m), None => None }, *incoming, missing_is_create),
{
    match existing {
        Some(m) => {
            if m.external_key == incoming.external_key && m.record_sha256 == incoming.record_sha256 {
                PlanAction::Unchanged
            } else {
                PlanAction::Update
            }
        },
        None => {
            if missing_is_create {
                PlanAction::Create
            } else {
                PlanAction::Update
            }
        },
    }
}

/// Facts are created when no fact carries their key; controls and matrix
/// cells always exist before an import.
pub open spec fn creates_missing(r: IngestRecord) -> bool {
    r is SystemFact || r is ProjectFact
}

/// A target that was written from a record records that record's provenance;
/// planning the same record again then finds nothing to do.
pub proof fn lemma_applied_record_is_unchanged(m: IngestMetadata, missing_is_create: bool)
    ensures
        action_of(Some(m), m, missing_is_create) == PlanAction::Unchanged,
{
}

/// The plan of a bundle: `absent[i]` tells that the target of record `i`
/// does not exist yet (a fact without an entry under its key, a control that
/// its framework's index does not list), `existing[i]` is the provenance its
/// target records, `metadata[i]` the provenance of record `i`. A missing
/// target is created.
pub open spec fn plan_of(
    records: Seq<IngestRecord>,
    existing: Seq<Option<IngestMetadata>>,
    absent: Seq<bool>,
    metadata: Seq<IngestMetadata>,
) -> Seq<(PlanAction, Seq<char>)> {
    Seq::new(
        records.len(),
        |i: int|
            (
                if absent[i] {
                    PlanAction::Create
                } else {
                    action_of(existing[i], metadata[i], creates_missing(records[i]))
                },
                rec_label(records[i]),
            ),
    )
}

/// Targets that each record the provenance of their own record.
pub open spec fn as_recorded(metadata: Seq<IngestMetadata>) -> Seq<Option<IngestMetadata>> {
    Seq::new(metadata.len(), |k: int| Some(metadata[k]))
}

/// Targets that all exist.
pub open spec fn all_present(n: nat) -> Seq<bool> {
    Seq::new(n, |k: int| false)
}

/// Planning a bundle again after it was applied, when every target exists
/// and records the provenance its record wrote, finds nothing to do for any
/// record.
pub proof fn lemma_replan_after_apply_is_unchanged(records: Seq<IngestRecord>, metadata: Seq<IngestMetadata>)
    requires
        metadata.len() == records.len(),
    ensures
        forall|i: int|
            0 <= i < records.len() ==> (#[trigger] plan_of(
                records,
                as_recorded(metadata),
                all_present(records.len()),
                metadata,
            )[i]).0 == PlanAction::Unchanged,
{
}

/// Checks a bundle and plans every record, writing nothing.
pub fn plan_bundle(
    bundle: &IngestBundle,
    existing: &Vec<Option<IngestMetadata>>,
    absent: &Vec<bool>,
    metadata: &Vec<IngestMetadata>,
) -> (r: Result<Vec<PlanItem>, IngestError>)
    requires
        existing@.len() == bundle.records@.len(),
        absent@.len() == bundle.records@.len(),
        metadata@.len() == bundle.records@.len(),
    ensures
        bundle_check(*bundle) is Err ==> r == Err::<Vec<PlanItem>, IngestError>(bundle_check(*bundle)->Err_0),
        bundle_check(*bundle) is Ok ==> (r matches Ok(plan) && plan@.len() == bundle.records@.len() && forall|i: int|
            0 <= i < plan@.len() ==> ((#[trigger] plan@[i]).action, plan@[i].label@) == plan_of(
                bundle.records@,
                existing@,
                absent@,
                metadata@,
            )[i]),
{
    match validate_bundle(bundle) {
        Err(e) => {
            return Err(e);
        },
        Ok(()) => {},
    }
    let mut plan: Vec<PlanItem> = Vec::new();
    let mut i: usize = 0;
    while i < bundle.records.len()
        invariant
            i <= bundle.records@.len(),
            existing@.len() == bundle.records@.len(),
            absent@.len() == bundle.records@.len(),
            metadata@.len() == bundle.records@.len(),
            plan@.len() == i,
            forall|k: int| 0 <= k < i ==> ((#[trigger] plan@[k]).action, plan@[k].label@) == plan_of(
                bundle.records@,
                existing@,
                absent@,
                metadata@,
            )[k],
        decreases bundle.records.len() - i,
    {
        let record = &bundle.records[i];
        let creates = match record {
            IngestRecord::SystemFact { .. } | IngestRecord::ProjectFact { .. } => true,
            _ => false,
        };
        let stored = match &existing[i] {
            Some(m) => Some(m),
            None => None,
        };
        let action = if absent[i] {
            PlanAction::Create
        } else {
            action_for(stored, &metadata[i], creates)
        };
        plan.push(PlanItem { action, label: record.label() });
        i += 1;
    }
    Ok(plan)
}

/// A control content record may target a control its framework's index does
/// not list only when it names everything the new control needs.
pub fn check_control_target(listed: bool, control: &crate::model::ControlId, content: &ControlContent) -> (r: Result<(), TargetError>)
    ensures
        r is Ok <==> listed || defines_control(*content),
        r matches Err(e) ==> (e matches TargetError::UnknownControl(c) && c@ == control@),
{
    if listed || (content.title.is_some() && content.domain.is_some() && content.category.is_some()) {
        Ok(())
    } else {
        Err(TargetError::UnknownControl(control.duplicate()))
    }
}

/// The labels of the low-confidence records, in bundle order.
pub open spec fn low_labels(records: Seq<IngestRecord>) -> Seq<Seq<char>>
    decreases records.len(),
{
    if records.len() == 0 {
        Seq::empty()
    } else {
        low_labels(records.drop_last()) + if rec_confidence(records.last()) == IngestConfidence::Low {
            seq![rec_label(records.last())]
        } else {
            Seq::empty()
        }
    }
}

/// Low-confidence records that were not confirmed.
#[derive(Debug, Clone)]
pub struct LowConfidence {
    /// How many records have low confidence.
    pub count: usize,
    /// Their labels, joined by `, `.
    pub labels: String,
}

/// Refuses a bundle with low-confidence records unless they are allowed.
pub fn check_confidence(bundle: &IngestBundle, options: ApplyOptions) -> (r: Result<(), LowConfidence>)
    ensures
        r is Ok <==> options.allow_low_confidence || low_labels(bundle.records@).len() == 0,
        r matches Err(e) ==> e.count == low_labels(bundle.records@).len() && e.labels@ == join(
            low_labels(bundle.records@),
            ", "@,
        ),
{
    if options.allow_low_confidence {
        return Ok(());
    }
    let rs = &bundle.records;
    let mut labels: Vec<String> = Vec::new();
    let mut i: usize = 0;
    while i < rs.len()
        invariant
            i <= rs@.len(),
            texts(labels@) == low_labels(rs@.take(i as int)),
            labels@.len() <= i,
        decreases rs.len() - i,
    {
        assert(rs@.take(i + 1).drop_last() == rs@.take(i as int));
        assert(rs@.take(i + 1).last() == rs@[i as int]);
        match rs[i].confidence() {
            IngestConfidence::Low => {
                let l = rs[i].label();
                labels.push(l);
                assert(texts(labels@) =~= low_labels(rs@.take(i + 1)));
            },
            _ => {},
        }
        i += 1;
    }
    assert(rs@.take(rs@.len() as int) == rs@);
    if labels.len() == 0 {
        return Ok(());
    }
    let mut v: Vec<char> = Vec::new();
    crate::text::append_joined(&mut v, &labels, ", ");
    Err(LowConfidence { count: labels.len(), labels: string_of(&v) })
}

/// The frameworks of the control records that the plan changes.
pub open spec fn changed_framework_list(records: Seq<IngestRecord>, actions: Seq<PlanAction>) -> Seq<Seq<char>>
    decreases records.len(),
{
    if records.len() == 0 {
        Seq::empty()
    } else {
        let i = records.len() - 1;
        changed_framework_list(records.drop_last(), actions) + match records[i] {
            IngestRecord::ControlContent { target, .. } => if actions[i] != PlanAction::Unchanged {
                seq![target.control.framework.0@]
            } else {
                Seq::empty()
            },
            _ => Seq::empty(),
        }
    }
}

/// The actions of a plan.
pub open spec fn plan_actions(plan: Seq<PlanItem>) -> Seq<PlanAction> {
    Seq::new(plan.len(), |i: int| plan[i].action)
}

/// The frameworks whose index must be rebuilt after applying a plan, each
/// once, in string order.
pub fn changed_frameworks(bundle: &IngestBundle, plan: &Vec<PlanItem>) -> (fs: Vec<String>)
    requires
        plan@.len() == bundle.records@.len(),
    ensures
        texts(fs@) == sorted_set(changed_framework_list(bundle.records@, plan_actions(plan@))),
{
    let rs = &bundle.records;
    let ghost acts = plan_actions(plan@);
    let mut fs: Vec<String> = Vec::new();
    let mut i: usize = 0;
    while i < rs.len()
        invariant
            i <= rs@.len(),
            plan@.len() == rs@.len(),
            acts == plan_actions(plan@),
            strictly_sorted(texts(fs@)),
            texts(fs@).to_set() == changed_framework_list(rs@.take(i as int), acts).to_set(),
        decreases rs.len() - i,
    {
        let ghost pre = rs@.take(i as int);
        let ghost cur = rs@.take(i + 1);
        assert(cur.drop_last() == pre);
        assert(cur[i as int] == rs@[i as int]);
        assert(acts[i as int] == plan@[i as int].action);
        match &rs[i] {
            IngestRecord::ControlContent { target, .. } => {
                let unchanged = match plan[i].action {
                    PlanAction::Unchanged => true,
                    _ => false,
                };
                if !unchanged {
                    insert_sorted(&mut fs, target.control.framework.0.as_str());
                    proof {
                        lemma_push_to_set(changed_framework_list(pre, acts), target.control.framework.0@);
                        assert(changed_framework_list(cur, acts) == changed_framework_list(pre, acts).push(target.control.framework.0@));
                    }
                } else {
                    assert(changed_framework_list(cur, acts) == changed_framework_list(pre, acts));
                }
            },
            _ => {
                assert(changed_framework_list(cur, acts) == changed_framework_list(pre, acts));
            },
        }
        i += 1;
    }
    assert(rs@.take(rs@.len() as int) == rs@);
    proof {
        lemma_is_sorted_set(texts(fs@), changed_framework_list(rs@, acts));
    }
    fs
}

/// The plan as printed: one `action  label` line per record, then the totals.
pub open spec fn plan_lines(plan: Seq<PlanItem>) -> Seq<char>
    decreases plan.len(),
{
    if plan.len() == 0 {
        Seq::empty()
    } else {
        plan_lines(plan.drop_last()) + plan_action_text(plan.last().action) + "  "@ + plan.last().label@ + "\n"@
    }
}

/// How many plan items have the given action.
pub open spec fn action_count(plan: Seq<PlanItem>, a: PlanAction) -> nat
    decreases plan.len(),
{
    if plan.len() == 0 {
        0
    } else {
        action_count(plan.drop_last(), a) + if plan.last().action == a {
            1nat
        } else {
            0nat
        }
    }
}

pub open spec fn plan_text(plan: Seq<PlanItem>) -> Seq<char> {
    plan_lines(plan) + "\n"@ + dec(action_count(plan, PlanAction::Create)) + " create, "@ + dec(
        action_count(plan, PlanAction::Update),
    ) + " update, "@ + dec(action_count(plan, PlanAction::Unchanged)) + " unchanged\n"@
}

/// The text printed for a plan.
pub fn render_plan(plan: &Vec<PlanItem>) -> (s: String)
    ensures
        s@ == plan_text(plan@),
{
    let mut v: Vec<char> = Vec::new();
    let mut c: usize = 0;
    let mut u: usize = 0;
    let mut n: usize = 0;
    let mut i: usize = 0;
    while i < plan.len()
        invariant
            i <= plan@.len(),
            v@ == plan_lines(plan@.take(i as int)),
            c == action_count(plan@.take(i as int), PlanAction::Create),
            u == action_count(plan@.take(i as int), PlanAction::Update),
            n == action_count(plan@.take(i as int), PlanAction::Unchanged),
            c + u + n == i,
        decreases plan.len() - i,
    {
        assert(plan@.take(i + 1).drop_last() == plan@.take(i as int));
        assert(plan@.take(i + 1).last() == plan@[i as int]);
        let item = &plan[i];
        append_str(&mut v, item.action.as_str());
        append_str(&mut v, "  ");
        append_str(&mut v, item.label.as_str());
        append_str(&mut v, "\n");
        match item.action {
            PlanAction::Create => c += 1,
            PlanAction::Update => u += 1,
            PlanAction::Unchanged => n += 1,
        }
        i += 1;
    }
    assert(plan@.take(plan@.len() as int) == plan@);
    append_str(&mut v, "\n");
    append_dec(&mut v, c);
    append_str(&mut v, " create, ");
    append_dec(&mut v, u);
    append_str(&mut v, " update, ");
    append_dec(&mut v, n);
    append_str(&mut v, " unchanged\n");
    string_of(&v)
}

/// Why a record's target refuses it.
#[derive(Debug, Clone)]
pub enum TargetError {
    /// The bundle names another project than the current one.
    WrongProject { expected: String, actual: String },
    /// The control belongs to another framework than the project's.
    WrongFramework { control: crate::model::ControlId, framework: String },
    /// The control has no row in the project matrix.
    NotInMatrix(crate::model::ControlId),
    /// The control is not in its framework's index and the record does not
    /// name its title, domain and category.
    UnknownControl(crate::model::ControlId),
}

/// A record may only write into the project it names.
pub fn check_project(expected: &str, actual: &str) -> (r: Result<(), TargetError>)
    ensures
        r is Ok <==> expected@ == actual@,
        r matches Err(TargetError::WrongProject { expected: e, actual: a }) ==> e@ == expected@ && a@ == actual@,
        r is Err ==> r matches Err(TargetError::WrongProject { .. }),
{
    if crate::text::str_eq(expected, actual) {
        Ok(())
    } else {
        Err(TargetError::WrongProject { expected: crate::text::owned(expected), actual: crate::text::owned(actual) })
    }
}

/// The plan action of an assessment: its control must be of the project's
/// framework and have a matrix row; the row's recorded provenance decides.
pub fn plan_matrix_assessment(matrix: &Matrix, project_framework: &str, target: &MatrixTarget, metadata: &IngestMetadata) -> (r: Result<PlanAction, TargetError>)
    ensures
        target.control.framework.0@ != project_framework@ ==> (r matches Err(TargetError::WrongFramework { control, framework })
            && control@ == target.control@ && framework@ == project_framework@),
        target.control.framework.0@ == project_framework@ && key_pos(matrix.keys(), target.control@) < 0 ==> (r matches Err(
            TargetError::NotInMatrix(c),
        ) && c@ == target.control@),
        target.control.framework.0@ == project_framework@ && key_pos(matrix.keys(), target.control@) >= 0 ==> r
            == Ok::<PlanAction, TargetError>(action_of(
            matrix.entries@[key_pos(matrix.keys(), target.control@)].1.ingest,
            *metadata,
            false,
        )),
{
    if !crate::text::str_eq(target.control.framework.as_str(), project_framework) {
        return Err(TargetError::WrongFramework { control: target.control.duplicate(), framework: crate::text::owned(project_framework) });
    }
    match matrix.position(&target.control) {
        None => Err(TargetError::NotInMatrix(target.control.duplicate())),
        Some(i) => {
            let stored = match &matrix.entries[i].1.ingest {
                Some(m) => Some(m),
                None => None,
            };
            Ok(action_for(stored, metadata, false))
        },
    }
}

} // verus!
