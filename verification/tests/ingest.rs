use complai::compliance::control::ExcerptStatus;
use complai::ingest::plan::{
    changed_frameworks, check_confidence, check_control_target, check_project, plan_bundle, render_plan, TargetError,
};
use complai::ingest::{
    validate_bundle, ApplyOptions, ControlContent, ControlTarget, IngestBundle, IngestError,
    IngestRecord, PlanAction, PlanItem, RecordFault, SystemFactContent, SystemTarget,
};
use complai::model::{ControlId, IngestConfidence, IngestMetadata, SourceCitation};

fn source(reference: &str, locator: &str) -> SourceCitation {
    SourceCitation {
        kind: "pdf".to_string(),
        title: "报告".to_string(),
        reference: reference.to_string(),
        locator: locator.to_string(),
        sha256: None,
        document_date: None,
    }
}

fn new_control_record(key: &str, control: &str) -> IngestRecord {
    IngestRecord::ControlContent {
        external_key: key.to_string(),
        source: source("iso27001-notes.pdf", "A.5.1"),
        confidence: IngestConfidence::High,
        target: ControlTarget { control: ControlId::parse(control).unwrap() },
        content: ControlContent {
            requirement_summary: Some("Define and review policies.".to_string()),
            implementation_guidance: None,
            common_deficiencies: None,
            expected_evidence: Some(vec!["Approved information security policy".to_string()]),
            completeness: ExcerptStatus::Partial,
            title: Some("Policies for information security".to_string()),
            domain: Some("Organizational controls".to_string()),
            category: Some("Information security policies".to_string()),
            levels: None,
        },
    }
}

fn system_fact(key: &str, domain: &str, title: &str, body: &str, confidence: IngestConfidence) -> IngestRecord {
    IngestRecord::SystemFact {
        external_key: key.to_string(),
        source: source("a.pdf", "p.1"),
        confidence,
        target: SystemTarget { system: "s1".to_string() },
        content: SystemFactContent {
            domain: domain.to_string(),
            title: title.to_string(),
            body: body.to_string(),
            tags: vec![],
            related_controls: vec![],
        },
    }
}

fn control_record(key: &str, control: &str, summary: Option<&str>, completeness: ExcerptStatus) -> IngestRecord {
    IngestRecord::ControlContent {
        external_key: key.to_string(),
        source: source("standard.pdf", "p.1"),
        confidence: IngestConfidence::High,
        target: ControlTarget { control: ControlId::parse(control).unwrap() },
        content: ControlContent {
            requirement_summary: summary.map(|s| s.to_string()),
            implementation_guidance: None,
            common_deficiencies: None,
            expected_evidence: None,
            completeness,
            title: None,
            domain: None,
            category: None,
            levels: None,
        },
    }
}

fn bundle(records: Vec<IngestRecord>) -> IngestBundle {
    IngestBundle { schema_version: "complai.ingest/v1".to_string(), records }
}

fn meta(key: &str, digest: &str) -> IngestMetadata {
    IngestMetadata {
        external_key: key.to_string(),
        record_sha256: digest.to_string(),
        source: source("a.pdf", "p.1"),
        confidence: IngestConfidence::High,
    }
}

#[test]
fn rejects_duplicate_external_keys() {
    let b = bundle(vec![
        system_fact("same", "架构", "拓扑", "三层架构", IngestConfidence::High),
        system_fact("same", "部署", "区域", "两个区域", IngestConfidence::High),
    ]);
    assert!(validate_bundle(&b).is_err());
}

#[test]
fn duplicate_key_is_reported_at_the_second_record() {
    let b = bundle(vec![
        system_fact("same", "架构", "拓扑", "三层架构", IngestConfidence::High),
        system_fact("same", "部署", "区域", "两个区域", IngestConfidence::High),
    ]);
    assert_eq!(
        validate_bundle(&b),
        Err(IngestError::InvalidRecord { index: 1, fault: RecordFault::DuplicateExternalKey })
    );
}

#[test]
fn complete_control_requires_all_sections() {
    let b = bundle(vec![control_record(
        "control-1",
        "dengbao-2.0:8.1.4.1",
        Some("身份鉴别"),
        ExcerptStatus::Complete,
    )]);
    assert!(validate_bundle(&b).is_err());
}

#[test]
fn bundle_level_errors() {
    let mut b = bundle(vec![]);
    assert_eq!(validate_bundle(&b), Err(IngestError::EmptyRecords));
    b.schema_version = "complai.ingest/v2".to_string();
    assert_eq!(validate_bundle(&b), Err(IngestError::SchemaVersion));
}

#[test]
fn partial_control_with_one_section_is_valid() {
    let b = bundle(vec![control_record("c", "dengbao-2.0:8.1.4.1", Some("身份鉴别"), ExcerptStatus::Partial)]);
    assert_eq!(validate_bundle(&b), Ok(()));
    let empty = bundle(vec![control_record("c", "dengbao-2.0:8.1.4.1", None, ExcerptStatus::Partial)]);
    assert_eq!(
        validate_bundle(&empty),
        Err(IngestError::InvalidRecord { index: 0, fault: RecordFault::NoSections })
    );
}

#[test]
fn plan_marks_create_update_and_unchanged() {
    let b = bundle(vec![
        system_fact("k1", "架构", "拓扑", "三层架构", IngestConfidence::High),
        system_fact("k2", "部署", "区域", "两个区域", IngestConfidence::High),
        control_record("c", "dengbao-2.0:8.1.4.1", Some("身份鉴别"), ExcerptStatus::Partial),
    ]);
    let existing = vec![None, Some(meta("k2", "old")), Some(meta("c", "same"))];
    let incoming = vec![meta("k1", "d1"), meta("k2", "new"), meta("c", "same")];
    let plan = plan_bundle(&b, &existing, &vec![false, false, false], &incoming).unwrap();
    let actions: Vec<PlanAction> = plan.iter().map(|p| p.action).collect();
    assert_eq!(actions, vec![PlanAction::Create, PlanAction::Update, PlanAction::Unchanged]);
    assert_eq!(plan[0].label, "system s1 / 拓扑");
    assert_eq!(plan[2].label, "control dengbao-2.0:8.1.4.1");
    assert_eq!(
        render_plan(&plan),
        "create  system s1 / 拓扑\nupdate  system s1 / 区域\nunchanged  control dengbao-2.0:8.1.4.1\n\n1 create, 1 update, 1 unchanged\n"
    );
    assert!(changed_frameworks(&b, &plan).is_empty());
}

#[test]
fn replanning_an_applied_bundle_changes_nothing() {
    let b = bundle(vec![system_fact("k1", "架构", "拓扑", "三层架构", IngestConfidence::High)]);
    let m = meta("k1", "d1");
    let plan = plan_bundle(&b, &vec![Some(m.clone())], &vec![false], &vec![m]).unwrap();
    assert_eq!(plan[0].action, PlanAction::Unchanged);
}

#[test]
fn controls_without_provenance_are_updated_not_created() {
    let b = bundle(vec![control_record("c", "iso:A.5", Some("x"), ExcerptStatus::Partial)]);
    let plan = plan_bundle(&b, &vec![None], &vec![false], &vec![meta("c", "d")]).unwrap();
    assert_eq!(plan[0].action, PlanAction::Update);
    assert_eq!(changed_frameworks(&b, &plan), vec!["iso".to_string()]);
}

#[test]
fn changed_frameworks_are_sorted_and_unique() {
    let b = bundle(vec![
        control_record("c1", "z:1", Some("x"), ExcerptStatus::Partial),
        control_record("c2", "a:1", Some("x"), ExcerptStatus::Partial),
        control_record("c3", "z:2", Some("x"), ExcerptStatus::Partial),
    ]);
    let plan = vec![
        PlanItem { action: PlanAction::Update, label: String::new() },
        PlanItem { action: PlanAction::Create, label: String::new() },
        PlanItem { action: PlanAction::Update, label: String::new() },
    ];
    assert_eq!(changed_frameworks(&b, &plan), vec!["a".to_string(), "z".to_string()]);
}

#[test]
fn low_confidence_needs_confirmation() {
    let b = bundle(vec![
        system_fact("k1", "架构", "拓扑", "三层架构", IngestConfidence::Low),
        system_fact("k2", "部署", "区域", "两个区域", IngestConfidence::High),
        system_fact("k3", "部署", "机房", "一个机房", IngestConfidence::Low),
    ]);
    let err = check_confidence(&b, ApplyOptions { allow_low_confidence: false }).unwrap_err();
    assert_eq!(err.count, 2);
    assert_eq!(err.labels, "system s1 / 拓扑, system s1 / 机房");
    assert!(check_confidence(&b, ApplyOptions { allow_low_confidence: true }).is_ok());
}

#[test]
fn records_write_only_into_their_project() {
    assert!(check_project("p1", "p1").is_ok());
    assert!(check_project("p1", "p2").is_err());
}

#[test]
fn record_metadata_digests_the_record_json() {
    let r = system_fact("k1", "架构", "拓扑", "三层架构", IngestConfidence::Medium);
    let m = r.metadata(br#"{"kind":"x"}"#);
    assert_eq!(m.external_key, "k1");
    assert_eq!(m.record_sha256, "d8954039f5400e6446be22f214ca42837da7f194dc6262234c659c7cdd6ff891");
    assert_eq!(m.confidence, IngestConfidence::Medium);
}

#[test]
fn controls_missing_from_the_index_are_created_when_defined() {
    let b = bundle(vec![new_control_record("iso27001:2022:A.5.1", "iso27001-2022:A.5.1")]);
    assert_eq!(validate_bundle(&b), Ok(()));
    let plan = plan_bundle(&b, &vec![None], &vec![true], &vec![meta("iso27001:2022:A.5.1", "d")]).unwrap();
    assert_eq!(plan[0].action, PlanAction::Create);
    assert_eq!(changed_frameworks(&b, &plan), vec!["iso27001-2022".to_string()]);
    let id = ControlId::parse("iso27001-2022:A.5.1").unwrap();
    match &b.records[0] {
        IngestRecord::ControlContent { content, .. } => {
            assert!(check_control_target(false, &id, content).is_ok());
            assert!(check_control_target(true, &id, content).is_ok());
        }
        _ => unreachable!(),
    }
    let undefined = control_record("c", "iso27001-2022:A.5.2", Some("x"), ExcerptStatus::Partial);
    match &undefined {
        IngestRecord::ControlContent { target, content, .. } => {
            assert!(matches!(
                check_control_target(false, &target.control, content),
                Err(TargetError::UnknownControl(c)) if c.to_text() == "iso27001-2022:A.5.2"
            ));
        }
        _ => unreachable!(),
    }
}

#[test]
fn blank_control_definitions_are_refused() {
    let mut r = new_control_record("k", "iso:A.1");
    if let IngestRecord::ControlContent { content, .. } = &mut r {
        content.category = Some(" ".to_string());
    }
    assert_eq!(
        validate_bundle(&bundle(vec![r])),
        Err(IngestError::InvalidRecord { index: 0, fault: RecordFault::Blank(complai::ingest::Field::Category) })
    );
}

fn assessment(status: complai::model::ControlStatus, gap: Option<&str>) -> complai::ingest::MatrixAssessmentContent {
    complai::ingest::MatrixAssessmentContent { status, gap: gap.map(|g| g.to_string()), remediation: None, owner: None }
}

#[test]
fn assessments_explain_partial_gap_and_na_and_only_those() {
    for s in [complai::model::ControlStatus::Partial, complai::model::ControlStatus::Gap, complai::model::ControlStatus::Na] {
        assert_eq!(complai::ingest::validate_matrix_assessment(&assessment(s, None)), Err(RecordFault::MissingGap));
        assert_eq!(complai::ingest::validate_matrix_assessment(&assessment(s, Some("理由"))), Ok(()));
    }
    for s in [complai::model::ControlStatus::Unassessed, complai::model::ControlStatus::Met] {
        assert_eq!(complai::ingest::validate_matrix_assessment(&assessment(s, Some("理由"))), Err(RecordFault::UnexpectedGap));
        assert_eq!(complai::ingest::validate_matrix_assessment(&assessment(s, None)), Ok(()));
    }
}
