use complai::compliance::control::{ControlFrontmatter, ExcerptStatus};
use complai::ingest::apply::{apply_control_content, apply_matrix_assessment, new_control};
use complai::ingest::plan::plan_matrix_assessment;
use complai::ingest::{ControlContent, MatrixAssessmentContent, MatrixTarget, PlanAction};
use complai::kb::ingest::apply_note;
use complai::model::{ControlId, ControlStatus, Date, Domain, Framework, IngestConfidence, IngestMetadata, SourceCitation};
use complai::project::matrix::{read_entry, Matrix, MatrixEntry, MatrixError, Scope};

fn today() -> Date {
    Date { year: 2024, month: 5, day: 1 }
}

fn control() -> ControlFrontmatter {
    ControlFrontmatter {
        id: ControlId::new("dengbao-2.0", "8.1.4.1"),
        framework: Framework::dengbao_2_0(),
        domain: Domain::technical(),
        category: "安全计算环境".to_string(),
        control_id: "8.1.4.1".to_string(),
        title: "身份鉴别".to_string(),
        levels: vec![3],
        tags: vec![],
        mappings: vec![],
        expected_evidence: vec!["old".to_string()],
        excerpt_status: ExcerptStatus::Empty,
        last_reviewed: None,
        ingest: None,
    }
}

fn meta(key: &str) -> IngestMetadata {
    IngestMetadata {
        external_key: key.to_string(),
        record_sha256: "d".to_string(),
        source: SourceCitation {
            kind: "pdf".to_string(),
            title: "规范".to_string(),
            reference: "standard.pdf".to_string(),
            locator: "p.42".to_string(),
            sha256: None,
            document_date: None,
        },
        confidence: IngestConfidence::High,
    }
}

#[test]
fn imported_control_content_replaces_the_body() {
    let mut fm = control();
    let content = ControlContent {
        requirement_summary: Some(" 对登录用户进行身份鉴别 ".to_string()),
        implementation_guidance: None,
        common_deficiencies: Some("弱口令".to_string()),
        expected_evidence: Some(vec!["配置截图".to_string()]),
        completeness: ExcerptStatus::Partial,
        title: None,
        domain: None,
        category: None,
        levels: None,
    };
    let body = apply_control_content(&mut fm, &content, meta("standard:8.1.4.1"), today());
    assert_eq!(body, "# 身份鉴别\n\n## 要求摘要\n\n对登录用户进行身份鉴别\n\n## 常见缺陷\n\n弱口令\n");
    assert_eq!(fm.excerpt_status, ExcerptStatus::Partial);
    assert_eq!(fm.last_reviewed, Some(today()));
    assert_eq!(fm.expected_evidence, vec!["配置截图".to_string()]);
    assert_eq!(fm.ingest.as_ref().unwrap().external_key, "standard:8.1.4.1");
}

#[test]
fn note_blocks_become_partial_excerpts() {
    let mut fm = control();
    let body = apply_note(&mut fm, "身份鉴别", "\n## 要求摘要\n鉴别身份\n\n", today());
    assert_eq!(body, "# 身份鉴别\n\n## 要求摘要\n鉴别身份\n");
    assert_eq!(fm.excerpt_status, ExcerptStatus::Partial);
    assert_eq!(fm.last_reviewed, Some(today()));
}

fn matrix() -> Matrix {
    let mut m = Matrix::new(Framework::dengbao_2_0(), Some(3), Scope { systems: vec![], boundary_ref: None });
    let mut e = MatrixEntry::empty();
    e.owner = "李四".to_string();
    e.evidence = vec!["EV-0001".to_string()];
    m.insert(ControlId::new("dengbao-2.0", "8.1.4.1"), e);
    m
}

#[test]
fn imported_assessment_updates_one_row() {
    let mut m = matrix();
    let target = MatrixTarget { project: "p".to_string(), control: ControlId::new("dengbao-2.0", "8.1.4.1") };
    let content = MatrixAssessmentContent {
        status: ControlStatus::Gap,
        gap: Some("未启用多因素".to_string()),
        remediation: None,
        owner: None,
    };
    assert_eq!(plan_matrix_assessment(&m, "dengbao-2.0", &target, &meta("a")).unwrap(), PlanAction::Update);
    apply_matrix_assessment(&mut m, &target, &content, meta("a"), today()).unwrap();
    let e = &m.entries[0].1;
    assert_eq!(e.status, ControlStatus::Gap);
    assert_eq!(e.gap, "未启用多因素");
    assert_eq!(e.owner, "李四");
    assert_eq!(e.evidence, vec!["EV-0001".to_string()]);
    assert_eq!(plan_matrix_assessment(&m, "dengbao-2.0", &target, &meta("a")).unwrap(), PlanAction::Unchanged);
    assert!(plan_matrix_assessment(&m, "iso", &target, &meta("a")).is_err());
    let missing = MatrixTarget { project: "p".to_string(), control: ControlId::new("dengbao-2.0", "9.9") };
    assert!(plan_matrix_assessment(&m, "dengbao-2.0", &missing, &meta("a")).is_err());
    assert!(matches!(
        apply_matrix_assessment(&mut m, &missing, &content, meta("a"), today()),
        Err(MatrixError::NotInMatrix(_))
    ));
}

#[test]
fn imported_controls_of_new_frameworks_get_safe_paths() {
    let content = ControlContent {
        requirement_summary: Some("Define and review policies.".to_string()),
        implementation_guidance: None,
        common_deficiencies: None,
        expected_evidence: Some(vec!["Approved information security policy".to_string()]),
        completeness: ExcerptStatus::Partial,
        title: Some("Policies for information security".to_string()),
        domain: Some("Organizational".to_string()),
        category: Some("policies".to_string()),
        levels: Some(vec![2]),
    };
    let id = ControlId::new("iso27001-2022", "A.5.1");
    let c = new_control(&id, &content, meta("iso27001:2022:A.5.1"), today());
    assert_eq!(c.relative_path, "Organizational/policies/A.5.1.md");
    assert_eq!(c.frontmatter.id, id);
    assert_eq!(c.frontmatter.domain.as_str(), "Organizational");
    assert_eq!(c.frontmatter.title, "Policies for information security");
    assert_eq!(c.frontmatter.levels, vec![2]);
    assert_eq!(c.frontmatter.excerpt_status, ExcerptStatus::Partial);
    assert_eq!(c.body, "# Policies for information security\n\n## 要求摘要\n\nDefine and review policies.\n");
    let spaced = ControlContent { domain: Some("Organizational controls".to_string()), ..content };
    let d = new_control(&id, &spaced, meta("k"), today());
    assert!(d.relative_path.starts_with("Organizational_controls-"));
    assert!(d.relative_path.ends_with("/policies/A.5.1.md"));
}

#[test]
fn legacy_na_without_reason_reads_as_unassessed() {
    let mut legacy = MatrixEntry::empty();
    legacy.status = ControlStatus::Na;
    assert_eq!(read_entry(legacy).status, ControlStatus::Unassessed);
    let mut real = MatrixEntry::empty();
    real.status = ControlStatus::Na;
    real.gap = "系统不涉及无线网络".to_string();
    assert_eq!(read_entry(real).status, ControlStatus::Na);
    let mut spaced = MatrixEntry::empty();
    spaced.status = ControlStatus::Na;
    spaced.gap = "  ".to_string();
    assert_eq!(read_entry(spaced).status, ControlStatus::Na);
}
