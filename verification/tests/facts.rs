use complai::ingest::apply::{fact_source_type, position_by_key, upsert_project_fact, upsert_system_fact};
use complai::ingest::{ProjectFactContent, SystemFactContent};
use complai::model::{ControlId, Date, Framework, IngestConfidence, IngestMetadata, ProjectFactKind, SourceCitation};
use complai::project::fact::{self as pfact, LinkOutcome, ProjectFactError, ProjectFactIndex};
use complai::project::matrix::{Matrix, MatrixEntry, Scope};
use complai::system::fact::{
    create_fact, find, link_control, next_fact_id, Confidence, FactDraft, FactError, FactIndex, FactSourceType,
    FactStatus,
};

fn today() -> Date {
    Date { year: 2024, month: 5, day: 1 }
}

fn draft(kind: &str, control: Option<&str>) -> FactDraft {
    FactDraft {
        domain: "architecture".to_string(),
        title: "微服务拓扑".to_string(),
        body: "三个微服务".to_string(),
        control: control.map(|c| c.to_string()),
        kind: kind.to_string(),
        reference: None,
    }
}

fn meta(key: &str, digest: &str, kind: &str) -> IngestMetadata {
    IngestMetadata {
        external_key: key.to_string(),
        record_sha256: digest.to_string(),
        source: SourceCitation {
            kind: kind.to_string(),
            title: "报告".to_string(),
            reference: "a.pdf".to_string(),
            locator: "p.12".to_string(),
            sha256: None,
            document_date: None,
        },
        confidence: IngestConfidence::High,
    }
}

#[test]
fn create_fact_numbers_and_relates() {
    let mut index = FactIndex { display_name: Some("订单平台".to_string()), facts: vec![] };
    let f = create_fact(&mut index, &draft("user", Some("dengbao-2.0:8.1.2")), today()).unwrap();
    assert_eq!(f.id, "SYS-F-0001");
    assert_eq!(f.relative_path, "architecture/SYS-F-0001.md");
    assert_eq!(f.body, "# 微服务拓扑\n\n三个微服务\n");
    assert_eq!(f.frontmatter.source.kind, FactSourceType::User);
    assert_eq!(f.frontmatter.source.reference, "manual");
    assert_eq!(f.frontmatter.confidence, Confidence::Medium);
    assert_eq!(f.frontmatter.status, FactStatus::Current);
    assert_eq!(f.frontmatter.related_controls, vec![ControlId::new("dengbao-2.0", "8.1.2")]);
    assert_eq!(next_fact_id(&index), "SYS-F-0002");
    assert!(matches!(
        create_fact(&mut index, &draft("email", None), today()),
        Err(FactError::UnknownSourceType(k)) if k == "email"
    ));
    assert!(matches!(create_fact(&mut index, &draft("doc", Some("bad")), today()), Err(FactError::BadControl(_))));
    assert_eq!(index.facts.len(), 1);
}

#[test]
fn system_fact_links_once_and_is_found() {
    let mut index = FactIndex { display_name: None, facts: vec![] };
    create_fact(&mut index, &draft("doc", None), today()).unwrap();
    let c = ControlId::new("dengbao-2.0", "8.1.4.1");
    assert_eq!(link_control(&mut index, "SYS-F-0001", &c).unwrap(), 0);
    link_control(&mut index, "SYS-F-0001", &c).unwrap();
    assert_eq!(index.facts[0].related_controls, vec![c.clone()]);
    assert!(matches!(link_control(&mut index, "SYS-F-0009", &c), Err(FactError::NotFound(_))));
    let text = find(&index, &c, "order-platform");
    assert!(text.contains("SYS-F-0001"));
    assert!(text.ends_with("1 facts in system `order-platform` related to dengbao-2.0:8.1.4.1"));
}

#[test]
fn fact_source_type_reads_citation_kinds() {
    assert_eq!(fact_source_type("Interview notes"), FactSourceType::Interview);
    assert_eq!(fact_source_type("访谈记录"), FactSourceType::Interview);
    assert_eq!(fact_source_type("OCR"), FactSourceType::Scan);
    assert_eq!(fact_source_type("User"), FactSourceType::User);
    assert_eq!(fact_source_type("pdf"), FactSourceType::Doc);
}

fn system_content(title: &str) -> SystemFactContent {
    SystemFactContent {
        domain: "architecture".to_string(),
        title: title.to_string(),
        body: "  三层架构  ".to_string(),
        tags: vec![],
        related_controls: vec![],
    }
}

#[test]
fn upsert_system_fact_is_idempotent_by_key() {
    let mut index = FactIndex { display_name: None, facts: vec![] };
    let w = upsert_system_fact(&mut index, &system_content("拓扑"), meta("k1", "d1", "pdf"), today());
    assert_eq!(w.frontmatter.id, "SYS-F-0001");
    assert_eq!(w.relative_path, "architecture/SYS-F-0001.md");
    assert_eq!(w.body, "# 拓扑\n\n三层架构\n");
    assert_eq!(w.previous_path, None);
    assert_eq!(w.frontmatter.source.reference, "a.pdf#p.12");
    assert_eq!(w.frontmatter.confidence, Confidence::High);
    let again = upsert_system_fact(&mut index, &system_content("拓扑 v2"), meta("k1", "d2", "pdf"), today());
    assert_eq!(again.frontmatter.id, "SYS-F-0001");
    assert_eq!(again.previous_path, Some("architecture/SYS-F-0001.md".to_string()));
    assert_eq!(index.facts.len(), 1);
    assert_eq!(index.facts[0].title, "拓扑 v2");
    assert_eq!(position_by_key(&index.facts, "k1"), Some(0));
    assert_eq!(position_by_key(&index.facts, "k2"), None);
    upsert_system_fact(&mut index, &system_content("区域"), meta("k2", "d3", "scan"), today());
    assert_eq!(index.facts[1].id, "SYS-F-0002");
}

fn matrix() -> Matrix {
    let mut m = Matrix::new(Framework::dengbao_2_0(), Some(3), Scope { systems: vec![], boundary_ref: None });
    m.insert(ControlId::new("dengbao-2.0", "8.1.4.1"), MatrixEntry::empty());
    m
}

#[test]
fn project_fact_add_and_link() {
    let mut index = ProjectFactIndex { facts: vec![] };
    let m = matrix();
    let f = pfact::add(&mut index, &m, "整改", "payment-service 接入 MFA", Some("dengbao-2.0:8.1.4.1"), "计划 Q3 完成。", today())
        .unwrap();
    assert_eq!(f.id, "PROJ-F-0001");
    assert_eq!(f.relative_path, "整改/PROJ-F-0001.md");
    assert_eq!(f.frontmatter.kind, ProjectFactKind::Remediation);
    assert!(matches!(
        pfact::add(&mut index, &m, "其他", "x", None, "y", today()),
        Err(ProjectFactError::Kind(_))
    ));
    assert!(matches!(
        pfact::add(&mut index, &m, "备注", "x", Some("dengbao-2.0:9.9"), "y", today()),
        Err(ProjectFactError::NotInMatrix(_))
    ));
    let g = pfact::add(&mut index, &m, "备注", "x", None, "y", today()).unwrap();
    let mut fm = g.frontmatter.clone();
    let c = ControlId::new("dengbao-2.0", "8.1.4.1");
    assert_eq!(pfact::link_control(&mut index, &mut fm, 1, &c).unwrap(), LinkOutcome::Linked);
    assert_eq!(pfact::link_control(&mut index, &mut fm, 1, &c).unwrap(), LinkOutcome::AlreadyLinked);
    let other = ControlId::new("dengbao-2.0", "8.1.2");
    assert!(matches!(
        pfact::link_control(&mut index, &mut fm, 1, &other),
        Err(ProjectFactError::AlreadyBound { .. })
    ));
    assert_eq!(pfact::find_fact(&index, "PROJ-F-0002"), Some(1));
    assert!(pfact::find(&index, &c).ends_with("2 project facts related to dengbao-2.0:8.1.4.1"));
}

#[test]
fn upsert_project_fact_replaces_by_key() {
    let mut index = ProjectFactIndex { facts: vec![] };
    let content = ProjectFactContent {
        kind: ProjectFactKind::Finding,
        title: "弱口令".to_string(),
        body: "发现弱口令".to_string(),
        tags: vec![],
        control: None,
    };
    let w = upsert_project_fact(&mut index, &content, meta("p1", "d1", "pdf"), today());
    assert_eq!(w.frontmatter.id, "PROJ-F-0001");
    let w2 = upsert_project_fact(&mut index, &content, meta("p1", "d2", "pdf"), today());
    assert_eq!(w2.frontmatter.id, "PROJ-F-0001");
    assert_eq!(index.facts.len(), 1);
}

#[test]
fn fact_files_stay_inside_the_system_directory() {
    let mut index = FactIndex { display_name: None, facts: vec![] };
    let mut d = draft("user", None);
    d.domain = "../../escape".to_string();
    let f = create_fact(&mut index, &d, today()).unwrap();
    assert!(!f.relative_path.starts_with('.'));
    assert_eq!(f.relative_path.matches('/').count(), 1);
    assert!(f.relative_path.ends_with("/SYS-F-0001.md"));
    assert_eq!(index.facts[0].file, f.relative_path);
    assert_eq!(f.frontmatter.domain, "../../escape");
    assert!(complai::paths::join_stored_path("kb/system/x", &f.relative_path).is_ok());
}

#[test]
fn imported_fact_files_stay_inside_the_system_directory() {
    let mut index = FactIndex { display_name: None, facts: vec![] };
    let mut c = system_content("拓扑");
    c.domain = "../../escape".to_string();
    let w = upsert_system_fact(&mut index, &c, meta("k1", "d1", "pdf"), today());
    assert!(!w.relative_path.starts_with('.'));
    assert_eq!(w.relative_path.matches('/').count(), 1);
    assert_eq!(index.facts[0].file, w.relative_path);
    assert!(complai::paths::join_stored_path("kb/system/x", &w.relative_path).is_ok());
}

#[test]
fn fact_source_type_roundtrip() {
    for s in ["doc", "interview", "scan", "user"] {
        assert_eq!(FactSourceType::parse(s).unwrap().as_str(), s);
    }
    assert!(FactSourceType::parse("email").is_err());
}

#[test]
fn set_options_build_in_any_order() {
    use_options();
}

fn use_options() {
    let a = complai::project::matrix::MatrixSetOptions::new().gap("缺口").owner("张三");
    let b = complai::project::matrix::MatrixSetOptions::new().owner("张三").gap("缺口");
    let c = complai::project::matrix::MatrixSetOptions::from_optional(Some("缺口".to_string()), Some("张三".to_string()), None);
    assert_eq!(format!("{:?}", a), format!("{:?}", b));
    assert_eq!(format!("{:?}", a), format!("{:?}", c));
}
