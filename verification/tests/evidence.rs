use complai::model::{ControlId, Date, Framework};
use complai::project::evidence::{
    add, find, get_position, link_control, list, next_evidence_id, show, EvidenceError, EvidenceIndex, EvidenceType,
};
use complai::project::matrix::{Matrix, MatrixEntry, Scope};

fn today() -> Date {
    Date { year: 2024, month: 5, day: 1 }
}

fn matrix() -> Matrix {
    let mut m = Matrix::new(Framework::dengbao_2_0(), Some(3), Scope { systems: vec![], boundary_ref: None });
    m.insert(ControlId::new("dengbao-2.0", "8.1.4.1"), MatrixEntry::empty());
    m.insert(ControlId::new("dengbao-2.0", "8.1.2"), MatrixEntry::empty());
    m
}

#[test]
fn add_registers_the_file_with_its_digest() {
    let mut index = EvidenceIndex::new();
    let m = matrix();
    let id = ControlId::new("dengbao-2.0", "8.1.4.1");
    let n = add(&mut index, &m, &id, "policy-doc", Some("Approved policy".to_string()), "/tmp/mfa.png", b"approved policy", today())
        .unwrap();
    assert_eq!(n.id, "EV-0001");
    assert_eq!(n.relative_path, "evidence/8.1.4.1/EV-0001-mfa.png");
    let e = &index.evidence[0];
    assert_eq!(e.sha256, "1f0b91e874b8cf9b621fdec5733b94a81089f3237de3feb59ccb1ff9054ec1a4");
    assert_eq!(e.kind, EvidenceType::PolicyDoc);
    assert_eq!(e.collector, "agent");
    assert_eq!(e.linked_controls, vec![id.clone()]);
    let n2 = add(&mut index, &m, &id, "log", None, "a.log", b"", today()).unwrap();
    assert_eq!(n2.id, "EV-0002");
    assert_eq!(next_evidence_id(&index), "EV-0003");
    assert_eq!(get_position(&index, "EV-0002"), Some(1));
}

#[test]
fn add_refuses_unknown_controls_types_and_paths() {
    let mut index = EvidenceIndex::new();
    let m = matrix();
    let missing = ControlId::new("dengbao-2.0", "9.9");
    assert!(matches!(
        add(&mut index, &m, &missing, "log", None, "a.log", b"x", today()),
        Err(EvidenceError::NotInMatrix(_))
    ));
    let id = ControlId::new("dengbao-2.0", "8.1.2");
    assert!(matches!(
        add(&mut index, &m, &id, "photo", None, "a.log", b"x", today()),
        Err(EvidenceError::UnknownType(t)) if t == "photo"
    ));
    assert!(matches!(
        add(&mut index, &m, &id, "log", None, "/", b"x", today()),
        Err(EvidenceError::NoFileName(_))
    ));
    assert!(index.evidence.is_empty());
}

#[test]
fn evidence_links_once_and_is_found_by_control() {
    let mut index = EvidenceIndex::new();
    let m = matrix();
    let a = ControlId::new("dengbao-2.0", "8.1.4.1");
    let b = ControlId::new("dengbao-2.0", "8.1.2");
    add(&mut index, &m, &a, "config", None, "conf.yaml", b"k: v", today()).unwrap();
    link_control(&mut index, "EV-0001", &b).unwrap();
    link_control(&mut index, "EV-0001", &b).unwrap();
    assert_eq!(index.evidence[0].linked_controls, vec![a.clone(), b.clone()]);
    assert!(matches!(link_control(&mut index, "EV-0009", &b), Err(EvidenceError::NotFound(_))));
    assert!(find(&index, &b).contains("EV-0001"));
    assert!(list(&index).contains("EV-0001"));
    let text = show(&index, "EV-0001").unwrap();
    assert!(text.starts_with("id\tEV-0001\ntype\tconfig\nfile\tevidence/8.1.4.1/EV-0001-conf.yaml\n"));
    assert!(text.contains("collected_at\t2024-05-01\n"));
    assert!(matches!(show(&index, "EV-0002"), Err(EvidenceError::NotFound(_))));
}

#[test]
fn evidence_type_roundtrip() {
    for s in ["screenshot", "config", "policy-doc", "log", "record"] {
        assert_eq!(EvidenceType::parse(s).unwrap().as_str(), s);
    }
    assert!(EvidenceType::parse("pdf").is_err());
}

#[test]
fn add_keeps_every_earlier_record() {
    let mut index = EvidenceIndex::new();
    let m = matrix();
    let a = ControlId::new("dengbao-2.0", "8.1.4.1");
    let b = ControlId::new("dengbao-2.0", "8.1.2");
    add(&mut index, &m, &a, "config", None, "conf.yaml", b"k: v", today()).unwrap();
    add(&mut index, &m, &b, "log", None, "a.log", b"x", today()).unwrap();
    let before = index.evidence.clone();
    add(&mut index, &m, &a, "record", None, "r.txt", b"r", today()).unwrap();
    assert_eq!(index.evidence.len(), 3);
    assert_eq!(index.evidence[0].id, before[0].id);
    assert_eq!(index.evidence[0].file, before[0].file);
    assert_eq!(index.evidence[1].id, before[1].id);
    assert_eq!(index.evidence[1].linked_controls, vec![b.clone()]);
    assert_eq!(index.evidence[2].id, "EV-0003");
}
