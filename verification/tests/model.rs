use std::cmp::Ordering;

use complai::model::{natural_control_cmp, ControlId, ControlStatus, Domain, ModelError, ProjectFactKind};
use complai::project::matrix::{Matrix, MatrixEntry, Scope};
use complai::model::Framework;

#[test]
fn control_id_display_parse_roundtrip() {
    let id = ControlId::new("dengbao-2.0", "8.1.4.1");
    assert_eq!(id.to_text(), "dengbao-2.0:8.1.4.1");
    let parsed = ControlId::parse(&id.to_text()).unwrap();
    assert_eq!(parsed, id);
}

#[test]
fn control_id_parse_rejects_bad() {
    assert!(ControlId::parse("no-colon").is_err());
    assert!(ControlId::parse(":8.1.4.1").is_err());
    assert!(ControlId::parse("dengbao-2.0:").is_err());
}

#[test]
fn control_id_splits_at_the_first_colon() {
    let id = ControlId::parse("iso:A:5").unwrap();
    assert_eq!(id.framework.0, "iso");
    assert_eq!(id.control_id, "A:5");
}

#[test]
fn natural_control_cmp_orders_numerically() {
    assert_eq!(natural_control_cmp("8.1.1.2", "8.1.1.10"), Ordering::Less);
    assert_eq!(natural_control_cmp("8.1.1.10", "8.1.1.9"), Ordering::Greater);
    assert_eq!(natural_control_cmp("8.1.4.1", "8.1.4.1"), Ordering::Equal);
}

#[test]
fn natural_control_cmp_falls_back_to_text_and_length() {
    assert_eq!(natural_control_cmp("A.5", "A.10"), Ordering::Less);
    assert_eq!(natural_control_cmp("8.1", "8.1.1"), Ordering::Less);
    assert_eq!(natural_control_cmp("8.1.a", "8.1.b"), Ordering::Less);
    assert_eq!(natural_control_cmp("10", "9"), Ordering::Greater);
}

#[test]
fn control_id_ord_keeps_btreemap_natural() {
    let mut m = Matrix::new(
        Framework::dengbao_2_0(),
        None,
        Scope { systems: vec![], boundary_ref: None },
    );
    m.insert(ControlId::new("dengbao-2.0", "8.1.1.10"), MatrixEntry::empty());
    m.insert(ControlId::new("dengbao-2.0", "8.1.1.2"), MatrixEntry::empty());
    let keys: Vec<&ControlId> = m.entries.iter().map(|(k, _)| k).collect();
    assert_eq!(keys[0].control_id, "8.1.1.2");
    assert_eq!(keys[1].control_id, "8.1.1.10");
}

#[test]
fn control_id_compare_orders_framework_first() {
    let a = ControlId::new("a", "9");
    let b = ControlId::new("b", "1");
    assert_eq!(a.compare(&b), Ordering::Less);
    assert_eq!(b.compare(&a), Ordering::Greater);
    assert_eq!(a.compare(&a.duplicate()), Ordering::Equal);
}

#[test]
fn control_status_roundtrip() {
    for s in ["unassessed", "met", "partial", "gap", "na"] {
        let st = ControlStatus::parse(s).expect("测试状态有效");
        assert_eq!(st.as_str(), s);
    }
    assert!(ControlStatus::parse("bogus").is_err());
}

#[test]
fn control_status_unknown_is_reported_with_its_text() {
    assert_eq!(
        ControlStatus::parse("bogus"),
        Err(ModelError::UnknownStatus("bogus".to_string()))
    );
}

#[test]
fn domain_parse() {
    assert_eq!(Domain::parse("技术").expect("等保域有效"), Domain::technical());
    assert_eq!(
        Domain::parse("Organizational controls").expect("ISO 域有效"),
        Domain::new("Organizational controls").expect("ISO 域有效")
    );
    assert!(Domain::parse("  ").is_err());
}

#[test]
fn project_fact_kind_roundtrip() {
    for s in ["整改", "例外", "决策", "发现", "备注"] {
        assert_eq!(ProjectFactKind::parse(s).unwrap().as_str(), s);
    }
    assert_eq!(
        ProjectFactKind::parse("其他"),
        Err(ModelError::UnknownFactKind("其他".to_string()))
    );
}
