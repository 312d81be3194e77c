use complai::model::{ControlId, ControlStatus, Date, Framework};
use complai::project::matrix::{
    link_request, set_request, Matrix, MatrixEntry, MatrixError, MatrixSetOptions, Scope,
};

fn today() -> Date {
    Date { year: 2024, month: 5, day: 1 }
}

fn matrix() -> Matrix {
    let mut m = Matrix::new(
        Framework::dengbao_2_0(),
        Some(3),
        Scope { systems: vec!["order-platform".to_string()], boundary_ref: None },
    );
    m.insert(ControlId::new("dengbao-2.0", "8.1.4.1"), MatrixEntry::empty());
    m.insert(ControlId::new("dengbao-2.0", "8.1.2"), MatrixEntry::empty());
    m
}

#[test]
fn set_gap_requires_a_reason() {
    assert!(matches!(
        set_request("dengbao-2.0:8.1.4.1", "gap", MatrixSetOptions::new()),
        Err(MatrixError::MissingGap(ControlStatus::Gap))
    ));
    assert!(matches!(
        set_request("dengbao-2.0:8.1.4.1", "partial", MatrixSetOptions::new().gap("  ")),
        Err(MatrixError::BlankGap(ControlStatus::Partial))
    ));
    assert!(matches!(
        set_request("dengbao-2.0:8.1.4.1", "met", MatrixSetOptions::new().gap("x")),
        Err(MatrixError::UnexpectedGap(ControlStatus::Met))
    ));
    assert!(matches!(
        set_request("dengbao-2.0:8.1.4.1", "met", MatrixSetOptions::new().remediation(" ")),
        Err(MatrixError::BlankRemediation)
    ));
    assert!(matches!(
        set_request("bad", "met", MatrixSetOptions::new()),
        Err(MatrixError::Control(_))
    ));
    assert!(matches!(
        set_request("dengbao-2.0:8.1.4.1", "done", MatrixSetOptions::new()),
        Err(MatrixError::Status(_))
    ));
}

#[test]
fn set_records_status_gap_owner_and_date() {
    let mut m = matrix();
    let q = set_request(
        "dengbao-2.0:8.1.4.1",
        "gap",
        MatrixSetOptions::new().gap("payment-service 未启用多因素").owner("张三"),
    )
    .unwrap();
    m.set_entry(q, today()).unwrap();
    let e = &m.entries[1].1;
    assert_eq!(m.entries[1].0.control_id, "8.1.4.1");
    assert_eq!(e.status, ControlStatus::Gap);
    assert_eq!(e.gap, "payment-service 未启用多因素");
    assert_eq!(e.owner, "张三");
    assert_eq!(e.last_updated, Some(today()));
    assert_eq!(m.entries[0].1.status, ControlStatus::Unassessed);
}

#[test]
fn set_met_clears_the_gap() {
    let mut m = matrix();
    let q = set_request("dengbao-2.0:8.1.2", "na", MatrixSetOptions::new().gap("不适用")).unwrap();
    m.set_entry(q, today()).unwrap();
    assert_eq!(m.entries[0].1.gap, "不适用");
    let q = set_request("dengbao-2.0:8.1.2", "met", MatrixSetOptions::new()).unwrap();
    m.set_entry(q, today()).unwrap();
    assert_eq!(m.entries[0].1.gap, "");
    assert_eq!(m.entries[0].1.status, ControlStatus::Met);
}

#[test]
fn set_on_a_missing_control_is_refused() {
    let mut m = matrix();
    let q = set_request("dengbao-2.0:9.9", "met", MatrixSetOptions::new()).unwrap();
    assert!(matches!(m.set_entry(q, today()), Err(MatrixError::NotInMatrix(_))));
}

#[test]
fn link_needs_something_to_link() {
    assert!(matches!(
        link_request("dengbao-2.0:8.1.2", None, None, None),
        Err(MatrixError::NothingToLink)
    ));
}

#[test]
fn link_is_idempotent() {
    let mut m = matrix();
    let q = link_request(
        "dengbao-2.0:8.1.2",
        Some("EV-0001".to_string()),
        Some("SYS-F-0001".to_string()),
        None,
    )
    .unwrap();
    m.link_entry(&q, today()).unwrap();
    m.link_entry(&q, today()).unwrap();
    let e = &m.entries[0].1;
    assert_eq!(e.evidence, vec!["EV-0001".to_string()]);
    assert_eq!(e.facts, vec!["SYS-F-0001".to_string()]);
    assert!(e.project_facts.is_empty());
}

#[test]
fn insert_keeps_natural_order_and_replaces_same_control() {
    let mut m = matrix();
    m.insert(ControlId::new("dengbao-2.0", "8.1.10"), MatrixEntry::empty());
    let mut met = MatrixEntry::empty();
    met.status = ControlStatus::Met;
    m.insert(ControlId::new("dengbao-2.0", "8.1.2"), met);
    let ids: Vec<&str> = m.entries.iter().map(|(k, _)| k.control_id.as_str()).collect();
    assert_eq!(ids, vec!["8.1.2", "8.1.4.1", "8.1.10"]);
    assert_eq!(m.entries[0].1.status, ControlStatus::Met);
    assert!(m.contains(&ControlId::new("dengbao-2.0", "8.1.10")));
    assert_eq!(m.position(&ControlId::new("dengbao-2.0", "8.1.4.1")), Some(1));
}

#[test]
fn show_lists_rows_and_counts() {
    let mut m = matrix();
    let q = set_request("dengbao-2.0:8.1.2", "gap", MatrixSetOptions::new().gap("无")).unwrap();
    m.set_entry(q, today()).unwrap();
    assert_eq!(
        m.show(Some(ControlStatus::Gap)),
        "dengbao-2.0:8.1.2  [gap]  owner=-  ev=0 sf=0 pf=0  gap: 无\n\n1 entries\n"
    );
    assert!(m.show(None).ends_with("\n2 entries\n"));
}

#[test]
fn from_rows_orders_rows_and_keeps_the_last_entry_per_control() {
    let mut gap = MatrixEntry::empty();
    gap.status = ControlStatus::Gap;
    let rows = vec![
        (ControlId::new("dengbao-2.0", "8.1.10"), MatrixEntry::empty()),
        (ControlId::new("dengbao-2.0", "8.1.2"), MatrixEntry::empty()),
        (ControlId::new("dengbao-2.0", "8.1.10"), gap),
    ];
    let m = Matrix::from_rows(
        Framework::dengbao_2_0(),
        None,
        Scope { systems: vec![], boundary_ref: None },
        rows,
    );
    let ids: Vec<&str> = m.entries.iter().map(|(k, _)| k.control_id.as_str()).collect();
    assert_eq!(ids, vec!["8.1.2", "8.1.10"]);
    assert_eq!(m.entries[1].1.status, ControlStatus::Gap);
}

#[test]
fn from_rows_keeps_the_first_identifier_of_equal_controls() {
    let mut met = MatrixEntry::empty();
    met.status = ControlStatus::Met;
    let rows = vec![
        (ControlId::new("dengbao-2.0", "8.01"), MatrixEntry::empty()),
        (ControlId::new("dengbao-2.0", "8.1"), met),
    ];
    let m = Matrix::from_rows(
        Framework::dengbao_2_0(),
        None,
        Scope { systems: vec![], boundary_ref: None },
        rows,
    );
    assert_eq!(m.entries.len(), 1);
    assert_eq!(m.entries[0].0.control_id, "8.01");
    assert_eq!(m.entries[0].1.status, ControlStatus::Met);
}
