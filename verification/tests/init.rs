use complai::project::init::{choose_level, control_applies_to_level, init_summary, project_name, InitError};

#[test]
fn level_specific_controls_are_filtered() {
    assert!(control_applies_to_level(Some(1), &[]));
    assert!(control_applies_to_level(Some(1), &[1, 2]));
    assert!(!control_applies_to_level(Some(1), &[2, 3]));
    assert!(control_applies_to_level(None, &[2, 3]));
}

#[test]
fn project_name_is_the_last_component() {
    assert_eq!(project_name("/work/projects/order-2024"), "order-2024");
}

#[test]
fn choose_level_follows_the_declared_levels() {
    assert_eq!(choose_level(Some(3), &vec![2, 3]), Ok(Some(3)));
    assert_eq!(choose_level(Some(0), &vec![2, 3]), Err(InitError::ZeroLevel));
    assert_eq!(
        choose_level(Some(4), &vec![2, 3]),
        Err(InitError::UndeclaredLevel { level: 4, declared: vec![2, 3] })
    );
    assert_eq!(choose_level(Some(4), &vec![]), Ok(Some(4)));
    assert_eq!(choose_level(None, &vec![3]), Ok(Some(3)));
    assert_eq!(choose_level(None, &vec![]), Ok(None));
    assert_eq!(
        choose_level(None, &vec![2, 3]),
        Err(InitError::AmbiguousLevel { declared: vec![2, 3] })
    );
}

#[test]
fn init_summary_exact_text() {
    assert_eq!(
        init_summary("p", "order-platform", "dengbao-2.0", Some(3), 70),
        "initialized project `p` (system=order-platform, framework=dengbao-2.0, level=3, 70 controls)"
    );
    assert_eq!(
        init_summary("p", "s", "iso", None, 1),
        "initialized project `p` (system=s, framework=iso, level=-, 1 controls)"
    );
}
