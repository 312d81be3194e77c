use complai::system::{resolve_slug, system_dir, system_root, validate_slug, SystemError};

#[test]
fn system_slug_is_a_single_portable_path_component() {
    for slug in ["order-platform", "system1", "A-2"] {
        validate_slug(slug).expect("合法 slug 应通过");
    }
    for slug in ["", "-system", "system-", "../system", "a/b", "系统"] {
        assert!(validate_slug(slug).is_err(), "{slug} 应被拒绝");
    }
}

#[test]
fn system_dir_is_below_the_system_root() {
    assert_eq!(system_root("/kb"), "/kb/system");
    assert_eq!(system_dir("/kb", "order-platform"), Ok("/kb/system/order-platform".to_string()));
    assert_eq!(system_dir("/kb", "a/b"), Err(SystemError::InvalidSlug("a/b".to_string())));
}

#[test]
fn explicit_slug_wins_over_the_current_system() {
    assert_eq!(resolve_slug(Some("a"), Some("b".to_string())), Some("a".to_string()));
    assert_eq!(resolve_slug(None, Some("b".to_string())), Some("b".to_string()));
    assert_eq!(resolve_slug(None, None), None);
}
