use complai::paths::{join_stored_path, kb_root, safe_path_component, safe_relative, single_normal_component, PathError};

#[test]
fn safe_path_component_never_preserves_path_separators() {
    let component = safe_path_component("../A/5.1");
    assert!(!component.contains('/'));
    assert!(!component.contains(".."));
    assert_eq!(component, safe_path_component("../A/5.1"));
    assert!(!safe_path_component("").is_empty());
}

#[test]
fn safe_path_component_exact_values() {
    assert_eq!(safe_path_component("8.1.4.1"), "8.1.4.1");
    assert_eq!(safe_path_component("../A/5.1"), "A_5.1-2db3581854c2");
    assert_eq!(safe_path_component(""), "item-e3b0c44298fc");
}

#[test]
fn stored_paths_must_remain_below_their_root() {
    let root = "kb/system/example";
    assert_eq!(
        join_stored_path(root, "architecture/SYS-F-0001.md").expect("正常相对路径有效"),
        "kb/system/example/architecture/SYS-F-0001.md"
    );
    assert!(join_stored_path(root, "../outside.md").is_err());
    assert!(join_stored_path(root, "/outside.md").is_err());
}

#[test]
fn stored_path_error_names_the_path() {
    assert_eq!(
        join_stored_path("kb", "a/../b.md"),
        Err(PathError::UnsafeStoredPath("a/../b.md".to_string()))
    );
}

#[test]
fn relative_paths_and_single_components() {
    assert!(safe_relative("a/b.md"));
    assert!(!safe_relative(""));
    assert!(!safe_relative("./a"));
    assert!(single_normal_component("dengbao-2.0"));
    assert!(!single_normal_component("a/b"));
    assert!(!single_normal_component(".."));
}

#[test]
fn kb_root_prefers_the_explicit_directory() {
    assert_eq!(kb_root(Some("/srv/kb"), Some("/home/u")), Ok("/srv/kb".to_string()));
    assert_eq!(kb_root(None, Some("/home/u")), Ok("/home/u/.complai/kb".to_string()));
    assert_eq!(kb_root(None, None), Err(PathError::HomeUnset));
}

#[test]
fn safe_components_keep_safe_names_and_use_only_safe_characters() {
    assert_eq!(complai::paths::safe_path_component("A.5.1"), "A.5.1");
    assert_eq!(complai::paths::safe_path_component("policy_v2-final.pdf"), "policy_v2-final.pdf");
    for v in ["技术", "../A/5.1", "", ".", "..", "a b/c"] {
        let r = complai::paths::safe_path_component(v);
        assert!(!r.is_empty() && r != "." && r != "..");
        assert!(r.chars().all(|c| c.is_ascii_alphanumeric() || c == '.' || c == '-' || c == '_'));
    }
}
