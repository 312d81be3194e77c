use complai::project::{
    ensure_revisions_current, refresh_revisions, revision_status, show, sync_message, ProjectMeta,
};

fn meta() -> ProjectMeta {
    ProjectMeta {
        name: "order-2024".to_string(),
        system: "order-platform".to_string(),
        system_revision: "sha256:s1".to_string(),
        framework: "dengbao-2.0".to_string(),
        framework_revision: "sha256:f1".to_string(),
        level: Some(3),
    }
}

#[test]
fn current_project_passes_the_revision_check() {
    let m = meta();
    let s = revision_status(&m, "sha256:f1".to_string(), "sha256:s1".to_string());
    assert!(s.is_current());
    assert!(ensure_revisions_current(&s).is_ok());
}

#[test]
fn drift_names_what_changed() {
    let m = meta();
    let s = revision_status(&m, "sha256:f2".to_string(), "sha256:s1".to_string());
    assert_eq!(ensure_revisions_current(&s).unwrap_err().drift, "framework sha256:f1 -> sha256:f2");
    let s = revision_status(&m, "sha256:f2".to_string(), "sha256:s2".to_string());
    assert_eq!(
        ensure_revisions_current(&s).unwrap_err().drift,
        "framework sha256:f1 -> sha256:f2, system sha256:s1 -> sha256:s2"
    );
    let s = revision_status(&m, "sha256:f1".to_string(), "sha256:s2".to_string());
    assert_eq!(ensure_revisions_current(&s).unwrap_err().drift, "system sha256:s1 -> sha256:s2");
}

#[test]
fn refresh_then_check_passes() {
    let mut m = meta();
    let before = m.clone();
    assert!(refresh_revisions(&mut m, "sha256:f2".to_string(), "sha256:s2".to_string()));
    assert!(!refresh_revisions(&mut m, "sha256:f2".to_string(), "sha256:s2".to_string()));
    let s = revision_status(&m, "sha256:f2".to_string(), "sha256:s2".to_string());
    assert!(ensure_revisions_current(&s).is_ok());
    assert_eq!(
        sync_message(&before, &m),
        "synced project KB revisions: framework sha256:f1 -> sha256:f2, system sha256:s1 -> sha256:s2"
    );
    assert_eq!(sync_message(&m, &m), "project KB revisions already current");
}

#[test]
fn show_prints_the_routing_card() {
    let m = meta();
    let s = revision_status(&m, "sha256:f2".to_string(), "sha256:s1".to_string());
    assert_eq!(
        show(&m, &s),
        "name\torder-2024\nsystem\torder-platform\nsystem_revision\tsha256:s1\nsystem_current_revision\tsha256:s1\n\
system_revision_status\tcurrent\nframework\tdengbao-2.0\nframework_revision\tsha256:f1\n\
framework_current_revision\tsha256:f2\nframework_revision_status\tdrifted\nlevel\t3\n"
    );
}
