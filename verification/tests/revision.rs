use complai::revision::{revision_of, revision_paths};

#[test]
fn revision_rejects_an_indexed_path_outside_the_kb() {
    let result = revision_paths("/tmp/kb", &vec!["../outside.md".to_string()]);
    assert!(result.is_err());
}

#[test]
fn revision_paths_are_sorted_unique_and_joined() {
    let paths = vec!["b.md".to_string(), "a.md".to_string(), "b.md".to_string()];
    let files = revision_paths("/kb", &paths).unwrap();
    assert_eq!(
        files,
        vec![
            ("a.md".to_string(), "/kb/a.md".to_string()),
            ("b.md".to_string(), "/kb/b.md".to_string()),
        ]
    );
}

#[test]
fn revision_exact_value() {
    let files = vec![
        ("a.md".to_string(), b"alpha".to_vec()),
        ("b.md".to_string(), b"beta".to_vec()),
    ];
    assert_eq!(
        revision_of(b"index", &files),
        "sha256:82cde1a3d6294bc531ece6a0e700c41bcf30a56079a504b7fcf67f527a685b3e"
    );
}

#[test]
fn revision_is_order_independent_but_tracks_content_and_paths() {
    let files_of = |paths: &[&str], bodies: &[(&str, &[u8])]| -> Vec<(String, Vec<u8>)> {
        let listed: Vec<String> = paths.iter().map(|p| p.to_string()).collect();
        revision_paths("/kb", &listed)
            .unwrap()
            .into_iter()
            .map(|(rel, _)| {
                let body = bodies.iter().find(|(p, _)| *p == rel).unwrap().1;
                (rel, body.to_vec())
            })
            .collect()
    };
    let bodies: &[(&str, &[u8])] = &[("a.md", b"alpha"), ("b.md", b"beta")];
    let first = revision_of(b"index", &files_of(&["a.md", "b.md"], bodies));
    let second = revision_of(b"index", &files_of(&["b.md", "a.md"], bodies));
    assert_eq!(first, second);

    let changed_bodies: &[(&str, &[u8])] = &[("a.md", b"alpha"), ("b.md", b"changed")];
    let changed = revision_of(b"index", &files_of(&["a.md", "b.md"], changed_bodies));
    assert_ne!(first, changed);

    let renamed_bodies: &[(&str, &[u8])] = &[("a.md", b"alpha"), ("renamed.md", b"changed")];
    let renamed = revision_of(b"index", &files_of(&["a.md", "renamed.md"], renamed_bodies));
    assert_ne!(changed, renamed);
}

#[test]
fn a_framework_index_must_declare_its_own_framework() {
    assert!(complai::revision::check_index_framework("dengbao-2.0", "dengbao-2.0").is_ok());
    let e = complai::revision::check_index_framework("iso27001-2022", "dengbao-2.0").unwrap_err();
    assert_eq!(e.declared, "iso27001-2022");
}
