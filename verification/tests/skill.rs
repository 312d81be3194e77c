use complai::skill::{available, get, list};

#[test]
fn registry_names_match_embedded_frontmatter() {
    for skill in available() {
        assert!(
            skill.prompt.starts_with(&format!("---\nname: {}\n", skill.name)),
            "内置 skill `{}` 的注册名应与 frontmatter 一致",
            skill.name
        );
        assert!(skill.prompt.contains("\ndescription: "));
    }
}

#[test]
fn registry_names_are_unique() {
    for (index, skill) in available().iter().enumerate() {
        assert!(
            available()[index + 1..].iter().all(|candidate| candidate.name != skill.name),
            "内置 skill `{}` 不应重复注册",
            skill.name
        );
    }
}

#[test]
fn registry_contains_only_cli_workflow_guides() {
    let names = available().iter().map(|skill| skill.name).collect::<Vec<_>>();
    assert_eq!(names, ["project-init", "doc-ingest", "gap-analysis"]);
}

#[test]
fn get_returns_the_prompt_or_names_the_available_skills() {
    let prompt = get("gap-analysis").unwrap();
    assert!(prompt.starts_with("---\nname: gap-analysis\n"));
    let err = get("nope").unwrap_err();
    assert_eq!(err.name, "nope");
    assert!(err.available.contains("project-init"));
}

#[test]
fn list_has_one_line_per_skill() {
    let text = list();
    assert!(text.starts_with("NAME\tDESCRIPTION\n"));
    assert_eq!(text.lines().count(), 4);
    assert!(text.contains("doc-ingest"));
}
