use complai::compliance::scaffold::{
    check_framework, default_body, scaffold_message, stubs, CategoryStructure, DomainStructure,
    FrameworkStructure, PointStructure, ScaffoldError,
};
use complai::compliance::control::ExcerptStatus;

fn point(id: &str, name: &str) -> PointStructure {
    PointStructure { id: id.to_string(), name: name.to_string() }
}

fn structure(points: Vec<PointStructure>) -> FrameworkStructure {
    FrameworkStructure {
        framework: "dengbao-2.0".to_string(),
        level: 3,
        domains: vec![DomainStructure {
            key: "技术".to_string(),
            categories: vec![CategoryStructure {
                prefix: "8.1.4".to_string(),
                name: "安全计算环境".to_string(),
                points,
            }],
        }],
    }
}

#[test]
fn stubs_have_paths_frontmatter_and_template() {
    let s = stubs(&structure(vec![point("8.1.4.1", "身份鉴别"), point("8.1.4.2", "访问控制")])).unwrap();
    assert_eq!(s.len(), 2);
    assert_eq!(s[0].relative_path, "技术/安全计算环境/8.1.4.1.md");
    let fm = &s[0].frontmatter;
    assert_eq!(fm.id.to_text(), "dengbao-2.0:8.1.4.1");
    assert_eq!(fm.title, "身份鉴别");
    assert_eq!(fm.levels, vec![3]);
    assert_eq!(fm.excerpt_status, ExcerptStatus::Empty);
    assert_eq!(s[1].body, default_body("访问控制"));
    assert!(s[1].body.starts_with("# 访问控制\n\n## 要求摘要\n"));
}

#[test]
fn stubs_refuse_ids_outside_the_prefix_and_repeats() {
    assert!(matches!(
        stubs(&structure(vec![point("8.1.5.1", "x")])),
        Err(ScaffoldError::PrefixMismatch { control_id, prefix }) if control_id == "8.1.5.1" && prefix == "8.1.4"
    ));
    assert!(matches!(
        stubs(&structure(vec![point("8.1.4.1", "x"), point("8.1.4.1", "y")])),
        Err(ScaffoldError::DuplicateId(id)) if id == "8.1.4.1"
    ));
    let mut blank = structure(vec![point("8.1.4.1", "x")]);
    blank.domains[0].key = " ".to_string();
    assert!(matches!(stubs(&blank), Err(ScaffoldError::BadDomain { .. })));
}

#[test]
fn only_dengbao_has_a_structure_table() {
    assert!(check_framework("dengbao-2.0").is_ok());
    assert!(matches!(check_framework("iso"), Err(ScaffoldError::UnknownFramework(f)) if f == "iso"));
    assert_eq!(
        scaffold_message(70, 0, "dengbao-2.0", "/kb/compliance/dengbao-2.0"),
        "scaffolded 70 controls (0 already existed) for dengbao-2.0 into /kb/compliance/dengbao-2.0"
    );
}

#[test]
fn scaffold_writes_only_stubs_without_a_file() {
    let made = stubs(&structure(vec![point("8.1.4.1", "身份鉴别"), point("8.1.4.2", "访问控制")])).unwrap();
    let second = made[1].relative_path.clone();
    let (to_write, skipped) = complai::compliance::scaffold::stubs_to_write(made.clone(), &vec![true, false]);
    assert_eq!(skipped, 1);
    assert_eq!(to_write.len(), 1);
    assert_eq!(to_write[0].relative_path, second);
    let (again, skipped) = complai::compliance::scaffold::stubs_to_write(made, &vec![true, true]);
    assert!(again.is_empty());
    assert_eq!(skipped, 2);
}
