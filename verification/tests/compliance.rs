use complai::compliance::control::{ControlFrontmatter, ControlIndex, ExcerptStatus};
use complai::compliance::indexing::{build_index, BuildError, ControlFile};
use complai::compliance::query::{ensure_control_exists, find_control, list, sorted_names};
use complai::model::{ControlId, ControlStatus, Domain, Framework};
use complai::project::init::{declared_levels, initial_matrix};
use complai::project::matrix::MatrixEntry;
use complai::reports::report::render;

fn fm(framework: &str, number: &str, title: &str, domain: &str, category: &str, levels: Vec<u8>) -> ControlFrontmatter {
    ControlFrontmatter {
        id: ControlId::new(framework, number),
        framework: Framework(framework.to_string()),
        domain: Domain::new(domain).unwrap(),
        category: category.to_string(),
        control_id: number.to_string(),
        title: title.to_string(),
        levels,
        tags: vec![],
        mappings: vec![],
        expected_evidence: vec![],
        excerpt_status: ExcerptStatus::Empty,
        last_reviewed: None,
        ingest: None,
    }
}

fn file(path: &str, f: ControlFrontmatter) -> ControlFile {
    ControlFile { relative_path: path.to_string(), frontmatter: f }
}

fn sample_index() -> ControlIndex {
    build_index(
        "dengbao-2.0",
        vec![
            file("技术/安全计算环境/8.1.4.10.md", fm("dengbao-2.0", "8.1.4.10", "数据备份", "技术", "安全计算环境", vec![3])),
            file("技术/安全计算环境/8.1.4.1.md", fm("dengbao-2.0", "8.1.4.1", "身份鉴别", "技术", "安全计算环境", vec![])),
            file("管理/安全管理制度/8.1.6.1.md", fm("dengbao-2.0", "8.1.6.1", "安全策略", "管理", "安全管理制度", vec![2, 3])),
        ],
    )
    .unwrap()
}

#[test]
fn build_index_sorts_controls_naturally() {
    let index = sample_index();
    assert_eq!(index.framework.0, "dengbao-2.0");
    let ids: Vec<&str> = index.controls.iter().map(|c| c.id.control_id.as_str()).collect();
    assert_eq!(ids, vec!["8.1.4.1", "8.1.4.10", "8.1.6.1"]);
    assert_eq!(index.controls[0].file, "技术/安全计算环境/8.1.4.1.md");
}

#[test]
fn build_index_refuses_bad_files() {
    assert!(matches!(build_index("dengbao-2.0", vec![]), Err(BuildError::Empty)));
    let mut wrong_id = fm("dengbao-2.0", "8.1.4.1", "x", "技术", "c", vec![]);
    wrong_id.control_id = "8.1.4.2".to_string();
    assert!(matches!(
        build_index("dengbao-2.0", vec![file("a.md", wrong_id)]),
        Err(BuildError::IdMismatch { file }) if file == "a.md"
    ));
    assert!(matches!(
        build_index("dengbao-2.0", vec![file("b.md", fm("iso", "A.5", "x", "技术", "c", vec![]))]),
        Err(BuildError::FrameworkMismatch { file }) if file == "b.md"
    ));
    let dup = build_index(
        "dengbao-2.0",
        vec![
            file("a.md", fm("dengbao-2.0", "8.1.4.1", "x", "技术", "c", vec![])),
            file("b.md", fm("dengbao-2.0", "8.1.4.1", "y", "技术", "c", vec![])),
        ],
    );
    assert!(matches!(dup, Err(BuildError::DuplicateId { file, .. }) if file == "b.md"));
}

#[test]
fn list_filters_by_domain() {
    let index = sample_index();
    let (all, n) = list(&index, None);
    assert_eq!(n, 3);
    assert!(all.starts_with("dengbao-2.0:8.1.4.1  身份鉴别  技术/安全计算环境  [empty]\n"));
    let (text, m) = list(&index, Some(&Domain::management()));
    assert_eq!(m, 1);
    assert_eq!(text, "dengbao-2.0:8.1.6.1  安全策略  管理/安全管理制度  [empty]\n");
}

#[test]
fn find_control_by_id() {
    let index = sample_index();
    assert_eq!(find_control(&index, &ControlId::new("dengbao-2.0", "8.1.6.1")), Some(2));
    assert_eq!(find_control(&index, &ControlId::new("dengbao-2.0", "9.9")), None);
    assert!(ensure_control_exists(&index, &ControlId::new("dengbao-2.0", "8.1.4.10")));
}

#[test]
fn sorted_names_are_unique() {
    let names = vec!["iso".to_string(), "dengbao-2.0".to_string(), "iso".to_string()];
    assert_eq!(sorted_names(&names), vec!["dengbao-2.0".to_string(), "iso".to_string()]);
}

#[test]
fn initial_matrix_keeps_controls_of_the_level() {
    let index = sample_index();
    assert_eq!(declared_levels(&index), vec![2, 3]);
    let m = initial_matrix(&index, "dengbao-2.0", "order-platform", Some(2));
    let ids: Vec<&str> = m.entries.iter().map(|(k, _)| k.control_id.as_str()).collect();
    assert_eq!(ids, vec!["8.1.4.1", "8.1.6.1"]);
    assert_eq!(m.scope.systems, vec!["order-platform".to_string()]);
    assert!(m.entries.iter().all(|(_, e)| e.status == ControlStatus::Unassessed));
    let all = initial_matrix(&index, "dengbao-2.0", "s", None);
    assert_eq!(all.entries.len(), 3);
}

#[test]
fn report_groups_by_domain_and_category() {
    let index = sample_index();
    let mut m = initial_matrix(&index, "dengbao-2.0", "order-platform", Some(3));
    let mut gap = MatrixEntry::empty();
    gap.status = ControlStatus::Gap;
    gap.gap = "payment-service 未启用多因素".to_string();
    gap.owner = "张三".to_string();
    m.entries[0].1 = gap;
    let report = render(&m, &index);
    assert_eq!(report.total, 3);
    assert_eq!(report.gaps, 1);
    let expected = "# 合规差距报告\n\n- 框架: dengbao-2.0\n- 等级: 3\n- 范围: order-platform\n\
- 统计: 共 3 项 | 未评估 2 | 满足 0 | 部分满足 0 | 缺口 1 | 不适用 0\n\n\
## 技术\n\n### 安全计算环境\n\n\
- **8.1.4.1 身份鉴别** [gap] · owner=张三\n  - 缺口: payment-service 未启用多因素\n\
- **8.1.4.10 数据备份** [unassessed]\n\n\
## 管理\n\n### 安全管理制度\n\n\
- **8.1.6.1 安全策略** [unassessed]\n\n";
    assert_eq!(report.text, expected);
}

#[test]
fn report_warns_about_rows_missing_from_the_index() {
    let index = sample_index();
    let mut m = initial_matrix(&index, "dengbao-2.0", "s", None);
    m.insert(ControlId::new("dengbao-2.0", "9.9"), MatrixEntry::empty());
    let report = render(&m, &index);
    assert!(report.text.contains("- ⚠ 1 个矩阵控制项在知识库索引中缺失\n"));
    assert_eq!(report.total, 4);
}
