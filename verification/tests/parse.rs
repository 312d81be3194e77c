use complai::parse::{check_format, escape_cell, extension, render_sheets};

fn row(cells: &[&str]) -> Vec<String> {
    cells.iter().map(|c| c.to_string()).collect()
}

#[test]
fn sheets_render_as_markdown_tables() {
    let sheets = vec![(
        "资产".to_string(),
        vec![row(&["资产名称", "类型"]), row(&["用户数据库", "MySQL"]), row(&["42"])],
    )];
    assert_eq!(
        render_sheets(&sheets),
        "## 资产\n\n| 资产名称 | 类型 |\n| --- | --- |\n| 用户数据库 | MySQL |\n| 42 |\n\n"
    );
}

#[test]
fn pipes_in_cells_are_escaped() {
    let sheets = vec![("Sheet1".to_string(), vec![row(&["列"]), row(&["a|b"])])];
    let md = render_sheets(&sheets);
    assert!(md.contains("a\\|b"));
    assert!(!md.contains("a|b\n"));
    assert_eq!(escape_cell("x|y\nz\r"), "x\\|y z ");
}

#[test]
fn empty_sheet_has_only_its_heading() {
    let sheets = vec![("空".to_string(), vec![])];
    assert_eq!(render_sheets(&sheets), "## 空\n\n\n");
}

#[test]
fn only_xlsx_is_read() {
    assert_eq!(check_format("/data/sample.xlsx"), Ok(()));
    assert_eq!(check_format("/data/sample.csv"), Err("csv".to_string()));
    assert_eq!(check_format("/data/README"), Err(String::new()));
    assert_eq!(extension("/a/.hidden"), None);
    assert_eq!(extension("a.tar.gz"), Some("gz".to_string()));
}
