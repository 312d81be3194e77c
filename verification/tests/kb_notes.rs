use complai::kb::ingest::{delim_id, parse_notes};

#[test]
fn parse_notes_splits_blocks() {
    let notes = "@@ dengbao-2.0:8.1.4.1\n## 要求摘要\n鉴别身份\n@@ dengbao-2.0:8.1.4.2\n## 要求摘要\n访问控制\n";
    let blocks = parse_notes(notes);
    assert_eq!(blocks.len(), 2);
    assert_eq!(blocks[0].0, "dengbao-2.0:8.1.4.1");
    assert!(blocks[0].1.contains("鉴别身份"));
    assert_eq!(blocks[1].0, "dengbao-2.0:8.1.4.2");
    assert!(blocks[1].1.contains("访问控制"));
}

#[test]
fn parse_notes_ignores_at_at_at() {
    let notes = "@@ dengbao-2.0:8.1.4.1\nbody\n@@@notadelim\nmore body\n";
    let blocks = parse_notes(notes);
    assert_eq!(blocks.len(), 1);
    assert!(blocks[0].1.contains("@@@notadelim"));
}

#[test]
fn delim_id_recognizes_forms() {
    assert_eq!(delim_id("@@ dengbao-2.0:8.1.4.1").as_deref(), Some("dengbao-2.0:8.1.4.1"));
    assert_eq!(delim_id("@@\tdengbao-2.0:8.1.4.1").as_deref(), Some("dengbao-2.0:8.1.4.1"));
    assert_eq!(delim_id("@@@x"), None);
    assert_eq!(delim_id("@@"), None);
    assert_eq!(delim_id("## 不是"), None);
}

#[test]
fn parse_notes_drops_text_before_the_first_delimiter() {
    let blocks = parse_notes("preamble\n@@ a:1\nx\n");
    assert_eq!(blocks.len(), 1);
    assert_eq!(blocks[0].0, "a:1");
    assert!(!blocks[0].1.contains("preamble"));
}
