use complai::frontmatter::{parse, serialize, FrontmatterError};

fn sample_yaml() -> serde_yml::Value {
    let mut tags = serde_yml::Sequence::new();
    tags.push(serde_yml::Value::String("auth".to_string()));
    let mut map = serde_yml::Mapping::new();
    map.insert("name", serde_yml::Value::String("身份鉴别".to_string()));
    map.insert("level", serde_yml::Value::from(3u8));
    map.insert("tags", serde_yml::Value::Sequence(tags));
    serde_yml::Value::Mapping(map)
}

#[test]
fn serialize_parse_roundtrip() {
    let data = sample_yaml();
    let body = "# 身份鉴别\n\n一些正文。\n";
    let yaml = serde_yml::to_string(&data).unwrap();
    let serialized = serialize(&yaml, body);
    let doc = parse(&serialized).unwrap();
    let back: serde_yml::Value = serde_yml::from_str(&doc.data).unwrap();
    assert_eq!(back, data);
    assert_eq!(doc.body.trim_end(), body.trim_end());
}

#[test]
fn parse_rejects_missing_frontmatter() {
    let res = parse("# 仅正文\n无 frontmatter");
    assert!(res.is_err());
}

#[test]
fn parse_rejects_unclosed_frontmatter() {
    let res = parse("---\nname: x\nlevel: 1\ntags: []\n正文未闭合");
    assert!(res.is_err());
}

#[test]
fn frontmatter_errors_are_told_apart() {
    assert_eq!(parse("# body").err(), Some(FrontmatterError::Missing));
    assert_eq!(parse("---\nname: x\n").err(), Some(FrontmatterError::Unclosed));
}

#[test]
fn serialize_writes_fences_and_blank_line() {
    assert_eq!(serialize("name: x\n", "body"), "---\nname: x\n---\n\nbody");
}

#[test]
fn parse_accepts_dots_as_closing_fence_and_a_bom() {
    let doc = parse("\u{feff}---\nname: x\n...\nbody\n").unwrap();
    assert_eq!(doc.data.trim(), "name: x");
    assert_eq!(doc.body.trim(), "body");
}
