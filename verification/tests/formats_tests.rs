use dq::formats::{detect_cascade, detect_from_content, detect_from_path, FormatKind};

#[test]
fn detect_json_by_extension() {
    assert_eq!(detect_from_path("data.json"), Some(FormatKind::Json));
    assert_eq!(detect_from_path("events.jsonl"), Some(FormatKind::Json));
}

#[test]
fn detect_yaml_by_extension() {
    assert_eq!(detect_from_path("config.yaml"), Some(FormatKind::Yaml));
    assert_eq!(detect_from_path("data.yml"), Some(FormatKind::Yaml));
}

#[test]
fn detect_toml_by_extension() {
    assert_eq!(detect_from_path("Cargo.toml"), Some(FormatKind::Toml));
}

#[test]
fn detect_hcl_by_extension() {
    assert_eq!(detect_from_path("main.tf"), Some(FormatKind::Hcl));
    assert_eq!(detect_from_path("terragrunt.hcl"), Some(FormatKind::Hcl));
}

#[test]
fn detect_json_by_content() {
    let content = br#"{"key": "value"}"#;
    assert_eq!(detect_from_content(content), Some(FormatKind::Json));
}

#[test]
fn detect_json_array_by_content() {
    let content = br#"[1, 2, 3]"#;
    assert_eq!(detect_from_content(content), Some(FormatKind::Json));
}

#[test]
fn detect_toml_by_content() {
    let content = b"[package]\nname = \"dq\"\nversion = \"0.1.0\"";
    assert_eq!(detect_from_content(content), Some(FormatKind::Toml));
}

#[test]
fn detect_hcl_by_content() {
    let content = b"resource \"aws_instance\" \"web\" {\n  ami = \"ami-12345\"\n}";
    assert_eq!(detect_from_content(content), Some(FormatKind::Hcl));
}

#[test]
fn detect_yaml_by_content() {
    let content = b"---\nname: test\nitems:\n  - one\n  - two";
    assert_eq!(detect_from_content(content), Some(FormatKind::Yaml));
}

#[test]
fn detect_unknown_extension() {
    assert_eq!(detect_from_path("data.xyz"), None);
}

#[test]
fn msgpack_detect_from_content() {
    let mut m = serde_json::Map::new();
    m.insert("x".to_string(), serde_json::Value::from(1));
    let bytes = rmp_serde::to_vec(&serde_json::Value::Object(m)).unwrap();
    if bytes[0] > 0x7F {
        assert_eq!(detect_from_content(&bytes), Some(FormatKind::MsgPack));
    }
}

#[test]
fn detect_extension_ignores_case_and_uses_last_dot() {
    assert_eq!(detect_from_path("ARCHIVE.TAR.JSON"), Some(FormatKind::Json));
    assert_eq!(detect_from_path("noextension"), None);
    assert_eq!(detect_from_path("values.TFVARS"), Some(FormatKind::Hcl));
}

#[test]
fn empty_content_is_undetectable() {
    assert_eq!(detect_from_content(b"   \n "), None);
}

#[test]
fn cascade_prefers_json_then_toml_then_hcl_then_yaml() {
    assert_eq!(detect_cascade(Some("x"), false, true, true, Some(1), true), Some(FormatKind::Json));
    assert_eq!(detect_cascade(Some("x"), false, false, true, Some(1), true), Some(FormatKind::Toml));
    assert_eq!(detect_cascade(Some("x"), false, false, false, Some(1), true), Some(FormatKind::Hcl));
    assert_eq!(detect_cascade(Some("x"), false, false, false, Some(0), true), Some(FormatKind::Yaml));
    assert_eq!(detect_cascade(None, true, false, false, None, false), Some(FormatKind::MsgPack));
    assert_eq!(detect_cascade(None, false, false, false, None, false), None);
}

#[test]
fn format_names_and_extensions() {
    assert_eq!(FormatKind::from_name("YAML"), Some(FormatKind::Yaml));
    assert_eq!(FormatKind::from_name("terragrunt"), Some(FormatKind::Hcl));
    assert_eq!(FormatKind::from_name("messagepack"), Some(FormatKind::MsgPack));
    assert_eq!(FormatKind::from_name("xml"), None);
    assert_eq!(FormatKind::MsgPack.name(), "msgpack");
    assert_eq!(FormatKind::Hcl.extensions(), vec!["hcl", "tf", "tfvars"]);
}

fn parse_csv(input: &[u8]) -> dq::value::Value {
    let (headers, table) = dq::formats::read_csv(input).unwrap();
    let records: Vec<Vec<dq::value::Value>> = table
        .iter()
        .map(|record| {
            record
                .iter()
                .map(|v| {
                    let float = v.parse::<f64>().ok().map(|f| dq::value::FloatValue { bits: f.to_bits(), text: format!("{f}") });
                    dq::formats::infer_cell(v, float)
                })
                .collect()
        })
        .collect();
    dq::formats::csv_rows(&headers, &records)
}

#[test]
fn csv_type_inference() {
    let input = b"name,age,score,active\nAlice,30,95.5,true\nBob,25,,false";
    let val = parse_csv(input);
    let rows = val.as_array().unwrap();
    assert_eq!(rows[0].get("name"), Some(&dq::value::Value::string("Alice")));
    assert_eq!(rows[0].get("age"), Some(&dq::value::Value::integer(30)));
    let f = 95.5f64;
    assert_eq!(rows[0].get("score"), Some(&dq::value::Value::float(f.to_bits(), &format!("{f}"))));
    assert_eq!(rows[0].get("active"), Some(&dq::value::Value::bool(true)));
    assert_eq!(rows[1].get("score"), Some(&dq::value::Value::Null));
}

#[test]
fn csv_all_strings() {
    let input = b"col\nhello\nworld";
    let val = parse_csv(input);
    let rows = val.as_array().unwrap();
    assert_eq!(rows[0].get("col"), Some(&dq::value::Value::string("hello")));
}

#[test]
fn csv_boolean_case_insensitive() {
    let input = b"flag\nTRUE\nFALSE\nTrue";
    let val = parse_csv(input);
    let rows = val.as_array().unwrap();
    assert_eq!(rows[0].get("flag"), Some(&dq::value::Value::bool(true)));
    assert_eq!(rows[1].get("flag"), Some(&dq::value::Value::bool(false)));
    assert_eq!(rows[2].get("flag"), Some(&dq::value::Value::bool(true)));
}

#[test]
fn read_csv_gives_headers_and_records() {
    let (headers, rows) = dq::formats::read_csv(b"a,b\n1,x\n2,y").unwrap();
    assert_eq!(headers, vec!["a".to_string(), "b".to_string()]);
    assert_eq!(rows, vec![vec!["1".to_string(), "x".to_string()], vec!["2".to_string(), "y".to_string()]]);
}

#[test]
fn read_csv_reports_a_ragged_row() {
    match dq::formats::read_csv(b"a,b\n1,x,extra\n") {
        Err(dq::error::Error::Parse(m)) => assert!(m.starts_with("CSV row: ")),
        other => panic!("expected a parse error, got {:?}", other),
    }
}

#[test]
fn format_names_come_back() {
    for k in [FormatKind::Json, FormatKind::Yaml, FormatKind::Toml, FormatKind::Hcl, FormatKind::Csv, FormatKind::MsgPack] {
        assert_eq!(FormatKind::from_name(k.name()), Some(k));
        assert_eq!(FormatKind::from_name(&k.name().to_uppercase()), Some(k));
    }
}
