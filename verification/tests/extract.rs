use vpx_extract::errors::ExtractError;
use vpx_extract::output::{gamedata_code_output, marshal_output};
use vpx_extract::path::marshal_path;
use vpx_extract::props::sort_properties;
use vpx_extract::table::{table_info_output, table_info_to_json, TableRecord};
use vpx_extract::utf8check::check_utf8;

fn pairs(raw: &[(&str, &str)]) -> Vec<(String, String)> {
    raw.iter().map(|(k, v)| (k.to_string(), v.to_string())).collect()
}

fn empty_record() -> TableRecord {
    TableRecord {
        table_name: None,
        author_name: None,
        table_blurb: None,
        table_rules: None,
        author_email: None,
        release_date: None,
        table_save_rev: None,
        table_version: None,
        author_website: None,
        table_save_date: None,
        table_description: None,
        properties: Vec::new(),
    }
}

#[test]
fn null_path_is_rejected() {
    assert!(matches!(marshal_path(None), Err(ExtractError::NullInput)));
}

#[test]
fn invalid_utf8_path_is_rejected() {
    let bad: &[&[u8]] = &[
        &[0xc0, 0x80],
        &[0xc1, 0xbf],
        &[0x80],
        &[0xed, 0xa0, 0x80],
        &[0xe0, 0x9f, 0x80],
        &[0xf0, 0x8f, 0xbf, 0xbf],
        &[0xf4, 0x90, 0x80, 0x80],
        &[0xf5, 0x80, 0x80, 0x80],
        &[0xff],
        &[0xe2, 0x82],
        &[0x41, 0xc3],
    ];
    for b in bad {
        assert!(
            matches!(marshal_path(Some(b.to_vec())), Err(ExtractError::InvalidEncoding)),
            "bytes {:?} should be rejected",
            b
        );
    }
}

#[test]
fn valid_utf8_path_is_accepted() {
    let good: &[&[u8]] = &[
        b"",
        b"/tmp/table.vpx",
        "/tables/caf\u{e9}.vpx".as_bytes(),
        "\u{20ac}\u{10348}".as_bytes(),
        &[0xf4, 0x8f, 0xbf, 0xbf],
        &[0xed, 0x9f, 0xbf],
        &[0xee, 0x80, 0x80],
    ];
    for b in good {
        let p = marshal_path(Some(b.to_vec())).expect("should be accepted");
        assert_eq!(p.as_str().as_bytes(), *b);
    }
}

#[test]
fn check_utf8_agrees_with_std() {
    let mut cases: Vec<Vec<u8>> = Vec::new();
    for b0 in 0u8..=255 {
        cases.push(vec![b0]);
        cases.push(vec![b0, 0x80]);
        cases.push(vec![b0, 0x80, 0x80]);
        cases.push(vec![b0, 0x80, 0x80, 0x80]);
        cases.push(vec![0x61, b0, 0xbf]);
    }
    for c in &cases {
        assert_eq!(
            check_utf8(c),
            std::str::from_utf8(c).is_ok(),
            "disagreement on {:?}",
            c
        );
    }
}

#[test]
fn gamedata_code_round_trips_bytes() {
    let script = "Option Explicit\r\nDim x\t' caf\u{e9} \u{2603}\r\n";
    let buf = gamedata_code_output(script).expect("marshal should succeed");
    let mut expected = script.as_bytes().to_vec();
    expected.push(0);
    assert_eq!(buf.as_bytes(), &expected);
}

#[test]
fn gamedata_code_empty_text() {
    let buf = gamedata_code_output("").expect("marshal should succeed");
    assert_eq!(buf.as_bytes(), &vec![0u8]);
}

#[test]
fn embedded_null_is_rejected_not_truncated() {
    assert_eq!(
        gamedata_code_output("abc\u{0}def").map(|b| b.into_bytes()),
        Err(ExtractError::Encoding)
    );
    assert_eq!(
        marshal_output("\u{0}").map(|b| b.into_bytes()),
        Err(ExtractError::Encoding)
    );
}

#[test]
fn table_info_document_matches_known_record() {
    let mut t = empty_record();
    t.table_name = Some("Test Table".to_string());
    t.author_name = Some("Jane & \"Doe\"".to_string());
    t.release_date = Some("2024-01-01".to_string());
    t.table_blurb = Some("line1\nline2".to_string());
    t.properties = pairs(&[("zeta", "1"), ("alpha", "2"), ("zeta", "3")]);
    let json = table_info_to_json(&t);
    let expected = "{\"author_email\":null,\"author_name\":\"Jane & \\\"Doe\\\"\",\"author_website\":null,\"properties\":{\"alpha\":\"2\",\"zeta\":\"3\"},\"release_date\":\"2024-01-01\",\"table_blurb\":\"line1\\nline2\",\"table_description\":null,\"table_name\":\"Test Table\",\"table_rules\":null,\"table_save_date\":null,\"table_save_rev\":null,\"table_version\":null}";
    assert_eq!(json, expected);
    let buf = table_info_output(&t).expect("pipeline should succeed");
    let mut expected = json.into_bytes();
    expected.push(0);
    assert_eq!(buf.as_bytes(), &expected);
}

#[test]
fn table_info_document_agrees_with_reference_serializer() {
    let mut t = empty_record();
    t.table_name = Some("caf\u{e9} \u{2603} control\u{1}".to_string());
    t.author_email = Some("a@b.c".to_string());
    t.properties = pairs(&[("z", "last"), ("\u{e9}", "e-acute"), ("A", "cap"), ("z", "wins")]);
    let json = table_info_to_json(&t);

    let mut doc = serde_json::Map::new();
    let field = |v: &Option<String>| match v {
        None => serde_json::Value::Null,
        Some(s) => serde_json::Value::String(s.clone()),
    };
    doc.insert("author_email".to_string(), field(&t.author_email));
    doc.insert("author_name".to_string(), field(&t.author_name));
    doc.insert("author_website".to_string(), field(&t.author_website));
    let mut props = serde_json::Map::new();
    let mut sorted_pairs = t.properties.clone();
    sorted_pairs.sort_by(|a, b| a.0.as_bytes().cmp(b.0.as_bytes()));
    for (k, v) in &sorted_pairs {
        props.insert(k.clone(), serde_json::Value::String(v.clone()));
    }
    doc.insert("properties".to_string(), serde_json::Value::Object(props));
    doc.insert("release_date".to_string(), field(&t.release_date));
    doc.insert("table_blurb".to_string(), field(&t.table_blurb));
    doc.insert("table_description".to_string(), field(&t.table_description));
    doc.insert("table_name".to_string(), field(&t.table_name));
    doc.insert("table_rules".to_string(), field(&t.table_rules));
    doc.insert("table_save_date".to_string(), field(&t.table_save_date));
    doc.insert("table_save_rev".to_string(), field(&t.table_save_rev));
    doc.insert("table_version".to_string(), field(&t.table_version));
    let expected = serde_json::to_string(&serde_json::Value::Object(doc)).unwrap();
    assert_eq!(json, expected);
}

#[test]
fn properties_sorted_by_key_bytes_last_wins() {
    let sorted = sort_properties(&pairs(&[
        ("\u{e9}", "multibyte"),
        ("b", "1"),
        ("a", "2"),
        ("b", "2"),
        ("", "empty"),
    ]));
    let view: Vec<(&str, &str)> =
        sorted.iter().map(|p| (p.0.as_str(), p.1.as_str())).collect();
    assert_eq!(
        view,
        vec![("", "empty"), ("a", "2"), ("b", "2"), ("\u{e9}", "multibyte")]
    );
}

#[test]
fn field_with_embedded_null_is_escaped_not_rejected() {
    let mut t = empty_record();
    t.table_name = Some("a\u{0}b".to_string());
    let buf = table_info_output(&t).expect("escaped null should marshal");
    let bytes = buf.into_bytes();
    let text = std::str::from_utf8(&bytes[..bytes.len() - 1]).unwrap();
    assert!(text.contains("\\u0000"));
    assert_eq!(bytes.last(), Some(&0u8));
    assert_eq!(bytes[..bytes.len() - 1].iter().filter(|&&b| b == 0).count(), 0);
}

#[test]
fn repeated_extraction_is_independent() {
    let mut t = empty_record();
    t.table_name = Some("Again".to_string());
    t.properties = pairs(&[("k", "v"), ("k", "w")]);
    let first = table_info_output(&t).expect("first call").into_bytes();
    drop(first.clone());
    let second = table_info_output(&t).expect("second call").into_bytes();
    assert_eq!(first, second);

    let s1 = gamedata_code_output("Sub Table_Init\nEnd Sub").expect("first").into_bytes();
    drop(s1.clone());
    let s2 = gamedata_code_output("Sub Table_Init\nEnd Sub").expect("second").into_bytes();
    assert_eq!(s1, s2);
}

#[test]
fn error_descriptions_name_each_kind() {
    assert_eq!(ExtractError::NullInput.description(), "input file path is null");
    assert_eq!(ExtractError::InvalidEncoding.description(), "file path is not valid UTF-8");
    assert_eq!(ExtractError::Open.description(), "failed to open the table file");
    assert_eq!(ExtractError::Decode.description(), "failed to decode the requested stream");
    assert_eq!(
        ExtractError::Encoding.description(),
        "decoded text contains an embedded null byte"
    );
    assert_eq!(
        ExtractError::Serialization.description(),
        "failed to serialize the table info document"
    );
    assert_eq!(
        ExtractError::Allocation.description(),
        "failed to allocate the output buffer"
    );
    assert_eq!(
        ExtractError::InternalFault.description(),
        "unexpected fault inside the decode path"
    );
}
