use markplus::document::Document;
use markplus::error::IncludeError;
use markplus::handlers::IncludeKind;
use markplus::json::Json;
use markplus::loads::Loaded;
use markplus::markdown::{document_json, frontmatter_reader_panics, handle_loaded, markdown_loaded, AstJsonError};
use serde_json::Value;

fn to_value(j: &Json) -> Value {
    match j {
        Json::Null => Value::Null,
        Json::Bool(b) => Value::Bool(*b),
        Json::Number(n) => serde_json::from_str(n).unwrap(),
        Json::Str(s) => Value::String(s.clone()),
        Json::Array(a) => Value::Array(a.iter().map(to_value).collect()),
        Json::Object(m) => {
            let mut map = serde_json::Map::new();
            for (k, v) in m {
                map.insert(k.clone(), to_value(v));
            }
            Value::Object(map)
        },
    }
}

fn conv(v: &Value) -> Json {
    match v {
        Value::Null => Json::Null,
        Value::Bool(b) => Json::Bool(*b),
        Value::Number(n) => Json::Number(n.to_string()),
        Value::String(s) => Json::Str(s.clone()),
        Value::Array(a) => Json::Array(a.iter().map(conv).collect()),
        Value::Object(m) => Json::Object(m.iter().map(|(k, v)| (k.clone(), conv(v))).collect()),
    }
}

fn json(text: &str) -> Json {
    conv(&serde_json::from_str::<Value>(text).unwrap())
}

#[test]
fn parse_gives_core_result() {
    let text = "---\ntitle: Hello\n---\n# Heading\n\nBody.\n";
    let doc = Document::parse(text).unwrap();
    let core = markplus_core::parse_document(text).unwrap();
    assert_eq!(doc.meta.as_ref().map(to_value), core.meta);
    assert_eq!(doc.ast.iter().map(to_value).collect::<Vec<_>>(), core.ast);
    assert_eq!(core.ast[0]["t"], "heading");
}

#[test]
fn parse_error_is_carried() {
    let text = "---\njust words\n---\n# H\n";
    let expected = markplus_core::parse_document(text).err().map(|e| e.to_string());
    assert!(expected.is_some());
    assert_eq!(Document::parse(text).err(), expected);
    match markdown_loaded(text) {
        Loaded::Unparsable(m) => assert_eq!(Some(m), expected),
        other => panic!("unexpected {:?}", other),
    }
}

#[test]
fn markdown_loaded_content() {
    match markdown_loaded("---\nauthor: A\n---\n## Two\n") {
        Loaded::Content { meta, nodes } => {
            assert_eq!(to_value(meta.as_ref().unwrap())["author"], "A");
            assert_eq!(to_value(&nodes[0])["level"], 2);
        },
        other => panic!("unexpected {:?}", other),
    }
}

#[test]
fn handle_loaded_merges_only_markdown() {
    let loaded = Loaded::Content { meta: Some(json(r#"{"author": "Inner"}"#)), nodes: vec![json(r#"{"t": "x"}"#)] };
    let mut meta = Some(json(r#"{"title": "P"}"#));
    let nodes = handle_loaded(IncludeKind::Markdown, &"a.md".to_string(), &loaded, &mut meta).unwrap();
    assert_eq!(nodes.len(), 1);
    assert_eq!(to_value(meta.as_ref().unwrap())["author"], "Inner");

    let mut meta2 = Some(json(r#"{"title": "P"}"#));
    handle_loaded(IncludeKind::Json, &"a.json".to_string(), &loaded, &mut meta2).unwrap();
    assert!(to_value(meta2.as_ref().unwrap()).get("author").is_none());
}

#[test]
fn handle_loaded_errors() {
    let mut meta = None;
    let r = handle_loaded(IncludeKind::Csv, &"t.csv".to_string(), &Loaded::Unparsable("bad".to_string()), &mut meta);
    assert!(matches!(r, Err(IncludeError::CsvParse { .. })));
    let r = handle_loaded(IncludeKind::Markdown, &"p.md".to_string(), &Loaded::Unreadable("gone".to_string()), &mut meta);
    assert!(matches!(r, Err(IncludeError::Io { .. })));
    assert!(meta.is_none());
}

#[test]
fn document_json_matches_core() {
    let text = "# Title\n\nSome *text*.\n";
    let core = markplus_core::parse_document(text).unwrap();
    assert_eq!(document_json(text, false).unwrap(), core.to_json().unwrap());
    assert_eq!(document_json(text, true).unwrap(), core.to_json_pretty().unwrap());
}

#[test]
fn document_json_parse_error() {
    let text = "---\njust words\n---\n# H\n";
    match document_json(text, false) {
        Err(AstJsonError::Parse(m)) => assert_eq!(m, markplus_core::parse_document(text).err().unwrap().to_string()),
        other => panic!("unexpected {:?}", other),
    }
}

#[test]
fn lone_quote_frontmatter_values_are_detected() {

    assert!(frontmatter_reader_panics("---\ntitle: \"\n---\n"));
    assert!(frontmatter_reader_panics("---\ntags: [a, ']\n---\n# H\n"));
    assert!(frontmatter_reader_panics("---\r\n- '\r\n---\r\n"));
    assert!(!frontmatter_reader_panics("---\ntitle: \"x\"\n---\n"));
    assert!(!frontmatter_reader_panics("# No frontmatter\ntitle: \"\n"));
    assert!(!frontmatter_reader_panics("---\ntitle: \"\n"));
    assert!(!frontmatter_reader_panics("---\ntitle: a\n---\nbody: \"\n"));
}
