use markplus::error::IncludeError;
use markplus::handlers::IncludeKind;
use markplus::includes::Status;
use markplus::tabs::process_tabs;
use markplus::json::Json;
use markplus::loads::{Loaded, Loads, Need};
use markplus::paths::CanonFailure;
use markplus::resolve::PathResolver;
use serde_json::Value;

fn to_json(v: &Value) -> Json {
    match v {
        Value::Null => Json::Null,
        Value::Bool(b) => Json::Bool(*b),
        Value::Number(n) => Json::Number(n.to_string()),
        Value::String(s) => Json::Str(s.clone()),
        Value::Array(a) => Json::Array(a.iter().map(to_json).collect()),
        Value::Object(m) => Json::Object(m.iter().map(|(k, v)| (k.clone(), to_json(v))).collect()),
    }
}

fn to_value(j: &Json) -> Value {
    match j {
        Json::Null => Value::Null,
        Json::Bool(b) => Value::Bool(*b),
        Json::Number(n) => serde_json::from_str(n).unwrap(),
        Json::Str(s) => Value::String(s.clone()),
        Json::Array(a) => Value::Array(a.iter().map(to_value).collect()),
        Json::Object(m) => {
            let mut map = serde_json::Map::new();
            for (k, v) in m {
                map.insert(k.clone(), to_value(v));
            }
            Value::Object(map)
        },
    }
}

fn node(text: &str) -> Json {
    to_json(&serde_json::from_str::<Value>(text).unwrap())
}

/// Answer a need from an in-memory file system of (path, content) pairs.
fn answer(loads: &mut Loads, need: Need, disk: &[(&str, &str)]) {
    match need {
        Need::Canonical(j) => {
            let found = disk.iter().any(|(p, _)| *p == j);
            let outcome = if found { Ok(j.clone()) } else { Err(CanonFailure::NotFound) };
            loads.record_canonical(j, outcome);
        },
        Need::File(req) => {
            let content = disk.iter().find(|(p, _)| *p == req.path).map(|(_, c)| *c);
            let loaded = match content {
                None => Loaded::Unreadable("No such file or directory (os error 2)".to_string()),
                Some(c) => load(&req.path, req.kind, &req.attrs, c),
            };
            loads.record_file(req, loaded);
        },
    }
}

fn nodes_of(r: Result<Vec<Value>, String>) -> Loaded {
    match r {
        Ok(v) => Loaded::Content { meta: None, nodes: v.iter().map(to_json).collect() },
        Err(m) => Loaded::Unparsable(m),
    }
}

fn load(path: &str, kind: IncludeKind, attrs: &Json, c: &str) -> Loaded {
    match kind {
        IncludeKind::Markdown => match markplus_core::parse_document(c) {
            Ok(a) => Loaded::Content {
                meta: a.meta.as_ref().map(to_json),
                nodes: a.ast.iter().map(to_json).collect(),
            },
            Err(e) => Loaded::Unparsable(e.to_string()),
        },
        IncludeKind::Csv => {
            let opts = markplus_core::CsvReadOptions { header: true, ..Default::default() };
            nodes_of(markplus_core::csv::parse_csv_to_table_ast_str(c, &opts).map(|v| vec![v]))
        },
        IncludeKind::Json => nodes_of(markplus_core::parse_json_data_to_ast(c)),
        IncludeKind::Mermaid => {
            let map = match to_value(attrs) {
                Value::Object(m) => m,
                _ => serde_json::Map::new(),
            };
            nodes_of(Ok(vec![markplus_core::parse_mermaid_to_fenced_ast(c, &map)]))
        },
        IncludeKind::Code => {
            let ext = std::path::Path::new(path).extension().and_then(|e| e.to_str()).unwrap_or("");
            nodes_of(Ok(vec![markplus_core::parse_code_to_fenced_ast(c, ext)]))
        },
    }
}

/// Run tab processing against an in-memory file system.
fn run_tabs(
    ast: Vec<Json>,
    meta: Option<Json>,
    resolver: &PathResolver,
    disk: &[(&str, &str)],
) -> (Vec<Json>, Option<Json>, Status) {
    let mut loads = Loads::new();
    for _ in 0..100 {
        let mut m = meta.as_ref().map(|x| x.deep_clone());
        let a: Vec<Json> = ast.iter().map(|n| n.deep_clone()).collect();
        let (out, status) = process_tabs(a, &mut m, resolver, &loads);
        match status {
            Status::Needs(n) => answer(&mut loads, n, disk),
            other => return (out, m, other),
        }
    }
    panic!("tab processing did not settle");
}

const ARTICLE: &str = "/tabs/article.md";

fn resolver() -> PathResolver {
    PathResolver::new(ARTICLE, None)
}

fn vals(ast: &[Json]) -> Vec<Value> {
    ast.iter().map(to_value).collect()
}

#[test]
fn no_tabs_is_noop() {
    let ast = vec![node(r#"{"t": "heading", "level": 1}"#)];
    let meta = Some(node(r#"{"title": "Test"}"#));
    let (ast, meta, status) = run_tabs(ast, meta, &resolver(), &[(ARTICLE, "# Main")]);
    assert!(matches!(status, Status::Complete));
    let ast = vals(&ast);
    assert_eq!(ast.len(), 1);
    assert_eq!(ast[0]["t"], "heading");
    assert_eq!(to_value(meta.as_ref().unwrap())["title"], "Test");
}

#[test]
fn tabs_wrap_ast_in_tab_group() {
    let disk = [(ARTICLE, "# Main"), ("/tabs/overview.md", "# Overview\n\nOverview content.\n")];
    let ast = vec![node(r#"{"t": "heading", "level": 1, "children": [{"t": "text", "text": "Main"}]}"#)];
    let meta = Some(node(r#"{"title": "Guide", "tabs": [{"file": "overview.md", "title": "Overview"}]}"#));
    let (ast, _meta, status) = run_tabs(ast, meta, &resolver(), &disk);
    assert!(matches!(status, Status::Complete));
    let ast = vals(&ast);
    assert_eq!(ast.len(), 1);
    assert_eq!(ast[0]["t"], "tab_group");
    let tabs = ast[0]["children"].as_array().unwrap();
    assert_eq!(tabs.len(), 2);
    assert_eq!(tabs[0]["t"], "tab");
    assert_eq!(tabs[0]["title"], "Article");
    assert_eq!(tabs[0]["active"], true);
    assert_eq!(tabs[1]["t"], "tab");
    assert_eq!(tabs[1]["title"], "Overview");
    assert_eq!(tabs[1]["active"], false);
}

#[test]
fn custom_default_tab_name() {
    let disk = [(ARTICLE, "# Main"), ("/tabs/extra.md", "# Extra")];
    let ast = vec![node(r#"{"t": "paragraph"}"#)];
    let meta = Some(node(r#"{"tab_default": "Main Content", "tabs": [{"file": "extra.md", "title": "Extra"}]}"#));
    let (ast, _meta, status) = run_tabs(ast, meta, &resolver(), &disk);
    assert!(matches!(status, Status::Complete));
    let ast = vals(&ast);
    let tabs = ast[0]["children"].as_array().unwrap();
    assert_eq!(tabs[0]["title"], "Main Content");
}

#[test]
fn tabs_consumed_from_meta() {
    let disk = [(ARTICLE, "# Main"), ("/tabs/t.md", "# T")];
    let meta = Some(node(r#"{"title": "X", "tabs": [{"file": "t.md", "title": "T"}], "tab_default": "Main"}"#));
    let (_ast, meta, status) = run_tabs(vec![], meta, &resolver(), &disk);
    assert!(matches!(status, Status::Complete));
    let m = to_value(meta.as_ref().unwrap());
    assert!(m.get("tabs").is_none());
    assert!(m.get("tab_default").is_none());
    assert_eq!(m["has_tabs"], true);
}

#[test]
fn tab_frontmatter_merges_into_parent() {
    let disk = [(ARTICLE, "# Main"), ("/tabs/tagged.md", "---\ntags:\n  - extra\nauthor: TabAuthor\n---\n# Tagged\n")];
    let meta = Some(node(r#"{"title": "Parent", "tags": ["main"], "tabs": [{"file": "tagged.md", "title": "Tagged"}]}"#));
    let (_ast, meta, status) = run_tabs(vec![], meta, &resolver(), &disk);
    assert!(matches!(status, Status::Complete));
    let m = to_value(meta.as_ref().unwrap());
    assert_eq!(m["title"], "Parent");
    assert_eq!(m["author"], "TabAuthor");
    let tags = m["tags"].as_array().unwrap();
    assert!(tags.contains(&Value::from("main")));
    assert!(tags.contains(&Value::from("extra")));
}

#[test]
fn missing_tab_file_errors() {
    let meta = Some(node(r#"{"tabs": [{"file": "nonexistent.md", "title": "Missing"}]}"#));
    let (_ast, _meta, status) = run_tabs(vec![], meta, &resolver(), &[(ARTICLE, "# Main")]);
    assert!(matches!(status, Status::Failed(_)));
}

#[test]
fn tab_missing_file_key_errors() {
    let meta = Some(node(r#"{"tabs": [{"title": "NoFile"}]}"#));
    let (_ast, _meta, status) = run_tabs(vec![], meta, &resolver(), &[(ARTICLE, "# Main")]);
    assert!(matches!(status, Status::Failed(IncludeError::MissingSrc)));
}

#[test]
fn empty_tabs_array_is_noop() {
    let ast = vec![node(r#"{"t": "paragraph"}"#)];
    let meta = Some(node(r#"{"tabs": []}"#));
    let (ast, _meta, status) = run_tabs(ast, meta, &resolver(), &[(ARTICLE, "# Main")]);
    assert!(matches!(status, Status::Complete));
    let ast = vals(&ast);
    assert_eq!(ast.len(), 1);
    assert_eq!(ast[0]["t"], "paragraph");
}

#[test]
fn non_array_tabs_is_left_alone() {
    let ast = vec![node(r#"{"t": "paragraph"}"#)];
    let meta = Some(node(r#"{"tabs": "x", "title": "T"}"#));
    let (ast, meta, status) = run_tabs(ast, meta, &resolver(), &[(ARTICLE, "# Main")]);
    assert!(matches!(status, Status::Complete));
    assert_eq!(vals(&ast), vec![to_value(&node(r#"{"t": "paragraph"}"#))]);
    assert_eq!(to_value(meta.as_ref().unwrap()), to_value(&node(r#"{"tabs": "x", "title": "T"}"#)));
}

#[test]
fn empty_tabs_array_leaves_frontmatter() {
    let meta = Some(node(r#"{"tabs": [], "tab_default": "Main"}"#));
    let (_ast, meta, status) = run_tabs(vec![], meta, &resolver(), &[(ARTICLE, "# Main")]);
    assert!(matches!(status, Status::Complete));
    assert_eq!(to_value(meta.as_ref().unwrap()), to_value(&node(r#"{"tabs": [], "tab_default": "Main"}"#)));
}

#[test]
fn tab_file_keys_do_not_come_back() {
    let disk = [(ARTICLE, "# Main"), ("/tabs/extra.md", "---\ntab_default: X\ntabs: []\n---\n# E\n")];
    let meta = Some(node(r#"{"tabs": [{"file": "extra.md", "title": "E"}]}"#));
    let (_ast, meta, status) = run_tabs(vec![], meta, &resolver(), &disk);
    assert!(matches!(status, Status::Complete));
    let m = to_value(meta.as_ref().unwrap());
    assert!(m.get("tabs").is_none());
    assert!(m.get("tab_default").is_none());
    assert_eq!(m["has_tabs"], true);
}

#[test]
fn tab_without_title_is_untitled_and_failure_empties_ast() {
    let disk = [(ARTICLE, "# Main"), ("/tabs/one.md", "# One")];
    let ast = vec![node(r#"{"t": "paragraph"}"#)];
    let meta = Some(node(r#"{"tabs": [{"file": "one.md"}]}"#));
    let (out, _m, status) = run_tabs(ast, meta, &resolver(), &disk);
    assert!(matches!(status, Status::Complete));
    let out = vals(&out);
    assert_eq!(out[0]["children"][1]["title"], "Untitled");
    let ast = vec![node(r#"{"t": "paragraph"}"#)];
    let meta = Some(node(r#"{"tabs": [{"file": "one.md"}, {"title": "broken"}]}"#));
    let (out, m, status) = run_tabs(ast, meta, &resolver(), &disk);
    assert!(matches!(status, Status::Failed(IncludeError::MissingSrc)));
    assert!(out.is_empty());
    assert_eq!(to_value(m.as_ref().unwrap())["has_tabs"], true);
}

#[test]
fn non_object_frontmatter_is_left_alone() {
    let ast = vec![node(r#"{"t": "paragraph"}"#)];
    let (out, meta, status) = run_tabs(ast, Some(node(r#""text""#)), &resolver(), &[(ARTICLE, "")]);
    assert!(matches!(status, Status::Complete));
    assert_eq!(out.len(), 1);
    assert_eq!(to_value(meta.as_ref().unwrap()), Value::from("text"));
}
