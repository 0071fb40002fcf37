use markplus::document::{process_includes, Document};
use markplus::error::IncludeError;
use markplus::handlers::IncludeKind;
use markplus::includes::{expand_nodes, is_include_node, Status};
use markplus::json::Json;
use markplus::loads::{Loaded, Loads, Need};
use markplus::paths::CanonFailure;
use markplus::resolve::PathResolver;
use serde_json::Value;

fn to_json(v: &Value) -> Json {
    match v {
        Value::Null => Json::Null,
        Value::Bool(b) => Json::Bool(*b),
        Value::Number(n) => Json::Number(n.to_string()),
        Value::String(s) => Json::Str(s.clone()),
        Value::Array(a) => Json::Array(a.iter().map(to_json).collect()),
        Value::Object(m) => Json::Object(m.iter().map(|(k, v)| (k.clone(), to_json(v))).collect()),
    }
}

fn to_value(j: &Json) -> Value {
    match j {
        Json::Null => Value::Null,
        Json::Bool(b) => Value::Bool(*b),
        Json::Number(n) => serde_json::from_str(n).unwrap(),
        Json::Str(s) => Value::String(s.clone()),
        Json::Array(a) => Value::Array(a.iter().map(to_value).collect()),
        Json::Object(m) => {
            let mut map = serde_json::Map::new();
            for (k, v) in m {
                map.insert(k.clone(), to_value(v));
            }
            Value::Object(map)
        },
    }
}

fn node(text: &str) -> Json {
    to_json(&serde_json::from_str::<Value>(text).unwrap())
}

fn copy(doc: &Document) -> Document {
    Document {
        meta: doc.meta.as_ref().map(|m| m.deep_clone()),
        ast: doc.ast.iter().map(|n| n.deep_clone()).collect(),
    }
}

/// Answer a need from an in-memory file system of (path, content) pairs.
fn answer(loads: &mut Loads, need: Need, disk: &[(&str, &str)]) {
    match need {
        Need::Canonical(j) => {
            let found = disk.iter().any(|(p, _)| *p == j);
            let outcome = if found { Ok(j.clone()) } else { Err(CanonFailure::NotFound) };
            loads.record_canonical(j, outcome);
        },
        Need::File(req) => {
            let content = disk.iter().find(|(p, _)| *p == req.path).map(|(_, c)| *c);
            let loaded = match content {
                None => Loaded::Unreadable("No such file or directory (os error 2)".to_string()),
                Some(c) => load(&req.path, req.kind, &req.attrs, c),
            };
            loads.record_file(req, loaded);
        },
    }
}

fn nodes_of(r: Result<Vec<Value>, String>) -> Loaded {
    match r {
        Ok(v) => Loaded::Content { meta: None, nodes: v.iter().map(to_json).collect() },
        Err(m) => Loaded::Unparsable(m),
    }
}

fn load(path: &str, kind: IncludeKind, attrs: &Json, c: &str) -> Loaded {
    match kind {
        IncludeKind::Markdown => match markplus_core::parse_document(c) {
            Ok(a) => Loaded::Content {
                meta: a.meta.as_ref().map(to_json),
                nodes: a.ast.iter().map(to_json).collect(),
            },
            Err(e) => Loaded::Unparsable(e.to_string()),
        },
        IncludeKind::Csv => {
            let opts = markplus_core::CsvReadOptions { header: true, ..Default::default() };
            nodes_of(markplus_core::csv::parse_csv_to_table_ast_str(c, &opts).map(|v| vec![v]))
        },
        IncludeKind::Json => nodes_of(markplus_core::parse_json_data_to_ast(c)),
        IncludeKind::Mermaid => {
            let map = match to_value(attrs) {
                Value::Object(m) => m,
                _ => serde_json::Map::new(),
            };
            nodes_of(Ok(vec![markplus_core::parse_mermaid_to_fenced_ast(c, &map)]))
        },
        IncludeKind::Code => {
            let ext = std::path::Path::new(path).extension().and_then(|e| e.to_str()).unwrap_or("");
            nodes_of(Ok(vec![markplus_core::parse_code_to_fenced_ast(c, ext)]))
        },
    }
}

/// Process a document against an in-memory file system, answering each
/// need and running again until expansion completes or fails.
fn run(doc: &Document, resolver: &PathResolver, disk: &[(&str, &str)]) -> (Document, Status) {
    let mut loads = Loads::new();
    for _ in 0..100 {
        let mut d = copy(doc);
        match process_includes(&mut d, resolver, &loads) {
            Status::Needs(n) => answer(&mut loads, n, disk),
            other => return (d, other),
        }
    }
    panic!("expansion did not settle");
}

fn asset_with_include(src: &str) -> Document {
    Document {
        meta: None,
        ast: vec![
            node(r#"{"t": "heading", "level": 1, "children": [{"t": "text", "text": "Before"}]}"#),
            node(&format!(r#"{{"t": "fenced", "name": "include", "attrs": {{"src": "{}"}}, "raw": ""}}"#, src)),
            node(r#"{"t": "paragraph", "children": [{"t": "text", "text": "After"}]}"#),
        ],
    }
}

fn values(doc: &Document) -> Vec<Value> {
    doc.ast.iter().map(to_value).collect()
}

const ARTICLE: &str = "/work/article.md";

#[test]
fn process_includes_markdown() {
    let disk = [(ARTICLE, "# Main\n"), ("/work/chapter.md", "## Chapter\n\nContent.\n")];
    let resolver = PathResolver::new(ARTICLE, None);
    let (asset, status) = run(&asset_with_include("chapter.md"), &resolver, &disk);
    assert!(matches!(status, Status::Complete));
    let ast = values(&asset);
    assert!(ast.iter().any(|n| n["t"] == "heading" && n["level"] == 2));
    assert_eq!(ast[0]["t"], "heading");
    assert!(ast.last().unwrap()["t"] == "paragraph");
}

#[test]
fn process_includes_csv() {
    let disk = [(ARTICLE, ""), ("/work/data.csv", "Name,Value\nA,1\n")];
    let resolver = PathResolver::new(ARTICLE, None);
    let (asset, status) = run(&asset_with_include("data.csv"), &resolver, &disk);
    assert!(matches!(status, Status::Complete));
    assert!(values(&asset).iter().any(|n| n["t"] == "table"));
}

#[test]
fn process_includes_code() {
    let disk = [(ARTICLE, ""), ("/work/example.py", "x = 42\n")];
    let resolver = PathResolver::new(ARTICLE, None);
    let (asset, status) = run(&asset_with_include("example.py"), &resolver, &disk);
    assert!(matches!(status, Status::Complete));
    let ast = values(&asset);
    let fenced = ast.iter().find(|n| n["t"] == "fenced").unwrap();
    assert_eq!(fenced["name"], "python");
}

#[test]
fn process_includes_nested() {
    let disk = [
        (ARTICLE, ""),
        ("/work/outer.md", "# Outer Heading\n"),
        ("/work/inner.md", "## Inner\n"),
    ];
    let resolver = PathResolver::new(ARTICLE, None);
    let asset = Document {
        meta: None,
        ast: vec![node(r#"{"t": "fenced", "name": "include", "attrs": {"src": "outer.md"}, "raw": ""}"#)],
    };
    let (asset, status) = run(&asset, &resolver, &disk);
    assert!(matches!(status, Status::Complete));
    assert!(values(&asset).iter().any(|n| n["t"] == "heading"));
}

#[test]
fn markdown_includes_inside_markdown_are_expanded() {
    let disk = [
        (ARTICLE, ""),
        ("/work/outer.md", "# Outer\n\n```include src=sub/inner.md\n```\n"),
        ("/work/sub/inner.md", "## Inner\n\n```include src=leaf.py\n```\n"),
        ("/work/sub/leaf.py", "y = 1\n"),
    ];
    let resolver = PathResolver::new(ARTICLE, None);
    let (asset, status) = run(&asset_with_include("outer.md"), &resolver, &disk);
    assert!(matches!(status, Status::Complete));
    let ast = values(&asset);
    assert!(ast.iter().any(|n| n["t"] == "heading" && n["level"] == 2));
    assert!(ast.iter().any(|n| n["t"] == "fenced" && n["name"] == "python"));
    assert!(!asset.ast.iter().any(is_include_node));
}

#[test]
fn circular_include_detected() {
    let disk = [(ARTICLE, ""), ("/work/a.md", "# A\n")];
    let resolver = PathResolver::new(ARTICLE, None);
    let mut loads = Loads::new();
    loads.record_canonical("/work/a.md".to_string(), Ok("/work/a.md".to_string()));
    let _ = disk;
    let mut seen = vec!["/work/a.md".to_string()];
    let ast = vec![node(r#"{"t": "fenced", "name": "include", "attrs": {"src": "a.md"}, "raw": ""}"#)];
    let mut meta = None;
    let (_, status) = expand_nodes(&ast, &mut meta, &resolver, &mut seen, &loads);
    assert!(matches!(status, Status::Failed(IncludeError::CircularInclude(_))));
}

#[test]
fn self_including_markdown_is_circular() {
    let disk = [(ARTICLE, ""), ("/work/a.md", "# A\n\n```include src=a.md\n```\n")];
    let resolver = PathResolver::new(ARTICLE, None);
    let (_, status) = run(&asset_with_include("a.md"), &resolver, &disk);
    match status {
        Status::Failed(IncludeError::CircularInclude(p)) => assert_eq!(p, "/work/a.md"),
        other => panic!("unexpected {:?}", other),
    }
}

#[test]
fn same_file_twice_is_not_circular() {
    let disk = [(ARTICLE, ""), ("/work/x.py", "z = 3\n")];
    let resolver = PathResolver::new(ARTICLE, None);
    let inc = r#"{"t": "fenced", "name": "include", "attrs": {"src": "x.py"}, "raw": ""}"#;
    let asset = Document { meta: None, ast: vec![node(inc), node(inc)] };
    let (asset, status) = run(&asset, &resolver, &disk);
    assert!(matches!(status, Status::Complete));
    assert_eq!(asset.ast.len(), 2);
    assert!(values(&asset).iter().all(|n| n["name"] == "python"));
}

#[test]
fn missing_src_attr_errors() {
    let resolver = PathResolver::new(ARTICLE, None);
    let asset = Document {
        meta: None,
        ast: vec![node(r#"{"t": "fenced", "name": "include", "attrs": {}, "raw": ""}"#)],
    };
    let (_, status) = run(&asset, &resolver, &[(ARTICLE, "")]);
    assert!(matches!(status, Status::Failed(IncludeError::MissingSrc)));
}

#[test]
fn non_include_nodes_pass_through() {
    let resolver = PathResolver::new(ARTICLE, None);
    let asset = Document {
        meta: None,
        ast: vec![
            node(r#"{"t": "heading", "level": 1, "children": [{"t": "text", "text": "Hello"}]}"#),
            node(r#"{"t": "fenced", "name": "python", "attrs": {}, "raw": "x = 1"}"#),
        ],
    };
    let (asset, status) = run(&asset, &resolver, &[(ARTICLE, "")]);
    assert!(matches!(status, Status::Complete));
    let ast = values(&asset);
    assert_eq!(ast.len(), 2);
    assert_eq!(ast[0]["t"], "heading");
    assert_eq!(ast[1]["name"], "python");
}

#[test]
fn is_include_node_detection() {
    assert!(is_include_node(&node(r#"{"t": "fenced", "name": "include", "attrs": {"src": "x"}}"#)));
    assert!(!is_include_node(&node(r#"{"t": "fenced", "name": "python"}"#)));
    assert!(!is_include_node(&node(r#"{"t": "heading"}"#)));
}

#[test]
fn include_inside_blockquote() {
    let disk = [(ARTICLE, ""), ("/work/snippet.py", "y = 2\n")];
    let resolver = PathResolver::new(ARTICLE, None);
    let asset = Document {
        meta: None,
        ast: vec![node(
            r#"{"t": "blockquote", "children": [{"t": "fenced", "name": "include", "attrs": {"src": "snippet.py"}, "raw": ""}]}"#,
        )],
    };
    let (asset, status) = run(&asset, &resolver, &disk);
    assert!(matches!(status, Status::Complete));
    let ast = values(&asset);
    let inner = &ast[0]["children"].as_array().unwrap()[0];
    assert_eq!(inner["t"], "fenced");
    assert_eq!(inner["name"], "python");
}

#[test]
fn include_inside_list_item() {
    let disk = [(ARTICLE, ""), ("/work/snippet.rs", "fn main() {}\n")];
    let resolver = PathResolver::new(ARTICLE, None);
    let asset = Document {
        meta: None,
        ast: vec![node(
            r#"{"t": "list", "items": [{"t": "item", "children": [{"t": "fenced", "name": "include", "attrs": {"src": "snippet.rs"}, "raw": ""}]}]}"#,
        )],
    };
    let (asset, status) = run(&asset, &resolver, &disk);
    assert!(matches!(status, Status::Complete));
    let ast = values(&asset);
    assert_eq!(ast[0]["items"][0]["children"][0]["name"], "rust");
}

#[test]
fn process_includes_with_tabs() {
    let disk = [(ARTICLE, ""), ("/work/extra.md", "# Extra Content\n")];
    let resolver = PathResolver::new(ARTICLE, None);
    let asset = Document {
        meta: Some(node(r#"{"title": "Main", "tabs": [{"file": "extra.md", "title": "Extra"}]}"#)),
        ast: vec![node(r#"{"t": "heading", "level": 1, "children": [{"t": "text", "text": "Main"}]}"#)],
    };
    let (asset, status) = run(&asset, &resolver, &disk);
    assert!(matches!(status, Status::Complete));
    let ast = values(&asset);
    assert_eq!(ast[0]["t"], "tab_group");
    let tabs = ast[0]["children"].as_array().unwrap();
    assert_eq!(tabs.len(), 2);
}

#[test]
fn markdown_include_merges_frontmatter() {
    let disk = [(ARTICLE, ""), ("/work/with_meta.md", "---\ntags:\n  - inner_tag\nauthor: Inner\n---\n# Title\n")];
    let resolver = PathResolver::new(ARTICLE, None);
    let mut asset = asset_with_include("with_meta.md");
    asset.meta = Some(node(r#"{"title": "Parent", "tags": ["outer_tag"]}"#));
    let (asset, status) = run(&asset, &resolver, &disk);
    assert!(matches!(status, Status::Complete));
    let m = to_value(asset.meta.as_ref().unwrap());
    assert_eq!(m["title"], "Parent");
    assert_eq!(m["author"], "Inner");
    let tags = m["tags"].as_array().unwrap();
    assert!(tags.contains(&Value::from("outer_tag")));
    assert!(tags.contains(&Value::from("inner_tag")));
}

#[test]
fn missing_included_file_errors() {
    let resolver = PathResolver::new(ARTICLE, None);
    let (asset, status) = run(&asset_with_include("nowhere.md"), &resolver, &[(ARTICLE, "")]);
    match status {
        Status::Failed(IncludeError::FileNotFound(p)) => assert_eq!(p, "/work/nowhere.md"),
        other => panic!("unexpected {:?}", other),
    }
    // the include directive is left in place
    assert!(is_include_node(&asset.ast[1]));
}

#[test]
fn unknown_extension_errors() {
    let disk = [(ARTICLE, ""), ("/work/file.xyz", "data")];
    let resolver = PathResolver::new(ARTICLE, None);
    let (_, status) = run(&asset_with_include("file.xyz"), &resolver, &disk);
    match status {
        Status::Failed(IncludeError::UnsupportedExtension(e)) => assert_eq!(e, "xyz"),
        other => panic!("unexpected {:?}", other),
    }
}

#[test]
fn root_prefix_without_root_errors() {
    let resolver = PathResolver::new(ARTICLE, None);
    let (_, status) = run(&asset_with_include("@/x.md"), &resolver, &[(ARTICLE, "")]);
    assert!(matches!(status, Status::Failed(IncludeError::NoConfigRoot)));
}

#[test]
fn root_prefix_with_root_resolves() {
    let disk = [(ARTICLE, ""), ("/proj/shared.py", "s = 0\n")];
    let resolver = PathResolver::new(ARTICLE, Some("/proj"));
    let (asset, status) = run(&asset_with_include("@/shared.py"), &resolver, &disk);
    assert!(matches!(status, Status::Complete));
    assert_eq!(values(&asset)[1]["name"], "python");
}

#[test]
fn mermaid_include_passes_attrs() {
    let disk = [(ARTICLE, ""), ("/work/flow.mmd", "graph TD\n  A-->B\n")];
    let resolver = PathResolver::new(ARTICLE, None);
    let asset = Document {
        meta: None,
        ast: vec![node(r#"{"t": "fenced", "name": "include", "attrs": {"src": "flow.mmd", "theme": "dark"}, "raw": ""}"#)],
    };
    let (asset, status) = run(&asset, &resolver, &disk);
    assert!(matches!(status, Status::Complete));
    let ast = values(&asset);
    assert_eq!(ast[0]["name"], "mermaid");
    assert_eq!(ast[0]["attrs"]["theme"], "dark");
    assert!(ast[0]["attrs"].get("src").is_none());
}

#[test]
fn json_include_becomes_definition_list() {
    let disk = [(ARTICLE, ""), ("/work/obj.json", r#"{"key":"val","num":42}"#)];
    let resolver = PathResolver::new(ARTICLE, None);
    let (asset, status) = run(&asset_with_include("obj.json"), &resolver, &disk);
    assert!(matches!(status, Status::Complete));
    assert_eq!(values(&asset)[1]["t"], "definition_list");
}

#[test]
fn broken_json_include_errors() {
    let disk = [(ARTICLE, ""), ("/work/bad.json", "{not json")];
    let resolver = PathResolver::new(ARTICLE, None);
    let (_, status) = run(&asset_with_include("bad.json"), &resolver, &disk);
    match status {
        Status::Failed(IncludeError::JsonParse { path, source }) => {
            assert_eq!(path, "/work/bad.json");
            // the source text is the error of reading the loader's message as JSON
            assert!(!source.is_empty());
        },
        other => panic!("unexpected {:?}", other),
    }
}

#[test]
fn unreadable_json_include_is_io_error() {
    let resolver = PathResolver::new(ARTICLE, None);
    let mut loads = Loads::new();
    loads.record_canonical("/work/gone.json".to_string(), Ok("/work/gone.json".to_string()));
    let asset = asset_with_include("gone.json");
    let mut d = copy(&asset);
    let status = process_includes(&mut d, &resolver, &loads);
    let req = match status {
        Status::Needs(Need::File(r)) => r,
        other => panic!("unexpected {:?}", other),
    };
    loads.record_file(req, Loaded::Unreadable("No such file or directory (os error 2)".to_string()));
    let mut d = copy(&asset);
    match process_includes(&mut d, &resolver, &loads) {
        Status::Failed(IncludeError::Io { path, source }) => {
            assert_eq!(path, "/work/gone.json");
            assert_eq!(source, "No such file or directory (os error 2)");
        },
        other => panic!("unexpected {:?}", other),
    }
}

#[test]
fn expansion_asks_for_canonical_path_first() {
    let resolver = PathResolver::new(ARTICLE, None);
    let loads = Loads::new();
    let mut d = asset_with_include("chapter.md");
    match process_includes(&mut d, &resolver, &loads) {
        Status::Needs(Need::Canonical(j)) => assert_eq!(j, "/work/chapter.md"),
        other => panic!("unexpected {:?}", other),
    }
}

#[test]
fn answered_needs_are_not_asked_again() {
    let disk = [(ARTICLE, ""), ("/work/a.md", "# A\n\n```include src=b.py\n```\n"), ("/work/b.py", "b = 1\n")];
    let resolver = PathResolver::new(ARTICLE, None);
    let asset = asset_with_include("a.md");
    let mut loads = Loads::new();
    let mut asked: Vec<String> = Vec::new();
    loop {
        let mut d = copy(&asset);
        match process_includes(&mut d, &resolver, &loads) {
            Status::Needs(n) => {
                let key = format!("{:?}", n);
                assert!(!asked.contains(&key));
                asked.push(key);
                answer(&mut loads, n, &disk);
            },
            Status::Complete => break,
            Status::Failed(e) => panic!("unexpected {:?}", e),
        }
    }
    assert_eq!(asked.len(), 4);
}
