use markplus::error::IncludeError;
use markplus::handlers::{
    extension_text, include_kind, json_parse_failure, kind_of_extension, load_error, IncludeKind,
};

fn kind(path: &str) -> IncludeKind {
    match include_kind(path) {
        Ok(k) => k,
        Err(e) => panic!("unexpected error {:?}", e),
    }
}

fn s(t: &str) -> String {
    t.to_string()
}

#[test]
fn kinds_by_extension() {
    assert_eq!(kind("a/b.md"), IncludeKind::Markdown);
    assert_eq!(kind("b.markdown"), IncludeKind::Markdown);
    assert_eq!(kind("t.csv"), IncludeKind::Csv);
    assert_eq!(kind("d.json"), IncludeKind::Json);
    assert_eq!(kind("g.mmd"), IncludeKind::Mermaid);
    assert_eq!(kind("g.mermaid"), IncludeKind::Mermaid);
    assert_eq!(kind("x.py"), IncludeKind::Code);
    assert_eq!(kind("x.rs"), IncludeKind::Code);
    assert_eq!(kind("page.html"), IncludeKind::Code);
}

#[test]
fn unknown_extension_is_refused() {
    match include_kind("x.xyz") {
        Err(IncludeError::UnsupportedExtension(e)) => assert_eq!(e, "xyz"),
        other => panic!("unexpected {:?}", other),
    }
    match include_kind("Makefile") {
        Err(IncludeError::UnsupportedExtension(e)) => assert_eq!(e, ""),
        other => panic!("unexpected {:?}", other),
    }
}

#[test]
fn extension_text_of_paths() {
    assert_eq!(extension_text("/a/b/c.tar.gz"), "gz");
    assert_eq!(extension_text("/a/b/c"), "");
    assert_eq!(extension_text(".hidden"), "");
}

#[test]
fn markdown_load_errors() {
    match load_error(IncludeKind::Markdown, &s("p.md"), true, &s("denied")) {
        IncludeError::Io { path, source } => {
            assert_eq!(path, "p.md");
            assert_eq!(source, "denied");
        },
        other => panic!("unexpected {:?}", other),
    }
    match load_error(IncludeKind::Markdown, &s("p.md"), false, &s("bad")) {
        IncludeError::MarkdownParse { path, message } => {
            assert_eq!(path, "p.md");
            assert_eq!(message, "bad");
        },
        other => panic!("unexpected {:?}", other),
    }
}

#[test]
fn csv_mermaid_code_load_errors() {
    match load_error(IncludeKind::Csv, &s("t.csv"), true, &s("m")) {
        IncludeError::CsvParse { path, message } => {
            assert_eq!(path, "t.csv");
            assert_eq!(message, "m");
        },
        other => panic!("unexpected {:?}", other),
    }
    match load_error(IncludeKind::Mermaid, &s("g.mmd"), false, &s("m")) {
        IncludeError::Io { source, .. } => assert_eq!(source, "m"),
        other => panic!("unexpected {:?}", other),
    }
    match load_error(IncludeKind::Code, &s("x.py"), true, &s("m")) {
        IncludeError::Io { source, .. } => assert_eq!(source, "m"),
        other => panic!("unexpected {:?}", other),
    }
}

#[test]
fn json_missing_file_is_io() {
    let m = s("No such file or directory (os error 2)");
    match load_error(IncludeKind::Json, &s("d.json"), true, &m) {
        IncludeError::Io { path, source } => {
            assert_eq!(path, "d.json");
            assert_eq!(source, m);
        },
        other => panic!("unexpected {:?}", other),
    }
}

#[test]
fn json_parse_failure_carries_parser_error() {
    let m = s("key must be a string at line 2 column 3");
    let expected = serde_json::from_str::<serde_json::Value>(&m).unwrap_err().to_string();
    match load_error(IncludeKind::Json, &s("d.json"), false, &m) {
        IncludeError::JsonParse { path, source } => {
            assert_eq!(path, "d.json");
            assert_eq!(source, expected);
            assert_ne!(source, m);
        },
        other => panic!("unexpected {:?}", other),
    }
}

#[test]
fn json_parse_failure_with_json_message_keeps_message() {
    let m = s("42");
    match load_error(IncludeKind::Json, &s("d.json"), false, &m) {
        IncludeError::JsonParse { source, .. } => assert_eq!(source, "42"),
        other => panic!("unexpected {:?}", other),
    }
}

#[test]
fn code_missing_file_errors() {
    let path = "/nonexistent/code.py";
    let m = markplus_core::read_code_as_fenced_ast(std::path::Path::new(path)).unwrap_err();
    assert!(matches!(load_error(IncludeKind::Code, &s(path), true, &m), IncludeError::Io { .. }));
}

#[test]
fn csv_missing_file_errors() {
    let path = "/nonexistent/data.csv";
    let opts = markplus_core::CsvReadOptions { header: true, ..Default::default() };
    let m = markplus_core::read_csv_as_table_ast(std::path::Path::new(path), &opts).unwrap_err();
    assert!(matches!(load_error(IncludeKind::Csv, &s(path), true, &m), IncludeError::CsvParse { .. }));
}

#[test]
fn include_missing_file_errors() {
    let path = "/nonexistent/file.md";
    let m = s("No such file or directory (os error 2)");
    assert!(matches!(load_error(IncludeKind::Markdown, &s(path), true, &m), IncludeError::Io { .. }));
}

#[test]
fn mermaid_missing_file_errors() {
    let path = "/nonexistent/diagram.mmd";
    let attrs = serde_json::Map::new();
    let m = markplus_core::mermaid::read_mermaid_as_fenced_ast_with_attrs(std::path::Path::new(path), &attrs)
        .unwrap_err();
    assert!(matches!(load_error(IncludeKind::Mermaid, &s(path), true, &m), IncludeError::Io { .. }));
}

#[test]
fn dispatch_unknown_extension_errors() {
    assert!(matches!(include_kind("/tmp/file.xyz"), Err(IncludeError::UnsupportedExtension(_))));
}

#[test]
fn kind_of_extension_by_name() {
    assert_eq!(kind_of_extension(s("markdown")).unwrap(), IncludeKind::Markdown);
    assert_eq!(kind_of_extension(s("mermaid")).unwrap(), IncludeKind::Mermaid);
    assert_eq!(kind_of_extension(s("graphql")).unwrap(), IncludeKind::Code);
    assert!(matches!(kind_of_extension(s("MD")), Err(IncludeError::UnsupportedExtension(e)) if e == "MD"));
}

#[test]
fn json_parse_failure_sources() {
    match json_parse_failure(&s("d.json"), &s("msg"), Some(s("parser says"))) {
        IncludeError::JsonParse { path, source } => {
            assert_eq!(path, "d.json");
            assert_eq!(source, "parser says");
        },
        other => panic!("unexpected {:?}", other),
    }
    match json_parse_failure(&s("d.json"), &s("msg"), None) {
        IncludeError::JsonParse { source, .. } => assert_eq!(source, "msg"),
        other => panic!("unexpected {:?}", other),
    }
}
