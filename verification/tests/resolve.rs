use markplus::error::IncludeError;
use markplus::resolve::PathResolver;
use std::io::Write;
use std::path::{Path, PathBuf};

/// Create `name` under `dir` with `content`; it is removed with `dir`.
fn write_file(dir: &Path, name: &str, content: &str) -> PathBuf {
    let mut f = tempfile::Builder::new()
        .prefix(name)
        .suffix("")
        .rand_bytes(0)
        .keep(true)
        .tempfile_in(dir)
        .unwrap();
    f.write_all(content.as_bytes()).unwrap();
    f.path().to_path_buf()
}

/// Create the directory `name` under `dir`; it is removed with `dir`.
fn make_dir(dir: &Path, name: &str) -> PathBuf {
    let d = tempfile::Builder::new()
        .prefix(name)
        .rand_bytes(0)
        .keep(true)
        .tempdir_in(dir)
        .unwrap();
    d.path().to_path_buf()
}

fn text(p: &Path) -> &str {
    p.to_str().unwrap()
}

fn canonical(p: &Path) -> String {
    p.canonicalize().unwrap().to_str().unwrap().to_string()
}

/// A temp directory with `docs/article.md` and an empty `project/`.
fn setup_temp_dir() -> (tempfile::TempDir, PathBuf, PathBuf) {
    let tmp = tempfile::tempdir().unwrap();
    let docs = make_dir(tmp.path(), "docs");
    let article = write_file(&docs, "article.md", "# test");
    let root = make_dir(tmp.path(), "project");
    (tmp, article, root)
}

#[test]
fn resolve_relative_path() {
    let (_tmp, article, _root) = setup_temp_dir();
    let sibling = write_file(article.parent().unwrap(), "other.md", "# other");
    let resolver = PathResolver::new(text(&article), None);
    let resolved = resolver.resolve("other.md").unwrap();
    assert_eq!(resolved, canonical(&sibling));
}

#[test]
fn resolve_absolute_path() {
    let (_tmp, article, _root) = setup_temp_dir();
    let target = write_file(article.parent().unwrap(), "abs.md", "# abs");
    let resolver = PathResolver::new(text(&article), None);
    let resolved = resolver.resolve(text(&target)).unwrap();
    assert_eq!(resolved, canonical(&target));
}

#[test]
fn resolve_at_prefix() {
    let (_tmp, article, root) = setup_temp_dir();
    let target = write_file(&root, "shared.md", "# shared");
    let resolver = PathResolver::new(text(&article), Some(text(&root)));
    let resolved = resolver.resolve("@/shared.md").unwrap();
    assert_eq!(resolved, canonical(&target));
}

#[test]
fn resolve_at_prefix_without_root_errors() {
    let (_tmp, article, _root) = setup_temp_dir();
    let resolver = PathResolver::new(text(&article), None);
    let result = resolver.resolve("@/shared.md");
    assert!(matches!(result, Err(IncludeError::NoConfigRoot)));
}

#[test]
fn resolve_missing_file_errors() {
    let (_tmp, article, _root) = setup_temp_dir();
    let resolver = PathResolver::new(text(&article), None);
    let result = resolver.resolve("nonexistent.md");
    assert!(matches!(result, Err(IncludeError::FileNotFound(_))));
}

#[test]
fn article_dir_accessor() {
    let (_tmp, article, _root) = setup_temp_dir();
    let resolver = PathResolver::new(text(&article), None);
    assert_eq!(resolver.article_dir().as_str(), text(article.parent().unwrap()));
}

#[test]
fn config_root_accessor() {
    let (_tmp, article, root) = setup_temp_dir();
    let resolver = PathResolver::new(text(&article), Some(text(&root)));
    assert_eq!(resolver.config_root().map(|s| s.as_str()), Some(text(&root)));
}

#[test]
fn config_root_none_when_not_set() {
    let (_tmp, article, _root) = setup_temp_dir();
    let resolver = PathResolver::new(text(&article), None);
    assert!(resolver.config_root().is_none());
}

#[test]
fn resolve_parent_relative() {
    let tmp = tempfile::tempdir().unwrap();
    let sub = make_dir(tmp.path(), "sub");
    let article = write_file(&sub, "article.md", "# a");
    let target = write_file(tmp.path(), "root_file.md", "# root");
    let resolver = PathResolver::new(text(&article), None);
    let resolved = resolver.resolve("../root_file.md").unwrap();
    assert_eq!(resolved, canonical(&target));
}

#[test]
fn missing_file_error_names_the_joined_path() {
    let resolver = PathResolver::new("/no/such/dir/article.md", None);
    match resolver.resolve("missing.md") {
        Err(IncludeError::FileNotFound(p)) => assert_eq!(p, "/no/such/dir/missing.md"),
        other => panic!("unexpected {:?}", other),
    }
}

#[test]
fn target_joins_relative_paths_to_the_article_dir() {
    let resolver = PathResolver::new("/docs/guide/article.md", Some("/project"));
    assert_eq!(resolver.target("chapter.md").unwrap(), "/docs/guide/chapter.md");
    assert_eq!(resolver.target("../up.md").unwrap(), "/docs/guide/../up.md");
    assert_eq!(resolver.target("/abs/x.md").unwrap(), "/abs/x.md");
    assert_eq!(resolver.target("@/shared/x.md").unwrap(), "/project/shared/x.md");
    assert_eq!(resolver.target("@x.md").unwrap(), "/docs/guide/@x.md");
}

#[test]
fn article_without_directory_uses_empty_parent() {
    let resolver = PathResolver::new("article.md", None);
    assert_eq!(resolver.article_dir().as_str(), "");
    assert_eq!(resolver.target("x.md").unwrap(), "x.md");
    let rootless = PathResolver::new("", None);
    assert_eq!(rootless.article_dir().as_str(), ".");
}

#[test]
fn at_prefix_with_absolute_rest_replaces_the_root() {
    let resolver = PathResolver::new("/docs/a.md", Some("/project"));
    assert_eq!(resolver.target("@//etc/x.md").unwrap(), "/etc/x.md");
}
