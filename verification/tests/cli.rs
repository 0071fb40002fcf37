use markplus::cli::{
    compile_target, compile_target_of, default_render_template, render_template, CompileArgs, CompileTarget,
    RenderArgs,
};

fn compile_args(output: &str, template: Option<&str>, pretty: bool) -> CompileArgs {
    CompileArgs {
        file: "article.md".to_string(),
        output: output.to_string(),
        template: template.map(|t| t.to_string()),
        templates_dir: "templates".to_string(),
        pretty,
    }
}

fn render_args(output: &str, template: Option<&str>) -> RenderArgs {
    RenderArgs {
        file: "article.md".to_string(),
        output: output.to_string(),
        template: template.map(|t| t.to_string()),
        templates_dir: "templates".to_string(),
    }
}

#[test]
fn compile_json_writes_ast() {
    match compile_target(&compile_args("out/article.json", None, true)) {
        CompileTarget::Ast { pretty } => assert!(pretty),
        other => panic!("unexpected {:?}", other),
    }
    match compile_target(&compile_args("article.json", Some("x.tera"), false)) {
        CompileTarget::Ast { pretty } => assert!(!pretty),
        other => panic!("unexpected {:?}", other),
    }
}

#[test]
fn compile_html_uses_default_html_template() {
    match compile_target(&compile_args("site/index.html", None, false)) {
        CompileTarget::Render { template } => assert_eq!(template, "default/article.html.tera"),
        other => panic!("unexpected {:?}", other),
    }
}

#[test]
fn compile_typ_and_pdf_use_typst_template() {
    for out in ["paper.typ", "paper.pdf"] {
        match compile_target(&compile_args(out, None, false)) {
            CompileTarget::Render { template } => assert_eq!(template, "default/article.typ.tera"),
            other => panic!("unexpected {:?}", other),
        }
    }
}

#[test]
fn compile_named_template_wins() {
    match compile_target(&compile_args("paper.pdf", Some("mine.typ.tera"), false)) {
        CompileTarget::Render { template } => assert_eq!(template, "mine.typ.tera"),
        other => panic!("unexpected {:?}", other),
    }
}

#[test]
fn compile_unknown_extension_is_unsupported() {
    match compile_target(&compile_args("notes.txt", None, false)) {
        CompileTarget::Unsupported(ext) => assert_eq!(ext, "txt"),
        other => panic!("unexpected {:?}", other),
    }
    match compile_target(&compile_args("README", None, false)) {
        CompileTarget::Unsupported(ext) => assert_eq!(ext, ""),
        other => panic!("unexpected {:?}", other),
    }
}

#[test]
fn render_default_templates() {
    assert_eq!(render_template(&render_args("a.html", None)), Ok("default/article.html.tera".to_string()));
    assert_eq!(render_template(&render_args("a.typ", None)), Ok("default/article.typ.tera".to_string()));
    assert_eq!(render_template(&render_args("a.pdf", None)), Ok("default/article.typ.tera".to_string()));
}

#[test]
fn render_named_template_for_any_extension() {
    assert_eq!(render_template(&render_args("a.docx", Some("t.tera"))), Ok("t.tera".to_string()));
}

#[test]
fn render_unknown_extension_without_template_is_refused() {
    assert_eq!(render_template(&render_args("a.docx", None)), Err("docx".to_string()));
    assert_eq!(render_template(&render_args("a", None)), Err("".to_string()));
}

#[test]
fn compile_target_of_extensions() {
    assert!(matches!(compile_target_of("json".to_string(), &None, true), CompileTarget::Ast { pretty: true }));
    match compile_target_of("typ".to_string(), &Some("t.tera".to_string()), false) {
        CompileTarget::Render { template } => assert_eq!(template, "t.tera"),
        other => panic!("unexpected {:?}", other),
    }
    match compile_target_of("JSON".to_string(), &None, false) {
        CompileTarget::Unsupported(e) => assert_eq!(e, "JSON"),
        other => panic!("unexpected {:?}", other),
    }
}

#[test]
fn default_render_templates_by_extension() {
    assert_eq!(default_render_template("html".to_string()), Ok("default/article.html.tera".to_string()));
    assert_eq!(default_render_template("pdf".to_string()), Ok("default/article.typ.tera".to_string()));
    assert_eq!(default_render_template("md".to_string()), Err("md".to_string()));
}
