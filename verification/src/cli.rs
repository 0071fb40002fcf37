//! The arguments of the command-line subcommands, and the decisions the
//! subcommands take from them.

use vstd::prelude::*;
use crate::handlers::{extension_or_empty, extension_text};
use crate::text::{is_text, owned};

verus! {

/// Arguments for the `compile` subcommand: parse a Markdown file and write
/// the result to `output`, in the format its extension names (`.json` for
/// the AST, `.html`, `.typ` or `.pdf` for a rendering).
pub struct CompileArgs {
    /// Input Markdown file
    pub file: String,
    /// Output file — format inferred from extension
    pub output: String,
    /// Tera template name (render targets only; inferred from extension if omitted)
    pub template: Option<String>,
    /// Templates directory (render targets only; default: "templates")
    pub templates_dir: String,
    /// Pretty-print JSON output (AST target only)
    pub pretty: bool,
}

/// Arguments for the `core` subcommand: parse a Markdown file and print its
/// AST as JSON.
pub struct CoreArgs {
    /// Input Markdown file
    pub file: String,
    /// Emit AST JSON (pretty)
    pub pretty: bool,
}

/// Arguments for the `render` subcommand: parse a Markdown file and render
/// it to `output` (`.html`, `.typ` or `.pdf`).
pub struct RenderArgs {
    /// Input Markdown file
    pub file: String,
    /// Output file (.html, .typ, or .pdf — format is inferred from extension)
    pub output: String,
    /// Tera template name to use
    pub template: Option<String>,
    /// Templates directory (default: "templates")
    pub templates_dir: String,
}

/// What the `compile` subcommand writes.
#[derive(Debug)]
pub enum CompileTarget {
    /// The AST as JSON, pretty-printed or compact.
    Ast { pretty: bool },
    /// A rendering through the named template.
    Render { template: String },
    /// The output extension names no format; it is carried.
    Unsupported(String),
}

pub enum CompileTargetV {
    Ast { pretty: bool },
    Render { template: Seq<char> },
    Unsupported(Seq<char>),
}

impl View for CompileTarget {
    type V = CompileTargetV;

    open spec fn view(&self) -> CompileTargetV {
        match self {
            CompileTarget::Ast { pretty } => CompileTargetV::Ast { pretty: *pretty },
            CompileTarget::Render { template } => CompileTargetV::Render { template: template@ },
            CompileTarget::Unsupported(e) => CompileTargetV::Unsupported(e@),
        }
    }
}

/// The template an HTML rendering uses unless one is named.
pub open spec fn html_template() -> Seq<char> {
    "default/article.html.tera"@
}

/// The template a Typst or PDF rendering uses unless one is named.
pub open spec fn typst_template() -> Seq<char> {
    "default/article.typ.tera"@
}

pub open spec fn opt_string(o: Option<String>) -> Option<Seq<char>> {
    match o {
        Some(s) => Some(s@),
        None => None,
    }
}

/// What `compile` writes for an output extension `ext`, given the template
/// the user named, if any, and the `pretty` flag.
pub open spec fn compile_target_for(ext: Seq<char>, template: Option<Seq<char>>, pretty: bool) -> CompileTargetV {
    if ext == "json"@ {
        CompileTargetV::Ast { pretty }
    } else if ext == "html"@ || ext == "typ"@ || ext == "pdf"@ {
        CompileTargetV::Render {
            template: match template {
                Some(t) => t,
                None => if ext == "html"@ {
                    html_template()
                } else {
                    typst_template()
                },
            },
        }
    } else {
        CompileTargetV::Unsupported(ext)
    }
}

/// `compile` writes the AST for a `json` output, a rendering for an `html`,
/// `typ` or `pdf` output, with the named template whenever one is named and
/// otherwise the HTML default for `html` and the Typst default for `typ`
/// and `pdf`, and refuses any other extension.
pub proof fn law_compile_target(ext: Seq<char>, template: Option<Seq<char>>, pretty: bool)
    ensures
        ext == "json"@ ==> compile_target_for(ext, template, pretty) == (CompileTargetV::Ast { pretty }),
        (ext == "html"@ || ext == "typ"@ || ext == "pdf"@) && template is Some ==> compile_target_for(
            ext,
            template,
            pretty,
        ) == (CompileTargetV::Render { template: template->Some_0 }),
        ext == "html"@ && template is None ==> compile_target_for(ext, template, pretty) == (
        CompileTargetV::Render { template: "default/article.html.tera"@ }),
        (ext == "typ"@ || ext == "pdf"@) && template is None ==> compile_target_for(ext, template, pretty)
            == (CompileTargetV::Render { template: "default/article.typ.tera"@ }),
        !(ext == "json"@ || ext == "html"@ || ext == "typ"@ || ext == "pdf"@) ==> compile_target_for(
            ext,
            template,
            pretty,
        ) == CompileTargetV::Unsupported(ext),
{
    reveal_strlit("json");
    reveal_strlit("html");
    assert("json"@[0] != "html"@[0]);
    reveal_strlit("typ");
    reveal_strlit("pdf");
    assert("typ"@.len() != "json"@.len());
    assert("pdf"@.len() != "json"@.len());
}

/// `render` uses the named template whenever one is named, whatever the
/// output extension; without one it uses the HTML default for `html`, the
/// Typst default for `typ` and `pdf`, and refuses any other extension.
pub proof fn law_render_template(ext: Seq<char>, template: Option<Seq<char>>)
    ensures
        template is Some ==> render_template_for(ext, template) == Ok::<Seq<char>, Seq<char>>(
            template->Some_0,
        ),
        template is None && ext == "html"@ ==> render_template_for(ext, template) == Ok::<
            Seq<char>,
            Seq<char>,
        >("default/article.html.tera"@),
        template is None && (ext == "typ"@ || ext == "pdf"@) ==> render_template_for(ext, template)
            == Ok::<Seq<char>, Seq<char>>("default/article.typ.tera"@),
        template is None && !(ext == "html"@ || ext == "typ"@ || ext == "pdf"@) ==> render_template_for(
            ext,
            template,
        ) == Err::<Seq<char>, Seq<char>>(ext),
{
    reveal_strlit("html");
    reveal_strlit("typ");
    reveal_strlit("pdf");
    assert("typ"@.len() != "html"@.len());
    assert("pdf"@.len() != "html"@.len());
}

/// What `compile` writes for the output extension `ext`.
pub fn compile_target_of(ext: String, template: &Option<String>, pretty: bool) -> (r: CompileTarget)
    ensures
        r@ == compile_target_for(ext@, opt_string(*template), pretty),
{
    if is_text(&ext, "json") {
        CompileTarget::Ast { pretty }
    } else if is_text(&ext, "html") || is_text(&ext, "typ") || is_text(&ext, "pdf") {
        let template = match template {
            Some(t) => t.clone(),
            None => if is_text(&ext, "html") {
                owned("default/article.html.tera")
            } else {
                owned("default/article.typ.tera")
            },
        };
        CompileTarget::Render { template }
    } else {
        CompileTarget::Unsupported(ext)
    }
}

/// Decide what the `compile` subcommand writes, from the extension of its
/// output file.
pub fn compile_target(args: &CompileArgs) -> (r: CompileTarget)
    ensures
        r@ == compile_target_for(extension_or_empty(args.output@), opt_string(args.template), args.pretty),
{
    compile_target_of(extension_text(args.output.as_str()), &args.template, args.pretty)
}

/// The template the `render` subcommand uses for an output extension `ext`:
/// the one the user named, else the default for HTML or for Typst and PDF;
/// any other extension is refused and carried.
pub open spec fn render_template_for(ext: Seq<char>, template: Option<Seq<char>>) -> Result<Seq<char>, Seq<char>> {
    match template {
        Some(t) => Ok(t),
        None => if ext == "html"@ {
            Ok(html_template())
        } else if ext == "typ"@ || ext == "pdf"@ {
            Ok(typst_template())
        } else {
            Err(ext)
        },
    }
}

/// The template `render` uses for the output extension `ext` when none is
/// named; any extension other than `html`, `typ` and `pdf` is refused and
/// carried.
pub fn default_render_template(ext: String) -> (r: Result<String, String>)
    ensures
        match r {
            Ok(t) => render_template_for(ext@, None) == Ok::<Seq<char>, Seq<char>>(t@),
            Err(e) => render_template_for(ext@, None) == Err::<Seq<char>, Seq<char>>(e@),
        },
{
    if is_text(&ext, "html") {
        Ok(owned("default/article.html.tera"))
    } else if is_text(&ext, "typ") || is_text(&ext, "pdf") {
        Ok(owned("default/article.typ.tera"))
    } else {
        Err(ext)
    }
}

/// Decide the template of the `render` subcommand from its output file.
pub fn render_template(args: &RenderArgs) -> (r: Result<String, String>)
    ensures
        match r {
            Ok(t) => render_template_for(extension_or_empty(args.output@), opt_string(args.template)) == Ok::<Seq<char>, Seq<char>>(t@),
            Err(e) => render_template_for(extension_or_empty(args.output@), opt_string(args.template)) == Err::<Seq<char>, Seq<char>>(e@),
        },
{
    match &args.template {
        Some(t) => Ok(t.clone()),
        None => default_render_template(extension_text(args.output.as_str())),
    }
}

} // verus!
