//! Choosing the handler for an included file, and the errors that each
//! handler reports when loading its file fails.

use vstd::prelude::*;
use crate::error::{IncludeError, IncludeErrorV};
use crate::paths::{extension_of, opt_text, path_extension};
use crate::text::{contains_text, has_infix, is_text, owned};

verus! {

/// The handler an included file goes to, by its extension.
#[derive(Debug, Clone, Copy, PartialEq, Eq, Structural)]
pub enum IncludeKind {
    /// `.md`, `.markdown`: parsed as a document; its frontmatter is merged.
    Markdown,
    /// `.csv`: a table.
    Csv,
    /// `.json`: a table, a definition list or a fenced block.
    Json,
    /// `.mmd`, `.mermaid`: a fenced mermaid block.
    Mermaid,
    /// A known source-code extension: a fenced code block.
    Code,
}

/// The extensions that `markplus_core::is_known_code_extension` accepts.
pub open spec fn known_code_extension(e: Seq<char>) -> bool {
    ||| e == "rs"@ ||| e == "py"@ ||| e == "js"@ ||| e == "ts"@ ||| e == "jsx"@ ||| e == "tsx"@
    ||| e == "c"@ ||| e == "cpp"@ ||| e == "cc"@ ||| e == "cxx"@ ||| e == "h"@ ||| e == "hpp"@
    ||| e == "cs"@ ||| e == "java"@ ||| e == "go"@ ||| e == "rb"@ ||| e == "php"@
    ||| e == "swift"@ ||| e == "kt"@ ||| e == "kts"@ ||| e == "scala"@ ||| e == "sh"@
    ||| e == "bash"@ ||| e == "zsh"@ ||| e == "sql"@ ||| e == "r"@ ||| e == "lua"@
    ||| e == "yaml"@ ||| e == "yml"@ ||| e == "toml"@ ||| e == "xml"@ ||| e == "html"@
    ||| e == "htm"@ ||| e == "css"@ ||| e == "scss"@ ||| e == "sass"@ ||| e == "dockerfile"@
    ||| e == "makefile"@ ||| e == "zig"@ ||| e == "nim"@ ||| e == "dart"@ ||| e == "v"@
    ||| e == "tf"@ ||| e == "hcl"@ ||| e == "proto"@ ||| e == "graphql"@ ||| e == "gql"@
}

/// `markplus_core::is_known_code_extension`: true exactly for the extensions
/// its source lists, which `known_code_extension` repeats.
#[verifier::external_body]
fn is_known_code_extension(ext: &str) -> (r: bool)
    ensures
        r == known_code_extension(ext@),
{
    markplus_core::is_known_code_extension(ext)
}

/// The extension of a path, or the empty text when it has none.
pub open spec fn extension_or_empty(path: Seq<char>) -> Seq<char> {
    match path_extension(path) {
        Some(e) => e,
        None => Seq::empty(),
    }
}

/// The extension of `path`, or the empty text when it has none.
pub fn extension_text(path: &str) -> (r: String)
    ensures
        r@ == extension_or_empty(path@),
{
    match extension_of(path) {
        Some(e) => e,
        None => {
            proof {
                reveal_strlit("");
            }
            owned("")
        },
    }
}

/// Whether an extension names a Markdown file.
pub open spec fn is_markdown_ext(e: Seq<char>) -> bool {
    e == "md"@ || e == "markdown"@
}

/// The handler for a file with extension `e`.
pub open spec fn kind_for(e: Seq<char>) -> Result<IncludeKind, IncludeErrorV> {
    if is_markdown_ext(e) {
        Ok(IncludeKind::Markdown)
    } else if e == "csv"@ {
        Ok(IncludeKind::Csv)
    } else if e == "json"@ {
        Ok(IncludeKind::Json)
    } else if e == "mmd"@ || e == "mermaid"@ {
        Ok(IncludeKind::Mermaid)
    } else if known_code_extension(e) {
        Ok(IncludeKind::Code)
    } else {
        Err(IncludeErrorV::UnsupportedExtension(e))
    }
}

/// Each handler takes exactly its own extensions: Markdown `md` and
/// `markdown`, CSV `csv`, JSON `json` alone, Mermaid `mmd` and `mermaid`;
/// every other known source-code extension goes to the code handler, and an
/// extension that is none of these is refused as unsupported.
pub proof fn law_kind_by_extension(e: Seq<char>)
    ensures
        kind_for(e) == Ok::<IncludeKind, IncludeErrorV>(IncludeKind::Markdown) <==> (e == "md"@ || e
            == "markdown"@),
        kind_for(e) == Ok::<IncludeKind, IncludeErrorV>(IncludeKind::Csv) <==> e == "csv"@,
        kind_for(e) == Ok::<IncludeKind, IncludeErrorV>(IncludeKind::Json) <==> e == "json"@,
        kind_for(e) == Ok::<IncludeKind, IncludeErrorV>(IncludeKind::Mermaid) <==> (e == "mmd"@ || e
            == "mermaid"@),
        kind_for(e) == Ok::<IncludeKind, IncludeErrorV>(IncludeKind::Code) ==> known_code_extension(e),
        known_code_extension(e) && !is_markdown_ext(e) && e != "csv"@ && e != "json"@ && e != "mmd"@
            && e != "mermaid"@ ==> kind_for(e) == Ok::<IncludeKind, IncludeErrorV>(IncludeKind::Code),
        kind_for(e) is Err <==> !(is_markdown_ext(e) || e == "csv"@ || e == "json"@ || e == "mmd"@ || e
            == "mermaid"@ || known_code_extension(e)),
        kind_for(e) is Err ==> kind_for(e) == Err::<IncludeKind, IncludeErrorV>(
            IncludeErrorV::UnsupportedExtension(e),
        ),
{
    reveal_strlit("md");
    reveal_strlit("markdown");
    reveal_strlit("csv");
    reveal_strlit("json");
    reveal_strlit("mmd");
    reveal_strlit("mermaid");
    assert("csv"@[0] != "mmd"@[0]);
    assert("md"@.len() != "csv"@.len() && "md"@.len() != "json"@.len() && "md"@.len() != "mmd"@.len()
        && "md"@.len() != "mermaid"@.len() && "md"@.len() != "markdown"@.len());
    assert("markdown"@.len() != "csv"@.len() && "markdown"@.len() != "json"@.len()
        && "markdown"@.len() != "mmd"@.len() && "markdown"@.len() != "mermaid"@.len());
    assert("csv"@.len() != "json"@.len() && "csv"@.len() != "mermaid"@.len());
    assert("json"@.len() != "mmd"@.len() && "json"@.len() != "mermaid"@.len());
    assert("mmd"@.len() != "mermaid"@.len());
}

pub open spec fn kind_result(r: Result<IncludeKind, IncludeError>) -> Result<IncludeKind, IncludeErrorV> {
    match r {
        Ok(k) => Ok(k),
        Err(e) => Err(e@),
    }
}

/// The handler for a file with extension `ext`.
pub fn kind_of_extension(ext: String) -> (r: Result<IncludeKind, IncludeError>)
    ensures
        kind_result(r) == kind_for(ext@),
{
    if is_text(&ext, "md") || is_text(&ext, "markdown") {
        Ok(IncludeKind::Markdown)
    } else if is_text(&ext, "csv") {
        Ok(IncludeKind::Csv)
    } else if is_text(&ext, "json") {
        Ok(IncludeKind::Json)
    } else if is_text(&ext, "mmd") || is_text(&ext, "mermaid") {
        Ok(IncludeKind::Mermaid)
    } else if is_known_code_extension(ext.as_str()) {
        Ok(IncludeKind::Code)
    } else {
        Err(IncludeError::UnsupportedExtension(ext))
    }
}

/// Determine the handler for an included file from its extension.
pub fn include_kind(path: &str) -> (r: Result<IncludeKind, IncludeError>)
    ensures
        kind_result(r) == kind_for(extension_or_empty(path@)),
{
    kind_of_extension(extension_text(path))
}

/// Whether an error message from reading a JSON file says that the file is
/// missing.
pub open spec fn says_not_found(m: Seq<char>) -> bool {
    has_infix(m, "No such file"@) || has_infix(m, "cannot find"@) || has_infix(m, "not found"@)
}

/// The message of the error `serde_json::from_str` gives for `text`, or none
/// when `text` is valid JSON.
pub uninterp spec fn json_parse_error(text: Seq<char>) -> Option<Seq<char>>;

/// `serde_json::from_str::<serde_json::Value>`, of which only the message of
/// its error is kept; that message is named by `json_parse_error`.
#[verifier::external_body]
fn json_parse_error_of(text: &str) -> (r: Option<String>)
    ensures
        opt_text(r) == json_parse_error(text@),
{
    match serde_json::from_str::<serde_json::Value>(text) {
        Ok(_) => None,
        Err(e) => Some(e.to_string()),
    }
}

/// The source text a JSON parse error carries for a loader message `m`: the
/// error of parsing `m` itself as JSON, or `m` when it is valid JSON.
pub open spec fn json_error_source(m: Seq<char>) -> Seq<char> {
    match json_parse_error(m) {
        Some(e) => e,
        None => m,
    }
}

/// The error a handler reports when loading `path` failed with `message`;
/// `unreadable` tells a failed read from a failed parse.
pub open spec fn load_failure(
    kind: IncludeKind,
    path: Seq<char>,
    unreadable: bool,
    message: Seq<char>,
) -> IncludeErrorV {
    match kind {
        IncludeKind::Markdown => if unreadable {
            IncludeErrorV::Io { path, source: message }
        } else {
            IncludeErrorV::MarkdownParse { path, message }
        },
        IncludeKind::Csv => IncludeErrorV::CsvParse { path, message },
        IncludeKind::Json => if says_not_found(message) {
            IncludeErrorV::Io { path, source: message }
        } else {
            IncludeErrorV::JsonParse { path, source: json_error_source(message) }
        },
        IncludeKind::Mermaid => IncludeErrorV::Io { path, source: message },
        IncludeKind::Code => IncludeErrorV::Io { path, source: message },
    }
}

/// The error for a JSON file at `path` that failed to load with `message`,
/// given the error of parsing `message` itself as JSON, if any: that error
/// is carried, or else `message`.
pub fn json_parse_failure(path: &String, message: &String, parse_error: Option<String>) -> (r: IncludeError)
    ensures
        r@ == (IncludeErrorV::JsonParse {
            path: path@,
            source: match opt_text(parse_error) {
                Some(e) => e,
                None => message@,
            },
        }),
{
    let source = match parse_error {
        Some(e) => e,
        None => message.clone(),
    };
    IncludeError::JsonParse { path: path.clone(), source }
}

/// The error a handler reports when loading `path` failed with `message`.
pub fn load_error(kind: IncludeKind, path: &String, unreadable: bool, message: &String) -> (r:
    IncludeError)
    ensures
        r@ == load_failure(kind, path@, unreadable, message@),
{
    match kind {
        IncludeKind::Markdown => if unreadable {
            IncludeError::Io { path: path.clone(), source: message.clone() }
        } else {
            IncludeError::MarkdownParse { path: path.clone(), message: message.clone() }
        },
        IncludeKind::Csv => IncludeError::CsvParse { path: path.clone(), message: message.clone() },
        IncludeKind::Json => {
            let m = message.as_str();
            if contains_text(m, "No such file") || contains_text(m, "cannot find") || contains_text(
                m,
                "not found",
            ) {
                IncludeError::Io { path: path.clone(), source: message.clone() }
            } else {
                json_parse_failure(path, message, json_parse_error_of(m))
            }
        },
        IncludeKind::Mermaid => IncludeError::Io { path: path.clone(), source: message.clone() },
        IncludeKind::Code => IncludeError::Io { path: path.clone(), source: message.clone() },
    }
}

} // verus!
