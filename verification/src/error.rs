//! Errors that can occur while processing include directives.

use vstd::prelude::*;
use crate::text::owned;

verus! {

/// Errors that can occur while processing include directives. Paths are
/// held as text; an underlying I/O or parser error is held as its message.
#[derive(Debug)]
pub enum IncludeError {
    /// The referenced file does not exist.
    FileNotFound(String),
    /// An I/O error occurred while reading a file.
    Io { path: String, source: String },
    /// A CSV file could not be parsed.
    CsvParse { path: String, message: String },
    /// A JSON file could not be parsed.
    JsonParse { path: String, source: String },
    /// An included Markdown file failed to parse.
    MarkdownParse { path: String, message: String },
    /// The include fenced block is missing the required `src` attribute.
    MissingSrc,
    /// The file extension is not recognised by any handler.
    UnsupportedExtension(String),
    /// A circular include chain was detected.
    CircularInclude(String),
    /// The `@/` prefix was used but no config root was provided.
    NoConfigRoot,
}

/// The value of an [`IncludeError`], with its texts as character sequences.
pub enum IncludeErrorV {
    FileNotFound(Seq<char>),
    Io { path: Seq<char>, source: Seq<char> },
    CsvParse { path: Seq<char>, message: Seq<char> },
    JsonParse { path: Seq<char>, source: Seq<char> },
    MarkdownParse { path: Seq<char>, message: Seq<char> },
    MissingSrc,
    UnsupportedExtension(Seq<char>),
    CircularInclude(Seq<char>),
    NoConfigRoot,
}

impl View for IncludeError {
    type V = IncludeErrorV;

    open spec fn view(&self) -> IncludeErrorV {
        match self {
            IncludeError::FileNotFound(p) => IncludeErrorV::FileNotFound(p@),
            IncludeError::Io { path, source } => IncludeErrorV::Io { path: path@, source: source@ },
            IncludeError::CsvParse { path, message } => IncludeErrorV::CsvParse {
                path: path@,
                message: message@,
            },
            IncludeError::JsonParse { path, source } => IncludeErrorV::JsonParse {
                path: path@,
                source: source@,
            },
            IncludeError::MarkdownParse { path, message } => IncludeErrorV::MarkdownParse {
                path: path@,
                message: message@,
            },
            IncludeError::MissingSrc => IncludeErrorV::MissingSrc,
            IncludeError::UnsupportedExtension(e) => IncludeErrorV::UnsupportedExtension(e@),
            IncludeError::CircularInclude(p) => IncludeErrorV::CircularInclude(p@),
            IncludeError::NoConfigRoot => IncludeErrorV::NoConfigRoot,
        }
    }
}

/// The human-readable description of an error.
pub open spec fn error_message(e: IncludeErrorV) -> Seq<char> {
    match e {
        IncludeErrorV::FileNotFound(p) => "file not found: "@ + p,
        IncludeErrorV::Io { path, source } => "IO error reading "@ + path + ": "@ + source,
        IncludeErrorV::CsvParse { path, message } => "CSV parse error in "@ + path + ": "@ + message,
        IncludeErrorV::JsonParse { path, source } => "JSON parse error in "@ + path + ": "@ + source,
        IncludeErrorV::MarkdownParse { path, message } => "markdown parse error in "@ + path + ": "@
            + message,
        IncludeErrorV::MissingSrc => "include node missing 'src' attribute"@,
        IncludeErrorV::UnsupportedExtension(e) => "unsupported file extension: "@ + e,
        IncludeErrorV::CircularInclude(p) => "circular include detected: "@ + p,
        IncludeErrorV::NoConfigRoot => "@/ prefix used but no config root provided (use --root flag)"@,
    }
}

/// `a`, then `b`, then `c`, then `d`.
fn join4(a: &str, b: &String, c: &str, d: &String) -> (r: String)
    ensures
        r@ == a@ + b@ + c@ + d@,
{
    let mut r = owned(a);
    r.append(b.as_str());
    r.append(c);
    r.append(d.as_str());
    r
}

/// `a`, then `b`.
fn join2(a: &str, b: &String) -> (r: String)
    ensures
        r@ == a@ + b@,
{
    let mut r = owned(a);
    r.append(b.as_str());
    r
}

impl IncludeError {
    /// The human-readable description of this error.
    pub fn to_string(&self) -> (r: String)
        ensures
            r@ == error_message(self@),
    {
        match self {
            IncludeError::FileNotFound(p) => join2("file not found: ", p),
            IncludeError::Io { path, source } => join4("IO error reading ", path, ": ", source),
            IncludeError::CsvParse { path, message } => join4("CSV parse error in ", path, ": ", message),
            IncludeError::JsonParse { path, source } => join4("JSON parse error in ", path, ": ", source),
            IncludeError::MarkdownParse { path, message } => join4(
                "markdown parse error in ",
                path,
                ": ",
                message,
            ),
            IncludeError::MissingSrc => owned("include node missing 'src' attribute"),
            IncludeError::UnsupportedExtension(e) => join2("unsupported file extension: ", e),
            IncludeError::CircularInclude(p) => join2("circular include detected: ", p),
            IncludeError::NoConfigRoot => owned(
                "@/ prefix used but no config root provided (use --root flag)",
            ),
        }
    }

    /// The message of the underlying error, for the I/O and JSON errors that
    /// have one.
    pub fn source(&self) -> (r: Option<&String>)
        ensures
            match self@ {
                IncludeErrorV::Io { source, .. } => r is Some && r.unwrap()@ == source,
                IncludeErrorV::JsonParse { source, .. } => r is Some && r.unwrap()@ == source,
                _ => r is None,
            },
    {
        match self {
            IncludeError::Io { source, .. } => Some(source),
            IncludeError::JsonParse { source, .. } => Some(source),
            _ => None,
        }
    }
}

} // verus!
