//! Parsing Markdown text with `markplus_core`, and what the library makes of
//! the result: the content of an included file, the nodes a handler
//! contributes, and the AST JSON that the `core` and `compile` subcommands
//! write.

use vstd::prelude::*;
use crate::document::Document;
use crate::error::{IncludeError, IncludeErrorV};
use crate::frontmatter::{merge_frontmatter, merged_frontmatter, opt_view};
use crate::handlers::{load_error, load_failure, IncludeKind};
use crate::json::{clone_from, seq_view, Json, JsonV};
use crate::loads::{Loaded, LoadedV};

verus! {

broadcast use vstd::seq::group_seq_axioms;

#[verifier::external_type_specification]
#[verifier::external_body]
pub struct ExValue(serde_json::Value);

/// A `serde_json::Value` as a [`Json`], item for item; a number keeps the
/// text `serde_json` gives it. Nothing is stated of the conversion.
#[verifier::external_body]
fn json_from_value(v: &serde_json::Value) -> (r: Json) {
    match v {
        serde_json::Value::Null => Json::Null,
        serde_json::Value::Bool(b) => Json::Bool(*b),
        serde_json::Value::Number(n) => Json::Number(n.to_string()),
        serde_json::Value::String(s) => Json::Str(s.clone()),
        serde_json::Value::Array(a) => Json::Array(a.iter().map(json_from_value).collect()),
        serde_json::Value::Object(m) => Json::Object(
            m.iter().map(|(k, x)| (k.clone(), json_from_value(x))).collect(),
        ),
    }
}

/// Whether `c` is white space other than a line feed, as `str::trim` takes it.
pub open spec fn is_blank(c: char) -> bool {
    let u = c as u32;
    ||| u == 0x09 ||| u == 0x0B ||| u == 0x0C ||| u == 0x0D ||| u == 0x20 ||| u == 0x85
    ||| u == 0xA0 ||| u == 0x1680 ||| (0x2000 <= u && u <= 0x200A) ||| u == 0x2028 ||| u == 0x2029
    ||| u == 0x202F ||| u == 0x205F ||| u == 0x3000
}

/// The end of the line that starts at `o`: just after its line feed, or the
/// end of the text.
pub open spec fn line_end(s: Seq<char>, o: int) -> int
    decreases s.len() - o,
{
    if o >= s.len() {
        s.len() as int
    } else if s[o] == '\n' {
        o + 1
    } else {
        line_end(s, o + 1)
    }
}

pub proof fn lemma_line_end(s: Seq<char>, o: int)
    requires
        0 <= o < s.len(),
    ensures
        o < line_end(s, o) <= s.len(),
    decreases s.len() - o,
{
    if s[o] != '\n' {
        if o + 1 < s.len() {
            lemma_line_end(s, o + 1);
        } else {
            assert(line_end(s, o + 1) == s.len());
        }
    }
}

/// The end of `s[o..e]` without its trailing carriage returns and line feeds.
pub open spec fn trim_line_end(s: Seq<char>, o: int, e: int) -> int
    decreases e - o,
{
    if e > o && (s[e - 1] == '\r' || s[e - 1] == '\n') {
        trim_line_end(s, o, e - 1)
    } else {
        e
    }
}

/// Whether the line `s[o..e]` closes a frontmatter block: `---` or `...`.
pub open spec fn is_closing_line(s: Seq<char>, o: int, e: int) -> bool {
    &&& trim_line_end(s, o, e) == o + 3
    &&& ((s[o] == '-' && s[o + 1] == '-' && s[o + 2] == '-') || (s[o] == '.' && s[o + 1] == '.' && s[o + 2] == '.'))
}

/// The start of the first closing line at or after the line start `o`.
pub open spec fn closing_from(s: Seq<char>, o: int) -> Option<int>
    decreases s.len() - o,
{
    if o < 0 || o >= s.len() {
        None
    } else {
        let e = line_end(s, o);
        if is_closing_line(s, o, e) {
            Some(o)
        } else {
            proof {
                lemma_line_end(s, o);
            }
            closing_from(s, e)
        }
    }
}

/// Where the frontmatter block of a text starts: after an opening `---`
/// line, or nowhere.
pub open spec fn opening_end(s: Seq<char>) -> int {
    if s.len() >= 4 && s[0] == '-' && s[1] == '-' && s[2] == '-' && s[3] == '\n' {
        4
    } else if s.len() >= 5 && s[0] == '-' && s[1] == '-' && s[2] == '-' && s[3] == '\r' && s[4] == '\n' {
        5
    } else {
        -1
    }
}

/// The frontmatter block of a text, as `markplus_core` finds it: the lines
/// between an opening `---` line and the first closing `---` or `...` line.
pub open spec fn frontmatter_range(s: Seq<char>) -> Option<(int, int)> {
    let a = opening_end(s);
    if a < 0 {
        None
    } else {
        match closing_from(s, a) {
            Some(b) => Some((a, b)),
            None => None,
        }
    }
}

/// The last position before `i`, not before `a`, that holds no blank; `a - 1`
/// when there is none.
pub open spec fn left_stop(s: Seq<char>, a: int, i: int) -> int
    decreases i - a,
{
    if i <= a {
        a - 1
    } else if !is_blank(s[i - 1]) {
        i - 1
    } else {
        left_stop(s, a, i - 1)
    }
}

/// The first position after `i`, before `b`, that holds no blank; `b` when
/// there is none.
pub open spec fn right_stop(s: Seq<char>, b: int, i: int) -> int
    decreases b - i,
{
    if i + 1 >= b {
        b
    } else if !is_blank(s[i + 1]) {
        i + 1
    } else {
        right_stop(s, b, i + 1)
    }
}

/// Whether position `i` of the block `s[a..b]` holds a quote character that
/// stands alone as a value: between the start of the block or a line, `:`,
/// `-`, `[` or `,` on its left, and the end of the block or a line, `,` or
/// `]` on its right, with only blanks between.
pub open spec fn lone_quote_at(s: Seq<char>, a: int, b: int, i: int) -> bool {
    let l = left_stop(s, a, i);
    let r = right_stop(s, b, i);
    &&& a <= i < b
    &&& s[i] == '"' || s[i] == '\''
    &&& l < a || s[l] == '\n' || s[l] == ':' || s[l] == '-' || s[l] == '[' || s[l] == ','
    &&& r >= b || s[r] == '\n' || s[r] == ',' || s[r] == ']'
}

/// Whether the frontmatter reader of `markplus_core::parse_document` may
/// panic on a text: its frontmatter block holds a value that is a lone `"`
/// or `'`, which the reader slices as a quoted string of length `-1`. Every
/// such value is counted, whether or not the reader reaches it.
pub open spec fn frontmatter_may_panic(s: Seq<char>) -> bool {
    match frontmatter_range(s) {
        Some((a, b)) => exists|i: int| lone_quote_at(s, a, b, i),
        None => false,
    }
}

fn blank(c: char) -> (r: bool)
    ensures
        r == is_blank(c),
{
    let u = c as u32;
    u == 0x09 || u == 0x0B || u == 0x0C || u == 0x0D || u == 0x20 || u == 0x85 || u == 0xA0
        || u == 0x1680 || (0x2000 <= u && u <= 0x200A) || u == 0x2028 || u == 0x2029 || u == 0x202F
        || u == 0x205F || u == 0x3000
}

fn line_end_of(t: &str, n: usize, o: usize) -> (e: usize)
    requires
        n == t@.len(),
        o <= n,
    ensures
        e == line_end(t@, o as int),
{
    let mut k = o;
    while k < n
        invariant
            o <= k <= n,
            n == t@.len(),
            line_end(t@, o as int) == line_end(t@, k as int),
        decreases n - k,
    {
        if t.get_char(k) == '\n' {
            return k + 1;
        }
        k = k + 1;
    }
    k
}

fn trim_line_end_of(t: &str, n: usize, o: usize, e: usize) -> (r: usize)
    requires
        n == t@.len(),
        o <= e <= n,
    ensures
        r == trim_line_end(t@, o as int, e as int),
        o <= r <= e,
{
    let mut k = e;
    while k > o && (t.get_char(k - 1) == '\r' || t.get_char(k - 1) == '\n')
        invariant
            o <= k <= e,
            e <= n,
            n == t@.len(),
            trim_line_end(t@, o as int, e as int) == trim_line_end(t@, o as int, k as int),
        decreases k,
    {
        k = k - 1;
    }
    k
}

fn closing_line(t: &str, n: usize, o: usize, e: usize) -> (r: bool)
    requires
        n == t@.len(),
        o < e <= n,
    ensures
        r == is_closing_line(t@, o as int, e as int),
{
    let te = trim_line_end_of(t, n, o, e);
    if te - o != 3 {
        return false;
    }
    let c0 = t.get_char(o);
    let c1 = t.get_char(o + 1);
    let c2 = t.get_char(o + 2);
    (c0 == '-' && c1 == '-' && c2 == '-') || (c0 == '.' && c1 == '.' && c2 == '.')
}

fn closing_from_of(t: &str, n: usize, a: usize) -> (r: Option<usize>)
    requires
        n == t@.len(),
        a <= n,
    ensures
        match r {
            Some(b) => closing_from(t@, a as int) == Some(b as int) && a <= b < n,
            None => closing_from(t@, a as int) is None,
        },
{
    let mut o = a;
    while o < n
        invariant
            a <= o <= n,
            n == t@.len(),
            closing_from(t@, a as int) == closing_from(t@, o as int),
        decreases n - o,
    {
        let e = line_end_of(t, n, o);
        proof {
            lemma_line_end(t@, o as int);
        }
        if closing_line(t, n, o, e) {
            return Some(o);
        }
        o = e;
    }
    None
}

fn frontmatter_bounds(t: &str, n: usize) -> (r: Option<(usize, usize)>)
    requires
        n == t@.len(),
    ensures
        match r {
            Some((a, b)) => frontmatter_range(t@) == Some((a as int, b as int)) && a <= b < n,
            None => frontmatter_range(t@) is None,
        },
{
    let a: usize = if n >= 4 && t.get_char(0) == '-' && t.get_char(1) == '-' && t.get_char(2) == '-'
        && t.get_char(3) == '\n' {
        4
    } else if n >= 5 && t.get_char(0) == '-' && t.get_char(1) == '-' && t.get_char(2) == '-'
        && t.get_char(3) == '\r' && t.get_char(4) == '\n' {
        5
    } else {
        return None;
    };
    match closing_from_of(t, n, a) {
        Some(b) => Some((a, b)),
        None => None,
    }
}

fn left_stop_of(t: &str, n: usize, a: usize, i: usize) -> (r: Option<usize>)
    requires
        n == t@.len(),
        a <= i < n,
    ensures
        match r {
            Some(j) => left_stop(t@, a as int, i as int) == j as int && a <= j < i,
            None => left_stop(t@, a as int, i as int) == a - 1,
        },
{
    let mut k = i;
    while k > a
        invariant
            a <= k <= i,
            i < n,
            n == t@.len(),
            left_stop(t@, a as int, i as int) == left_stop(t@, a as int, k as int),
        decreases k,
    {
        if !blank(t.get_char(k - 1)) {
            return Some(k - 1);
        }
        k = k - 1;
    }
    None
}

fn right_stop_of(t: &str, n: usize, b: usize, i: usize) -> (r: usize)
    requires
        n == t@.len(),
        i < b <= n,
    ensures
        r == right_stop(t@, b as int, i as int),
        i < r <= b,
{
    let mut k = i;
    while k + 1 < b
        invariant
            i <= k < b,
            b <= n,
            n == t@.len(),
            right_stop(t@, b as int, i as int) == right_stop(t@, b as int, k as int),
        decreases b - k,
    {
        if !blank(t.get_char(k + 1)) {
            return k + 1;
        }
        k = k + 1;
    }
    b
}

fn quote_alone(t: &str, n: usize, a: usize, b: usize, i: usize) -> (r: bool)
    requires
        n == t@.len(),
        a <= i < b <= n,
    ensures
        r == lone_quote_at(t@, a as int, b as int, i as int),
{
    let c = t.get_char(i);
    if c != '"' && c != '\'' {
        return false;
    }
    let left_ok = match left_stop_of(t, n, a, i) {
        None => true,
        Some(l) => {
            let d = t.get_char(l);
            d == '\n' || d == ':' || d == '-' || d == '[' || d == ','
        },
    };
    let r = right_stop_of(t, n, b, i);
    let right_ok = if r >= b {
        true
    } else {
        let d = t.get_char(r);
        d == '\n' || d == ',' || d == ']'
    };
    left_ok && right_ok
}

/// Whether the frontmatter reader of `markplus_core::parse_document` may
/// panic on `text`: its frontmatter block holds a value that is a lone `"`
/// or `'`.
pub fn frontmatter_reader_panics(text: &str) -> (r: bool)
    ensures
        r == frontmatter_may_panic(text@),
{
    let n = text.unicode_len();
    match frontmatter_bounds(text, n) {
        None => false,
        Some((a, b)) => {
            let mut i = a;
            while i < b
                invariant
                    a <= i <= b,
                    b < n,
                    n == text@.len(),
                    frontmatter_range(text@) == Some((a as int, b as int)),
                    forall|q: int| a <= q < i ==> !lone_quote_at(text@, a as int, b as int, q),
                decreases b - i,
            {
                if quote_alone(text, n, a, b, i) {
                    assert(lone_quote_at(text@, a as int, b as int, i as int));
                    assert(frontmatter_range(text@)->Some_0.0 == a as int);
                    assert(frontmatter_range(text@)->Some_0.1 == b as int);
                    assert(frontmatter_may_panic(text@));
                    return true;
                }
                i = i + 1;
            }
            false
        },
    }
}

/// The frontmatter and AST that `markplus_core::parse_document` makes of a
/// Markdown text, or the message of its error.
pub uninterp spec fn parsed_markdown(text: Seq<char>) -> Result<(Option<JsonV>, Seq<JsonV>), Seq<char>>;

pub open spec fn parse_view(r: Result<(Option<Json>, Vec<Json>), String>) -> Result<
    (Option<JsonV>, Seq<JsonV>),
    Seq<char>,
> {
    match r {
        Ok((m, a)) => Ok((opt_view(m), seq_view(a@))),
        Err(e) => Err(e@),
    }
}

/// `markplus_core::parse_document`, its result converted item for item and
/// its error kept as its message; named by `parsed_markdown`. Its
/// frontmatter reader panics on a value that is a lone quote, so such texts
/// are left out.
#[verifier::external_body]
fn parse_markdown(text: &str) -> (r: Result<(Option<Json>, Vec<Json>), String>)
    requires
        !frontmatter_may_panic(text@),
    ensures
        parse_view(r) == parsed_markdown(text@),
{
    match markplus_core::parse_document(text) {
        Ok(a) => Ok((a.meta.as_ref().map(json_from_value), a.ast.iter().map(json_from_value).collect())),
        Err(e) => Err(e.to_string()),
    }
}

impl Document {
    /// Parse a Markdown text into its frontmatter and AST. A text whose
    /// frontmatter holds a lone quote as a value is refused by `requires`:
    /// `frontmatter_reader_panics` tells it.
    pub fn parse(text: &str) -> (r: Result<Document, String>)
        requires
            !frontmatter_may_panic(text@),
        ensures
            match r {
                Ok(d) => parsed_markdown(text@) == Ok::<(Option<JsonV>, Seq<JsonV>), Seq<char>>(
                    (opt_view(d.meta), seq_view(d.ast@)),
                ),
                Err(e) => parsed_markdown(text@) == Err::<(Option<JsonV>, Seq<JsonV>), Seq<char>>(e@),
            },
    {
        match parse_markdown(text) {
            Ok((meta, ast)) => Ok(Document { meta, ast }),
            Err(e) => Err(e),
        }
    }
}

/// What loading a Markdown file with the text `text` gives.
pub open spec fn markdown_content(text: Seq<char>) -> LoadedV {
    match parsed_markdown(text) {
        Ok((m, a)) => LoadedV::Content { meta: m, nodes: a },
        Err(e) => LoadedV::Unparsable(e),
    }
}

/// The content of a Markdown file with the text `text`: its frontmatter and
/// AST, or the parse error.
pub fn markdown_loaded(text: &str) -> (r: Loaded)
    requires
        !frontmatter_may_panic(text@),
    ensures
        r@ == markdown_content(text@),
{
    match parse_markdown(text) {
        Ok((meta, nodes)) => Loaded::Content { meta, nodes },
        Err(e) => Loaded::Unparsable(e),
    }
}

/// The nodes a loaded file contributes in place of its include directive,
/// and the frontmatter after it: a Markdown file's frontmatter is merged in,
/// any other file leaves it; a failed load gives its handler's error.
pub open spec fn handled(
    kind: IncludeKind,
    path: Seq<char>,
    loaded: LoadedV,
    meta: Option<JsonV>,
) -> (Result<Seq<JsonV>, IncludeErrorV>, Option<JsonV>) {
    match loaded {
        LoadedV::Content { meta: m2, nodes } => (
            Ok(nodes),
            if kind == IncludeKind::Markdown {
                merged_frontmatter(meta, m2)
            } else {
                meta
            },
        ),
        LoadedV::Unreadable(m) => (Err(load_failure(kind, path, true, m)), meta),
        LoadedV::Unparsable(m) => (Err(load_failure(kind, path, false, m)), meta),
    }
}

pub open spec fn nodes_result(r: Result<Vec<Json>, IncludeError>) -> Result<Seq<JsonV>, IncludeErrorV> {
    match r {
        Ok(v) => Ok(seq_view(v@)),
        Err(e) => Err(e@),
    }
}

/// The nodes that a loaded file at `path` contributes, merging a Markdown
/// file's frontmatter into `meta`, or its handler's error.
pub fn handle_loaded(kind: IncludeKind, path: &String, loaded: &Loaded, meta: &mut Option<Json>) -> (r: Result<
    Vec<Json>,
    IncludeError,
>)
    ensures
        (nodes_result(r), opt_view(*final(meta))) == handled(kind, path@, loaded@, opt_view(*old(meta))),
{
    match loaded {
        Loaded::Content { meta: inner, nodes } => {
            if kind == IncludeKind::Markdown {
                merge_frontmatter(meta, inner);
            }
            let copy = clone_from(nodes, 0);
            assert(seq_view(nodes@).skip(0) =~= seq_view(nodes@));
            Ok(copy)
        },
        Loaded::Unreadable(m) => Err(load_error(kind, path, true, m)),
        Loaded::Unparsable(m) => Err(load_error(kind, path, false, m)),
    }
}

/// Why the AST JSON of a text could not be made.
#[derive(Debug)]
pub enum AstJsonError {
    /// The text did not parse; the message of the error.
    Parse(String),
    /// The parsed document could not be serialised; the message of the error.
    Serialise(String),
}

pub enum AstJsonErrorV {
    Parse(Seq<char>),
    Serialise(Seq<char>),
}

impl View for AstJsonError {
    type V = AstJsonErrorV;

    open spec fn view(&self) -> AstJsonErrorV {
        match self {
            AstJsonError::Parse(m) => AstJsonErrorV::Parse(m@),
            AstJsonError::Serialise(m) => AstJsonErrorV::Serialise(m@),
        }
    }
}

/// The AST JSON of a Markdown text, compact or pretty, as
/// `markplus_core::parse_document` and then `SiteAsset::to_json` or
/// `to_json_pretty` give it.
pub uninterp spec fn ast_json(text: Seq<char>, pretty: bool) -> Result<Seq<char>, AstJsonErrorV>;

/// An AST JSON result that failed in the parse with message `m`.
pub open spec fn parse_failure(m: Seq<char>) -> Result<Seq<char>, AstJsonErrorV> {
    Err(AstJsonErrorV::Parse(m))
}

pub open spec fn ast_json_view(r: Result<String, AstJsonError>) -> Result<Seq<char>, AstJsonErrorV> {
    match r {
        Ok(s) => Ok(s@),
        Err(e) => Err(e@),
    }
}

/// `markplus_core::parse_document`, then `SiteAsset::to_json_pretty` when
/// `pretty` holds and `SiteAsset::to_json` otherwise; named by `ast_json`.
/// The parse is the one `parsed_markdown` names, so it fails with the same
/// message; serialising a parsed document does not fail, since `serde_json`
/// fails only on a map with keys that are not strings or on a failing
/// `Serialize` impl, and a `SiteAsset` has neither.
/// Texts on which the parse panics (a frontmatter value that is a lone
/// quote) are left out.
#[verifier::external_body]
fn ast_json_of(text: &str, pretty: bool) -> (r: Result<String, AstJsonError>)
    requires
        !frontmatter_may_panic(text@),
    ensures
        ast_json_view(r) == ast_json(text@, pretty),
        parsed_markdown(text@) is Err ==> ast_json_view(r) == parse_failure(parsed_markdown(text@)->Err_0),
        parsed_markdown(text@) is Ok ==> r is Ok,
{
    let asset = match markplus_core::parse_document(text) {
        Ok(a) => a,
        Err(e) => return Err(AstJsonError::Parse(e.to_string())),
    };
    let out = if pretty { asset.to_json_pretty() } else { asset.to_json() };
    match out {
        Ok(s) => Ok(s),
        Err(e) => Err(AstJsonError::Serialise(e.to_string())),
    }
}

/// The AST of a Markdown text as JSON, compact or pretty, as the `core`
/// subcommand prints it and `compile` writes it: it succeeds exactly when
/// the text parses, and otherwise carries the parse error.
pub fn document_json(text: &str, pretty: bool) -> (r: Result<String, AstJsonError>)
    requires
        !frontmatter_may_panic(text@),
    ensures
        ast_json_view(r) == ast_json(text@, pretty),
        r is Ok <==> parsed_markdown(text@) is Ok,
        parsed_markdown(text@) is Err ==> ast_json_view(r) == parse_failure(parsed_markdown(text@)->Err_0),
{
    ast_json_of(text, pretty)
}

} // verus!
