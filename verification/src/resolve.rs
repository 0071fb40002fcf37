//! Path resolution for include directives.
//!
//! Supports three address formats:
//! - **Relative** — resolved from the article file's directory
//! - **Absolute** — used as-is
//! - **`@/` prefix** — `@` replaced by the config root

use vstd::prelude::*;
use crate::error::{IncludeError, IncludeErrorV};
use crate::paths::{
    canonicalize, is_absolute, join, opt_text, parent_of, path_is_absolute, path_join, path_parent,
    CanonFailure,
};
use crate::text::owned;

verus! {

/// Resolves include paths relative to the current article and an optional
/// project root.
#[derive(Debug, Clone)]
pub struct PathResolver {
    /// Directory containing the article currently being processed.
    article_dir: String,
    /// Project root supplied via `--root` flag or config file.
    config_root: Option<String>,
}

pub open spec fn opt_str(o: Option<&str>) -> Option<Seq<char>> {
    match o {
        Some(s) => Some(s@),
        None => None,
    }
}

/// The directory an article path lies in: its parent, or `.` when it has none.
pub open spec fn article_dir_of(article_path: Seq<char>) -> Seq<char> {
    match path_parent(article_path) {
        Some(d) => d,
        None => "."@,
    }
}

/// Whether a raw include path starts with the `@/` prefix.
pub open spec fn has_root_prefix(raw: Seq<char>) -> bool {
    raw.len() >= 2 && raw[0] == '@' && raw[1] == '/'
}

/// The path that a raw include path designates, before it is canonicalized.
pub open spec fn target_path(dir: Seq<char>, root: Option<Seq<char>>, raw: Seq<char>) -> Result<
    Seq<char>,
    IncludeErrorV,
> {
    if has_root_prefix(raw) {
        match root {
            None => Err(IncludeErrorV::NoConfigRoot),
            Some(r) => Ok(path_join(r, raw.skip(2))),
        }
    } else if path_is_absolute(raw) {
        Ok(raw)
    } else {
        Ok(path_join(dir, raw))
    }
}

/// A canonicalization outcome: the canonical path, or `None` for a path that
/// does not exist, or the message of another I/O error.
pub open spec fn canon_view(c: Result<String, CanonFailure>) -> Result<Seq<char>, Option<Seq<char>>> {
    match c {
        Ok(p) => Ok(p@),
        Err(CanonFailure::NotFound) => Err(None),
        Err(CanonFailure::Other(m)) => Err(Some(m@)),
    }
}

/// What resolving `joined` gives when canonicalizing it gave `c`.
pub open spec fn settled(joined: Seq<char>, c: Result<Seq<char>, Option<Seq<char>>>) -> Result<
    Seq<char>,
    IncludeErrorV,
> {
    match c {
        Ok(p) => Ok(p),
        Err(None) => Err(IncludeErrorV::FileNotFound(joined)),
        Err(Some(m)) => Err(IncludeErrorV::Io { path: joined, source: m }),
    }
}

/// Whether `r` is a possible resolution of `joined`: some canonical path,
/// or the error that a failed canonicalization of `joined` gives.
pub open spec fn may_settle(joined: Seq<char>, r: Result<Seq<char>, IncludeErrorV>) -> bool {
    match r {
        Ok(_) => true,
        Err(IncludeErrorV::FileNotFound(p)) => p == joined,
        Err(IncludeErrorV::Io { path, .. }) => path == joined,
        _ => false,
    }
}

pub open spec fn path_result(r: Result<String, IncludeError>) -> Result<Seq<char>, IncludeErrorV> {
    match r {
        Ok(p) => Ok(p@),
        Err(e) => Err(e@),
    }
}

/// The resolution of `joined` given the outcome of canonicalizing it.
pub fn settle(joined: String, c: Result<String, CanonFailure>) -> (r: Result<String, IncludeError>)
    ensures
        path_result(r) == settled(joined@, canon_view(c)),
{
    match c {
        Ok(p) => Ok(p),
        Err(CanonFailure::NotFound) => Err(IncludeError::FileNotFound(joined)),
        Err(CanonFailure::Other(m)) => Err(IncludeError::Io { path: joined, source: m }),
    }
}

impl PathResolver {
    /// The directory of the article, as a sequence of characters.
    pub closed spec fn dir(&self) -> Seq<char> {
        self.article_dir@
    }

    /// The project root, if any, as a sequence of characters.
    pub closed spec fn root(&self) -> Option<Seq<char>> {
        opt_text(self.config_root)
    }

    /// Create a resolver from the article's file path and an optional root.
    ///
    /// `article_path` should point to the `.md` file; only its parent
    /// directory is retained.
    pub fn new(article_path: &str, config_root: Option<&str>) -> (r: Self)
        ensures
            r.dir() == article_dir_of(article_path@),
            r.root() == opt_str(config_root),
    {
        let article_dir = match parent_of(article_path) {
            Some(d) => d,
            None => owned("."),
        };
        let config_root = match config_root {
            Some(c) => Some(owned(c)),
            None => None,
        };
        PathResolver { article_dir, config_root }
    }

    /// A resolver for another article under the same root.
    pub fn for_article(&self, article_path: &str) -> (r: Self)
        ensures
            r.dir() == article_dir_of(article_path@),
            r.root() == self.root(),
    {
        let article_dir = match parent_of(article_path) {
            Some(d) => d,
            None => owned("."),
        };
        self.with_dir(article_dir)
    }

    /// A resolver for the same root and another article directory.
    pub fn with_dir(&self, article_dir: String) -> (r: Self)
        ensures
            r.dir() == article_dir@,
            r.root() == self.root(),
    {
        let config_root = match &self.config_root {
            Some(c) => Some(c.clone()),
            None => None,
        };
        PathResolver { article_dir, config_root }
    }

    /// The path a raw include path designates, before it is canonicalized:
    /// `@/rest` joined to the config root, an absolute path as it is, and any
    /// other path joined to the article directory.
    pub fn target(&self, raw_path: &str) -> (r: Result<String, IncludeError>)
        ensures
            path_result(r) == target_path(self.dir(), self.root(), raw_path@),
    {
        let n = raw_path.unicode_len();
        if n >= 2 && raw_path.get_char(0) == '@' && raw_path.get_char(1) == '/' {
            let rest = raw_path.substring_char(2, n);
            match &self.config_root {
                None => Err(IncludeError::NoConfigRoot),
                Some(root) => {
                    proof {
                        assert(rest@ =~= raw_path@.skip(2));
                    }
                    Ok(join(root.as_str(), rest))
                },
            }
        } else if is_absolute(raw_path) {
            Ok(owned(raw_path))
        } else {
            Ok(join(self.article_dir.as_str(), raw_path))
        }
    }

    /// Resolve a raw path string from an include directive to a canonical
    /// filesystem path. Which canonical path comes back depends on the file
    /// system; an error comes back exactly when `target` gives one or the
    /// path cannot be canonicalized. A resolved path is absolute.
    pub fn resolve(&self, raw_path: &str) -> (r: Result<String, IncludeError>)
        ensures
            target_path(self.dir(), self.root(), raw_path@) is Err ==> path_result(r)
                == target_path(self.dir(), self.root(), raw_path@),
            target_path(self.dir(), self.root(), raw_path@) matches Ok(j0)
                ==> may_settle(j0, path_result(r)),
            r matches Ok(p) ==> path_is_absolute(p@),
    {
        let joined = match self.target(raw_path) {
            Ok(j) => j,
            Err(e) => return Err(e),
        };
        let ghost jv = joined@;
        let c = canonicalize(joined.as_str());
        let r = settle(joined, c);
        assert(target_path(self.dir(), self.root(), raw_path@) == Ok::<Seq<char>, IncludeErrorV>(
            jv,
        ));
        r
    }

    /// The directory of the article being processed.
    pub fn article_dir(&self) -> (r: &String)
        ensures
            r@ == self.dir(),
    {
        &self.article_dir
    }

    /// The project config root, if one was provided.
    pub fn config_root(&self) -> (r: Option<&String>)
        ensures
            match r {
                Some(c) => self.root() == Some(c@),
                None => self.root() is None,
            },
    {
        match &self.config_root {
            Some(c) => Some(c),
            None => None,
        }
    }
}

} // verus!
