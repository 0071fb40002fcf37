//! What has been read from the file system so far: the outcome of
//! canonicalizing each include target, and the loaded content of each file.
//! Include expansion consults these and asks for what is missing.

use vstd::prelude::*;
use crate::frontmatter::opt_view;
use crate::handlers::IncludeKind;
use crate::json::{json_eq, seq_view, Json, JsonV};
use crate::paths::CanonFailure;
use crate::resolve::canon_view;

verus! {

broadcast use vstd::std_specs::vec::group_vec_axioms, vstd::seq::group_seq_axioms;

/// A file to load, the handler to load it with, and the attributes of the
/// include directive that the handler receives (only a mermaid handler
/// receives any).
#[derive(Debug)]
pub struct LoadRequest {
    pub path: String,
    pub kind: IncludeKind,
    pub attrs: Json,
}

pub struct LoadRequestV {
    pub path: Seq<char>,
    pub kind: IncludeKind,
    pub attrs: JsonV,
}

impl View for LoadRequest {
    type V = LoadRequestV;

    open spec fn view(&self) -> LoadRequestV {
        LoadRequestV { path: self.path@, kind: self.kind, attrs: self.attrs@ }
    }
}

/// What loading a file gave.
#[derive(Debug)]
pub enum Loaded {
    /// The file's frontmatter (for a Markdown file) and its AST nodes.
    Content { meta: Option<Json>, nodes: Vec<Json> },
    /// The file could not be read; the message of the error.
    Unreadable(String),
    /// The file was read but could not be parsed; the message of the error.
    Unparsable(String),
}

pub enum LoadedV {
    Content { meta: Option<JsonV>, nodes: Seq<JsonV> },
    Unreadable(Seq<char>),
    Unparsable(Seq<char>),
}

impl View for Loaded {
    type V = LoadedV;

    open spec fn view(&self) -> LoadedV {
        match self {
            Loaded::Content { meta, nodes } => LoadedV::Content {
                meta: opt_view(*meta),
                nodes: seq_view(nodes@),
            },
            Loaded::Unreadable(m) => LoadedV::Unreadable(m@),
            Loaded::Unparsable(m) => LoadedV::Unparsable(m@),
        }
    }
}

/// Something the file system has to be asked before expansion can go on.
#[derive(Debug)]
pub enum Need {
    /// Canonicalize this path.
    Canonical(String),
    /// Load this file.
    File(LoadRequest),
}

pub enum NeedV {
    Canonical(Seq<char>),
    File(LoadRequestV),
}

impl View for Need {
    type V = NeedV;

    open spec fn view(&self) -> NeedV {
        match self {
            Need::Canonical(p) => NeedV::Canonical(p@),
            Need::File(r) => NeedV::File(r@),
        }
    }
}

/// The outcomes of canonicalizing paths and of loading files. A later
/// record for the same path or request supersedes an earlier one.
pub struct Loads {
    canon: Vec<(String, Result<String, CanonFailure>)>,
    files: Vec<(LoadRequest, Loaded)>,
}

pub type CanonV = Result<Seq<char>, Option<Seq<char>>>;

pub struct LoadsV {
    pub canon: Seq<(Seq<char>, CanonV)>,
    pub files: Seq<(LoadRequestV, LoadedV)>,
}

impl View for Loads {
    type V = LoadsV;

    closed spec fn view(&self) -> LoadsV {
        LoadsV {
            canon: self.canon@.map_values(
                |e: (String, Result<String, CanonFailure>)| (e.0@, canon_view(e.1)),
            ),
            files: self.files@.map_values(|e: (LoadRequest, Loaded)| (e.0@, e.1@)),
        }
    }
}

/// The recorded outcome of canonicalizing `joined`.
pub open spec fn canon_lookup(s: Seq<(Seq<char>, CanonV)>, joined: Seq<char>) -> Option<CanonV>
    decreases s.len(),
{
    if s.len() == 0 {
        None
    } else if s.last().0 == joined {
        Some(s.last().1)
    } else {
        canon_lookup(s.drop_last(), joined)
    }
}

/// The recorded outcome of loading `req`.
pub open spec fn file_lookup(s: Seq<(LoadRequestV, LoadedV)>, req: LoadRequestV) -> Option<LoadedV>
    decreases s.len(),
{
    if s.len() == 0 {
        None
    } else if s.last().0 == req {
        Some(s.last().1)
    } else {
        file_lookup(s.drop_last(), req)
    }
}

/// The paths of the Markdown files that have been loaded.
pub open spec fn markdown_paths(s: Seq<(LoadRequestV, LoadedV)>) -> Set<Seq<char>>
    decreases s.len(),
{
    if s.len() == 0 {
        Set::empty()
    } else if s.last().0.kind == IncludeKind::Markdown {
        markdown_paths(s.drop_last()).insert(s.last().0.path)
    } else {
        markdown_paths(s.drop_last())
    }
}

pub proof fn lemma_markdown_paths(s: Seq<(LoadRequestV, LoadedV)>, req: LoadRequestV)
    ensures
        markdown_paths(s).finite(),
        file_lookup(s, req) is Some && req.kind == IncludeKind::Markdown ==> markdown_paths(
            s,
        ).contains(req.path),
    decreases s.len(),
{
    if s.len() > 0 {
        lemma_markdown_paths(s.drop_last(), req);
    }
}

impl Loads {
    /// Nothing recorded yet.
    pub fn new() -> (r: Loads)
        ensures
            r@.canon.len() == 0,
            r@.files.len() == 0,
    {
        let r = Loads { canon: Vec::new(), files: Vec::new() };
        assert(r@.canon =~= Seq::empty());
        assert(r@.files =~= Seq::empty());
        r
    }

    /// Record the outcome of canonicalizing `joined`.
    pub fn record_canonical(&mut self, joined: String, outcome: Result<String, CanonFailure>)
        ensures
            final(self)@.canon == old(self)@.canon.push((joined@, canon_view(outcome))),
            final(self)@.files == old(self)@.files,
    {
        self.canon.push((joined, outcome));
        assert(self@.canon =~= old(self)@.canon.push((joined@, canon_view(outcome))));
        assert(self@.files =~= old(self)@.files);
    }

    /// Record what loading `request` gave.
    pub fn record_file(&mut self, request: LoadRequest, loaded: Loaded)
        ensures
            final(self)@.files == old(self)@.files.push((request@, loaded@)),
            final(self)@.canon == old(self)@.canon,
    {
        self.files.push((request, loaded));
        assert(self@.files =~= old(self)@.files.push((request@, loaded@)));
        assert(self@.canon =~= old(self)@.canon);
    }

    /// The recorded outcome of canonicalizing `joined`.
    pub fn canonical(&self, joined: &String) -> (r: Option<&Result<String, CanonFailure>>)
        ensures
            match r {
                Some(c) => canon_lookup(self@.canon, joined@) == Some(canon_view(*c)),
                None => canon_lookup(self@.canon, joined@) is None,
            },
    {
        let mut i = self.canon.len();
        assert(self@.canon.take(i as int) =~= self@.canon);
        while i > 0
            invariant
                i <= self.canon.len(),
                canon_lookup(self@.canon, joined@) == canon_lookup(self@.canon.take(i as int), joined@),
            decreases i,
        {
            let ghost t = self@.canon.take(i as int);
            assert(t.drop_last() =~= self@.canon.take(i - 1));
            assert(t.last() == (self.canon@[i - 1].0@, canon_view(self.canon@[i - 1].1)));
            if self.canon[i - 1].0 == *joined {
                return Some(&self.canon[i - 1].1);
            }
            i = i - 1;
        }
        assert(self@.canon.take(0) =~= Seq::empty());
        None
    }

    /// The recorded outcome of loading `request`.
    pub fn file(&self, request: &LoadRequest) -> (r: Option<&Loaded>)
        ensures
            match r {
                Some(l) => file_lookup(self@.files, request@) == Some(l@),
                None => file_lookup(self@.files, request@) is None,
            },
    {
        let mut i = self.files.len();
        assert(self@.files.take(i as int) =~= self@.files);
        while i > 0
            invariant
                i <= self.files.len(),
                file_lookup(self@.files, request@) == file_lookup(self@.files.take(i as int), request@),
            decreases i,
        {
            let ghost t = self@.files.take(i as int);
            assert(t.drop_last() =~= self@.files.take(i - 1));
            assert(t.last() == (self.files@[i - 1].0@, self.files@[i - 1].1@));
            let e = &self.files[i - 1].0;
            if e.path == request.path && e.kind == request.kind && json_eq(&e.attrs, &request.attrs) {
                return Some(&self.files[i - 1].1);
            }
            i = i - 1;
        }
        assert(self@.files.take(0) =~= Seq::empty());
        None
    }
}

} // verus!
