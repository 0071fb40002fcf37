//! A document, as include processing sees it: its frontmatter and its AST.

use vstd::prelude::*;
use crate::frontmatter::opt_view;
use crate::includes::{expand_list, expand_nodes, Expanded, Status};
use crate::json::{seq_view, Json, JsonV};
use crate::loads::{Loads, LoadsV};
use crate::resolve::PathResolver;
use crate::tabs::{process_tabs, process_tabs_spec};

verus! {

/// A parsed document: its frontmatter, if any, and its AST nodes.
#[derive(Debug)]
pub struct Document {
    pub meta: Option<Json>,
    pub ast: Vec<Json>,
}

/// What processing a document's includes and tabs leaves: first every
/// include directive is expanded, then the frontmatter tabs are processed.
pub open spec fn processed(
    ast: Seq<JsonV>,
    meta: Option<JsonV>,
    dir: Seq<char>,
    root: Option<Seq<char>>,
    loads: LoadsV,
) -> Expanded {
    let e = expand_list(ast, meta, dir, root, Set::empty(), loads);
    if e.status is Complete {
        process_tabs_spec(e.nodes, e.meta, dir, root, loads)
    } else {
        e
    }
}

/// Process all include directives of a document, then its frontmatter tabs,
/// reading the file system only through `loads`. When the result is
/// `Status::Needs`, the caller should record the answer in `loads` and run
/// this again on the document as it was before.
pub fn process_includes(asset: &mut Document, resolver: &PathResolver, loads: &Loads) -> (r: Status)
    ensures
        processed(seq_view(old(asset).ast@), opt_view(old(asset).meta), resolver.dir(), resolver.root(), loads@)
            == (Expanded {
            nodes: seq_view(final(asset).ast@),
            meta: opt_view(final(asset).meta),
            status: r@,
        }),
{
    let mut ast: Vec<Json> = Vec::new();
    std::mem::swap(&mut ast, &mut asset.ast);
    let mut seen: Vec<String> = Vec::new();
    proof {
        assert(crate::includes::seen_set(seen@) =~= Set::<Seq<char>>::empty());
    }
    let (expanded, status) = expand_nodes(&ast, &mut asset.meta, resolver, &mut seen, loads);
    match status {
        Status::Complete => {
            let (nodes, st) = process_tabs(expanded, &mut asset.meta, resolver, loads);
            asset.ast = nodes;
            st
        },
        other => {
            asset.ast = expanded;
            other
        },
    }
}

} // verus!
