//! Include expansion: fenced `include` nodes of an AST are replaced by the
//! content of the files they name.
//!
//! Expansion reads the file system only through a [`Loads`] table. When it
//! reaches a path that has not been canonicalized yet, or a file that has not
//! been loaded yet, it stops and says what it needs; the caller records the
//! answer and runs expansion again.

use vstd::prelude::*;
use crate::error::{IncludeError, IncludeErrorV};
use crate::frontmatter::{merge_frontmatter, merged_frontmatter, opt_view};
use crate::handlers::{extension_or_empty, include_kind, kind_for, load_error, load_failure, IncludeKind};
use crate::json::{
    clone_from, lemma_same_entries, lemma_seq_view_add, replace_entry,
    entries_view, find_key, json_view, last_entry, lemma_entries_view, lemma_seq_view, seq_view,
    Json, JsonV,
};
use crate::loads::{
    canon_lookup, file_lookup, lemma_markdown_paths, markdown_paths, LoadRequest, LoadRequestV,
    Loaded, LoadedV, Loads, LoadsV, Need, NeedV,
};
use crate::paths::CanonFailure;
use crate::resolve::{article_dir_of, canon_view, settle, settled, target_path, PathResolver};
use crate::text::{is_text, owned};

verus! {

broadcast use vstd::std_specs::vec::group_vec_axioms, vstd::seq::group_seq_axioms,
    vstd::set::group_set_axioms;

/// How far expansion got.
#[derive(Debug)]
pub enum Status {
    /// Every include directive was expanded.
    Complete,
    /// Expansion stopped to ask the file system something.
    Needs(Need),
    /// Expansion failed.
    Failed(IncludeError),
}

pub enum StatusV {
    Complete,
    Needs(NeedV),
    Failed(IncludeErrorV),
}

impl View for Status {
    type V = StatusV;

    open spec fn view(&self) -> StatusV {
        match self {
            Status::Complete => StatusV::Complete,
            Status::Needs(n) => StatusV::Needs(n@),
            Status::Failed(e) => StatusV::Failed(e@),
        }
    }
}

/// The nodes and frontmatter that expansion leaves, and how far it got.
pub struct Expanded {
    pub nodes: Seq<JsonV>,
    pub meta: Option<JsonV>,
    pub status: StatusV,
}

/// The value under key `k` of an object.
pub open spec fn field(n: JsonV, k: Seq<char>) -> Option<JsonV> {
    match n {
        JsonV::Object(m) => if m.dom().contains(k) {
            Some(m[k])
        } else {
            None
        },
        _ => None,
    }
}

/// Whether a node is a fenced block named `include`.
pub open spec fn is_include(n: JsonV) -> bool {
    &&& field(n, "t"@) == Some(JsonV::Str("fenced"@))
    &&& field(n, "name"@) == Some(JsonV::Str("include"@))
}

/// The `src` attribute of an include node, when it is a string.
pub open spec fn include_src(n: JsonV) -> Option<Seq<char>> {
    match field(n, "attrs"@) {
        Some(a) => match field(a, "src"@) {
            Some(JsonV::Str(s)) => Some(s),
            _ => None,
        },
        None => None,
    }
}

/// The attributes of an include node, or none when they are not an object.
pub open spec fn include_attrs(n: JsonV) -> Map<Seq<char>, JsonV> {
    match field(n, "attrs"@) {
        Some(JsonV::Object(m)) => m,
        _ => Map::empty(),
    }
}

/// The load request for a file: a mermaid handler gets the attributes of the
/// directive, the others none.
pub open spec fn request_for(p: Seq<char>, kind: IncludeKind, attrs: Map<Seq<char>, JsonV>) -> LoadRequestV {
    LoadRequestV {
        path: p,
        kind,
        attrs: if kind == IncludeKind::Mermaid {
            JsonV::Object(attrs)
        } else {
            JsonV::Object(Map::empty())
        },
    }
}

/// The Markdown files loaded so far that are not being expanded already.
pub open spec fn avail(loads: LoadsV, seen: Set<Seq<char>>) -> Set<Seq<char>> {
    markdown_paths(loads.files).difference(seen)
}

pub proof fn lemma_avail_shrinks(loads: LoadsV, seen: Set<Seq<char>>, req: LoadRequestV)
    requires
        file_lookup(loads.files, req) is Some,
        req.kind == IncludeKind::Markdown,
        !seen.contains(req.path),
    ensures
        avail(loads, seen.insert(req.path)).len() < avail(loads, seen).len(),
{
    lemma_markdown_paths(loads.files, req);
    let a = avail(loads, seen);
    assert(avail(loads, seen.insert(req.path)) =~= a.remove(req.path));
    assert(a.contains(req.path));
}

pub open spec fn stop(n: JsonV, meta: Option<JsonV>, status: StatusV) -> Expanded {
    Expanded { nodes: seq![n], meta, status }
}

/// `pre`, then what `e` left.
pub open spec fn after(pre: Seq<JsonV>, e: Expanded) -> Expanded {
    Expanded { nodes: pre + e.nodes, meta: e.meta, status: e.status }
}

/// Expand the include directives in a list of nodes, from the first on.
pub open spec fn expand_list(
    nodes: Seq<JsonV>,
    meta: Option<JsonV>,
    dir: Seq<char>,
    root: Option<Seq<char>>,
    seen: Set<Seq<char>>,
    loads: LoadsV,
) -> Expanded
    decreases avail(loads, seen).len(), nodes,
{
    if nodes.len() == 0 {
        Expanded { nodes, meta, status: StatusV::Complete }
    } else {
        let first = if is_include(nodes[0]) {
            expand_include(nodes[0], meta, dir, root, seen, loads)
        } else {
            expand_node(nodes[0], meta, dir, root, seen, loads)
        };
        if first.status is Complete {
            after(first.nodes, expand_list(nodes.drop_first(), first.meta, dir, root, seen, loads))
        } else {
            Expanded { nodes: first.nodes + nodes.drop_first(), meta: first.meta, status: first.status }
        }
    }
}

/// Expand one include directive: resolve its `src`, refuse a circular
/// include, load the file, merge a Markdown file's frontmatter and expand the
/// includes inside it, relative to its own directory.
pub open spec fn expand_include(
    n: JsonV,
    meta: Option<JsonV>,
    dir: Seq<char>,
    root: Option<Seq<char>>,
    seen: Set<Seq<char>>,
    loads: LoadsV,
) -> Expanded
    decreases avail(loads, seen).len(), n,
{
    match include_src(n) {
        None => stop(n, meta, StatusV::Failed(IncludeErrorV::MissingSrc)),
        Some(src) => match target_path(dir, root, src) {
            Err(e) => stop(n, meta, StatusV::Failed(e)),
            Ok(j) => match canon_lookup(loads.canon, j) {
                None => stop(n, meta, StatusV::Needs(NeedV::Canonical(j))),
                Some(c) => match settled(j, c) {
                    Err(e) => stop(n, meta, StatusV::Failed(e)),
                    Ok(p) => if seen.contains(p) {
                        stop(n, meta, StatusV::Failed(IncludeErrorV::CircularInclude(p)))
                    } else {
                        match kind_for(extension_or_empty(p)) {
                            Err(e) => stop(n, meta, StatusV::Failed(e)),
                            Ok(kind) => {
                                let req = request_for(p, kind, include_attrs(n));
                                match file_lookup(loads.files, req) {
                                    None => stop(n, meta, StatusV::Needs(NeedV::File(req))),
                                    Some(LoadedV::Unreadable(m)) => stop(
                                        n,
                                        meta,
                                        StatusV::Failed(load_failure(kind, p, true, m)),
                                    ),
                                    Some(LoadedV::Unparsable(m)) => stop(
                                        n,
                                        meta,
                                        StatusV::Failed(load_failure(kind, p, false, m)),
                                    ),
                                    Some(LoadedV::Content { meta: m2, nodes: a }) => if kind
                                        == IncludeKind::Markdown {
                                        proof {
                                            lemma_avail_shrinks(loads, seen, req);
                                        }
                                        let inner = expand_list(
                                            a,
                                            merged_frontmatter(meta, m2),
                                            article_dir_of(p),
                                            root,
                                            seen.insert(p),
                                            loads,
                                        );
                                        if inner.status is Complete {
                                            inner
                                        } else {
                                            stop(n, inner.meta, inner.status)
                                        }
                                    } else {
                                        Expanded { nodes: a, meta, status: StatusV::Complete }
                                    },
                                }
                            },
                        }
                    },
                },
            },
        },
    }
}

/// Expand the includes under a node that is not itself an include: in its
/// `children`, then in its `items`.
pub open spec fn expand_node(
    n: JsonV,
    meta: Option<JsonV>,
    dir: Seq<char>,
    root: Option<Seq<char>>,
    seen: Set<Seq<char>>,
    loads: LoadsV,
) -> Expanded
    decreases avail(loads, seen).len(), n,
{
    match n {
        JsonV::Object(m) => {
            let c = if m.dom().contains("children"@) && m["children"@] is Array {
                let r = expand_list(m["children"@]->Array_0, meta, dir, root, seen, loads);
                Expanded {
                    nodes: seq![JsonV::Object(m.insert("children"@, JsonV::Array(r.nodes)))],
                    meta: r.meta,
                    status: r.status,
                }
            } else {
                stop(n, meta, StatusV::Complete)
            };
            if !(c.status is Complete) {
                c
            } else if m.dom().contains("items"@) && m["items"@] is Array {
                let m1 = c.nodes[0]->Object_0;
                let r = expand_items(m["items"@]->Array_0, c.meta, dir, root, seen, loads);
                Expanded {
                    nodes: seq![JsonV::Object(m1.insert("items"@, JsonV::Array(r.nodes)))],
                    meta: r.meta,
                    status: r.status,
                }
            } else {
                c
            }
        },
        _ => stop(n, meta, StatusV::Complete),
    }
}

/// Expand the includes under each of a list of items.
pub open spec fn expand_items(
    items: Seq<JsonV>,
    meta: Option<JsonV>,
    dir: Seq<char>,
    root: Option<Seq<char>>,
    seen: Set<Seq<char>>,
    loads: LoadsV,
) -> Expanded
    decreases avail(loads, seen).len(), items,
{
    if items.len() == 0 {
        Expanded { nodes: items, meta, status: StatusV::Complete }
    } else {
        let first = expand_node(items[0], meta, dir, root, seen, loads);
        if first.status is Complete {
            after(first.nodes, expand_items(items.drop_first(), first.meta, dir, root, seen, loads))
        } else {
            Expanded { nodes: first.nodes + items.drop_first(), meta: first.meta, status: first.status }
        }
    }
}


/// The names of the paths being expanded.
pub open spec fn seen_set(s: Seq<String>) -> Set<Seq<char>> {
    Set::new(|p: Seq<char>| exists|i: int| 0 <= i < s.len() && s[i]@ == p)
}

proof fn lemma_seen_push(s: Seq<String>, x: String)
    ensures
        seen_set(s.push(x)) == seen_set(s).insert(x@),
{
    assert forall|p: Seq<char>| seen_set(s.push(x)).contains(p) <==> seen_set(s).insert(x@).contains(p) by {
        if seen_set(s).contains(p) {
            let i = choose|i: int| 0 <= i < s.len() && s[i]@ == p;
            assert(s.push(x)[i]@ == p);
        }
        if seen_set(s.push(x)).contains(p) {
            let i = choose|i: int| 0 <= i < s.len() + 1 && s.push(x)[i]@ == p;
            if i < s.len() {
                assert(s[i]@ == p);
            }
        }
        if p == x@ {
            assert(s.push(x)[s.len() as int]@ == p);
        }
    }
    assert(seen_set(s.push(x)) =~= seen_set(s).insert(x@));
}

/// Whether `p` is one of the paths being expanded.
fn seen_has(seen: &Vec<String>, p: &String) -> (r: bool)
    ensures
        r == seen_set(seen@).contains(p@),
{
    for i in 0..seen.len()
        invariant
            forall|t: int| 0 <= t < i ==> seen@[t]@ != p@,
    {
        if seen[i] == *p {
            return true;
        }
    }
    false
}

/// Whether a node is a fenced block named `include`.
pub fn is_include_node(node: &Json) -> (r: bool)
    ensures
        r == is_include(node@),
{
    let t = match node.get(&owned("t")) {
        Some(v) => v,
        None => return false,
    };
    let fenced = match t.as_str() {
        Some(s) => is_text(s, "fenced"),
        None => false,
    };
    if !fenced {
        return false;
    }
    match node.get(&owned("name")) {
        Some(v) => match v.as_str() {
            Some(s) => is_text(s, "include"),
            None => false,
        },
        None => false,
    }
}

/// The `src` attribute of an include node, when it is a string.
fn include_src_of(node: &Json) -> (r: Option<&String>)
    ensures
        match r {
            Some(s) => include_src(node@) == Some(s@),
            None => include_src(node@) is None,
        },
{
    match node.get(&owned("attrs")) {
        Some(a) => match a.get(&owned("src")) {
            Some(s) => s.as_str(),
            None => None,
        },
        None => None,
    }
}

/// The attributes of an include node as an object.
fn include_attrs_of(node: &Json) -> (r: Json)
    ensures
        r@ == JsonV::Object(include_attrs(node@)),
{
    match node.get(&owned("attrs")) {
        Some(a) => match a {
            Json::Object(_) => a.deep_clone(),
            _ => Json::Object(Vec::new()),
        },
        None => Json::Object(Vec::new()),
    }
}


/// What an expansion step left, viewed.
pub open spec fn result_view(nodes: Seq<Json>, meta: Option<Json>, status: Status) -> Expanded {
    Expanded { nodes: seq_view(nodes), meta: opt_view(meta), status: status@ }
}

/// A copy of a canonicalization outcome.
fn copy_canon(c: &Result<String, CanonFailure>) -> (r: Result<String, CanonFailure>)
    ensures
        canon_view(r) == canon_view(*c),
{
    match c {
        Ok(p) => Ok(p.clone()),
        Err(CanonFailure::NotFound) => Err(CanonFailure::NotFound),
        Err(CanonFailure::Other(m)) => Err(CanonFailure::Other(m.clone())),
    }
}

/// The single node `node`, unchanged, with `status`.
fn keep(node: &Json, status: Status) -> (r: (Vec<Json>, Status))
    ensures
        seq_view(r.0@) == seq![node@],
        r.1@ == status@,
{
    let v = vec![node.deep_clone()];
    proof {
        lemma_seq_view(v@);
        assert(seq_view(v@) =~= seq![node@]);
    }
    (v, status)
}

/// Expand one include directive.
fn expand_one_include(
    node: &Json,
    meta: &mut Option<Json>,
    rz: &PathResolver,
    seen: &mut Vec<String>,
    loads: &Loads,
) -> (r: (Vec<Json>, Status))
    ensures
        final(seen)@ == old(seen)@,
        result_view(r.0@, *final(meta), r.1) == expand_include(
            node@,
            opt_view(*old(meta)),
            rz.dir(),
            rz.root(),
            seen_set(old(seen)@),
            loads@,
        ),
    decreases avail(loads@, seen_set(seen@)).len(), node,
{
    let src = match include_src_of(node) {
        Some(s) => s,
        None => return keep(node, Status::Failed(IncludeError::MissingSrc)),
    };
    let joined = match rz.target(src.as_str()) {
        Ok(j) => j,
        Err(e) => return keep(node, Status::Failed(e)),
    };
    let c = match loads.canonical(&joined) {
        Some(c) => copy_canon(c),
        None => return keep(node, Status::Needs(Need::Canonical(joined))),
    };
    let path = match settle(joined, c) {
        Ok(p) => p,
        Err(e) => return keep(node, Status::Failed(e)),
    };
    if seen_has(seen, &path) {
        return keep(node, Status::Failed(IncludeError::CircularInclude(path)));
    }
    let kind = match include_kind(path.as_str()) {
        Ok(k) => k,
        Err(e) => return keep(node, Status::Failed(e)),
    };
    let attrs = if kind == IncludeKind::Mermaid {
        include_attrs_of(node)
    } else {
        Json::Object(Vec::new())
    };
    let req = LoadRequest { path: path.clone(), kind, attrs };
    assert(req@ == request_for(path@, kind, include_attrs(node@)));
    match loads.file(&req) {
        None => keep(node, Status::Needs(Need::File(req))),
        Some(Loaded::Unreadable(m)) => keep(node, Status::Failed(load_error(kind, &path, true, m))),
        Some(Loaded::Unparsable(m)) => keep(node, Status::Failed(load_error(kind, &path, false, m))),
        Some(Loaded::Content { meta: inner_meta, nodes }) => {
            if kind == IncludeKind::Markdown {
                merge_frontmatter(meta, inner_meta);
                let inner = rz.for_article(path.as_str());
                let ghost before = seen@;
                proof {
                    lemma_avail_shrinks(loads@, seen_set(before), req@);
                    lemma_seen_push(before, path);
                }
                seen.push(path);
                let (out, status) = expand_nodes(nodes, meta, &inner, seen, loads);
                seen.pop();
                assert(seen@ =~= before);
                match status {
                    Status::Complete => (out, Status::Complete),
                    other => keep(node, other),
                }
            } else {
                let out = clone_from(nodes, 0);
                assert(seq_view(nodes@).skip(0) =~= seq_view(nodes@));
                (out, Status::Complete)
            }
        },
    }
}

/// Expand the include directives in a list of nodes.
#[verifier::loop_isolation(false)]
pub fn expand_nodes(
    nodes: &Vec<Json>,
    meta: &mut Option<Json>,
    rz: &PathResolver,
    seen: &mut Vec<String>,
    loads: &Loads,
) -> (r: (Vec<Json>, Status))
    ensures
        final(seen)@ == old(seen)@,
        result_view(r.0@, *final(meta), r.1) == expand_list(
            seq_view(nodes@),
            opt_view(*old(meta)),
            rz.dir(),
            rz.root(),
            seen_set(old(seen)@),
            loads@,
        ),
    decreases avail(loads@, seen_set(seen@)).len(), nodes,
{
    let ghost all = seq_view(nodes@);
    let ghost s0 = seen@;
    let ghost total = expand_list(all, opt_view(*meta), rz.dir(), rz.root(), seen_set(s0), loads@);
    proof {
        lemma_seq_view(nodes@);
        assert(all.skip(0) =~= all);
        assert(seq_view(Seq::<Json>::empty()) =~= Seq::<JsonV>::empty());
    }
    let mut out: Vec<Json> = Vec::new();
    let mut i: usize = 0;
    while i < nodes.len()
        invariant
            i <= nodes.len(),
            seen@ == s0,
            all == seq_view(nodes@),
            all.len() == nodes.len(),
            forall|t: int| 0 <= t < nodes.len() ==> #[trigger] all[t] == json_view(nodes@[t]),
            total == after(
                seq_view(out@),
                expand_list(all.skip(i as int), opt_view(*meta), rz.dir(), rz.root(), seen_set(s0), loads@),
            ),
        decreases nodes.len() - i,
    {
        let ghost rest = all.skip(i as int);
        let ghost m_i = opt_view(*meta);
        let ghost out_i = out@;
        proof {
            assert(rest.drop_first() =~= all.skip(i + 1));
            assert(rest[0] == json_view(nodes@[i as int]));
        }
        let (mut part, status) = if is_include_node(&nodes[i]) {
            expand_one_include(&nodes[i], meta, rz, seen, loads)
        } else {
            let (n2, st) = expand_one_node(&nodes[i], meta, rz, seen, loads);
            let v = vec![n2];
            proof {
                lemma_seq_view(v@);
                assert(seq_view(v@) =~= seq![v@[0]@]);
            }
            (v, st)
        };
        let ghost part_v = part@;
        let ghost first = if is_include(rest[0]) {
            expand_include(rest[0], m_i, rz.dir(), rz.root(), seen_set(s0), loads@)
        } else {
            expand_node(rest[0], m_i, rz.dir(), rz.root(), seen_set(s0), loads@)
        };
        assert(first == result_view(part_v, *meta, status));
        out.append(&mut part);
        proof {
            assert(out@ =~= out_i + part_v);
            lemma_seq_view_add(out_i, part_v);
        }
        match status {
            Status::Complete => {
                proof {
                    let x = expand_list(all.skip(i + 1), first.meta, rz.dir(), rz.root(), seen_set(s0), loads@);
                    assert(expand_list(rest, m_i, rz.dir(), rz.root(), seen_set(s0), loads@) == after(first.nodes, x));
                    assert(seq_view(out_i) + (first.nodes + x.nodes) =~= (seq_view(out_i) + first.nodes) + x.nodes);
                }
                i = i + 1;
            },
            other => {
                let mut tail = clone_from(nodes, i + 1);
                let ghost out_j = out@;
                let ghost tail_v = tail@;
                out.append(&mut tail);
                proof {
                    assert(out@ =~= out_j + tail_v);
                    lemma_seq_view_add(out_j, tail_v);
                    assert(expand_list(rest, m_i, rz.dir(), rz.root(), seen_set(s0), loads@) == (Expanded {
                        nodes: first.nodes + all.skip(i + 1),
                        meta: first.meta,
                        status: first.status,
                    }));
                    assert(seq_view(out_i) + (first.nodes + all.skip(i + 1)) =~= (seq_view(out_i) + first.nodes) + all.skip(i + 1));
                }
                return (out, other);
            },
        }
    }
    proof {
        assert(all.skip(i as int) =~= Seq::<JsonV>::empty());
        assert(seq_view(out@) + Seq::<JsonV>::empty() =~= seq_view(out@));
    }
    (out, Status::Complete)
}

/// Expand the includes under a node that is not itself an include.
fn expand_one_node(
    node: &Json,
    meta: &mut Option<Json>,
    rz: &PathResolver,
    seen: &mut Vec<String>,
    loads: &Loads,
) -> (r: (Json, Status))
    ensures
        final(seen)@ == old(seen)@,
        expand_node(node@, opt_view(*old(meta)), rz.dir(), rz.root(), seen_set(old(seen)@), loads@)
            == (Expanded { nodes: seq![r.0@], meta: opt_view(*final(meta)), status: r.1@ }),
    decreases avail(loads@, seen_set(seen@)).len(), node,
{
    match node {
        Json::Object(entries) => {
            let ghost m = entries_view(entries@);
            let ghost m0 = opt_view(*meta);
            let ghost s0 = seen_set(seen@);
            proof {
                lemma_entries_view(entries@);
                reveal_strlit("children");
                reveal_strlit("items");
                assert("children"@[0] == 'c' && "items"@[0] == 'i');
                assert("children"@ != "items"@);
                assert(node@ == JsonV::Object(m));
            }
            let ghost spec_c = if m.dom().contains("children"@) && m["children"@] is Array {
                let r = expand_list(m["children"@]->Array_0, m0, rz.dir(), rz.root(), s0, loads@);
                Expanded {
                    nodes: seq![JsonV::Object(m.insert("children"@, JsonV::Array(r.nodes)))],
                    meta: r.meta,
                    status: r.status,
                }
            } else {
                stop(node@, m0, StatusV::Complete)
            };
            let children_key = owned("children");
            let (e1, status) = match find_key(entries, &children_key) {
                Some(ci) => match &entries[ci as usize].1 {
                    Json::Array(cs) => {
                        assert(last_entry(entries@, "children"@, ci as int));
                        assert(m["children"@] == JsonV::Array(seq_view(cs@)));
                        let (cs2, st) = expand_nodes(cs, meta, rz, seen, loads);
                        let e1 = replace_entry(entries, ci, Json::Array(cs2));
                        (e1, st)
                    },
                    _ => {
                        assert(last_entry(entries@, "children"@, ci as int));
                        let e1 = replace_entry(entries, ci, entries[ci].1.deep_clone());
                        assert(entries_view(e1@) =~= m);
                        (e1, Status::Complete)
                    },
                },
                None => {
                    let e1 = clone_entries(entries);
                    (e1, Status::Complete)
                },
            };
            assert(spec_c == (Expanded {
                nodes: seq![JsonV::Object(entries_view(e1@))],
                meta: opt_view(*meta),
                status: status@,
            }));
            assert(forall|t: int| 0 <= t < e1@.len() ==> (#[trigger] e1@[t]).0@ == entries@[t].0@);
            assert(e1@.len() == entries@.len());
            match status {
                Status::Complete => {},
                other => return (Json::Object(e1), other),
            }
            let items_key = owned("items");
            match find_key(entries, &items_key) {
                Some(ii) => match &entries[ii as usize].1 {
                    Json::Array(items) => {
                        assert(last_entry(entries@, "items"@, ii as int));
                        assert(last_entry(e1@, "items"@, ii as int));
                        assert(m["items"@] == JsonV::Array(seq_view(items@)));
                        let (items2, st) = expand_item_list(items, meta, rz, seen, loads);
                        let e2 = replace_entry(&e1, ii, Json::Array(items2));
                        (Json::Object(e2), st)
                    },
                    _ => {
                        assert(last_entry(entries@, "items"@, ii as int));
                        (Json::Object(e1), Status::Complete)
                    },
                },
                None => (Json::Object(e1), Status::Complete),
            }
        },
        _ => (node.deep_clone(), Status::Complete),
    }
}

/// A copy of a list of entries.
fn clone_entries(entries: &Vec<(String, Json)>) -> (r: Vec<(String, Json)>)
    ensures
        r@.len() == entries@.len(),
        forall|t: int| 0 <= t < r@.len() ==> (#[trigger] r@[t]).0@ == entries@[t].0@ && json_view(r@[t].1) == json_view(entries@[t].1),
        entries_view(r@) == entries_view(entries@),
{
    let mut r: Vec<(String, Json)> = Vec::new();
    for i in 0..entries.len()
        invariant
            r@.len() == i,
            forall|t: int| 0 <= t < i ==> (#[trigger] r@[t]).0@ == entries@[t].0@ && json_view(r@[t].1) == json_view(entries@[t].1),
    {
        r.push((entries[i].0.clone(), entries[i].1.deep_clone()));
    }
    proof {
        lemma_same_entries(r@, entries@);
    }
    r
}

/// Expand the includes under each of a list of items.
#[verifier::loop_isolation(false)]
fn expand_item_list(
    items: &Vec<Json>,
    meta: &mut Option<Json>,
    rz: &PathResolver,
    seen: &mut Vec<String>,
    loads: &Loads,
) -> (r: (Vec<Json>, Status))
    ensures
        final(seen)@ == old(seen)@,
        result_view(r.0@, *final(meta), r.1) == expand_items(
            seq_view(items@),
            opt_view(*old(meta)),
            rz.dir(),
            rz.root(),
            seen_set(old(seen)@),
            loads@,
        ),
    decreases avail(loads@, seen_set(seen@)).len(), items,
{
    let ghost all = seq_view(items@);
    let ghost s0 = seen@;
    let ghost total = expand_items(all, opt_view(*meta), rz.dir(), rz.root(), seen_set(s0), loads@);
    proof {
        lemma_seq_view(items@);
        assert(all.skip(0) =~= all);
        assert(seq_view(Seq::<Json>::empty()) =~= Seq::<JsonV>::empty());
    }
    let mut out: Vec<Json> = Vec::new();
    let mut i: usize = 0;
    while i < items.len()
        invariant
            i <= items.len(),
            seen@ == s0,
            all == seq_view(items@),
            all.len() == items.len(),
            forall|t: int| 0 <= t < items.len() ==> #[trigger] all[t] == json_view(items@[t]),
            total == after(
                seq_view(out@),
                expand_items(all.skip(i as int), opt_view(*meta), rz.dir(), rz.root(), seen_set(s0), loads@),
            ),
        decreases items.len() - i,
    {
        let ghost rest = all.skip(i as int);
        let ghost out_i = out@;
        proof {
            assert(rest.drop_first() =~= all.skip(i + 1));
            assert(rest[0] == json_view(items@[i as int]));
        }
        let ghost m_i = opt_view(*meta);
        let (n2, status) = expand_one_node(&items[i], meta, rz, seen, loads);
        let ghost first = expand_node(rest[0], m_i, rz.dir(), rz.root(), seen_set(s0), loads@);
        let ghost n2v = n2@;
        out.push(n2);
        proof {
            assert(out@ =~= out_i + seq![n2]);
            lemma_seq_view_add(out_i, seq![n2]);
            lemma_seq_view(seq![n2]);
            assert(seq_view(seq![n2]) =~= seq![n2v]);
            assert(first.nodes == seq![n2v]);
        }
        match status {
            Status::Complete => {
                proof {
                    let x = expand_items(all.skip(i + 1), first.meta, rz.dir(), rz.root(), seen_set(s0), loads@);
                    assert(expand_items(rest, m_i, rz.dir(), rz.root(), seen_set(s0), loads@) == after(first.nodes, x));
                    assert(seq_view(out_i) + (first.nodes + x.nodes) =~= (seq_view(out_i) + first.nodes) + x.nodes);
                }
                i = i + 1;
            },
            other => {
                let mut tail = clone_from(items, i + 1);
                let ghost out_j = out@;
                let ghost tail_v = tail@;
                out.append(&mut tail);
                proof {
                    assert(out@ =~= out_j + tail_v);
                    lemma_seq_view_add(out_j, tail_v);
                    assert(expand_items(rest, m_i, rz.dir(), rz.root(), seen_set(s0), loads@) == (Expanded {
                        nodes: first.nodes + all.skip(i + 1),
                        meta: first.meta,
                        status: first.status,
                    }));
                    assert(seq_view(out_i) + (first.nodes + all.skip(i + 1)) =~= (seq_view(out_i) + first.nodes) + all.skip(i + 1));
                }
                return (out, other);
            },
        }
    }
    proof {
        assert(all.skip(i as int) =~= Seq::<JsonV>::empty());
        assert(seq_view(out@) + Seq::<JsonV>::empty() =~= seq_view(out@));
    }
    (out, Status::Complete)
}

} // verus!
