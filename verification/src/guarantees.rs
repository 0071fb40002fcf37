//! What include expansion guarantees of its result.

use vstd::prelude::*;
use crate::document::processed;
use crate::handlers::{extension_or_empty, is_markdown_ext, IncludeKind};
use crate::includes::{
    avail, expand_include, expand_items, expand_list, expand_node, field, is_include,
    lemma_avail_shrinks, request_for, include_attrs, include_src, stop, Expanded, StatusV,
};
use crate::json::JsonV;
use crate::loads::{canon_lookup, file_lookup, LoadRequestV, LoadedV, LoadsV, NeedV};
use crate::resolve::{settled, target_path};
use crate::frontmatter::merged_frontmatter;
use crate::tabs::{process_tabs_spec, str_or, tab_group, tab_node, tab_request, tab_steps, without_tab_keys};

verus! {

broadcast use vstd::seq::group_seq_axioms, vstd::set::group_set_axioms;

/// No node of the list is an include directive, and none under them is.
pub open spec fn clean_list(s: Seq<JsonV>) -> bool
    decreases s,
{
    s.len() == 0 || (!is_include(s[0]) && clean_node(s[0]) && clean_list(s.drop_first()))
}

/// No include directive lies under the node: in its `children`, or under
/// its `items`.
pub open spec fn clean_node(n: JsonV) -> bool
    decreases n,
{
    match n {
        JsonV::Object(m) => {
            &&& (m.dom().contains("children"@) && m["children"@] is Array) ==> clean_list(
                m["children"@]->Array_0,
            )
            &&& (m.dom().contains("items"@) && m["items"@] is Array) ==> clean_items(
                m["items"@]->Array_0,
            )
        },
        _ => true,
    }
}

/// No include directive lies under any of the items.
pub open spec fn clean_items(s: Seq<JsonV>) -> bool
    decreases s,
{
    s.len() == 0 || (clean_node(s[0]) && clean_items(s.drop_first()))
}

/// Every loaded file that is not Markdown holds no include directive (the
/// handlers of `markplus_core` never produce one).
pub open spec fn loads_clean(loads: LoadsV) -> bool {
    forall|i: int|
        0 <= i < loads.files.len() && loads.files[i].0.kind != IncludeKind::Markdown
            ==> match #[trigger] loads.files[i].1 {
            LoadedV::Content { nodes, .. } => clean_list(nodes),
            _ => true,
        }
}

/// Whether a stop asks only for what has not been recorded yet.
pub open spec fn asks_new(status: StatusV, loads: LoadsV) -> bool {
    match status {
        StatusV::Needs(NeedV::Canonical(j)) => canon_lookup(loads.canon, j) is None,
        StatusV::Needs(NeedV::File(req)) => file_lookup(loads.files, req) is None,
        _ => true,
    }
}

proof fn lemma_lookup_in(files: Seq<(LoadRequestV, LoadedV)>, req: LoadRequestV)
    ensures
        file_lookup(files, req) matches Some(v) ==> exists|i: int|
            0 <= i < files.len() && files[i].0 == req && #[trigger] files[i].1 == v,
    decreases files.len(),
{
    if files.len() > 0 {
        lemma_lookup_in(files.drop_last(), req);
        if file_lookup(files, req) is Some && files.last().0 != req {
            let v = file_lookup(files, req).unwrap();
            let i = choose|i: int|
                0 <= i < files.drop_last().len() && files.drop_last()[i].0 == req
                    && #[trigger] files.drop_last()[i].1 == v;
            assert(files[i].1 == v);
        } else if file_lookup(files, req) is Some {
            assert(files[files.len() - 1].1 == file_lookup(files, req).unwrap());
        }
    }
}

proof fn lemma_clean_concat(a: Seq<JsonV>, b: Seq<JsonV>)
    requires
        clean_list(a),
        clean_list(b),
    ensures
        clean_list(a + b),
    decreases a.len(),
{
    if a.len() > 0 {
        lemma_clean_concat(a.drop_first(), b);
        assert((a + b).drop_first() =~= a.drop_first() + b);
        assert((a + b)[0] == a[0]);
    } else {
        assert(a + b =~= b);
    }
}

proof fn lemma_clean_items_concat(a: Seq<JsonV>, b: Seq<JsonV>)
    requires
        clean_items(a),
        clean_items(b),
    ensures
        clean_items(a + b),
    decreases a.len(),
{
    if a.len() > 0 {
        lemma_clean_items_concat(a.drop_first(), b);
        assert((a + b).drop_first() =~= a.drop_first() + b);
        assert((a + b)[0] == a[0]);
    } else {
        assert(a + b =~= b);
    }
}

proof fn lemma_distinct_keys()
    ensures
        "children"@ != "items"@,
        "children"@ != "t"@,
        "children"@ != "name"@,
        "items"@ != "t"@,
        "items"@ != "name"@,
{
    reveal_strlit("children");
    reveal_strlit("items");
    reveal_strlit("t");
    reveal_strlit("name");
    assert("children"@[0] == 'c' && "items"@[0] == 'i');
    assert("children"@.len() != "t"@.len());
    assert("items"@.len() != "t"@.len());
    assert("children"@.len() != "name"@.len());
    assert("items"@[0] != "name"@[0]);
}

/// Expanding a list: it asks only for new things, and when it completes
/// with clean loads, no include directive is left.
pub proof fn lemma_list(
    nodes: Seq<JsonV>,
    meta: Option<JsonV>,
    dir: Seq<char>,
    root: Option<Seq<char>>,
    seen: Set<Seq<char>>,
    loads: LoadsV,
)
    ensures
        asks_new(expand_list(nodes, meta, dir, root, seen, loads).status, loads),
        loads_clean(loads) && expand_list(nodes, meta, dir, root, seen, loads).status is Complete
            ==> clean_list(expand_list(nodes, meta, dir, root, seen, loads).nodes),
    decreases avail(loads, seen).len(), nodes,
{
    if nodes.len() > 0 {
        let first = if is_include(nodes[0]) {
            lemma_include(nodes[0], meta, dir, root, seen, loads);
            expand_include(nodes[0], meta, dir, root, seen, loads)
        } else {
            lemma_node(nodes[0], meta, dir, root, seen, loads);
            expand_node(nodes[0], meta, dir, root, seen, loads)
        };
        if first.status is Complete {
            lemma_list(nodes.drop_first(), first.meta, dir, root, seen, loads);
            let rest = expand_list(nodes.drop_first(), first.meta, dir, root, seen, loads);
            if loads_clean(loads) && rest.status is Complete {
                if is_include(nodes[0]) {
                    lemma_clean_concat(first.nodes, rest.nodes);
                } else {
                    assert(first.nodes.drop_first() =~= Seq::<JsonV>::empty());
                    assert(clean_list(Seq::<JsonV>::empty()));
                    assert(clean_list(first.nodes));
                    lemma_clean_concat(first.nodes, rest.nodes);
                }
            }
        }
    }
}

/// Expanding one include directive.
pub proof fn lemma_include(
    n: JsonV,
    meta: Option<JsonV>,
    dir: Seq<char>,
    root: Option<Seq<char>>,
    seen: Set<Seq<char>>,
    loads: LoadsV,
)
    ensures
        asks_new(expand_include(n, meta, dir, root, seen, loads).status, loads),
        loads_clean(loads) && expand_include(n, meta, dir, root, seen, loads).status is Complete
            ==> clean_list(expand_include(n, meta, dir, root, seen, loads).nodes),
    decreases avail(loads, seen).len(), n,
{
    if let Some(src) = include_src(n) {
        if let Ok(j) = target_path(dir, root, src) {
            if let Some(c) = canon_lookup(loads.canon, j) {
                if let Ok(p) = settled(j, c) {
                    if !seen.contains(p) {
                        if let Ok(kind) = crate::handlers::kind_for(crate::handlers::extension_or_empty(p)) {
                            let req = request_for(p, kind, include_attrs(n));
                            if let Some(LoadedV::Content { meta: m2, nodes: a }) = file_lookup(loads.files, req) {
                                if kind == IncludeKind::Markdown {
                                    lemma_avail_shrinks(loads, seen, req);
                                    lemma_list(
                                        a,
                                        crate::frontmatter::merged_frontmatter(meta, m2),
                                        crate::resolve::article_dir_of(p),
                                        root,
                                        seen.insert(p),
                                        loads,
                                    );
                                } else {
                                    lemma_lookup_in(loads.files, req);
                                    let i = choose|i: int|
                                        0 <= i < loads.files.len() && loads.files[i].0 == req
                                            && #[trigger] loads.files[i].1 == (LoadedV::Content { meta: m2, nodes: a });
                                    if loads_clean(loads) {
                                        assert(loads.files[i].0.kind != IncludeKind::Markdown);
                                    }
                                }
                            }
                        }
                    }
                }
            }
        }
    }
}

/// Expanding under a node that is not an include directive.
pub proof fn lemma_node(
    n: JsonV,
    meta: Option<JsonV>,
    dir: Seq<char>,
    root: Option<Seq<char>>,
    seen: Set<Seq<char>>,
    loads: LoadsV,
)
    ensures
        asks_new(expand_node(n, meta, dir, root, seen, loads).status, loads),
        loads_clean(loads) && expand_node(n, meta, dir, root, seen, loads).status is Complete
            ==> {
            &&& expand_node(n, meta, dir, root, seen, loads).nodes.len() == 1
            &&& clean_node(expand_node(n, meta, dir, root, seen, loads).nodes[0])
            &&& is_include(expand_node(n, meta, dir, root, seen, loads).nodes[0]) == is_include(n)
        },
    decreases avail(loads, seen).len(), n,
{
    lemma_distinct_keys();
    reveal_strlit("t");
    reveal_strlit("name");
    reveal_strlit("children");
    reveal_strlit("items");
    match n {
        JsonV::Object(m) => {
            let has_c = m.dom().contains("children"@) && m["children"@] is Array;
            let c = if has_c {
                lemma_list(m["children"@]->Array_0, meta, dir, root, seen, loads);
                let r = expand_list(m["children"@]->Array_0, meta, dir, root, seen, loads);
                Expanded {
                    nodes: seq![JsonV::Object(m.insert("children"@, JsonV::Array(r.nodes)))],
                    meta: r.meta,
                    status: r.status,
                }
            } else {
                stop(n, meta, StatusV::Complete)
            };
            if c.status is Complete && m.dom().contains("items"@) && m["items"@] is Array {
                lemma_items(m["items"@]->Array_0, c.meta, dir, root, seen, loads);
            }
        },
        _ => {},
    }
}

/// Expanding under each of a list of items.
pub proof fn lemma_items(
    items: Seq<JsonV>,
    meta: Option<JsonV>,
    dir: Seq<char>,
    root: Option<Seq<char>>,
    seen: Set<Seq<char>>,
    loads: LoadsV,
)
    ensures
        asks_new(expand_items(items, meta, dir, root, seen, loads).status, loads),
        loads_clean(loads) && expand_items(items, meta, dir, root, seen, loads).status is Complete
            ==> clean_items(expand_items(items, meta, dir, root, seen, loads).nodes),
    decreases avail(loads, seen).len(), items,
{
    if items.len() > 0 {
        lemma_node(items[0], meta, dir, root, seen, loads);
        let first = expand_node(items[0], meta, dir, root, seen, loads);
        if first.status is Complete {
            lemma_items(items.drop_first(), first.meta, dir, root, seen, loads);
            let rest = expand_items(items.drop_first(), first.meta, dir, root, seen, loads);
            if loads_clean(loads) && rest.status is Complete {
                assert(first.nodes.drop_first() =~= Seq::<JsonV>::empty());
                assert(clean_items(Seq::<JsonV>::empty()));
                assert(clean_items(first.nodes));
                lemma_clean_items_concat(first.nodes, rest.nodes);
            }
        }
    }
}


/// Expansion only ever stops to ask for something the loads do not hold
/// yet, so that recording each answer and running again makes progress.
pub proof fn law_expansion_asks_only_new(
    nodes: Seq<JsonV>,
    meta: Option<JsonV>,
    dir: Seq<char>,
    root: Option<Seq<char>>,
    loads: LoadsV,
)
    ensures
        asks_new(expand_list(nodes, meta, dir, root, Set::empty(), loads).status, loads),
        asks_new(processed(nodes, meta, dir, root, loads).status, loads),
{
    lemma_list(nodes, meta, dir, root, Set::empty(), loads);
    let e = expand_list(nodes, meta, dir, root, Set::empty(), loads);
    if e.status is Complete {
        lemma_tabs_asks_new(e.nodes, e.meta, dir, root, loads);
    }
}

/// A completed expansion leaves no include directive in the AST, whatever
/// files are being expanded already, as long as the loaded files that are
/// not Markdown hold none (the handlers of `markplus_core` never produce
/// one).
pub proof fn law_complete_expansion_leaves_no_include(
    nodes: Seq<JsonV>,
    meta: Option<JsonV>,
    dir: Seq<char>,
    root: Option<Seq<char>>,
    seen: Set<Seq<char>>,
    loads: LoadsV,
)
    requires
        loads_clean(loads),
        expand_list(nodes, meta, dir, root, seen, loads).status is Complete,
    ensures
        clean_list(expand_list(nodes, meta, dir, root, seen, loads).nodes),
{
    lemma_list(nodes, meta, dir, root, seen, loads);
}

/// Recording the answer to a need makes the lookup that asked for it find it.
pub proof fn law_recorded_answer_is_found(loads: LoadsV, joined: Seq<char>, c: crate::loads::CanonV, req: LoadRequestV, v: LoadedV)
    ensures
        canon_lookup(loads.canon.push((joined, c)), joined) == Some(c),
        file_lookup(loads.files.push((req, v)), req) == Some(v),
{
    assert(loads.canon.push((joined, c)).last() == (joined, c));
    assert(loads.files.push((req, v)).last() == (req, v));
}

/// An include directive without a string `src` attribute fails with
/// `MissingSrc`, and the directive stays where it was.
pub proof fn law_missing_src(
    n: JsonV,
    meta: Option<JsonV>,
    dir: Seq<char>,
    root: Option<Seq<char>>,
    seen: Set<Seq<char>>,
    loads: LoadsV,
)
    requires
        include_src(n) is None,
    ensures
        expand_include(n, meta, dir, root, seen, loads) == stop(
            n,
            meta,
            StatusV::Failed(crate::error::IncludeErrorV::MissingSrc),
        ),
{
}

/// Including a file that is already being expanded fails with
/// `CircularInclude` of its canonical path, and the directive stays.
pub proof fn law_circular_include_refused(
    n: JsonV,
    meta: Option<JsonV>,
    dir: Seq<char>,
    root: Option<Seq<char>>,
    seen: Set<Seq<char>>,
    loads: LoadsV,
    src: Seq<char>,
    joined: Seq<char>,
    p: Seq<char>,
)
    requires
        include_src(n) == Some(src),
        target_path(dir, root, src) == Ok::<Seq<char>, crate::error::IncludeErrorV>(joined),
        canon_lookup(loads.canon, joined) matches Some(c) && settled(joined, c) == Ok::<
            Seq<char>,
            crate::error::IncludeErrorV,
        >(p),
        seen.contains(p),
    ensures
        expand_include(n, meta, dir, root, seen, loads) == stop(
            n,
            meta,
            StatusV::Failed(crate::error::IncludeErrorV::CircularInclude(p)),
        ),
{
}

proof fn lemma_tab_steps_asks_new(
    entries: Seq<JsonV>,
    tabs: Seq<JsonV>,
    meta: Option<JsonV>,
    dir: Seq<char>,
    root: Option<Seq<char>>,
    loads: LoadsV,
)
    ensures
        asks_new(tab_steps(entries, tabs, meta, dir, root, loads).status, loads),
    decreases entries.len(),
{
    if entries.len() > 0 {
        let e = entries[0];
        if let Some(JsonV::Str(file)) = field(e, "file"@) {
            if let Ok(j) = target_path(dir, root, file) {
                if let Some(c) = canon_lookup(loads.canon, j) {
                    if let Ok(p) = settled(j, c) {
                        if let Some(LoadedV::Content { meta: m2, nodes: a }) = file_lookup(loads.files, tab_request(p)) {
                            lemma_tab_steps_asks_new(
                                entries.drop_first(),
                                tabs.push(crate::tabs::tab_node(crate::tabs::str_or(field(e, "title"@), "Untitled"@), false, a)),
                                crate::frontmatter::merged_frontmatter(meta, m2),
                                dir,
                                root,
                                loads,
                            );
                        }
                    }
                }
            }
        }
    }
}

proof fn lemma_tabs_asks_new(
    ast: Seq<JsonV>,
    meta: Option<JsonV>,
    dir: Seq<char>,
    root: Option<Seq<char>>,
    loads: LoadsV,
)
    ensures
        asks_new(process_tabs_spec(ast, meta, dir, root, loads).status, loads),
{
    if let Some(JsonV::Object(obj)) = meta {
        if let Some(JsonV::Array(entries)) = field(JsonV::Object(obj), "tabs"@) {
            if entries.len() > 0 {
                let obj1 = obj.remove("tabs"@);
                let title = crate::tabs::str_or(field(JsonV::Object(obj1), "tab_default"@), "Article"@);
                let obj2 = obj1.remove("tab_default"@).insert("has_tabs"@, JsonV::Bool(true));
                lemma_tab_steps_asks_new(
                    entries,
                    seq![crate::tabs::tab_node(title, true, ast)],
                    Some(JsonV::Object(obj2)),
                    dir,
                    root,
                    loads,
                );
            }
        }
    }
}


/// A list without include directives is left as it is.
pub proof fn law_no_includes_no_change(
    nodes: Seq<JsonV>,
    meta: Option<JsonV>,
    dir: Seq<char>,
    root: Option<Seq<char>>,
    seen: Set<Seq<char>>,
    loads: LoadsV,
)
    requires
        clean_list(nodes),
    ensures
        expand_list(nodes, meta, dir, root, seen, loads) == (Expanded {
            nodes,
            meta,
            status: StatusV::Complete,
        }),
    decreases nodes,
{
    if nodes.len() > 0 {
        lemma_clean_node_unchanged(nodes[0], meta, dir, root, seen, loads);
        law_no_includes_no_change(nodes.drop_first(), meta, dir, root, seen, loads);
        assert(seq![nodes[0]] + nodes.drop_first() =~= nodes);
    }
}

proof fn lemma_clean_node_unchanged(
    n: JsonV,
    meta: Option<JsonV>,
    dir: Seq<char>,
    root: Option<Seq<char>>,
    seen: Set<Seq<char>>,
    loads: LoadsV,
)
    requires
        clean_node(n),
    ensures
        expand_node(n, meta, dir, root, seen, loads) == stop(n, meta, StatusV::Complete),
    decreases n,
{
    lemma_distinct_keys();
    match n {
        JsonV::Object(m) => {
            if m.dom().contains("children"@) && m["children"@] is Array {
                law_no_includes_no_change(m["children"@]->Array_0, meta, dir, root, seen, loads);
                assert(m.insert("children"@, m["children"@]) =~= m);
            }
            if m.dom().contains("items"@) && m["items"@] is Array {
                lemma_clean_items_unchanged(m["items"@]->Array_0, meta, dir, root, seen, loads);
                assert(m.insert("items"@, m["items"@]) =~= m);
            }
        },
        _ => {},
    }
}

proof fn lemma_clean_items_unchanged(
    items: Seq<JsonV>,
    meta: Option<JsonV>,
    dir: Seq<char>,
    root: Option<Seq<char>>,
    seen: Set<Seq<char>>,
    loads: LoadsV,
)
    requires
        clean_items(items),
    ensures
        expand_items(items, meta, dir, root, seen, loads) == (Expanded {
            nodes: items,
            meta,
            status: StatusV::Complete,
        }),
    decreases items,
{
    if items.len() > 0 {
        lemma_clean_node_unchanged(items[0], meta, dir, root, seen, loads);
        lemma_clean_items_unchanged(items.drop_first(), meta, dir, root, seen, loads);
        assert(seq![items[0]] + items.drop_first() =~= items);
    }
}

/// Without a non-empty `tabs` array in the frontmatter, tab processing
/// changes nothing, the frontmatter included.
pub proof fn law_no_tabs_no_change(
    ast: Seq<JsonV>,
    meta: Option<JsonV>,
    dir: Seq<char>,
    root: Option<Seq<char>>,
    loads: LoadsV,
)
    requires
        !(field_opt(meta, "tabs"@) matches Some(JsonV::Array(e)) && e.len() > 0),
    ensures
        process_tabs_spec(ast, meta, dir, root, loads) == (Expanded {
            nodes: ast,
            meta,
            status: StatusV::Complete,
        }),
{
}

/// The value under `k` of an optional object.
pub open spec fn field_opt(meta: Option<JsonV>, k: Seq<char>) -> Option<JsonV> {
    match meta {
        Some(v) => field(v, k),
        None => None,
    }
}

/// What a tab entry names when it resolves through the loads to a loaded
/// file: the tab's title, the file's frontmatter and its nodes.
pub open spec fn tab_content(
    e: JsonV,
    dir: Seq<char>,
    root: Option<Seq<char>>,
    loads: LoadsV,
) -> Option<(Seq<char>, Option<JsonV>, Seq<JsonV>)> {
    match field(e, "file"@) {
        Some(JsonV::Str(file)) => match target_path(dir, root, file) {
            Ok(j) => match canon_lookup(loads.canon, j) {
                Some(c) => match settled(j, c) {
                    Ok(p) => match file_lookup(loads.files, tab_request(p)) {
                        Some(LoadedV::Content { meta: m2, nodes: a }) => Some(
                            (str_or(field(e, "title"@), "Untitled"@), m2, a),
                        ),
                        _ => None,
                    },
                    _ => None,
                },
                None => None,
            },
            _ => None,
        },
        _ => None,
    }
}

/// Whether every entry resolves to a loaded tab file.
pub open spec fn all_tabs_loaded(entries: Seq<JsonV>, dir: Seq<char>, root: Option<Seq<char>>, loads: LoadsV) -> bool {
    forall|k: int| 0 <= k < entries.len() ==> (#[trigger] tab_content(entries[k], dir, root, loads)) is Some
}

/// The inactive tabs the entries become.
pub open spec fn tab_list(entries: Seq<JsonV>, dir: Seq<char>, root: Option<Seq<char>>, loads: LoadsV) -> Seq<JsonV> {
    Seq::new(
        entries.len(),
        |k: int|
            {
                let c = tab_content(entries[k], dir, root, loads).unwrap();
                tab_node(c.0, false, c.2)
            },
    )
}

/// The frontmatter after merging, in order, the frontmatter of each tab
/// file the entries name.
pub open spec fn tab_merges(
    meta: Option<JsonV>,
    entries: Seq<JsonV>,
    dir: Seq<char>,
    root: Option<Seq<char>>,
    loads: LoadsV,
) -> Option<JsonV>
    decreases entries.len(),
{
    if entries.len() == 0 {
        meta
    } else {
        let next = match tab_content(entries[0], dir, root, loads) {
            Some(c) => merged_frontmatter(meta, c.1),
            None => meta,
        };
        tab_merges(next, entries.drop_first(), dir, root, loads)
    }
}

proof fn lemma_tab_steps_closed(
    entries: Seq<JsonV>,
    tabs: Seq<JsonV>,
    meta: Option<JsonV>,
    dir: Seq<char>,
    root: Option<Seq<char>>,
    loads: LoadsV,
)
    ensures
        tab_steps(entries, tabs, meta, dir, root, loads).status is Complete <==> all_tabs_loaded(entries, dir, root, loads),
        all_tabs_loaded(entries, dir, root, loads) ==> tab_steps(entries, tabs, meta, dir, root, loads) == (Expanded {
            nodes: seq![tab_group(tabs + tab_list(entries, dir, root, loads))],
            meta: without_tab_keys(tab_merges(meta, entries, dir, root, loads)),
            status: StatusV::Complete,
        }),
    decreases entries.len(),
{
    if entries.len() == 0 {
        assert(tabs + tab_list(entries, dir, root, loads) =~= tabs);
    } else {
        let e = entries[0];
        let rest = entries.drop_first();
        let c0 = tab_content(e, dir, root, loads);
        if let Some(c) = c0 {
            let t = tab_node(c.0, false, c.2);
            let meta2 = merged_frontmatter(meta, c.1);
            lemma_tab_steps_closed(rest, tabs.push(t), meta2, dir, root, loads);
            assert(all_tabs_loaded(entries, dir, root, loads) <==> all_tabs_loaded(rest, dir, root, loads)) by {
                if all_tabs_loaded(rest, dir, root, loads) {
                    assert forall|k: int| 0 <= k < entries.len() implies (#[trigger] tab_content(entries[k], dir, root, loads)) is Some by {
                        if k > 0 {
                            assert(entries[k] == rest[k - 1]);
                            assert(tab_content(rest[k - 1], dir, root, loads) is Some);
                        }
                    }
                }
                if all_tabs_loaded(entries, dir, root, loads) {
                    assert forall|k: int| 0 <= k < rest.len() implies (#[trigger] tab_content(rest[k], dir, root, loads)) is Some by {
                        assert(rest[k] == entries[k + 1]);
                        assert(tab_content(entries[k + 1], dir, root, loads) is Some);
                    }
                }
            }
            if all_tabs_loaded(entries, dir, root, loads) {
                let l = tab_list(entries, dir, root, loads);
                let lr = tab_list(rest, dir, root, loads);
                assert forall|k: int| 0 <= k < lr.len() implies lr[k] == l[k + 1] by {
                    assert(rest[k] == entries[k + 1]);
                }
                assert(tabs.push(t) + lr =~= tabs + l);
            }
        } else {
            assert(!all_tabs_loaded(entries, dir, root, loads)) by {
                assert(tab_content(entries[0], dir, root, loads) is None);
            }
        }
    }
}

/// A value that is neither an array nor an object.
pub open spec fn is_scalar(v: JsonV) -> bool {
    !(v is Array) && !(v is Object)
}

proof fn lemma_tab_merges_keep(
    m: Map<Seq<char>, JsonV>,
    entries: Seq<JsonV>,
    dir: Seq<char>,
    root: Option<Seq<char>>,
    loads: LoadsV,
    k: Seq<char>,
)
    requires
        m.dom().contains(k),
        is_scalar(m[k]),
    ensures
        tab_merges(Some(JsonV::Object(m)), entries, dir, root, loads) matches Some(JsonV::Object(m2))
            && m2.dom().contains(k) && m2[k] == m[k],
    decreases entries.len(),
{
    if entries.len() > 0 {
        let next = match tab_content(entries[0], dir, root, loads) {
            Some(c) => merged_frontmatter(Some(JsonV::Object(m)), c.1),
            None => Some(JsonV::Object(m)),
        };
        let mn: Map<Seq<char>, JsonV> = match next {
            Some(JsonV::Object(x)) => x,
            _ => m,
        };
        if let Some(c) = tab_content(entries[0], dir, root, loads) {
            if let Some(JsonV::Object(im)) = c.1 {
                crate::frontmatter::law_parent_scalar_wins(m, im, k);
                crate::frontmatter::law_merge_keys(m, im);
            }
        }
        assert(next == Some(JsonV::Object(mn)));
        lemma_tab_merges_keep(mn, entries.drop_first(), dir, root, loads, k);
    }
}

proof fn lemma_tab_key_strings()
    ensures
        "has_tabs"@ != "tabs"@,
        "has_tabs"@ != "tab_default"@,
        "tabs"@ != "tab_default"@,
{
    reveal_strlit("tabs");
    reveal_strlit("tab_default");
    reveal_strlit("has_tabs");
    assert("has_tabs"@.len() != "tabs"@.len());
    assert("has_tabs"@.len() != "tab_default"@.len());
    assert("tabs"@.len() != "tab_default"@.len());
}

/// With a non-empty `tabs` array in an object frontmatter whose every entry
/// names a file that resolves and loads, tab processing completes: the AST
/// becomes one `tab_group` whose first tab is active, is titled by
/// `tab_default` (or "Article") and holds the original AST, followed by one
/// inactive tab per entry (titled by the entry's `title`, or "Untitled")
/// holding that file's nodes. The frontmatter is the object without `tabs`
/// and `tab_default`, with `has_tabs: true`, with each tab file's
/// frontmatter merged in order, and then again without `tabs` and
/// `tab_default`; so neither key is left, `has_tabs` is true, and every
/// other scalar value of the frontmatter is kept.
pub proof fn law_tabs_layout(
    ast: Seq<JsonV>,
    obj: Map<Seq<char>, JsonV>,
    entries: Seq<JsonV>,
    dir: Seq<char>,
    root: Option<Seq<char>>,
    loads: LoadsV,
)
    requires
        field(JsonV::Object(obj), "tabs"@) == Some(JsonV::Array(entries)),
        entries.len() > 0,
        all_tabs_loaded(entries, dir, root, loads),
    ensures
        ({
            let obj1 = obj.remove("tabs"@);
            let title = str_or(field(JsonV::Object(obj1), "tab_default"@), "Article"@);
            let obj2 = obj1.remove("tab_default"@).insert("has_tabs"@, JsonV::Bool(true));
            process_tabs_spec(ast, Some(JsonV::Object(obj)), dir, root, loads) == (Expanded {
                nodes: seq![tab_group(seq![tab_node(title, true, ast)] + tab_list(entries, dir, root, loads))],
                meta: without_tab_keys(tab_merges(Some(JsonV::Object(obj2)), entries, dir, root, loads)),
                status: StatusV::Complete,
            })
        }),
        field_opt(process_tabs_spec(ast, Some(JsonV::Object(obj)), dir, root, loads).meta, "tabs"@) is None,
        field_opt(process_tabs_spec(ast, Some(JsonV::Object(obj)), dir, root, loads).meta, "tab_default"@) is None,
        field_opt(process_tabs_spec(ast, Some(JsonV::Object(obj)), dir, root, loads).meta, "has_tabs"@)
            == Some(JsonV::Bool(true)),
        forall|k: Seq<char>|
            obj.dom().contains(k) && k != "tabs"@ && k != "tab_default"@ && k != "has_tabs"@ && is_scalar(
                #[trigger] obj[k],
            ) ==> field_opt(process_tabs_spec(ast, Some(JsonV::Object(obj)), dir, root, loads).meta, k)
                == Some(obj[k]),
{
    let obj1 = obj.remove("tabs"@);
    let title = str_or(field(JsonV::Object(obj1), "tab_default"@), "Article"@);
    let obj2 = obj1.remove("tab_default"@).insert("has_tabs"@, JsonV::Bool(true));
    let first = seq![tab_node(title, true, ast)];
    lemma_tab_steps_closed(entries, first, Some(JsonV::Object(obj2)), dir, root, loads);
    lemma_tab_key_strings();
    lemma_tab_merges_keep(obj2, entries, dir, root, loads, "has_tabs"@);
    let r = process_tabs_spec(ast, Some(JsonV::Object(obj)), dir, root, loads);
    let m2 = tab_merges(Some(JsonV::Object(obj2)), entries, dir, root, loads)->Some_0->Object_0;
    assert forall|k: Seq<char>|
        obj.dom().contains(k) && k != "tabs"@ && k != "tab_default"@ && k != "has_tabs"@ && is_scalar(
            #[trigger] obj[k],
        ) implies field_opt(r.meta, k) == Some(obj[k]) by {
        assert(obj2.dom().contains(k) && obj2[k] == obj[k]);
        lemma_tab_merges_keep(obj2, entries, dir, root, loads, k);
    }
}

/// Whether no tab file that the entries name has `key` in its frontmatter.
pub open spec fn tab_files_lack(
    entries: Seq<JsonV>,
    dir: Seq<char>,
    root: Option<Seq<char>>,
    loads: LoadsV,
    key: Seq<char>,
) -> bool {
    forall|k: int|
        0 <= k < entries.len() ==> match #[trigger] tab_content(entries[k], dir, root, loads) {
            Some(c) => field_opt(c.1, key) is None,
            None => true,
        }
}

proof fn lemma_tab_merges_lack(
    m: Map<Seq<char>, JsonV>,
    entries: Seq<JsonV>,
    dir: Seq<char>,
    root: Option<Seq<char>>,
    loads: LoadsV,
    key: Seq<char>,
)
    requires
        !m.dom().contains(key),
        tab_files_lack(entries, dir, root, loads, key),
    ensures
        tab_merges(Some(JsonV::Object(m)), entries, dir, root, loads) matches Some(JsonV::Object(m2))
            && !m2.dom().contains(key),
    decreases entries.len(),
{
    if entries.len() > 0 {
        let next = match tab_content(entries[0], dir, root, loads) {
            Some(c) => merged_frontmatter(Some(JsonV::Object(m)), c.1),
            None => Some(JsonV::Object(m)),
        };
        let mn: Map<Seq<char>, JsonV> = match next {
            Some(JsonV::Object(x)) => x,
            _ => m,
        };
        if let Some(c) = tab_content(entries[0], dir, root, loads) {
            if let Some(JsonV::Object(im)) = c.1 {
                crate::frontmatter::law_merge_keys(m, im);
            }
        }
        assert(next == Some(JsonV::Object(mn)));
        let rest = entries.drop_first();
        assert forall|k: int| 0 <= k < rest.len() implies match #[trigger] tab_content(rest[k], dir, root, loads) {
            Some(c) => field_opt(c.1, key) is None,
            None => true,
        } by {
            assert(rest[k] == entries[k + 1]);
            assert(match tab_content(entries[k + 1], dir, root, loads) {
                Some(c) => field_opt(c.1, key) is None,
                None => true,
            });
        }
        lemma_tab_merges_lack(mn, rest, dir, root, loads, key);
    }
}

/// When no tab file brings a `tabs` or `tab_default` key of its own, the
/// frontmatter after tab processing is the plain sequence of merges: the
/// object without `tabs` and `tab_default`, with `has_tabs: true`, with each
/// tab file's frontmatter merged in, in order.
pub proof fn law_tab_merges_plain(
    ast: Seq<JsonV>,
    obj: Map<Seq<char>, JsonV>,
    entries: Seq<JsonV>,
    dir: Seq<char>,
    root: Option<Seq<char>>,
    loads: LoadsV,
)
    requires
        field(JsonV::Object(obj), "tabs"@) == Some(JsonV::Array(entries)),
        entries.len() > 0,
        all_tabs_loaded(entries, dir, root, loads),
        tab_files_lack(entries, dir, root, loads, "tabs"@),
        tab_files_lack(entries, dir, root, loads, "tab_default"@),
    ensures
        process_tabs_spec(ast, Some(JsonV::Object(obj)), dir, root, loads).meta == tab_merges(
            Some(JsonV::Object(obj.remove("tabs"@).remove("tab_default"@).insert("has_tabs"@, JsonV::Bool(true)))),
            entries,
            dir,
            root,
            loads,
        ),
{
    let obj2 = obj.remove("tabs"@).remove("tab_default"@).insert("has_tabs"@, JsonV::Bool(true));
    law_tabs_layout(ast, obj, entries, dir, root, loads);
    lemma_tab_key_strings();
    lemma_tab_merges_lack(obj2, entries, dir, root, loads, "tabs"@);
    lemma_tab_merges_lack(obj2, entries, dir, root, loads, "tab_default"@);
    let m2 = tab_merges(Some(JsonV::Object(obj2)), entries, dir, root, loads)->Some_0->Object_0;
    assert(m2.remove("tabs"@).remove("tab_default"@) =~= m2);
}

/// A completed tab step leaves no `tabs` or `tab_default` key in the
/// frontmatter, and `has_tabs: true`.
pub proof fn law_tab_keys_consumed(
    ast: Seq<JsonV>,
    obj: Map<Seq<char>, JsonV>,
    entries: Seq<JsonV>,
    dir: Seq<char>,
    root: Option<Seq<char>>,
    loads: LoadsV,
)
    requires
        field(JsonV::Object(obj), "tabs"@) == Some(JsonV::Array(entries)),
        entries.len() > 0,
        process_tabs_spec(ast, Some(JsonV::Object(obj)), dir, root, loads).status is Complete,
    ensures
        field_opt(process_tabs_spec(ast, Some(JsonV::Object(obj)), dir, root, loads).meta, "tabs"@) is None,
        field_opt(process_tabs_spec(ast, Some(JsonV::Object(obj)), dir, root, loads).meta, "tab_default"@) is None,
        field_opt(process_tabs_spec(ast, Some(JsonV::Object(obj)), dir, root, loads).meta, "has_tabs"@)
            == Some(JsonV::Bool(true)),
{
    let obj1 = obj.remove("tabs"@);
    let title = str_or(field(JsonV::Object(obj1), "tab_default"@), "Article"@);
    let obj2 = obj1.remove("tab_default"@).insert("has_tabs"@, JsonV::Bool(true));
    lemma_tab_steps_closed(entries, seq![tab_node(title, true, ast)], Some(JsonV::Object(obj2)), dir, root, loads);
    law_tabs_layout(ast, obj, entries, dir, root, loads);
}

/// Only a Markdown include changes the frontmatter: an include directive
/// whose file resolves to a path without a Markdown extension leaves the
/// frontmatter as it was, whatever comes of it.
pub proof fn law_only_markdown_changes_frontmatter(
    n: JsonV,
    meta: Option<JsonV>,
    dir: Seq<char>,
    root: Option<Seq<char>>,
    seen: Set<Seq<char>>,
    loads: LoadsV,
)
    requires
        include_src(n) matches Some(src) ==> (target_path(dir, root, src) matches Ok(j) ==> (canon_lookup(
            loads.canon,
            j,
        ) matches Some(c) ==> (settled(j, c) matches Ok(p) ==> !is_markdown_ext(extension_or_empty(p))))),
    ensures
        expand_include(n, meta, dir, root, seen, loads).meta == meta,
{
}

/// Including a Markdown file merges its frontmatter into the parent's with
/// the parent winning: for an include directive whose file resolves, is not
/// being expanded already, and loads as Markdown with an object
/// frontmatter and no include directives of its own, expansion completes
/// with the file's nodes in place of the directive, and the frontmatter
/// holds the keys of both, the parent's scalar value on every key the
/// parent holds, and the included value on every key only the file holds.
pub proof fn law_markdown_include_parent_wins(
    n: JsonV,
    om: Map<Seq<char>, JsonV>,
    dir: Seq<char>,
    root: Option<Seq<char>>,
    seen: Set<Seq<char>>,
    loads: LoadsV,
    src: Seq<char>,
    j: Seq<char>,
    c: crate::loads::CanonV,
    p: Seq<char>,
    im: Map<Seq<char>, JsonV>,
    a: Seq<JsonV>,
)
    requires
        include_src(n) == Some(src),
        target_path(dir, root, src) == Ok::<Seq<char>, crate::error::IncludeErrorV>(j),
        canon_lookup(loads.canon, j) == Some(c),
        settled(j, c) == Ok::<Seq<char>, crate::error::IncludeErrorV>(p),
        !seen.contains(p),
        is_markdown_ext(extension_or_empty(p)),
        file_lookup(loads.files, request_for(p, IncludeKind::Markdown, include_attrs(n))) == Some(
            LoadedV::Content { meta: Some(JsonV::Object(im)), nodes: a },
        ),
        clean_list(a),
    ensures
        expand_include(n, Some(JsonV::Object(om)), dir, root, seen, loads).status is Complete,
        expand_include(n, Some(JsonV::Object(om)), dir, root, seen, loads).nodes == a,
        expand_include(n, Some(JsonV::Object(om)), dir, root, seen, loads).meta matches Some(JsonV::Object(m)) && {
            &&& m.dom() == om.dom().union(im.dom())
            &&& forall|k: Seq<char>| om.dom().contains(k) && is_scalar(#[trigger] om[k]) ==> m[k] == om[k]
            &&& forall|k: Seq<char>| !om.dom().contains(k) && im.dom().contains(k) ==> #[trigger] m[k] == im[k]
        },
{
    let meta2 = merged_frontmatter(Some(JsonV::Object(om)), Some(JsonV::Object(im)));
    law_no_includes_no_change(a, meta2, crate::resolve::article_dir_of(p), root, seen.insert(p), loads);
    crate::frontmatter::law_merge_keys(om, im);
    let m = crate::frontmatter::merge_maps(om, im);
    assert forall|k: Seq<char>| om.dom().contains(k) && is_scalar(#[trigger] om[k]) implies m[k] == om[k] by {
        crate::frontmatter::law_parent_scalar_wins(om, im, k);
    }
    assert forall|k: Seq<char>| !om.dom().contains(k) && im.dom().contains(k) implies #[trigger] m[k] == im[k] by {
        crate::frontmatter::law_parent_scalar_wins(om, im, k);
    }
}

/// Including a file that is not Markdown puts the nodes its handler gave in
/// place of the directive, leaves the frontmatter as it was, and completes.
pub proof fn law_other_include_splices_nodes(
    n: JsonV,
    meta: Option<JsonV>,
    dir: Seq<char>,
    root: Option<Seq<char>>,
    seen: Set<Seq<char>>,
    loads: LoadsV,
    src: Seq<char>,
    j: Seq<char>,
    c: crate::loads::CanonV,
    p: Seq<char>,
    kind: IncludeKind,
    m2: Option<JsonV>,
    a: Seq<JsonV>,
)
    requires
        include_src(n) == Some(src),
        target_path(dir, root, src) == Ok::<Seq<char>, crate::error::IncludeErrorV>(j),
        canon_lookup(loads.canon, j) == Some(c),
        settled(j, c) == Ok::<Seq<char>, crate::error::IncludeErrorV>(p),
        !seen.contains(p),
        crate::handlers::kind_for(extension_or_empty(p)) == Ok::<IncludeKind, crate::error::IncludeErrorV>(kind),
        kind != IncludeKind::Markdown,
        file_lookup(loads.files, request_for(p, kind, include_attrs(n))) == Some(
            LoadedV::Content { meta: m2, nodes: a },
        ),
    ensures
        expand_include(n, meta, dir, root, seen, loads) == (Expanded { nodes: a, meta, status: StatusV::Complete }),
{
}

/// A `tab` node holds the title, active flag and children it is given, for
/// every active flag; a `tab_group` node holds the tabs it is given.
pub proof fn law_tab_node_fields(title: Seq<char>, active: bool, children: Seq<JsonV>)
    ensures
        field(tab_node(title, active, children), "t"@) == Some(JsonV::Str("tab"@)),
        field(tab_node(title, active, children), "title"@) == Some(JsonV::Str(title)),
        field(tab_node(title, active, children), "active"@) == Some(JsonV::Bool(active)),
        field(tab_node(title, active, children), "children"@) == Some(JsonV::Array(children)),
        field(tab_group(children), "t"@) == Some(JsonV::Str("tab_group"@)),
        field(tab_group(children), "children"@) == Some(JsonV::Array(children)),
{
    reveal_strlit("t");
    reveal_strlit("title");
    reveal_strlit("active");
    reveal_strlit("children");
    assert("t"@.len() != "active"@.len());
    assert("title"@.len() != "active"@.len());
    assert("children"@.len() != "active"@.len());
    assert("t"@.len() != "children"@.len());
    assert("t"@.len() != "title"@.len());
    assert("title"@.len() != "children"@.len());
}

/// With a non-empty `tabs` array whose every entry names a file that
/// resolves and loads, tab processing leaves one `tab_group` holding one tab
/// more than there are entries: the first is active, titled by
/// `tab_default` (or "Article"), and holds the original AST; the tab after
/// it for entry `k` is inactive, titled by the entry's `title` (or
/// "Untitled"), and holds the nodes of entry `k`'s file.
pub proof fn law_tabs_hold_files(
    ast: Seq<JsonV>,
    obj: Map<Seq<char>, JsonV>,
    entries: Seq<JsonV>,
    dir: Seq<char>,
    root: Option<Seq<char>>,
    loads: LoadsV,
)
    requires
        field(JsonV::Object(obj), "tabs"@) == Some(JsonV::Array(entries)),
        entries.len() > 0,
        all_tabs_loaded(entries, dir, root, loads),
    ensures
        process_tabs_spec(ast, Some(JsonV::Object(obj)), dir, root, loads).status is Complete,
        process_tabs_spec(ast, Some(JsonV::Object(obj)), dir, root, loads).nodes.len() == 1,
        field(process_tabs_spec(ast, Some(JsonV::Object(obj)), dir, root, loads).nodes[0], "children"@) matches Some(
            JsonV::Array(ch),
        ) && {
            &&& ch.len() == entries.len() + 1
            &&& field(ch[0], "active"@) == Some(JsonV::Bool(true))
            &&& field(ch[0], "children"@) == Some(JsonV::Array(ast))
            &&& field(ch[0], "title"@) == Some(
                JsonV::Str(str_or(field(JsonV::Object(obj.remove("tabs"@)), "tab_default"@), "Article"@)),
            )
            &&& forall|k: int|
                0 <= k < entries.len() ==> {
                    let tc = tab_content(entries[k], dir, root, loads).unwrap();
                    &&& field(#[trigger] ch[k + 1], "active"@) == Some(JsonV::Bool(false))
                    &&& field(ch[k + 1], "children"@) == Some(JsonV::Array(tc.2))
                    &&& field(ch[k + 1], "title"@) == Some(JsonV::Str(tc.0))
                    &&& tc.0 == str_or(field(entries[k], "title"@), "Untitled"@)
                }
        },
{
    law_tabs_layout(ast, obj, entries, dir, root, loads);
    let title = str_or(field(JsonV::Object(obj.remove("tabs"@)), "tab_default"@), "Article"@);
    let list = tab_list(entries, dir, root, loads);
    let ch = seq![tab_node(title, true, ast)] + list;
    law_tab_node_fields(title, true, ast);
    law_tab_node_fields(title, true, ch);
    assert forall|k: int| 0 <= k < entries.len() implies {
        let tc = tab_content(entries[k], dir, root, loads).unwrap();
        &&& field(#[trigger] ch[k + 1], "active"@) == Some(JsonV::Bool(false))
        &&& field(ch[k + 1], "children"@) == Some(JsonV::Array(tc.2))
        &&& field(ch[k + 1], "title"@) == Some(JsonV::Str(tc.0))
        &&& tc.0 == str_or(field(entries[k], "title"@), "Untitled"@)
    } by {
        let tc = tab_content(entries[k], dir, root, loads).unwrap();
        assert(tab_content(entries[k], dir, root, loads) is Some);
        assert(ch[k + 1] == list[k]);
        law_tab_node_fields(tc.0, false, tc.2);
    }
}

} // verus!
