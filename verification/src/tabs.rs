//! Tab processing: the files listed under `tabs` in the frontmatter become
//! tabs next to the document's own content.

use vstd::prelude::*;
use crate::error::IncludeError;
use crate::frontmatter::{merge_frontmatter, merged_frontmatter, opt_view};
use crate::handlers::{load_error, load_failure, IncludeKind};
use crate::includes::{field, Expanded, Status, StatusV};
use crate::json::{
    entries_view, find_key, json_view, lemma_seq_view, lemma_seq_view_add, remove_key, seq_view, set_key,
    Json, JsonV,
};
use crate::loads::{canon_lookup, file_lookup, LoadRequest, LoadRequestV, Loaded, LoadedV, Loads, LoadsV, Need, NeedV};
use crate::paths::CanonFailure;
use crate::resolve::{settle, settled, target_path, PathResolver};
use crate::text::owned;

verus! {

broadcast use vstd::std_specs::vec::group_vec_axioms, vstd::seq::group_seq_axioms;

/// A `tab` node.
pub open spec fn tab_node(title: Seq<char>, active: bool, children: Seq<JsonV>) -> JsonV {
    JsonV::Object(
        Map::empty().insert("t"@, JsonV::Str("tab"@)).insert("title"@, JsonV::Str(title)).insert(
            "active"@,
            JsonV::Bool(active),
        ).insert("children"@, JsonV::Array(children)),
    )
}

/// A `tab_group` node.
pub open spec fn tab_group(children: Seq<JsonV>) -> JsonV {
    JsonV::Object(
        Map::empty().insert("t"@, JsonV::Str("tab_group"@)).insert("children"@, JsonV::Array(children)),
    )
}

/// The text of a string value, or `default`.
pub open spec fn str_or(v: Option<JsonV>, default: Seq<char>) -> Seq<char> {
    match v {
        Some(JsonV::Str(s)) => s,
        _ => default,
    }
}

/// The request that loads a tab file.
pub open spec fn tab_request(p: Seq<char>) -> LoadRequestV {
    LoadRequestV { path: p, kind: IncludeKind::Markdown, attrs: JsonV::Object(Map::empty()) }
}

/// A failed or stopped tab step: the AST has been taken apart, so none is left.
pub open spec fn halt(meta: Option<JsonV>, status: StatusV) -> Expanded {
    Expanded { nodes: Seq::empty(), meta, status }
}

/// An object frontmatter without its `tabs` and `tab_default` keys.
pub open spec fn without_tab_keys(meta: Option<JsonV>) -> Option<JsonV> {
    match meta {
        Some(JsonV::Object(m)) => Some(JsonV::Object(m.remove("tabs"@).remove("tab_default"@))),
        _ => meta,
    }
}

/// Read the remaining tab entries, merging each file's frontmatter, and
/// wrap all tabs in a `tab_group`; the `tabs` and `tab_default` keys that a
/// tab file's frontmatter brought are dropped at the end.
pub open spec fn tab_steps(
    entries: Seq<JsonV>,
    tabs: Seq<JsonV>,
    meta: Option<JsonV>,
    dir: Seq<char>,
    root: Option<Seq<char>>,
    loads: LoadsV,
) -> Expanded
    decreases entries.len(),
{
    if entries.len() == 0 {
        Expanded { nodes: seq![tab_group(tabs)], meta: without_tab_keys(meta), status: StatusV::Complete }
    } else {
        let e = entries[0];
        match field(e, "file"@) {
            Some(JsonV::Str(file)) => {
                let title = str_or(field(e, "title"@), "Untitled"@);
                match target_path(dir, root, file) {
                    Err(err) => halt(meta, StatusV::Failed(err)),
                    Ok(j) => match canon_lookup(loads.canon, j) {
                        None => halt(meta, StatusV::Needs(NeedV::Canonical(j))),
                        Some(c) => match settled(j, c) {
                            Err(err) => halt(meta, StatusV::Failed(err)),
                            Ok(p) => match file_lookup(loads.files, tab_request(p)) {
                                None => halt(meta, StatusV::Needs(NeedV::File(tab_request(p)))),
                                Some(LoadedV::Unreadable(m)) => halt(
                                    meta,
                                    StatusV::Failed(load_failure(IncludeKind::Markdown, p, true, m)),
                                ),
                                Some(LoadedV::Unparsable(m)) => halt(
                                    meta,
                                    StatusV::Failed(load_failure(IncludeKind::Markdown, p, false, m)),
                                ),
                                Some(LoadedV::Content { meta: m2, nodes: a }) => tab_steps(
                                    entries.drop_first(),
                                    tabs.push(tab_node(title, false, a)),
                                    merged_frontmatter(meta, m2),
                                    dir,
                                    root,
                                    loads,
                                ),
                            },
                        },
                    },
                }
            },
            _ => halt(meta, StatusV::Failed(crate::error::IncludeErrorV::MissingSrc)),
        }
    }
}

/// Frontmatter `tabs`: when the frontmatter is an object whose `tabs` key
/// holds a non-empty array, `tabs` and `tab_default` are removed, `has_tabs`
/// is set, and the AST becomes one `tab_group` whose first, active tab holds
/// the original content and whose further tabs hold the listed files.
/// Otherwise nothing changes.
pub open spec fn process_tabs_spec(
    ast: Seq<JsonV>,
    meta: Option<JsonV>,
    dir: Seq<char>,
    root: Option<Seq<char>>,
    loads: LoadsV,
) -> Expanded {
    match meta {
        Some(JsonV::Object(obj)) => match field(JsonV::Object(obj), "tabs"@) {
            Some(JsonV::Array(entries)) => if entries.len() == 0 {
                Expanded { nodes: ast, meta, status: StatusV::Complete }
            } else {
                let obj1 = obj.remove("tabs"@);
                let title = str_or(field(JsonV::Object(obj1), "tab_default"@), "Article"@);
                let obj2 = obj1.remove("tab_default"@).insert("has_tabs"@, JsonV::Bool(true));
                tab_steps(entries, seq![tab_node(title, true, ast)], Some(JsonV::Object(obj2)), dir, root, loads)
            },
            _ => Expanded { nodes: ast, meta, status: StatusV::Complete },
        },
        _ => Expanded { nodes: ast, meta, status: StatusV::Complete },
    }
}


/// Add an entry to the end of an object's entry list.
fn push_entry(e: &mut Vec<(String, Json)>, key: &str, value: Json)
    ensures
        entries_view(final(e)@) == entries_view(old(e)@).insert(key@, value@),
{
    let ghost before = e@;
    e.push((owned(key), value));
    proof {
        crate::json::lemma_push_entry(before, e@.last());
        assert(e@ =~= before.push(e@.last()));
    }
}

/// A `tab` node.
fn make_tab(title: String, active: bool, children: Vec<Json>) -> (r: Json)
    ensures
        r@ == tab_node(title@, active, seq_view(children@)),
{
    let mut e: Vec<(String, Json)> = Vec::new();
    push_entry(&mut e, "t", Json::Str(owned("tab")));
    push_entry(&mut e, "title", Json::Str(title));
    push_entry(&mut e, "active", Json::Bool(active));
    push_entry(&mut e, "children", Json::Array(children));
    assert(entries_view(Seq::<(String, Json)>::empty()) == Map::<Seq<char>, JsonV>::empty());
    Json::Object(e)
}

/// A `tab_group` node.
fn make_group(children: Vec<Json>) -> (r: Json)
    ensures
        r@ == tab_group(seq_view(children@)),
{
    let mut e: Vec<(String, Json)> = Vec::new();
    push_entry(&mut e, "t", Json::Str(owned("tab_group")));
    push_entry(&mut e, "children", Json::Array(children));
    assert(entries_view(Seq::<(String, Json)>::empty()) == Map::<Seq<char>, JsonV>::empty());
    Json::Object(e)
}

/// The text of a string value, or a copy of `default`.
fn text_or(v: Option<&Json>, default: &str) -> (r: String)
    ensures
        r@ == str_or(
            match v {
                Some(j) => Some(j@),
                None => None,
            },
            default@,
        ),
{
    match v {
        Some(j) => match j.as_str() {
            Some(s) => s.clone(),
            None => owned(default),
        },
        None => owned(default),
    }
}

pub open spec fn tabs_result(nodes: Seq<Json>, meta: Option<Json>, status: Status) -> Expanded {
    Expanded { nodes: seq_view(nodes), meta: opt_view(meta), status: status@ }
}

/// Process frontmatter `tabs` entries: read each tab file, merge its
/// frontmatter, and wrap the AST in a `tab_group` / `tab` structure.
///
/// If the frontmatter does not contain a non-empty `tabs` array this changes
/// nothing. After processing, the frontmatter holds neither `tabs` nor
/// `tab_default`, and `has_tabs` is true.
pub fn process_tabs(ast: Vec<Json>, meta: &mut Option<Json>, rz: &PathResolver, loads: &Loads) -> (r: (
    Vec<Json>,
    Status,
))
    ensures
        tabs_result(r.0@, *final(meta), r.1) == process_tabs_spec(
            seq_view(ast@),
            opt_view(*old(meta)),
            rz.dir(),
            rz.root(),
            loads@,
        ),
{
    let ghost spec_all = process_tabs_spec(seq_view(ast@), opt_view(*meta), rz.dir(), rz.root(), loads@);
    let current = meta.take();
    let entries = match current {
        Some(Json::Object(e)) => e,
        other => {
            *meta = other;
            return (ast, Status::Complete);
        },
    };
    proof {
        crate::json::lemma_entries_view(entries@);
    }
    let tabs_key = owned("tabs");
    let found = find_key(&entries, &tabs_key);
    let proceed = match found {
        Some(ti) => match &entries[ti].1 {
            Json::Array(t) => t.len() > 0,
            _ => false,
        },
        None => false,
    };
    proof {
        if let Some(ti) = found {
            assert(crate::json::last_entry(entries@, "tabs"@, ti as int));
            if let Json::Array(t) = entries@[ti as int].1 {
                lemma_seq_view(t@);
            }
        }
    }
    if !proceed {
        *meta = Some(Json::Object(entries));
        return (ast, Status::Complete);
    }
    let obj1 = remove_key(&entries, &tabs_key);
    let ti = match found {
        Some(ti) => ti,
        None => {
            *meta = Some(Json::Object(entries));
            return (ast, Status::Complete);
        },
    };
    let tabs = match &entries[ti].1 {
        Json::Array(t) => t,
        _ => {
            *meta = Some(Json::Object(entries));
            return (ast, Status::Complete);
        },
    };
    let ghost tabs_v = seq_view(tabs@);
    proof {
        lemma_seq_view(tabs@);
    }
    let title = {
        let obj1_json = Json::Object(obj1);
        let t = text_or(obj1_json.get(&owned("tab_default")), "Article");
        let obj1 = match obj1_json {
            Json::Object(e) => e,
            _ => Vec::new(),
        };
        let without_default = remove_key(&obj1, &owned("tab_default"));
        let obj2 = set_key(&without_default, owned("has_tabs"), Json::Bool(true));
        *meta = Some(Json::Object(obj2));
        t
    };
    let first = make_tab(title, true, ast);
    let mut children: Vec<Json> = vec![first];
    let ghost total = tab_steps(tabs_v, seq_view(children@), opt_view(*meta), rz.dir(), rz.root(), loads@);
    proof {
        lemma_seq_view(children@);
        assert(seq_view(children@) =~= seq![first@]);
        assert(tabs_v.skip(0) =~= tabs_v);
        assert(spec_all == total);
    }
    let mut i: usize = 0;
    while i < tabs.len()
        invariant
            i <= tabs.len(),
            tabs_v == seq_view(tabs@),
            tabs_v.len() == tabs.len(),
            forall|t: int| 0 <= t < tabs.len() ==> #[trigger] tabs_v[t] == json_view(tabs@[t]),
            total == tab_steps(tabs_v.skip(i as int), seq_view(children@), opt_view(*meta), rz.dir(), rz.root(), loads@),
            spec_all == total,
            spec_all == process_tabs_spec(seq_view(ast@), opt_view(*old(meta)), rz.dir(), rz.root(), loads@),
        decreases tabs.len() - i,
    {
        let ghost rest = tabs_v.skip(i as int);
        let ghost ch_i = seq_view(children@);
        proof {
            assert(rest.drop_first() =~= tabs_v.skip(i + 1));
            assert(rest[0] == json_view(tabs@[i as int]));
        }
        let e = &tabs[i];
        let file = match e.get(&owned("file")) {
            Some(v) => match v.as_str() {
                Some(f) => f,
                None => return (Vec::new(), Status::Failed(IncludeError::MissingSrc)),
            },
            None => return (Vec::new(), Status::Failed(IncludeError::MissingSrc)),
        };
        let title = text_or(e.get(&owned("title")), "Untitled");
        let joined = match rz.target(file.as_str()) {
            Ok(j) => j,
            Err(err) => return (Vec::new(), Status::Failed(err)),
        };
        let c = match loads.canonical(&joined) {
            Some(c) => match c {
                Ok(p) => Ok(p.clone()),
                Err(CanonFailure::NotFound) => Err(CanonFailure::NotFound),
                Err(CanonFailure::Other(m)) => Err(CanonFailure::Other(m.clone())),
            },
            None => return (Vec::new(), Status::Needs(Need::Canonical(joined))),
        };
        let path = match settle(joined, c) {
            Ok(p) => p,
            Err(err) => return (Vec::new(), Status::Failed(err)),
        };
        let req = LoadRequest { path: path.clone(), kind: IncludeKind::Markdown, attrs: Json::Object(Vec::new()) };
        assert(req@ == tab_request(path@));
        match loads.file(&req) {
            None => return (Vec::new(), Status::Needs(Need::File(req))),
            Some(Loaded::Unreadable(m)) => return (
                Vec::new(),
                Status::Failed(load_error(IncludeKind::Markdown, &path, true, m)),
            ),
            Some(Loaded::Unparsable(m)) => return (
                Vec::new(),
                Status::Failed(load_error(IncludeKind::Markdown, &path, false, m)),
            ),
            Some(Loaded::Content { meta: inner_meta, nodes }) => {
                merge_frontmatter(meta, inner_meta);
                let copy = crate::json::clone_from(nodes, 0);
                assert(seq_view(nodes@).skip(0) =~= seq_view(nodes@));
                let tab = make_tab(title, false, copy);
                let ghost before = children@;
                children.push(tab);
                proof {
                    assert(children@ =~= before + seq![tab]);
                    lemma_seq_view_add(before, seq![tab]);
                    lemma_seq_view(seq![tab]);
                    assert(seq_view(seq![tab]) =~= seq![tab@]);
                    assert(seq_view(children@) =~= ch_i.push(tab@));
                    assert(field(rest[0], "file"@) == Some(JsonV::Str(file@)));
                }
            },
        }
        i = i + 1;
    }
    proof {
        assert(tabs_v.skip(i as int) =~= Seq::<JsonV>::empty());
    }
    let done = meta.take();
    *meta = match done {
        Some(Json::Object(e)) => {
            let e1 = remove_key(&e, &owned("tabs"));
            let e2 = remove_key(&e1, &owned("tab_default"));
            Some(Json::Object(e2))
        },
        other => other,
    };
    let group = make_group(children);
    let out = vec![group];
    proof {
        lemma_seq_view(out@);
        assert(seq_view(out@) =~= seq![group@]);
    }
    (out, Status::Complete)
}

} // verus!
