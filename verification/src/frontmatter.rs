//! Merging the frontmatter of an included document into its parent's.
//!
//! Scalars: the parent wins. Arrays: concatenated and deduplicated, the
//! parent's items first, each item at its first occurrence only. Objects:
//! merged key by key, recursively. Keys only the included document has are
//! added as they are.

use vstd::prelude::*;
use crate::json::{
    contains_json, entries_view, find_key, json_view, last_entry, lemma_entries_view,
    lemma_push_entry, lemma_seq_view, lemma_update_entry, seq_view, Json, JsonV,
};

verus! {

broadcast use vstd::std_specs::vec::group_vec_axioms, vstd::seq::group_seq_axioms;

/// `outer` followed by each item of `inner`, in order, that is not already
/// in what came before it.
pub open spec fn append_new(outer: Seq<JsonV>, inner: Seq<JsonV>) -> Seq<JsonV>
    decreases inner.len(),
{
    if inner.len() == 0 {
        outer
    } else {
        let acc = append_new(outer, inner.drop_last());
        if acc.contains(inner.last()) {
            acc
        } else {
            acc.push(inner.last())
        }
    }
}

/// The items of `s` in order, each at its first occurrence only.
pub open spec fn distinct_items(s: Seq<JsonV>) -> Seq<JsonV> {
    append_new(Seq::empty(), s)
}

/// Whether no item of `s` occurs twice.
pub open spec fn no_repeats(s: Seq<JsonV>) -> bool {
    forall|i: int, j: int| 0 <= i < j < s.len() ==> s[i] != s[j]
}

/// Appending `a`, then `b`, is appending `a + b`.
proof fn lemma_append_new_concat(x: Seq<JsonV>, a: Seq<JsonV>, b: Seq<JsonV>)
    ensures
        append_new(append_new(x, a), b) == append_new(x, a + b),
    decreases b.len(),
{
    if b.len() == 0 {
        assert(a + b =~= a);
    } else {
        lemma_append_new_concat(x, a, b.drop_last());
        assert((a + b).drop_last() =~= a + b.drop_last());
        assert((a + b).last() == b.last());
    }
}

/// A sequence without repeats is its own distinct items.
proof fn lemma_distinct_of_no_repeats(s: Seq<JsonV>)
    requires
        no_repeats(s),
    ensures
        distinct_items(s) == s,
    decreases s.len(),
{
    if s.len() > 0 {
        let p = s.drop_last();
        assert(no_repeats(p));
        lemma_distinct_of_no_repeats(p);
        if p.contains(s.last()) {
            let i = choose|i: int| 0 <= i < p.len() && p[i] == s.last();
            assert(s[i] == s[s.len() - 1]);
        }
        assert(p.push(s.last()) =~= s);
    }
}

/// The value that merging `inner` into `outer` leaves under a shared key.
pub open spec fn merge_values(outer: JsonV, inner: JsonV) -> JsonV
    decreases outer,
{
    match outer {
        JsonV::Array(oa) => match inner {
            JsonV::Array(ia) => JsonV::Array(distinct_items(oa + ia)),
            _ => outer,
        },
        JsonV::Object(om) => match inner {
            JsonV::Object(im) => JsonV::Object(
                Map::new(
                    |k: Seq<char>| om.dom().contains(k) || im.dom().contains(k),
                    |k: Seq<char>|
                        if om.dom().contains(k) {
                            if im.dom().contains(k) {
                                merge_values(om[k], im[k])
                            } else {
                                om[k]
                            }
                        } else {
                            im[k]
                        },
                ),
            ),
            _ => outer,
        },
        _ => outer,
    }
}

/// Two objects merged key by key; the outer object wins on scalars.
pub open spec fn merge_maps(om: Map<Seq<char>, JsonV>, im: Map<Seq<char>, JsonV>) -> Map<
    Seq<char>,
    JsonV,
>
{
    Map::new(
        |k: Seq<char>| om.dom().contains(k) || im.dom().contains(k),
        |k: Seq<char>|
            if om.dom().contains(k) {
                if im.dom().contains(k) {
                    merge_values(om[k], im[k])
                } else {
                    om[k]
                }
            } else {
                im[k]
            },
    )
}


/// Merging two objects merges their maps.
pub proof fn lemma_merge_objects(om: Map<Seq<char>, JsonV>, im: Map<Seq<char>, JsonV>)
    ensures
        merge_values(JsonV::Object(om), JsonV::Object(im)) == JsonV::Object(merge_maps(om, im)),
{
    let m = merge_maps(om, im);
    if let JsonV::Object(m2) = merge_values(JsonV::Object(om), JsonV::Object(im)) {
        assert(m2 =~= m);
    }
}

/// What merging `inner` into `outer` makes of a document's frontmatter: only
/// two objects are merged; a missing outer takes the inner value; otherwise
/// the outer value stays.
pub open spec fn merged_frontmatter(outer: Option<JsonV>, inner: Option<JsonV>) -> Option<JsonV> {
    match inner {
        None => outer,
        Some(iv) => match outer {
            None => Some(iv),
            Some(JsonV::Object(om)) => match iv {
                JsonV::Object(im) => Some(JsonV::Object(merge_maps(om, im))),
                _ => outer,
            },
            Some(_) => outer,
        },
    }
}

pub open spec fn opt_view(o: Option<Json>) -> Option<JsonV> {
    match o {
        Some(j) => Some(json_view(j)),
        None => None,
    }
}

/// Append to `outer` each item of `inner` it does not hold yet.
fn append_new_items(outer: &mut Vec<Json>, inner: &Vec<Json>)
    ensures
        seq_view(final(outer)@) == append_new(seq_view(old(outer)@), seq_view(inner@)),
{
    let ghost oa = seq_view(outer@);
    let ghost ia = seq_view(inner@);
    proof {
        lemma_seq_view(inner@);
        assert(ia.take(0) =~= Seq::<JsonV>::empty());
    }
    for j in 0..inner.len()
        invariant
            ia == seq_view(inner@),
            ia.len() == inner.len(),
            forall|t: int| 0 <= t < inner.len() ==> #[trigger] ia[t] == json_view(inner@[t]),
            seq_view(outer@) == append_new(oa, ia.take(j as int)),
    {
        proof {
            assert(ia.take(j + 1).drop_last() =~= ia.take(j as int));
            assert(ia.take(j + 1).last() == ia[j as int]);
        }
        if !contains_json(outer, &inner[j]) {
            let item = inner[j].deep_clone();
            let ghost before = outer@;
            outer.push(item);
            proof {
                assert(outer@.drop_last() =~= before);
            }
        }
    }
    proof {
        assert(ia.take(inner.len() as int) =~= ia);
    }
}

/// `outer` with `inner` merged into it.
fn merge_value(outer: Json, inner: &Json) -> (r: Json)
    ensures
        r@ == merge_values(outer@, inner@),
    decreases inner,
{
    match outer {
        Json::Array(oa) => match inner {
            Json::Array(ia) => {
                let mut r: Vec<Json> = Vec::new();
                append_new_items(&mut r, &oa);
                append_new_items(&mut r, ia);
                proof {
                    lemma_seq_view(r@);
                    lemma_append_new_concat(Seq::empty(), seq_view(oa@), seq_view(ia@));
                }
                Json::Array(r)
            },
            _ => Json::Array(oa),
        },
        Json::Object(mut om) => match inner {
            Json::Object(im) => {
                let ghost om0 = entries_view(om@);
                merge_entries(&mut om, im);
                proof {
                    lemma_merge_objects(om0, entries_view(im@));
                }
                Json::Object(om)
            },
            _ => Json::Object(om),
        },
        other => other,
    }
}

/// Whether the last entry of key `k` in `inner` lies before position `j`.
pub open spec fn done_before(inner: Seq<(String, Json)>, k: Seq<char>, j: int) -> bool {
    exists|t: int| 0 <= t < j && last_entry(inner, k, t)
}

/// Merge the entries of `inner` into those of `outer`.
#[verifier::loop_isolation(false)]
fn merge_entries(outer: &mut Vec<(String, Json)>, inner: &Vec<(String, Json)>)
    ensures
        entries_view(final(outer)@) == merge_maps(entries_view(old(outer)@), entries_view(inner@)),
    decreases inner,
{
    let ghost om = entries_view(outer@);
    let ghost im = entries_view(inner@);
    proof {
        lemma_entries_view(inner@);
        lemma_entries_view(outer@);
    }
    for j in 0..inner.len()
        invariant
            forall|k: Seq<char>| #[trigger] entries_view(outer@).dom().contains(k) <==> (
            om.dom().contains(k) || (im.dom().contains(k) && done_before(inner@, k, j as int))),
            forall|k: Seq<char>| #[trigger]
                entries_view(outer@).dom().contains(k) ==> entries_view(outer@)[k] == (
                if om.dom().contains(k) {
                    if im.dom().contains(k) && done_before(inner@, k, j as int) {
                        merge_values(om[k], im[k])
                    } else {
                        om[k]
                    }
                } else {
                    im[k]
                }),
    {
        let key = &inner[j].0;
        let ghost k = key@;
        let ghost cur = entries_view(outer@);
        proof {
            lemma_entries_view(outer@);
        }
        if find_key(inner, key) == Some(j) {
            assert(last_entry(inner@, k, j as int));
            assert(im.dom().contains(k) && im[k] == json_view(inner@[j as int].1));
            assert(!done_before(inner@, k, j as int));
            assert(done_before(inner@, k, j + 1));
            assert forall|k2: Seq<char>| k2 != k implies done_before(inner@, k2, j + 1)
                == done_before(inner@, k2, j as int) by {
                if done_before(inner@, k2, j + 1) {
                    let t = choose|t: int| 0 <= t < j + 1 && last_entry(inner@, k2, t);
                    assert(t != j);
                }
            }
            match find_key(outer, key) {
                Some(idx) => {
                    let ghost before = outer@;
                    let (okey, oval) = outer.remove(idx);
                    let merged = merge_value(oval, &inner[j].1);
                    outer.insert(idx, (okey, merged));
                    proof {
                        assert(outer@ =~= before.update(idx as int, outer@[idx as int]));
                        lemma_update_entry(before, idx as int, outer@[idx as int]);
                        assert(cur.dom().contains(k));
                        assert(om.dom().contains(k));
                        assert(cur[k] == om[k]);
                        assert(entries_view(outer@) =~= cur.insert(k, merge_values(om[k], im[k])));
                    }
                },
                None => {
                    let item = inner[j].1.deep_clone();
                    let ghost before = outer@;
                    outer.push((key.clone(), item));
                    proof {
                        lemma_push_entry(before, outer@.last());
                        assert(outer@ =~= before.push(outer@.last()));
                        assert(!cur.dom().contains(k));
                        assert(entries_view(outer@) =~= cur.insert(k, im[k]));
                    }
                },
            }
        } else {
            assert forall|k2: Seq<char>| done_before(inner@, k2, j + 1) == done_before(
                inner@,
                k2,
                j as int,
            ) by {
                if done_before(inner@, k2, j + 1) {
                    let t = choose|t: int| 0 <= t < j + 1 && last_entry(inner@, k2, t);
                    if t == j {
                        assert(k2 == k);
                    }
                }
            }
        }
    }
    proof {
        lemma_entries_view(outer@);
        assert forall|k: Seq<char>| im.dom().contains(k) implies done_before(
            inner@,
            k,
            inner.len() as int,
        ) by {
            let t0 = choose|t: int| 0 <= t < inner@.len() && inner@[t].0@ == k;
            lemma_last_exists(inner@, k, t0);
        }
        assert(entries_view(outer@) =~= merge_maps(om, im));
    }
}

/// A key that occurs has a last occurrence.
pub proof fn lemma_last_exists(s: Seq<(String, Json)>, k: Seq<char>, t0: int)
    requires
        0 <= t0 < s.len(),
        s[t0].0@ == k,
    ensures
        exists|t: int| #[trigger] last_entry(s, k, t),
    decreases s.len() - t0,
{
    if exists|t: int| t0 < t < s.len() && s[t].0@ == k {
        let t1 = choose|t: int| t0 < t < s.len() && s[t].0@ == k;
        lemma_last_exists(s, k, t1);
    } else {
        assert(last_entry(s, k, t0));
    }
}

/// Merge `inner` frontmatter into `outer`. Outer wins on scalar conflicts.
pub fn merge_frontmatter(outer: &mut Option<Json>, inner: &Option<Json>)
    ensures
        opt_view(*final(outer)) == merged_frontmatter(opt_view(*old(outer)), opt_view(*inner)),
{
    let iv = match inner {
        Some(v) => v,
        None => return,
    };
    let current = outer.take();
    match current {
        Some(Json::Object(mut om)) => {
            if let Json::Object(im) = iv {
                merge_entries(&mut om, im);
            }
            *outer = Some(Json::Object(om));
        },
        None => {
            *outer = Some(iv.deep_clone());
        },
        other => {
            *outer = other;
        },
    }
}


/// Merging nothing into a document's frontmatter leaves it as it was.
pub proof fn law_merge_nothing(outer: Option<JsonV>)
    ensures
        merged_frontmatter(outer, None) == outer,
{
}

/// A document without frontmatter takes the included frontmatter whole.
pub proof fn law_merge_into_nothing(inner: JsonV)
    ensures
        merged_frontmatter(None, Some(inner)) == Some(inner),
{
}

/// Only two objects are merged: a parent frontmatter that is not an object,
/// or an included one that is not, leaves the parent's as it was.
pub proof fn law_non_objects_untouched(outer: JsonV, inner: JsonV)
    requires
        !(outer is Object) || !(inner is Object),
    ensures
        merged_frontmatter(Some(outer), Some(inner)) == Some(outer),
{
}

/// The merged object has exactly the keys of both objects.
pub proof fn law_merge_keys(om: Map<Seq<char>, JsonV>, im: Map<Seq<char>, JsonV>)
    ensures
        merge_maps(om, im).dom() == om.dom().union(im.dom()),
{
    assert(merge_maps(om, im).dom() =~= om.dom().union(im.dom()));
}

/// On a key both objects hold, a parent value that is neither an array nor
/// an object wins; on a key only the included object holds, its value is
/// taken as it is.
pub proof fn law_parent_scalar_wins(
    om: Map<Seq<char>, JsonV>,
    im: Map<Seq<char>, JsonV>,
    k: Seq<char>,
)
    ensures
        om.dom().contains(k) && !(om[k] is Array) && !(om[k] is Object) ==> merge_maps(om, im)[k]
            == om[k],
        om.dom().contains(k) && !im.dom().contains(k) ==> merge_maps(om, im)[k] == om[k],
        !om.dom().contains(k) && im.dom().contains(k) ==> merge_maps(om, im)[k] == im[k],
{
}

/// What appending the new items of `inner` to `outer` gives: `outer` first
/// and unchanged, exactly the items of both, no added item already in
/// `outer`, and no added item twice.
proof fn lemma_append_new_items(outer: Seq<JsonV>, inner: Seq<JsonV>)
    ensures
        outer.len() <= append_new(outer, inner).len() <= outer.len() + inner.len(),
        append_new(outer, inner).subrange(0, outer.len() as int) == outer,
        forall|x: JsonV| #[trigger]
            append_new(outer, inner).contains(x) <==> (outer.contains(x) || inner.contains(x)),
        forall|i: int|
            outer.len() <= i < append_new(outer, inner).len() ==> !outer.contains(
                #[trigger] append_new(outer, inner)[i],
            ),
        forall|i: int, j: int|
            outer.len() <= i < j < append_new(outer, inner).len() ==> #[trigger] append_new(
                outer,
                inner,
            )[i] != #[trigger] append_new(outer, inner)[j],
    decreases inner.len(),
{
    if inner.len() > 0 {
        let p = inner.drop_last();
        lemma_append_new_items(outer, p);
        let acc = append_new(outer, p);
        let r = append_new(outer, inner);
        assert forall|x: JsonV| #[trigger] r.contains(x) <==> (outer.contains(x) || inner.contains(
            x,
        )) by {
            if inner.contains(x) && !p.contains(x) {
                let i = choose|i: int| 0 <= i < inner.len() && inner[i] == x;
                if i < inner.len() - 1 {
                    assert(p[i] == x);
                }
                if acc.contains(x) {
                } else {
                    assert(r[r.len() - 1] == x);
                }
            }
            if p.contains(x) {
                let i = choose|i: int| 0 <= i < p.len() && p[i] == x;
                assert(inner[i] == x);
            }
            if r.contains(x) && !acc.contains(x) {
                let i = choose|i: int| 0 <= i < r.len() && r[i] == x;
                assert(i == r.len() - 1);
                assert(inner[inner.len() - 1] == x);
            }
            if acc.contains(x) {
                let i = choose|i: int| 0 <= i < acc.len() && acc[i] == x;
                assert(r[i] == x);
            }
        }
        if !acc.contains(inner.last()) {
            assert(r.subrange(0, outer.len() as int) =~= acc.subrange(0, outer.len() as int));
            assert forall|i: int| outer.len() <= i < r.len() implies !outer.contains(
                #[trigger] r[i],
            ) by {
                if i == r.len() - 1 {
                    if outer.contains(r[i]) {
                        let t = choose|t: int| 0 <= t < outer.len() && outer[t] == r[i];
                        assert(acc[t] == r[i]);
                    }
                }
            }
            assert forall|i: int, j: int| outer.len() <= i < j < r.len() implies #[trigger] r[i]
                != #[trigger] r[j] by {
                if j == r.len() - 1 {
                    assert(acc[i] == r[i]);
                }
            }
        }
    }
}

/// The items of `inner`, each at its first occurrence, that `outer` does not
/// hold, in the order of `inner`.
pub open spec fn new_items(outer: Seq<JsonV>, inner: Seq<JsonV>) -> Seq<JsonV> {
    distinct_items(inner).filter(|x: JsonV| !outer.contains(x))
}

proof fn lemma_append_new_is_new_items(outer: Seq<JsonV>, inner: Seq<JsonV>)
    ensures
        append_new(outer, inner) == outer + new_items(outer, inner),
    decreases inner.len(),
{
    let pred = |x: JsonV| !outer.contains(x);
    if inner.len() == 0 {
        reveal(Seq::filter);
        assert(distinct_items(inner) =~= Seq::<JsonV>::empty());
        assert(outer + new_items(outer, inner) =~= outer);
    } else {
        let p = inner.drop_last();
        let x = inner.last();
        lemma_append_new_is_new_items(outer, p);
        lemma_append_new_items(outer, p);
        lemma_append_new_items(Seq::empty(), p);
        let acc = append_new(outer, p);
        let d = distinct_items(p);
        assert(acc.contains(x) <==> (outer.contains(x) || p.contains(x)));
        assert(d.contains(x) <==> p.contains(x)) by {
            assert(Seq::<JsonV>::empty().contains(x) == false);
        }
        reveal(Seq::filter);
        if d.contains(x) {
            assert(distinct_items(inner) == d);
        } else {
            assert(distinct_items(inner) == d.push(x));
            assert(d.push(x).drop_last() =~= d);
            if !outer.contains(x) {
                assert(d.push(x).filter(pred) == d.filter(pred).push(x));
                assert(acc.push(x) =~= outer + d.filter(pred).push(x));
            } else {
                assert(d.push(x).filter(pred) == d.filter(pred));
            }
        }
    }
}

/// Arrays under a shared key are concatenated and deduplicated: the merged
/// array holds exactly the items of both, none of them twice; when the
/// parent's array has no repeats it comes first and unchanged, followed by
/// the included array's items that it lacks, each once, in the included
/// array's order.
pub proof fn law_arrays_concatenate_dedup(outer: Seq<JsonV>, inner: Seq<JsonV>)
    ensures
        merge_values(JsonV::Array(outer), JsonV::Array(inner)) == JsonV::Array(distinct_items(outer + inner)),
        forall|x: JsonV| #[trigger]
            distinct_items(outer + inner).contains(x) <==> (outer.contains(x) || inner.contains(x)),
        no_repeats(distinct_items(outer + inner)),
        no_repeats(outer) ==> distinct_items(outer + inner).subrange(0, outer.len() as int) == outer,
        no_repeats(outer) ==> distinct_items(outer + inner) == outer + new_items(outer, inner),
{
    lemma_append_new_is_new_items(outer, inner);
    let c = outer + inner;
    lemma_append_new_items(Seq::empty(), c);
    assert forall|x: JsonV| #[trigger] c.contains(x) <==> (outer.contains(x) || inner.contains(x)) by {
        if c.contains(x) {
            let i = choose|i: int| 0 <= i < c.len() && c[i] == x;
            if i < outer.len() {
                assert(outer[i] == x);
            } else {
                assert(inner[i - outer.len()] == x);
            }
        }
        if outer.contains(x) {
            let i = choose|i: int| 0 <= i < outer.len() && outer[i] == x;
            assert(c[i] == x);
        }
        if inner.contains(x) {
            let i = choose|i: int| 0 <= i < inner.len() && inner[i] == x;
            assert(c[outer.len() + i] == x);
        }
    }
    if no_repeats(outer) {
        lemma_append_new_concat(Seq::empty(), outer, inner);
        lemma_distinct_of_no_repeats(outer);
        lemma_append_new_items(outer, inner);
    }
}

/// When every item of `inner` is already in `outer`, nothing is appended.
proof fn lemma_append_nothing_new(outer: Seq<JsonV>, inner: Seq<JsonV>)
    requires
        forall|x: JsonV| inner.contains(x) ==> outer.contains(x),
    ensures
        append_new(outer, inner) == outer,
    decreases inner.len(),
{
    if inner.len() > 0 {
        let p = inner.drop_last();
        assert forall|x: JsonV| p.contains(x) implies outer.contains(x) by {
            let i = choose|i: int| 0 <= i < p.len() && p[i] == x;
            assert(inner[i] == x);
        }
        lemma_append_nothing_new(outer, p);
        assert(inner.contains(inner[inner.len() - 1]));
    }
}

/// Whether no array in `v`, at the top or under an object's keys, repeats
/// an item.
pub open spec fn arrays_distinct(v: JsonV) -> bool
    decreases v,
{
    match v {
        JsonV::Array(a) => no_repeats(a),
        JsonV::Object(m) => forall|k: Seq<char>| #[trigger] m.dom().contains(k) ==> arrays_distinct(m[k]),
        _ => true,
    }
}

/// Merging a value into itself changes nothing, as long as none of its
/// arrays repeats an item (those are deduplicated).
pub proof fn law_merge_idempotent(v: JsonV)
    requires
        arrays_distinct(v),
    ensures
        merge_values(v, v) == v,
    decreases v,
{
    match v {
        JsonV::Array(a) => {
            lemma_append_new_concat(Seq::empty(), a, a);
            lemma_distinct_of_no_repeats(a);
            lemma_append_nothing_new(a, a);
        },
        JsonV::Object(m) => {
            lemma_merge_objects(m, m);
            assert forall|k: Seq<char>| m.dom().contains(k) implies #[trigger] merge_values(
                m[k],
                m[k],
            ) == m[k] by {
                law_merge_idempotent(m[k]);
            }
            assert(merge_maps(m, m) =~= m);
        },
        _ => {},
    }
}

/// Merging a document's frontmatter into itself changes nothing, as long as
/// none of its arrays repeats an item.
pub proof fn law_frontmatter_merge_idempotent(meta: Option<JsonV>)
    requires
        meta matches Some(v) ==> arrays_distinct(v),
    ensures
        merged_frontmatter(meta, meta) == meta,
{
    if let Some(JsonV::Object(m)) = meta {
        law_merge_idempotent(JsonV::Object(m));
        lemma_merge_objects(m, m);
    }
}

/// Whether merging `inner` into `outer` a second time can change nothing:
/// every value that the first merge takes whole from `inner` has no array
/// that repeats an item.
pub open spec fn adds_no_repeats(outer: JsonV, inner: JsonV) -> bool
    decreases inner,
{
    match outer {
        JsonV::Object(om) => match inner {
            JsonV::Object(im) => forall|k: Seq<char>| #[trigger] im.dom().contains(k) ==> if om.dom().contains(k) {
                adds_no_repeats(om[k], im[k])
            } else {
                arrays_distinct(im[k])
            },
            _ => true,
        },
        _ => true,
    }
}

proof fn lemma_merge_values_twice(outer: JsonV, inner: JsonV)
    requires
        adds_no_repeats(outer, inner),
    ensures
        merge_values(merge_values(outer, inner), inner) == merge_values(outer, inner),
    decreases inner,
{
    match outer {
        JsonV::Array(oa) => {
            if let JsonV::Array(ia) = inner {
                let d = distinct_items(oa + ia);
                lemma_append_new_items(Seq::empty(), oa + ia);
                lemma_distinct_of_no_repeats(d);
                lemma_append_new_concat(Seq::empty(), d, ia);
                law_arrays_concatenate_dedup(oa, ia);
                assert forall|x: JsonV| ia.contains(x) implies d.contains(x) by {}
                lemma_append_nothing_new(d, ia);
            }
        },
        JsonV::Object(om) => {
            if let JsonV::Object(im) = inner {
                lemma_merge_objects(om, im);
                let m1 = merge_maps(om, im);
                lemma_merge_objects(m1, im);
                assert forall|k: Seq<char>| #[trigger] m1.dom().contains(k) && im.dom().contains(k) implies merge_values(m1[k], im[k]) == m1[k] by {
                    if om.dom().contains(k) {
                        lemma_merge_values_twice(om[k], im[k]);
                    } else {
                        law_merge_idempotent(im[k]);
                    }
                }
                assert(merge_maps(m1, im) =~= m1);
            }
        },
        _ => {},
    }
}

/// Merging the same frontmatter a second time changes nothing, as long as
/// what the first merge takes whole from it has no array that repeats an
/// item (a second merge would deduplicate that array). An included
/// frontmatter that is not an object is never merged into anything.
pub proof fn law_merge_twice(outer: Option<JsonV>, inner: Option<JsonV>)
    requires
        inner matches Some(iv) ==> match outer {
            Some(ov) => adds_no_repeats(ov, iv),
            None => iv is Object ==> arrays_distinct(iv),
        },
    ensures
        merged_frontmatter(merged_frontmatter(outer, inner), inner) == merged_frontmatter(outer, inner),
{
    match inner {
        None => {},
        Some(iv) => match outer {
            None => {
                if iv is Object {
                    law_frontmatter_merge_idempotent(Some(iv));
                }
            },
            Some(JsonV::Object(om)) => {
                if let JsonV::Object(im) = iv {
                    lemma_merge_values_twice(JsonV::Object(om), iv);
                    lemma_merge_objects(om, im);
                    lemma_merge_objects(merge_maps(om, im), im);
                }
            },
            Some(_) => {},
        },
    }
}

/// An empty included object adds nothing; an empty parent object takes the
/// included object whole.
pub proof fn law_empty_objects(m: Map<Seq<char>, JsonV>)
    ensures
        merge_maps(m, Map::empty()) == m,
        merge_maps(Map::empty(), m) == m,
{
    assert(merge_maps(m, Map::empty()) =~= m);
    assert(merge_maps(Map::empty(), m) =~= m);
}

} // verus!
