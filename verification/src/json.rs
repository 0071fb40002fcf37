//! A plain model of JSON values, as the MarkPlus AST and frontmatter use them.

use vstd::prelude::*;

verus! {

broadcast use vstd::std_specs::vec::group_vec_axioms, vstd::seq::group_seq_axioms;

/// A JSON value. Numbers are kept as their decimal text; an object is a list
/// of entries in which, for a key that occurs twice, the later entry counts.
#[derive(Debug)]
pub enum Json {
    Null,
    Bool(bool),
    Number(String),
    Str(String),
    Array(Vec<Json>),
    Object(Vec<(String, Json)>),
}

/// The mathematical value of a JSON document: arrays are sequences, objects
/// are finite maps from keys to values.
pub enum JsonV {
    Null,
    Bool(bool),
    Number(Seq<char>),
    Str(Seq<char>),
    Array(Seq<JsonV>),
    Object(Map<Seq<char>, JsonV>),
}

pub open spec fn json_view(j: Json) -> JsonV
    decreases j,
{
    match j {
        Json::Null => JsonV::Null,
        Json::Bool(b) => JsonV::Bool(b),
        Json::Number(n) => JsonV::Number(n@),
        Json::Str(s) => JsonV::Str(s@),
        Json::Array(v) => JsonV::Array(seq_view(v@)),
        Json::Object(v) => JsonV::Object(entries_view(v@)),
    }
}

pub open spec fn seq_view(s: Seq<Json>) -> Seq<JsonV>
    decreases s,
{
    if s.len() == 0 {
        Seq::empty()
    } else {
        seq_view(s.drop_last()).push(json_view(s.last()))
    }
}

pub open spec fn entries_view(s: Seq<(String, Json)>) -> Map<Seq<char>, JsonV>
    decreases s,
{
    if s.len() == 0 {
        Map::empty()
    } else {
        entries_view(s.drop_last()).insert(s.last().0@, json_view(s.last().1))
    }
}

impl View for Json {
    type V = JsonV;

    open spec fn view(&self) -> JsonV {
        json_view(*self)
    }
}


/// Index of the last entry whose key is `k`.
pub open spec fn last_entry(s: Seq<(String, Json)>, k: Seq<char>, i: int) -> bool {
    &&& 0 <= i < s.len()
    &&& s[i].0@ == k
    &&& forall|t: int| i < t < s.len() ==> s[t].0@ != k
}

pub open spec fn has_key(s: Seq<(String, Json)>, k: Seq<char>) -> bool {
    exists|i: int| 0 <= i < s.len() && s[i].0@ == k
}

pub proof fn lemma_seq_view(s: Seq<Json>)
    ensures
        seq_view(s).len() == s.len(),
        forall|i: int| 0 <= i < s.len() ==> #[trigger] seq_view(s)[i] == json_view(s[i]),
    decreases s.len(),
{
    if s.len() > 0 {
        lemma_seq_view(s.drop_last());
    }
}

pub proof fn lemma_entries_view(s: Seq<(String, Json)>)
    ensures
        forall|k: Seq<char>| #[trigger] entries_view(s).dom().contains(k) <==> has_key(s, k),
        forall|k: Seq<char>, i: int| #[trigger] last_entry(s, k, i) ==> entries_view(s)[k] == json_view(s[i].1),
        entries_view(s).dom().finite(),
    decreases s.len(),
{
    if s.len() > 0 {
        let p = s.drop_last();
        lemma_entries_view(p);
        assert forall|k: Seq<char>| #[trigger] entries_view(s).dom().contains(k) <==> has_key(s, k) by {
            if has_key(s, k) {
                let i = choose|i: int| 0 <= i < s.len() && s[i].0@ == k;
                if i < s.len() - 1 {
                    assert(p[i].0@ == k);
                }
            }
            if has_key(p, k) {
                let i = choose|i: int| 0 <= i < p.len() && p[i].0@ == k;
                assert(s[i].0@ == k);
            }
        }
        assert forall|k: Seq<char>, i: int| #[trigger] last_entry(s, k, i) implies entries_view(s)[k] == json_view(s[i].1) by {
            if i < s.len() - 1 {
                assert(last_entry(p, k, i));
            }
        }
    }
}


/// The index of the last entry of `entries` whose key is `key`.
pub fn find_key(entries: &Vec<(String, Json)>, key: &String) -> (r: Option<usize>)
    ensures
        match r {
            Some(i) => last_entry(entries@, key@, i as int),
            None => !has_key(entries@, key@),
        },
{
    let mut i = entries.len();
    while i > 0
        invariant
            i <= entries.len(),
            forall|t: int| i <= t < entries.len() ==> entries@[t].0@ != key@,
        decreases i,
    {
        i = i - 1;
        if entries[i].0 == *key {
            return Some(i);
        }
    }
    None
}

impl Json {
    /// A copy of this value.
    #[verifier::loop_isolation(false)]
    pub fn deep_clone(&self) -> (r: Json)
        ensures
            r@ == self@,
        decreases self,
    {
        match self {
            Json::Null => Json::Null,
            Json::Bool(b) => Json::Bool(*b),
            Json::Number(n) => Json::Number(n.clone()),
            Json::Str(t) => Json::Str(t.clone()),
            Json::Array(v) => {
                let mut r: Vec<Json> = Vec::new();
                for i in 0..v.len()
                    invariant
                        r@.len() == i,
                        forall|t: int| 0 <= t < i ==> json_view(#[trigger] r@[t]) == json_view(v@[t]),
                {
                    r.push(v[i].deep_clone());
                }
                proof {
                    lemma_seq_view(r@);
                    lemma_seq_view(v@);
                    assert(seq_view(r@) =~= seq_view(v@));
                }
                Json::Array(r)
            },
            Json::Object(v) => {
                let mut r: Vec<(String, Json)> = Vec::new();
                for i in 0..v.len()
                    invariant
                        r@.len() == i,
                        forall|t: int| 0 <= t < i ==> (#[trigger] r@[t]).0@ == v@[t].0@
                            && json_view(r@[t].1) == json_view(v@[t].1),
                {
                    r.push((v[i].0.clone(), v[i].1.deep_clone()));
                }
                proof {
                    lemma_same_entries(r@, v@);
                }
                Json::Object(r)
            },
        }
    }

    /// The value stored under `key`, when this is an object that has it.
    pub fn get(&self, key: &String) -> (r: Option<&Json>)
        ensures
            match self@ {
                JsonV::Object(m) => match r {
                    Some(v) => m.dom().contains(key@) && v@ == m[key@],
                    None => !m.dom().contains(key@),
                },
                _ => r is None,
            },
    {
        match self {
            Json::Object(v) => {
                proof {
                    lemma_entries_view(v@);
                }
                match find_key(v, key) {
                    Some(i) => Some(&v[i].1),
                    None => None,
                }
            },
            _ => None,
        }
    }

    /// The text of a string value.
    pub fn as_str(&self) -> (r: Option<&String>)
        ensures
            match self@ {
                JsonV::Str(t) => r is Some && r.unwrap()@ == t,
                _ => r is None,
            },
    {
        match self {
            Json::Str(t) => Some(t),
            _ => None,
        }
    }
}

/// Two entry lists with the same keys and values at each position describe
/// the same object.
pub proof fn lemma_same_entries(a: Seq<(String, Json)>, b: Seq<(String, Json)>)
    requires
        a.len() == b.len(),
        forall|t: int| 0 <= t < a.len() ==> (#[trigger] a[t]).0@ == b[t].0@ && json_view(a[t].1)
            == json_view(b[t].1),
    ensures
        entries_view(a) == entries_view(b),
    decreases a.len(),
{
    if a.len() > 0 {
        lemma_same_entries(a.drop_last(), b.drop_last());
        assert(a.last() == a[a.len() - 1]);
    }
}

pub proof fn lemma_push_entry(s: Seq<(String, Json)>, e: (String, Json))
    ensures
        entries_view(s.push(e)) == entries_view(s).insert(e.0@, json_view(e.1)),
{
    assert(s.push(e).drop_last() =~= s);
}

/// Replacing the last entry of a key replaces that key's value.
pub proof fn lemma_update_entry(s: Seq<(String, Json)>, idx: int, e: (String, Json))
    requires
        last_entry(s, e.0@, idx),
    ensures
        entries_view(s.update(idx, e)) == entries_view(s).insert(e.0@, json_view(e.1)),
    decreases s.len(),
{
    let u = s.update(idx, e);
    if idx == s.len() - 1 {
        assert(u.drop_last() =~= s.drop_last());
    } else {
        let p = s.drop_last();
        assert(u.drop_last() =~= p.update(idx, e));
        assert(last_entry(p, e.0@, idx));
        lemma_update_entry(p, idx, e);
        assert(s.last().0@ != e.0@);
        assert(u.last() == s.last());
        assert(entries_view(u) =~= entries_view(s).insert(e.0@, json_view(e.1)));
    }
}

/// Entry lists that agree everywhere but at `idx`, where the key is the same
/// and is not repeated later, describe objects that differ only there.
pub proof fn lemma_entries_differ_at(a: Seq<(String, Json)>, b: Seq<(String, Json)>, idx: int)
    requires
        a.len() == b.len(),
        0 <= idx < a.len(),
        last_entry(a, a[idx].0@, idx),
        forall|t: int| 0 <= t < a.len() ==> (#[trigger] b[t]).0@ == a[t].0@,
        forall|t: int| 0 <= t < a.len() && t != idx ==> json_view((#[trigger] b[t]).1) == json_view(a[t].1),
    ensures
        entries_view(b) == entries_view(a).insert(a[idx].0@, json_view(b[idx].1)),
{
    let u = a.update(idx, b[idx]);
    lemma_update_entry(a, idx, b[idx]);
    lemma_same_entries(b, u);
}

/// `seq_view` of a concatenation.
pub proof fn lemma_seq_view_add(a: Seq<Json>, b: Seq<Json>)
    ensures
        seq_view(a + b) == seq_view(a) + seq_view(b),
{
    lemma_seq_view(a);
    lemma_seq_view(b);
    lemma_seq_view(a + b);
    assert(seq_view(a + b) =~= seq_view(a) + seq_view(b));
}

/// Copies of `v[from..]`.
pub fn clone_from(v: &Vec<Json>, from: usize) -> (r: Vec<Json>)
    requires
        from <= v.len(),
    ensures
        seq_view(r@) == seq_view(v@).skip(from as int),
{
    let mut r: Vec<Json> = Vec::new();
    let mut i = from;
    while i < v.len()
        invariant
            from <= i <= v.len(),
            r@.len() == i - from,
            forall|t: int| 0 <= t < r@.len() ==> json_view(#[trigger] r@[t]) == json_view(v@[t + from]),
        decreases v.len() - i,
    {
        r.push(v[i].deep_clone());
        i = i + 1;
    }
    proof {
        lemma_seq_view(r@);
        lemma_seq_view(v@);
        assert(seq_view(r@) =~= seq_view(v@).skip(from as int));
    }
    r
}

/// A copy of `entries` in which the value at `idx` is `value`.
pub fn replace_entry(entries: &Vec<(String, Json)>, idx: usize, value: Json) -> (r: Vec<(String, Json)>)
    requires
        idx < entries.len(),
    ensures
        r@.len() == entries@.len(),
        forall|t: int| 0 <= t < r@.len() ==> (#[trigger] r@[t]).0@ == entries@[t].0@,
        forall|t: int| 0 <= t < r@.len() && t != idx ==> json_view((#[trigger] r@[t]).1) == json_view(entries@[t].1),
        json_view(r@[idx as int].1) == value@,
        last_entry(entries@, entries@[idx as int].0@, idx as int) ==> entries_view(r@) == entries_view(
            entries@,
        ).insert(entries@[idx as int].0@, value@),
{
    let ghost vv = value@;
    let mut value = Some(value);
    let mut r: Vec<(String, Json)> = Vec::new();
    for i in 0..entries.len()
        invariant
            r@.len() == i,
            i <= idx ==> value is Some && value.unwrap()@ == vv,
            forall|t: int| 0 <= t < i ==> (#[trigger] r@[t]).0@ == entries@[t].0@,
            forall|t: int| 0 <= t < i && t != idx ==> json_view((#[trigger] r@[t]).1) == json_view(entries@[t].1),
            idx < i ==> json_view(r@[idx as int].1) == vv,
    {
        if i == idx {
            let v = value.take().unwrap();
            r.push((entries[i].0.clone(), v));
        } else {
            r.push((entries[i].0.clone(), entries[i].1.deep_clone()));
        }
    }
    proof {
        if last_entry(entries@, entries@[idx as int].0@, idx as int) {
            lemma_entries_differ_at(entries@, r@, idx as int);
        }
    }
    r
}

/// A copy of `entries` without any entry for `key`.
pub fn remove_key(entries: &Vec<(String, Json)>, key: &String) -> (r: Vec<(String, Json)>)
    ensures
        entries_view(r@) == entries_view(entries@).remove(key@),
{
    let mut r: Vec<(String, Json)> = Vec::new();
    proof {
        assert(entries@.take(0) =~= Seq::<(String, Json)>::empty());
        assert(entries_view(r@) =~= entries_view(entries@.take(0)).remove(key@));
    }
    for i in 0..entries.len()
        invariant
            entries_view(r@) == entries_view(entries@.take(i as int)).remove(key@),
    {
        let ghost before = r@;
        let ghost p = entries@.take(i as int);
        proof {
            assert(entries@.take(i + 1).drop_last() =~= p);
        }
        if entries[i].0 != *key {
            let e = (entries[i].0.clone(), entries[i].1.deep_clone());
            r.push(e);
            proof {
                lemma_push_entry(before, r@.last());
                assert(r@ =~= before.push(r@.last()));
                assert(entries_view(r@) =~= entries_view(entries@.take(i + 1)).remove(key@));
            }
        } else {
            assert(entries_view(r@) =~= entries_view(entries@.take(i + 1)).remove(key@));
        }
    }
    proof {
        assert(entries@.take(entries.len() as int) =~= entries@);
    }
    r
}

/// A copy of `entries` in which `key` holds `value`.
pub fn set_key(entries: &Vec<(String, Json)>, key: String, value: Json) -> (r: Vec<(String, Json)>)
    ensures
        entries_view(r@) == entries_view(entries@).insert(key@, value@),
{
    match find_key(entries, &key) {
        Some(i) => replace_entry(entries, i, value),
        None => {
            let mut r: Vec<(String, Json)> = Vec::new();
            for i in 0..entries.len()
                invariant
                    r@.len() == i,
                    forall|t: int| 0 <= t < i ==> (#[trigger] r@[t]).0@ == entries@[t].0@ && json_view(r@[t].1) == json_view(entries@[t].1),
            {
                r.push((entries[i].0.clone(), entries[i].1.deep_clone()));
            }
            proof {
                lemma_same_entries(r@, entries@);
            }
            let ghost before = r@;
            r.push((key, value));
            proof {
                lemma_push_entry(before, r@.last());
                assert(r@ =~= before.push(r@.last()));
            }
            r
        },
    }
}

/// Whether `v` holds an item equal to `x`.
pub fn contains_json(v: &Vec<Json>, x: &Json) -> (r: bool)
    ensures
        r == seq_view(v@).contains(x@),
{
    proof {
        lemma_seq_view(v@);
    }
    for i in 0..v.len()
        invariant
            seq_view(v@).len() == v.len(),
            forall|t: int| 0 <= t < v.len() ==> #[trigger] seq_view(v@)[t] == json_view(v@[t]),
            forall|t: int| 0 <= t < i ==> seq_view(v@)[t] != x@,
    {
        if json_eq(&v[i], x) {
            assert(seq_view(v@)[i as int] == x@);
            return true;
        }
    }
    false
}

/// Whether two values are the same JSON value.
#[verifier::loop_isolation(false)]
pub fn json_eq(a: &Json, b: &Json) -> (r: bool)
    ensures
        r == (a@ == b@),
    decreases a,
{
    match (a, b) {
        (Json::Null, Json::Null) => true,
        (Json::Bool(x), Json::Bool(y)) => *x == *y,
        (Json::Number(x), Json::Number(y)) => *x == *y,
        (Json::Str(x), Json::Str(y)) => *x == *y,
        (Json::Array(x), Json::Array(y)) => {
            proof {
                lemma_seq_view(x@);
                lemma_seq_view(y@);
            }
            if x.len() != y.len() {
                assert(seq_view(x@).len() != seq_view(y@).len());
                return false;
            }
            for i in 0..x.len()
                invariant
                    x.len() == y.len(),
                    seq_view(x@).len() == x.len(),
                    seq_view(y@).len() == y.len(),
                    forall|t: int| 0 <= t < x.len() ==> #[trigger] seq_view(x@)[t] == json_view(x@[t]),
                    forall|t: int| 0 <= t < y.len() ==> #[trigger] seq_view(y@)[t] == json_view(y@[t]),
                    forall|t: int| 0 <= t < i ==> json_view(#[trigger] x@[t]) == json_view(y@[t]),
            {
                if !json_eq(&x[i], &y[i]) {
                    assert(seq_view(x@)[i as int] != seq_view(y@)[i as int]);
                    return false;
                }
            }
            assert(seq_view(x@) =~= seq_view(y@));
            true
        },
        (Json::Object(x), Json::Object(y)) => {
            proof {
                lemma_entries_view(x@);
                lemma_entries_view(y@);
            }
            let ghost mx = entries_view(x@);
            let ghost my = entries_view(y@);
            for i in 0..x.len()
                invariant
                    mx == entries_view(x@),
                    my == entries_view(y@),
                    forall|k: Seq<char>| #[trigger] mx.dom().contains(k) <==> has_key(x@, k),
                    forall|k: Seq<char>| #[trigger] my.dom().contains(k) <==> has_key(y@, k),
                    forall|k: Seq<char>, t: int| #[trigger] last_entry(x@, k, t) ==> mx[k] == json_view(x@[t].1),
                    forall|k: Seq<char>, t: int| #[trigger] last_entry(y@, k, t) ==> my[k] == json_view(y@[t].1),
                    forall|t: int| 0 <= t < i ==> my.dom().contains(#[trigger] x@[t].0@)
                        && my[x@[t].0@] == mx[x@[t].0@],
            {
                let k = &x[i].0;
                assert(has_key(x@, k@));
                match find_key(y, k) {
                    None => {
                        assert(!my.dom().contains(k@));
                        return false;
                    },
                    Some(jy) => {
                        let jx = find_key(x, k).unwrap();
                        assert(last_entry(x@, k@, jx as int));
                        assert(last_entry(y@, k@, jy as int));
                        if !json_eq(&x[jx].1, &y[jy].1) {
                            return false;
                        }
                    },
                }
            }
            for i in 0..y.len()
                invariant
                    my == entries_view(y@),
                    forall|k: Seq<char>| #[trigger] mx.dom().contains(k) <==> has_key(x@, k),
                    forall|k: Seq<char>| #[trigger] my.dom().contains(k) <==> has_key(y@, k),
                    forall|t: int| 0 <= t < i ==> mx.dom().contains(#[trigger] y@[t].0@),
            {
                let k = &y[i].0;
                if find_key(x, k).is_none() {
                    assert(has_key(y@, k@));
                    assert(my.dom().contains(k@) && !mx.dom().contains(k@));
                    assert(a@ == JsonV::Object(mx) && b@ == JsonV::Object(my));
                    return false;
                }
            }
            assert forall|k: Seq<char>| mx.dom().contains(k) implies my.dom().contains(k) && my[k]
                == mx[k] by {
                let t = choose|t: int| 0 <= t < x@.len() && x@[t].0@ == k;
                assert(x@[t].0@ == k);
            }
            assert forall|k: Seq<char>| my.dom().contains(k) implies mx.dom().contains(k) by {
                let t = choose|t: int| 0 <= t < y@.len() && y@[t].0@ == k;
                assert(y@[t].0@ == k);
            }
            assert(mx =~= my);
            true
        },
        _ => false,
    }
}

} // verus!
