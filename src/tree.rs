use vstd::prelude::*;
use crate::json::{Json, JsonModel, members_view, lemma_object_view};

verus! {

/// The members of an object, or the root entries of the store.
pub type Members = Seq<(Seq<char>, JsonModel)>;

/// The index of the last member with key `k`, or -1 if there is none.
pub open spec fn key_index(ms: Members, k: Seq<char>) -> int
    decreases ms.len(),
{
    if ms.len() == 0 {
        -1
    } else if ms[ms.len() - 1].0 == k {
        ms.len() - 1
    } else {
        key_index(ms.subrange(0, ms.len() - 1), k)
    }
}

/// The value under key `k`.
pub open spec fn lookup(ms: Members, k: Seq<char>) -> Option<JsonModel> {
    let i = key_index(ms, k);
    if i >= 0 {
        Some(ms[i].1)
    } else {
        None
    }
}

/// The members with `k` bound to `v`: an existing member is overwritten in place,
/// a new one goes last.
pub open spec fn put(ms: Members, k: Seq<char>, v: JsonModel) -> Members {
    let i = key_index(ms, k);
    if i >= 0 {
        ms.update(i, (k, v))
    } else {
        ms.push((k, v))
    }
}

/// The members without key `k`.
pub open spec fn delete(ms: Members, k: Seq<char>) -> Members {
    let i = key_index(ms, k);
    if i >= 0 {
        ms.remove(i)
    } else {
        ms
    }
}

/// The value that a path leads to: each segment but the last must name an object.
pub open spec fn get_path(ms: Members, p: Seq<Seq<char>>) -> Option<JsonModel>
    decreases p.len(),
{
    if p.len() == 0 {
        None
    } else {
        match lookup(ms, p[0]) {
            None => None,
            Some(v) => if p.len() == 1 {
                Some(v)
            } else {
                match v {
                    JsonModel::Object(cs) => get_path(cs, p.drop_first()),
                    JsonModel::Leaf(_) => None,
                }
            },
        }
    }
}

/// The members after writing `v` at a path. Missing objects along the way are
/// created empty; any other value along the way makes the path invalid (`None`).
pub open spec fn set_path(ms: Members, p: Seq<Seq<char>>, v: JsonModel) -> Option<Members>
    decreases p.len(),
{
    if p.len() == 0 {
        None
    } else if p.len() == 1 {
        Some(put(ms, p[0], v))
    } else {
        let child = match lookup(ms, p[0]) {
            Some(c) => c,
            None => JsonModel::Object(Seq::empty()),
        };
        match child {
            JsonModel::Object(cs) => match set_path(cs, p.drop_first(), v) {
                Some(cs2) => Some(put(ms, p[0], JsonModel::Object(cs2))),
                None => None,
            },
            JsonModel::Leaf(_) => None,
        }
    }
}

/// The members after deleting what a path leads to; `None` where the path does not
/// lead to a value.
pub open spec fn remove_path(ms: Members, p: Seq<Seq<char>>) -> Option<Members>
    decreases p.len(),
{
    if p.len() == 0 {
        None
    } else {
        match lookup(ms, p[0]) {
            None => None,
            Some(c) => if p.len() == 1 {
                Some(delete(ms, p[0]))
            } else {
                match c {
                    JsonModel::Object(cs) => match remove_path(cs, p.drop_first()) {
                        Some(cs2) => Some(put(ms, p[0], JsonModel::Object(cs2))),
                        None => None,
                    },
                    JsonModel::Leaf(_) => None,
                }
            },
        }
    }
}

/// The segments of a path.
pub open spec fn path_view(p: Seq<&str>) -> Seq<Seq<char>> {
    p.map_values(|s: &str| s@)
}

pub proof fn lemma_key_index(ms: Members, k: Seq<char>)
    ensures
        -1 <= key_index(ms, k) < ms.len(),
        key_index(ms, k) >= 0 ==> ms[key_index(ms, k)].0 == k,
    decreases ms.len(),
{
    if ms.len() > 0 {
        lemma_key_index(ms.subrange(0, ms.len() - 1), k);
    }
}

/// No two members share a key.
pub open spec fn unique_keys(ms: Members) -> bool {
    forall|i: int, j: int|
        0 <= i < ms.len() && 0 <= j < ms.len() && #[trigger] ms[i].0 == #[trigger] ms[j].0 ==> i == j
}

/// Keys are unique in this object and in every object below it.
pub open spec fn wf_value(v: JsonModel) -> bool
    decreases v,
{
    match v {
        JsonModel::Leaf(_) => true,
        JsonModel::Object(ms) => unique_keys(ms) && forall|i: int|
            0 <= i < ms.len() ==> wf_value(#[trigger] ms[i].1),
    }
}

/// Keys are unique among these members and in every object below them.
pub open spec fn wf_members(ms: Members) -> bool {
    unique_keys(ms) && forall|i: int| 0 <= i < ms.len() ==> wf_value(#[trigger] ms[i].1)
}

/// `key_index` is the last position that holds `k`.
pub proof fn lemma_key_index_is(ms: Members, k: Seq<char>, i: int)
    requires
        i == -1 || (0 <= i < ms.len() && ms[i].0 == k),
        forall|j: int| i < j < ms.len() ==> ms[j].0 != k,
    ensures
        key_index(ms, k) == i,
    decreases ms.len(),
{
    if ms.len() > 0 && i != ms.len() - 1 {
        lemma_key_index_is(ms.subrange(0, ms.len() - 1), k, i);
    }
}

/// No position after `key_index` holds `k`.
pub proof fn lemma_key_index_after(ms: Members, k: Seq<char>)
    ensures
        forall|j: int| key_index(ms, k) < j < ms.len() ==> ms[j].0 != k,
    decreases ms.len(),
{
    if ms.len() > 0 && ms[ms.len() - 1].0 != k {
        let init = ms.subrange(0, ms.len() - 1);
        lemma_key_index_after(init, k);
        lemma_key_index(init, k);
        assert forall|j: int| key_index(ms, k) < j < ms.len() implies ms[j].0 != k by {
            if j < ms.len() - 1 {
                assert(ms[j] == init[j]);
            }
        }
    }
}

/// After binding `k`, looking it up gives the new value.
pub proof fn lemma_lookup_put(ms: Members, k: Seq<char>, v: JsonModel)
    ensures
        lookup(put(ms, k, v), k) == Some(v),
{
    lemma_key_index(ms, k);
    lemma_key_index_after(ms, k);
    let i = key_index(ms, k);
    let ms2 = put(ms, k, v);
    if i >= 0 {
        lemma_key_index_is(ms2, k, i);
    } else {
        lemma_key_index_is(ms2, k, ms.len() as int);
    }
}

/// With unique keys, a deleted key is gone.
pub proof fn lemma_lookup_delete(ms: Members, k: Seq<char>)
    requires
        unique_keys(ms),
    ensures
        lookup(delete(ms, k), k) is None,
{
    lemma_key_index(ms, k);
    lemma_key_index_after(ms, k);
    let i = key_index(ms, k);
    let ms2 = delete(ms, k);
    if i >= 0 {
        assert forall|j: int| -1 < j < ms2.len() implies ms2[j].0 != k by {
            if j < i {
                assert(ms2[j] == ms[j]);
            } else {
                assert(ms2[j] == ms[j + 1]);
            }
        }
    }
    lemma_key_index_is(ms2, k, -1);
}

/// Binding a well-formed value keeps the members well formed.
pub proof fn lemma_put_wf(ms: Members, k: Seq<char>, v: JsonModel)
    requires
        wf_members(ms),
        wf_value(v),
    ensures
        wf_members(put(ms, k, v)),
{
    lemma_key_index(ms, k);
    lemma_key_index_after(ms, k);
    let i = key_index(ms, k);
    let ms2 = put(ms, k, v);
    if i >= 0 {
        assert forall|a: int, b: int|
            0 <= a < ms2.len() && 0 <= b < ms2.len() && #[trigger] ms2[a].0 == #[trigger] ms2[b].0
            implies a == b by {
            if a != i && b != i {
                assert(ms[a].0 == ms[b].0);
            } else if a == i && b != i {
                assert(ms[b].0 == ms[i].0);
            } else if a != i && b == i {
                assert(ms[a].0 == ms[i].0);
            }
        }
    } else {
        lemma_key_index_is(ms, k, -1);
        assert forall|a: int, b: int|
            0 <= a < ms2.len() && 0 <= b < ms2.len() && #[trigger] ms2[a].0 == #[trigger] ms2[b].0
            implies a == b by {
            if a < ms.len() && b < ms.len() {
                assert(ms[a].0 == ms[b].0);
            }
        }
    }
    assert forall|a: int| 0 <= a < ms2.len() implies wf_value(#[trigger] ms2[a].1) by {
        if a != i && a < ms.len() {
            assert(ms2[a] == ms[a]);
        }
    }
}

/// Deleting a key keeps the members well formed.
pub proof fn lemma_delete_wf(ms: Members, k: Seq<char>)
    requires
        wf_members(ms),
    ensures
        wf_members(delete(ms, k)),
{
    lemma_key_index(ms, k);
    let i = key_index(ms, k);
    let ms2 = delete(ms, k);
    if i >= 0 {
        assert forall|a: int, b: int|
            0 <= a < ms2.len() && 0 <= b < ms2.len() && #[trigger] ms2[a].0 == #[trigger] ms2[b].0
            implies a == b by {
            let a2 = if a < i { a } else { a + 1 };
            let b2 = if b < i { b } else { b + 1 };
            assert(ms2[a] == ms[a2]);
            assert(ms2[b] == ms[b2]);
        }
        assert forall|a: int| 0 <= a < ms2.len() implies wf_value(#[trigger] ms2[a].1) by {
            let a2 = if a < i { a } else { a + 1 };
            assert(ms2[a] == ms[a2]);
        }
    }
}

/// Writing a well-formed value keeps the store well formed.
pub proof fn lemma_set_path_wf(ms: Members, p: Seq<Seq<char>>, v: JsonModel)
    requires
        wf_members(ms),
        wf_value(v),
        set_path(ms, p, v) is Some,
    ensures
        wf_members(set_path(ms, p, v)->Some_0),
    decreases p.len(),
{
    if p.len() == 1 {
        lemma_put_wf(ms, p[0], v);
    } else {
        lemma_key_index(ms, p[0]);
        let child = match lookup(ms, p[0]) {
            Some(c) => c,
            None => JsonModel::Object(Seq::empty()),
        };
        let cs = child->Object_0;
        assert(wf_members(cs));
        lemma_set_path_wf(cs, p.drop_first(), v);
        let cs2 = set_path(cs, p.drop_first(), v)->Some_0;
        lemma_put_wf(ms, p[0], JsonModel::Object(cs2));
    }
}

/// Removing a path keeps the store well formed.
pub proof fn lemma_remove_path_wf(ms: Members, p: Seq<Seq<char>>)
    requires
        wf_members(ms),
        remove_path(ms, p) is Some,
    ensures
        wf_members(remove_path(ms, p)->Some_0),
    decreases p.len(),
{
    if p.len() == 1 {
        lemma_delete_wf(ms, p[0]);
    } else {
        lemma_key_index(ms, p[0]);
        let cs = lookup(ms, p[0])->Some_0->Object_0;
        assert(wf_members(cs));
        lemma_remove_path_wf(cs, p.drop_first());
        let cs2 = remove_path(cs, p.drop_first())->Some_0;
        lemma_put_wf(ms, p[0], JsonModel::Object(cs2));
    }
}

/// What a path leads to in a well-formed store is well formed.
pub proof fn lemma_get_path_wf(ms: Members, p: Seq<Seq<char>>)
    requires
        wf_members(ms),
        get_path(ms, p) is Some,
    ensures
        wf_value(get_path(ms, p)->Some_0),
    decreases p.len(),
{
    lemma_key_index(ms, p[0]);
    if p.len() > 1 {
        let cs = lookup(ms, p[0])->Some_0->Object_0;
        assert(wf_members(cs));
        lemma_get_path_wf(cs, p.drop_first());
    }
}

/// Finds the member with key `k`.
pub fn find(ms: &Vec<(String, Json)>, k: &String) -> (r: Option<usize>)
    ensures
        r matches Some(j) ==> j < ms.len() && key_index(members_view(ms@), k@) == j,
        r is None ==> key_index(members_view(ms@), k@) == -1,
{
    let ghost mv = members_view(ms@);
    let mut j: usize = ms.len();
    proof {
        assert(mv.subrange(0, j as int) =~= mv);
    }
    while j > 0
        invariant
            j <= ms.len(),
            mv == members_view(ms@),
            key_index(mv, k@) == key_index(mv.subrange(0, j as int), k@),
        decreases j,
    {
        if ms[j - 1].0 == *k {
            return Some(j - 1);
        }
        proof {
            let t = mv.subrange(0, j as int);
            assert(t.subrange(0, t.len() - 1) =~= mv.subrange(0, j - 1));
        }
        j -= 1;
    }
    None
}

/// Binds `k` to `v` among the members.
pub fn put_member(ms: &mut Vec<(String, Json)>, k: String, v: Json)
    ensures
        members_view(final(ms)@) == put(members_view(old(ms)@), k@, v@),
{
    let ghost mv = members_view(ms@);
    match find(ms, &k) {
        Some(j) => {
            let ghost kv = k@;
            let ghost vv = v@;
            ms.set(j, (k, v));
            proof {
                assert(members_view(ms@) =~= mv.update(j as int, (kv, vv)));
            }
        },
        None => {
            let ghost kv = k@;
            let ghost vv = v@;
            ms.push((k, v));
            proof {
                assert(members_view(ms@) =~= mv.push((kv, vv)));
            }
        },
    }
}


/// Reads the value at `path[i..]`.
pub fn get_in(ms: &Vec<(String, Json)>, path: &Vec<&str>, i: usize) -> (r: Option<Json>)
    requires
        i < path.len(),
    ensures
        match get_path(members_view(ms@), path_view(path@).skip(i as int)) {
            Some(v) => r matches Some(x) && x@ == v,
            None => r is None,
        },
    decreases path.len() - i,
{
    let ghost p = path_view(path@).skip(i as int);
    let ghost mv = members_view(ms@);
    let k = path[i].to_owned();
    assert(p[0] == k@);
    match find(ms, &k) {
        None => None,
        Some(j) => {
            proof {
                lemma_key_index(mv, k@);
            }
            if i + 1 == path.len() {
                Some(ms[j].1.copy())
            } else {
                match &ms[j].1 {
                    Json::Object(cs) => {
                        proof {
                            lemma_object_view(ms@[j as int].1);
                            assert(p.drop_first() =~= path_view(path@).skip(i + 1));
                        }
                        get_in(cs, path, i + 1)
                    },
                    Json::Leaf(_) => None,
                }
            }
        },
    }
}

/// Writes `v` at `path[i..]`; `false`, with the members unchanged, where the path is invalid.
pub fn set_in(ms: &mut Vec<(String, Json)>, path: &Vec<&str>, i: usize, v: Json) -> (ok: bool)
    requires
        i < path.len(),
    ensures
        match set_path(members_view(old(ms)@), path_view(path@).skip(i as int), v@) {
            Some(r) => ok && members_view(final(ms)@) == r,
            None => !ok && members_view(final(ms)@) == members_view(old(ms)@),
        },
    decreases path.len() - i,
{
    let ghost p = path_view(path@).skip(i as int);
    let ghost mv = members_view(ms@);
    let ghost vv = v@;
    let k = path[i].to_owned();
    assert(p[0] == k@);
    if i + 1 == path.len() {
        put_member(ms, k, v);
        return true;
    }
    proof {
        assert(p.drop_first() =~= path_view(path@).skip(i + 1));
    }
    match find(ms, &k) {
        None => {
            let mut cs: Vec<(String, Json)> = Vec::new();
            proof {
                assert(members_view(cs@) =~= Seq::empty());
            }
            let ok = set_in(&mut cs, path, i + 1, v);
            if ok {
                let ghost kv = k@;
                let child = Json::Object(cs);
                proof {
                    lemma_object_view(child);
                }
                let ghost cv = child@;
                ms.push((k, child));
                proof {
                    assert(members_view(ms@) =~= mv.push((kv, cv)));
                }
            }
            ok
        },
        Some(j) => {
            proof {
                lemma_key_index(mv, k@);
            }
            let (key, child) = ms.remove(j);
            match child {
                Json::Leaf(t) => {
                    ms.insert(j, (key, Json::Leaf(t)));
                    proof {
                        assert(members_view(ms@) =~= mv);
                    }
                    false
                },
                Json::Object(cs) => {
                    let mut cs = cs;
                    proof {
                        lemma_object_view(Json::Object(cs));
                    }
                    let ok = set_in(&mut cs, path, i + 1, v);
                    let ghost kv = key@;
                    let child = Json::Object(cs);
                    proof {
                        lemma_object_view(child);
                    }
                    let ghost cv = child@;
                    ms.insert(j, (key, child));
                    proof {
                        assert(members_view(ms@) =~= mv.update(j as int, (kv, cv)));
                        if !ok {
                            assert(mv.update(j as int, (kv, cv)) =~= mv);
                        }
                    }
                    ok
                },
            }
        },
    }
}

/// Deletes what `path[i..]` leads to; `false`, with the members unchanged, where it leads nowhere.
pub fn remove_in(ms: &mut Vec<(String, Json)>, path: &Vec<&str>, i: usize) -> (ok: bool)
    requires
        i < path.len(),
    ensures
        match remove_path(members_view(old(ms)@), path_view(path@).skip(i as int)) {
            Some(r) => ok && members_view(final(ms)@) == r,
            None => !ok && members_view(final(ms)@) == members_view(old(ms)@),
        },
    decreases path.len() - i,
{
    let ghost p = path_view(path@).skip(i as int);
    let ghost mv = members_view(ms@);
    let k = path[i].to_owned();
    assert(p[0] == k@);
    match find(ms, &k) {
        None => false,
        Some(j) => {
            proof {
                lemma_key_index(mv, k@);
            }
            if i + 1 == path.len() {
                ms.remove(j);
                proof {
                    assert(members_view(ms@) =~= mv.remove(j as int));
                }
                return true;
            }
            proof {
                assert(p.drop_first() =~= path_view(path@).skip(i + 1));
            }
            let (key, child) = ms.remove(j);
            match child {
                Json::Leaf(t) => {
                    ms.insert(j, (key, Json::Leaf(t)));
                    proof {
                        assert(members_view(ms@) =~= mv);
                    }
                    false
                },
                Json::Object(cs) => {
                    let mut cs = cs;
                    proof {
                        lemma_object_view(Json::Object(cs));
                    }
                    let ok = remove_in(&mut cs, path, i + 1);
                    let ghost kv = key@;
                    let child = Json::Object(cs);
                    proof {
                        lemma_object_view(child);
                    }
                    let ghost cv = child@;
                    ms.insert(j, (key, child));
                    proof {
                        assert(members_view(ms@) =~= mv.update(j as int, (kv, cv)));
                        if !ok {
                            assert(mv.update(j as int, (kv, cv)) =~= mv);
                        }
                    }
                    ok
                },
            }
        },
    }
}

/// Deletes the member with key `k`, if there is one.
pub fn delete_member(ms: &mut Vec<(String, Json)>, k: &String)
    ensures
        members_view(final(ms)@) == delete(members_view(old(ms)@), k@),
{
    let ghost mv = members_view(ms@);
    if let Some(j) = find(ms, k) {
        ms.remove(j);
        proof {
            assert(members_view(ms@) =~= mv.remove(j as int));
        }
    }
}

} // verus!
