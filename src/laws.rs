use vstd::prelude::*;
use crate::json::JsonModel;
use crate::tree::{
    Members, key_index, lookup, put, get_path, set_path, remove_path, wf_members, wf_value,
    lemma_key_index, lemma_key_index_is, lemma_lookup_put, lemma_lookup_delete,
};
use crate::fabric::remove_entry;
use crate::command::set_reply_done;
use crate::text::{
    trim_end, content_end, sep_index, lemma_content_end_range, lemma_content_end_concat,
    lemma_sep_first,
};

verus! {

/// Reading a path right after writing a value there gives that value back, wherever
/// the write succeeds.
pub proof fn law_set_then_get(ms: Members, p: Seq<Seq<char>>, v: JsonModel)
    requires
        set_path(ms, p, v) is Some,
    ensures
        get_path(set_path(ms, p, v)->Some_0, p) == Some(v),
    decreases p.len(),
{
    lemma_lookup_put(ms, p[0], v);
    if p.len() > 1 {
        let child = match lookup(ms, p[0]) {
            Some(c) => c,
            None => JsonModel::Object(Seq::empty()),
        };
        let cs = child->Object_0;
        law_set_then_get(cs, p.drop_first(), v);
        let cs2 = set_path(cs, p.drop_first(), v)->Some_0;
        lemma_lookup_put(ms, p[0], JsonModel::Object(cs2));
    }
}

/// After a path is removed, reading it fails. Where the removal itself fails the
/// store is left as it was, and reading the path fails there too.
pub proof fn law_remove_then_get(ms: Members, p: Seq<Seq<char>>)
    requires
        wf_members(ms),
        p.len() > 0,
    ensures
        get_path(
            match remove_entry(ms, p) {
                Some(s) => s,
                None => ms,
            },
            p,
        ) is None,
{
    if p.len() == 1 {
        lemma_lookup_delete(ms, p[0]);
    } else if remove_path(ms, p) is Some {
        lemma_remove_path_then_get(ms, p);
    } else {
        lemma_remove_path_none(ms, p);
    }
}

proof fn lemma_remove_path_none(ms: Members, p: Seq<Seq<char>>)
    requires
        remove_path(ms, p) is None,
    ensures
        get_path(ms, p) is None,
    decreases p.len(),
{
    if p.len() > 1 {
        if let Some(JsonModel::Object(cs)) = lookup(ms, p[0]) {
            lemma_remove_path_none(cs, p.drop_first());
        }
    }
}

proof fn lemma_remove_path_then_get(ms: Members, p: Seq<Seq<char>>)
    requires
        wf_members(ms),
        remove_path(ms, p) is Some,
    ensures
        get_path(remove_path(ms, p)->Some_0, p) is None,
    decreases p.len(),
{
    if p.len() == 1 {
        lemma_lookup_delete(ms, p[0]);
    } else {
        lemma_key_index(ms, p[0]);
        let i = key_index(ms, p[0]);
        let cs = ms[i].1->Object_0;
        assert(wf_value(ms[i].1));
        lemma_remove_path_then_get(cs, p.drop_first());
        let cs2 = remove_path(cs, p.drop_first())->Some_0;
        lemma_lookup_put(ms, p[0], JsonModel::Object(cs2));
    }
}

/// Writing below a root key that is not there creates an object for it, which holds
/// the value under the second key; reading the root key gives that object.
pub proof fn law_set_creates_objects(a: Seq<char>, b: Seq<char>, v: JsonModel)
    ensures
        set_path(Seq::empty(), seq![a, b], v) == Some(
            seq![(a, JsonModel::Object(seq![(b, v)]))],
        ),
        get_path(seq![(a, JsonModel::Object(seq![(b, v)]))], seq![a]) == Some(
            JsonModel::Object(seq![(b, v)]),
        ),
{
    let e = Seq::<(Seq<char>, JsonModel)>::empty();
    assert(key_index(e, a) == -1);
    assert(key_index(e, b) == -1);
    assert(seq![a, b].drop_first() =~= seq![b]);
    assert(e.push((b, v)) =~= seq![(b, v)]);
    assert(e.push((a, JsonModel::Object(seq![(b, v)]))) =~= seq![(a, JsonModel::Object(seq![(b, v)]))]);
    assert(put(e, b, v) == seq![(b, v)]);
    assert(set_path(e, seq![b], v) == Some(seq![(b, v)]));
    assert(lookup(e, a) is None);
    assert(put(e, a, JsonModel::Object(seq![(b, v)])) == seq![(a, JsonModel::Object(seq![(b, v)]))]);
    lemma_lookup_put(e, a, JsonModel::Object(seq![(b, v)]));
}

/// Two writes under the same new root key, at different second keys, leave both
/// values side by side in one object.
pub proof fn law_set_adds_siblings(
    ms: Members,
    a: Seq<char>,
    b: Seq<char>,
    c: Seq<char>,
    v1: JsonModel,
    v2: JsonModel,
)
    requires
        lookup(ms, a) is None,
        b != c,
    ensures
        set_path(ms, seq![a, b], v1) is Some,
        set_path(set_path(ms, seq![a, b], v1)->Some_0, seq![a, c], v2) is Some,
        get_path(set_path(set_path(ms, seq![a, b], v1)->Some_0, seq![a, c], v2)->Some_0, seq![a])
            == Some(JsonModel::Object(seq![(b, v1), (c, v2)])),
{
    let e = Seq::<(Seq<char>, JsonModel)>::empty();
    assert(seq![a, b].drop_first() =~= seq![b]);
    assert(seq![a, c].drop_first() =~= seq![c]);
    assert(key_index(e, b) == -1);
    assert(e.push((b, v1)) =~= seq![(b, v1)]);
    let o1 = JsonModel::Object(seq![(b, v1)]);
    assert(put(e, b, v1) == seq![(b, v1)]);
    assert(set_path(e, seq![b], v1) == Some(seq![(b, v1)]));
    let m1 = put(ms, a, o1);
    assert(set_path(ms, seq![a, b], v1) == Some(m1));
    lemma_lookup_put(ms, a, o1);
    let one = seq![(b, v1)];
    lemma_key_index_is(one, c, -1);
    assert(one.push((c, v2)) =~= seq![(b, v1), (c, v2)]);
    assert(put(one, c, v2) == seq![(b, v1), (c, v2)]);
    assert(set_path(one, seq![c], v2) == Some(seq![(b, v1), (c, v2)]));
    let o2 = JsonModel::Object(seq![(b, v1), (c, v2)]);
    assert(set_path(m1, seq![a, c], v2) == Some(put(m1, a, o2)));
    lemma_lookup_put(m1, a, o2);
    assert(get_path(put(m1, a, o2), seq![a]) == Some(o2));
}

/// A SET line whose rest, once white space at its end is dropped, holds no space has
/// no value to write: the store stays as it was and the reply is the fixed one.
pub proof fn law_set_without_value(
    before: Members,
    after: Members,
    rest: Seq<char>,
    reply: Seq<char>,
)
    requires
        forall|i: int| 0 <= i < trim_end(rest).len() ==> trim_end(rest)[i] != ' ',
        set_reply_done(before, after, "SET "@ + rest, reply),
    ensures
        after == before,
        reply == "Invalid SET Command\n"@,
{
    reveal_strlit("SET ");
    let line = "SET "@ + rest;
    lemma_content_end_range(rest);
    lemma_content_end_concat("SET "@, rest);
    let t = line.take(content_end(line));
    let cmd = if t.len() >= 4 && t.take(4) == "SET "@ {
        t.skip(4)
    } else {
        Seq::empty()
    };
    if content_end(rest) > 0 {
        assert(t.take(4) =~= "SET "@);
        assert(cmd =~= trim_end(rest));
    } else {
        assert("SET "@.drop_last() =~= seq!['S', 'E', 'T']);
        assert(content_end(seq!['S', 'E', 'T']) == 3);
        assert(t.len() == 3);
        assert(cmd.len() == 0);
    }
    lemma_sep_first(cmd, ' ', cmd.len() as int);
    assert(sep_index(cmd, ' ') >= cmd.len());
}

} // verus!
