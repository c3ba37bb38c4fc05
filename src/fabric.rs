use vstd::prelude::*;
use crate::error::Error;
use crate::json::{Json, JsonModel, members_view, is_json_text, parsed_json};
use crate::tree::{
    Members, get_path, set_path, remove_path, delete, path_view, get_in, set_in, remove_in,
    delete_member, wf_members, wf_value, lemma_set_path_wf, lemma_delete_wf, lemma_remove_path_wf,
    lemma_get_path_wf,
};

verus! {

/// A path written with dots between its segments.
pub open spec fn dotted(p: Seq<Seq<char>>) -> Seq<char>
    decreases p.len(),
{
    if p.len() == 0 {
        Seq::empty()
    } else if p.len() == 1 {
        p[0]
    } else {
        dotted(p.subrange(0, p.len() - 1)) + seq!['.'] + p[p.len() - 1]
    }
}

/// The store after removing what a path leads to. A root entry goes away whether
/// or not it is there; below the root only what exists can be removed.
pub open spec fn remove_entry(ms: Members, p: Seq<Seq<char>>) -> Option<Members> {
    if p.len() == 1 {
        Some(delete(ms, p[0]))
    } else {
        remove_path(ms, p)
    }
}

/// Whether `r` and the store `after` are what writing `v` at path `p` into the store
/// `before` gives.
pub open spec fn set_outcome(
    before: Members,
    after: Members,
    p: Seq<Seq<char>>,
    v: JsonModel,
    r: Result<(), Error>,
) -> bool {
    if p.len() == 0 {
        r matches Err(Error::InvalidKeyPath(m)) && m@ == "Empty key path"@ && after == before
    } else {
        match set_path(before, p, v) {
            Some(s) => r is Ok && after == s,
            None => r matches Err(Error::InvalidKeyPath(m)) && m@ == dotted(p) && after == before,
        }
    }
}

/// What parsing `text` and writing the result at path `p` may do: refuse an empty
/// path; refuse text that is not JSON, with the parser's message and the store
/// unchanged; otherwise write the value that serde_json reads from the text, as
/// `set_outcome` says.
pub open spec fn set_done(
    before: Members,
    after: Members,
    p: Seq<Seq<char>>,
    text: Seq<char>,
    r: Result<(), Error>,
) -> bool {
    if p.len() == 0 {
        r matches Err(Error::InvalidKeyPath(m)) && m@ == "Empty key path"@ && after == before
    } else if !is_json_text(text) {
        r matches Err(Error::BadDataStructure(_)) && after == before
    } else {
        set_outcome(before, after, p, parsed_json(text), r)
    }
}

/// The data structure store: root keys, each with a JSON value.
#[derive(Debug)]
pub struct Fabric {
    pub cache: Vec<(String, Json)>,
}

impl Fabric {
    /// Keys are unique at the root and in every object of the store.
    pub open spec fn wf(&self) -> bool {
        wf_members(self@)
    }
}

impl View for Fabric {
    type V = Members;

    open spec fn view(&self) -> Members {
        members_view(self.cache@)
    }
}

/// Writes a path with dots between its segments.
pub fn join_path(keys: &Vec<&str>) -> (r: String)
    ensures
        r@ == dotted(path_view(keys@)),
{
    let ghost p = path_view(keys@);
    let mut out = String::new();
    let mut i: usize = 0;
    while i < keys.len()
        invariant
            i <= keys.len(),
            p == path_view(keys@),
            out@ == dotted(p.subrange(0, i as int)),
        decreases keys.len() - i,
    {
        if i > 0 {
            out.append(".");
        }
        out.append(keys[i]);
        proof {
            reveal_strlit(".");
            let q = p.subrange(0, i as int + 1);
            assert(q.subrange(0, q.len() - 1) =~= p.subrange(0, i as int));
        }
        i += 1;
    }
    proof {
        assert(p.subrange(0, keys.len() as int) =~= p);
    }
    out
}

impl Fabric {
    /// An empty store.
    pub fn new() -> (r: Fabric)
        ensures
            r@ == Seq::<(Seq<char>, JsonModel)>::empty(),
            r.wf(),
    {
        let r = Fabric { cache: Vec::new() };
        proof {
            assert(r@ =~= Seq::<(Seq<char>, JsonModel)>::empty());
        }
        r
    }

    /// A copy of the value that the path leads to.
    pub fn get(&self, keys: Vec<&str>) -> (r: Result<Json, Error>)
        ensures
            keys@.len() == 0 ==> (r matches Err(Error::InvalidKeyPath(m)) && m@ == "Empty key path"@),
            keys@.len() > 0 ==> match get_path(self@, path_view(keys@)) {
                Some(v) => r matches Ok(x) && x@ == v,
                None => r matches Err(Error::InvalidKeyPath(m)) && m@ == dotted(path_view(keys@)),
            },
            self.wf() ==> (r matches Ok(x) ==> wf_value(x@)),
    {
        if keys.len() == 0 {
            return Err(Error::InvalidKeyPath(String::from_str("Empty key path")));
        }
        proof {
            assert(path_view(keys@).skip(0) =~= path_view(keys@));
        }
        match get_in(&self.cache, &keys, 0) {
            Some(v) => {
                proof {
                    if wf_members(self@) {
                        lemma_get_path_wf(self@, path_view(keys@));
                    }
                }
                Ok(v)
            },
            None => Err(Error::InvalidKeyPath(join_path(&keys))),
        }
    }

    /// Writes an already parsed value at the path.
    pub fn set_value(&mut self, keys: Vec<&str>, value: Json) -> (r: Result<(), Error>)
        ensures
            set_outcome(old(self)@, final(self)@, path_view(keys@), value@, r),
            old(self).wf() && wf_value(value@) ==> final(self).wf(),
    {
        if keys.len() == 0 {
            return Err(Error::InvalidKeyPath(String::from_str("Empty key path")));
        }
        proof {
            assert(path_view(keys@).skip(0) =~= path_view(keys@));
        }
        let ghost before = self@;
        let ghost vv = value@;
        if set_in(&mut self.cache, &keys, 0, value) {
            proof {
                if wf_members(before) && wf_value(vv) {
                    lemma_set_path_wf(before, path_view(keys@), vv);
                }
            }
            Ok(())
        } else {
            Err(Error::InvalidKeyPath(join_path(&keys)))
        }
    }

    /// Parses `value` as JSON and writes it at the path. Text that is not JSON leaves
    /// the store as it was.
    pub fn set(&mut self, keys: Vec<&str>, value: &str) -> (r: Result<(), Error>)
        ensures
            set_done(old(self)@, final(self)@, path_view(keys@), value@, r),
            old(self).wf() ==> final(self).wf(),
    {
        if keys.len() == 0 {
            return Err(Error::InvalidKeyPath(String::from_str("Empty key path")));
        }
        match Json::parse(value) {
            Err(m) => Err(Error::BadDataStructure(m)),
            Ok(v) => self.set_value(keys, v),
        }
    }

    /// Removes what the path leads to. A root key is removed whether or not it is
    /// there; below the root, removing what is not there is an error.
    pub fn remove(&mut self, keys: Vec<&str>) -> (r: Result<(), Error>)
        ensures
            keys@.len() == 0 ==> (r matches Err(Error::InvalidKeyPath(m)) && m@ == "Empty key path"@
                && final(self)@ == old(self)@),
            keys@.len() > 0 ==> match remove_entry(old(self)@, path_view(keys@)) {
                Some(s) => r is Ok && final(self)@ == s,
                None => r matches Err(Error::InvalidKeyPath(m)) && m@ == dotted(path_view(keys@))
                    && final(self)@ == old(self)@,
            },
            old(self).wf() ==> final(self).wf(),
    {
        if keys.len() == 0 {
            return Err(Error::InvalidKeyPath(String::from_str("Empty key path")));
        }
        if keys.len() == 1 {
            let k = keys[0].to_owned();
            let ghost before = self@;
            delete_member(&mut self.cache, &k);
            proof {
                if wf_members(before) {
                    lemma_delete_wf(before, k@);
                }
            }
            return Ok(());
        }
        proof {
            assert(path_view(keys@).skip(0) =~= path_view(keys@));
        }
        let ghost before = self@;
        if remove_in(&mut self.cache, &keys, 0) {
            proof {
                if wf_members(before) {
                    lemma_remove_path_wf(before, path_view(keys@));
                }
            }
            Ok(())
        } else {
            Err(Error::InvalidKeyPath(join_path(&keys)))
        }
    }
}

} // verus!
