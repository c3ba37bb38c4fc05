use vstd::prelude::*;
use crate::tree::wf_value;

verus! {

/// What a JSON value is, as far as paths into the store can see it.
pub enum JsonModel {
    /// Anything but an object (null, a boolean, a number, a string or an array),
    /// as its compact JSON text.
    Leaf(Seq<char>),
    /// An object: its members in order, each a key and a value.
    Object(Seq<(Seq<char>, JsonModel)>),
}

/// A JSON value held by the store. Paths only descend into objects, so every other
/// value is kept as its compact JSON text.
#[derive(Debug)]
pub enum Json {
    Leaf(String),
    Object(Vec<(String, Json)>),
}

impl View for Json {
    type V = JsonModel;

    open spec fn view(&self) -> JsonModel {
        model(*self)
    }
}

/// The model of a value.
pub open spec fn model(j: Json) -> JsonModel
    decreases j,
{
    match j {
        Json::Leaf(t) => JsonModel::Leaf(t@),
        Json::Object(ms) => JsonModel::Object(members_model(ms@)),
    }
}

/// The model of a sequence of members.
pub open spec fn members_model(ms: Seq<(String, Json)>) -> Seq<(Seq<char>, JsonModel)>
    decreases ms,
{
    if ms.len() == 0 {
        Seq::empty()
    } else {
        let last = ms[ms.len() - 1];
        members_model(ms.subrange(0, ms.len() - 1)).push((last.0@, model(last.1)))
    }
}

/// The model of a sequence of members, member by member.
pub open spec fn members_view(ms: Seq<(String, Json)>) -> Seq<(Seq<char>, JsonModel)> {
    ms.map_values(|m: (String, Json)| (m.0@, m.1@))
}

/// Whether the text is a JSON document (what serde_json accepts).
pub uninterp spec fn is_json_text(s: Seq<char>) -> bool;

/// A character inside a JSON string literal: a quote and a backslash get a backslash,
/// the control characters with a short escape use it, other control characters are
/// written `\u00XX` with lower-case hex digits, and anything else stands as it is.
pub open spec fn escape_char(c: char) -> Seq<char> {
    let u = c as u32;
    let hex = seq!['0', '1', '2', '3', '4', '5', '6', '7', '8', '9', 'a', 'b', 'c', 'd', 'e', 'f'];
    if c == '"' {
        seq!['\\', '"']
    } else if c == '\\' {
        seq!['\\', '\\']
    } else if u == 0x08 {
        seq!['\\', 'b']
    } else if u == 0x09 {
        seq!['\\', 't']
    } else if u == 0x0a {
        seq!['\\', 'n']
    } else if u == 0x0c {
        seq!['\\', 'f']
    } else if u == 0x0d {
        seq!['\\', 'r']
    } else if u < 0x20 {
        seq!['\\', 'u', '0', '0', hex[(u / 16) as int], hex[(u % 16) as int]]
    } else {
        seq![c]
    }
}

/// The characters of a string, each escaped.
pub open spec fn escaped(s: Seq<char>) -> Seq<char>
    decreases s.len(),
{
    if s.len() == 0 {
        Seq::empty()
    } else {
        escaped(s.drop_last()) + escape_char(s[s.len() - 1])
    }
}

/// A key written as a JSON string literal, quotes and escapes included.
pub open spec fn string_literal(s: Seq<char>) -> Seq<char> {
    seq!['"'] + escaped(s) + seq!['"']
}

/// The value that serde_json reads from a JSON document.
pub uninterp spec fn parsed_json(s: Seq<char>) -> JsonModel;

/// How deeply a JSON document nests.
pub uninterp spec fn nesting(s: Seq<char>) -> nat;

/// The compact JSON text of a value.
pub open spec fn json_text(v: JsonModel) -> Seq<char>
    decreases v,
{
    match v {
        JsonModel::Leaf(t) => t,
        JsonModel::Object(ms) => seq!['{'] + members_text(ms) + seq!['}'],
    }
}

/// The members of an object as JSON text, separated by commas.
pub open spec fn members_text(ms: Seq<(Seq<char>, JsonModel)>) -> Seq<char>
    decreases ms,
{
    if ms.len() == 0 {
        Seq::empty()
    } else {
        let last = ms[ms.len() - 1];
        let entry = string_literal(last.0) + seq![':'] + json_text(last.1);
        if ms.len() == 1 {
            entry
        } else {
            members_text(ms.subrange(0, ms.len() - 1)) + seq![','] + entry
        }
    }
}

} // verus!

verus! {

/// One level of a parsed document: a value that is not an object as its compact
/// JSON text, or an object's members with each value as its compact JSON text.
pub enum Document {
    Leaf(String),
    Object(Vec<(String, String)>),
}

/// Relies on serde_json::from_str, which accepts exactly the JSON documents, and on
/// the Display impl of serde_json::Value, which writes compact JSON text that
/// from_str reads back as the same value (floats included, with the float_roundtrip
/// feature). An object's keys are unique, as serde_json::Map keeps them, and in the
/// order the map hands them out; each member value nests less deeply than the object.
#[verifier::external_body]
fn read_document(s: &str) -> (r: Result<Document, String>)
    ensures
        r is Ok <==> is_json_text(s@),
        r matches Ok(Document::Leaf(t)) ==> parsed_json(s@) == JsonModel::Leaf(t@),
        r matches Ok(Document::Object(ms)) ==> {
            &&& parsed_json(s@) is Object
            &&& parsed_json(s@)->Object_0.len() == ms@.len()
            &&& forall|i: int|
                0 <= i < ms@.len() ==> {
                    &&& is_json_text(#[trigger] ms@[i].1@)
                    &&& nesting(ms@[i].1@) < nesting(s@)
                    &&& parsed_json(s@)->Object_0[i] == (ms@[i].0@, parsed_json(ms@[i].1@))
                }
            &&& forall|i: int, j: int|
                0 <= i < ms@.len() && 0 <= j < ms@.len() && #[trigger] ms@[i].0@ == #[trigger] ms@[j].0@
                    ==> i == j
        },
{
    match serde_json::from_str::<serde_json::Value>(s) {
        Ok(serde_json::Value::Object(m)) => Ok(Document::Object(
            m.into_iter().map(|(k, v)| (k, v.to_string())).collect(),
        )),
        Ok(v) => Ok(Document::Leaf(v.to_string())),
        Err(e) => Err(e.to_string()),
    }
}

/// Relies on serde_json::to_string, which writes a str as a JSON string literal
/// (format_escaped_str and its ESCAPE table) and cannot fail on one.
#[verifier::external_body]
fn quote(s: &str) -> (r: String)
    ensures
        r@ == string_literal(s@),
{
    serde_json::to_string(s).unwrap_or_default()
}

impl Json {
    /// Parses a JSON document. Text that is not JSON is refused with serde_json's message.
    pub fn parse(s: &str) -> (r: Result<Json, String>)
        ensures
            r is Ok <==> is_json_text(s@),
            r matches Ok(j) ==> j@ == parsed_json(s@) && wf_value(j@),
        decreases nesting(s@),
    {
        match read_document(s) {
            Err(e) => Err(e),
            Ok(Document::Leaf(t)) => Ok(Json::Leaf(t)),
            Ok(Document::Object(ms)) => {
                let ghost model = parsed_json(s@)->Object_0;
                let mut out: Vec<(String, Json)> = Vec::new();
                let mut i: usize = 0;
                while i < ms.len()
                    invariant
                        i <= ms.len(),
                        model.len() == ms@.len(),
                        forall|k: int|
                            0 <= k < ms@.len() ==> {
                                &&& is_json_text(#[trigger] ms@[k].1@)
                                &&& nesting(ms@[k].1@) < nesting(s@)
                                &&& model[k] == (ms@[k].0@, parsed_json(ms@[k].1@))
                            },
                        members_view(out@) == model.take(i as int),
                        forall|a: int, b: int|
                            0 <= a < ms@.len() && 0 <= b < ms@.len() && #[trigger] ms@[a].0@
                                == #[trigger] ms@[b].0@ ==> a == b,
                        forall|k: int| 0 <= k < i ==> wf_value(#[trigger] model[k].1),
                    decreases ms.len() - i,
                {
                    let c = match Json::parse(ms[i].1.as_str()) {
                        Ok(c) => c,
                        Err(e) => return Err(e),
                    };
                    let k = ms[i].0.clone();
                    let ghost before = out@;
                    out.push((k, c));
                    proof {
                        assert(members_view(out@) =~= members_view(before).push((ms@[i as int].0@, c@)));
                        assert(model.take(i as int + 1) =~= model.take(i as int).push(model[i as int]));
                    }
                    i += 1;
                }
                let r = Json::Object(out);
                proof {
                    lemma_object_view(r);
                    assert(model.take(ms@.len() as int) =~= model);
                    assert(parsed_json(s@) == JsonModel::Object(model));
                    assert forall|a: int, b: int|
                        0 <= a < model.len() && 0 <= b < model.len() && #[trigger] model[a].0
                            == #[trigger] model[b].0 implies a == b by {
                        assert(is_json_text(ms@[a].1@) && is_json_text(ms@[b].1@));
                        assert(ms@[a].0@ == ms@[b].0@);
                    }
                }
                Ok(r)
            },
        }
    }

    /// A copy of the value.
    pub fn copy(&self) -> (r: Json)
        ensures
            r@ == self@,
        decreases self,
    {
        match self {
            Json::Leaf(t) => Json::Leaf(t.clone()),
            Json::Object(ms) => {
                let mut out: Vec<(String, Json)> = Vec::new();
                let mut i: usize = 0;
                while i < ms.len()
                    invariant
                        self is Object,
                        *ms == self->Object_0,
                        i <= ms.len(),
                        members_view(out@) == members_view(ms@).take(i as int),
                    decreases ms.len() - i,
                {
                    proof {
                        assert(decreases_to!(*self => self->Object_0));
                        assert(decreases_to!(*ms => ms@));
                        assert(decreases_to!(ms@ => ms@[i as int]));
                        assert(decreases_to!(ms@[i as int] => ms@[i as int].1));
                    }
                    let c = ms[i].1.copy();
                    let k = ms[i].0.clone();
                    let ghost before = out@;
                    out.push((k, c));
                    proof {
                        assert(members_view(out@) =~= members_view(before).push((ms@[i as int].0@, ms@[i as int].1@)));
                        assert(members_view(ms@).take(i as int + 1) =~= members_view(ms@).take(i as int).push((ms@[i as int].0@, ms@[i as int].1@)));
                    }
                    i += 1;
                }
                proof {
                    assert(members_view(ms@).take(ms@.len() as int) =~= members_view(ms@));
                }
                let r = Json::Object(out);
                proof {
                    lemma_object_view(r);
                    lemma_object_view(*self);
                }
                r
            },
        }
    }

    /// The compact JSON text of the value.
    pub fn to_text(&self) -> (r: String)
        ensures
            r@ == json_text(self@),
        decreases self,
    {
        match self {
            Json::Leaf(t) => {
                let r = t.clone();
                assert(r@ == t@);
                r
            },
            Json::Object(ms) => {
                proof {
                    lemma_object_view(*self);
                }
                let ghost mv = members_view(ms@);
                let mut out = String::from_str("{");
                proof {
                    reveal_strlit("{");
                    assert(mv.take(0) =~= Seq::empty());
                    assert(out@ =~= seq!['{'] + members_text(mv.take(0)));
                }
                let mut i: usize = 0;
                while i < ms.len()
                    invariant
                        self is Object,
                        *ms == self->Object_0,
                        i <= ms.len(),
                        mv == members_view(ms@),
                        out@ == seq!['{'] + members_text(mv.take(i as int)),
                    decreases ms.len() - i,
                {
                    proof {
                        assert(decreases_to!(*self => self->Object_0));
                        assert(decreases_to!(*ms => ms@));
                        assert(decreases_to!(ms@ => ms@[i as int]));
                        assert(decreases_to!(ms@[i as int] => ms@[i as int].1));
                    }
                    if i > 0 {
                        out.append(",");
                    }
                    let k = quote(ms[i].0.as_str());
                    out.append(k.as_str());
                    out.append(":");
                    let t = ms[i].1.to_text();
                    out.append(t.as_str());
                    proof {
                        let p = mv.take(i as int + 1);
                        assert(p.subrange(0, p.len() - 1) =~= mv.take(i as int));
                        assert(","@ == seq![',']) by { reveal_strlit(","); }
                        assert(":"@ == seq![':']) by { reveal_strlit(":"); }
                        if i == 0 {
                            assert(mv.take(0) =~= Seq::empty());
                        }
                    }
                    i += 1;
                }
                out.append("}");
                proof {
                    reveal_strlit("}");
                    assert(mv.take(ms@.len() as int) =~= mv);
                    assert(out@ =~= seq!['{'] + members_text(mv) + seq!['}']);
                }
                out
            },
        }
    }
}

/// The recursive model of members agrees with the model of each member.
proof fn lemma_members_model(ms: Seq<(String, Json)>)
    ensures
        members_model(ms) == members_view(ms),
    decreases ms.len(),
{
    if ms.len() > 0 {
        let init = ms.subrange(0, ms.len() - 1);
        lemma_members_model(init);
        assert(members_view(ms) =~= members_view(init).push((ms[ms.len() - 1].0@, ms[ms.len() - 1].1@)));
    } else {
        assert(members_view(ms) =~= Seq::empty());
    }
}

/// The model of an object is the model of its members.
pub proof fn lemma_object_view(j: Json)
    ensures
        j matches Json::Object(ms) ==> j@ == JsonModel::Object(members_view(ms@)),
{
    if let Json::Object(ms) = j {
        lemma_members_model(ms@);
    }
}

} // verus!
