use vstd::prelude::*;
use vstd::utf8::encode_utf8;
use crate::error::{Error, error_text, key_not_found_text, invalid_path_text};
use crate::fabric::{Fabric, set_done, remove_entry, dotted};
use crate::json::{Json, json_text};
use crate::text::{
    trim, trim_end, starts_with, after_prefix, sep_index, split, lemma_sep_index, has_prefix,
    strip_prefix_or_empty, trim_end_str, trim_str, find_char, split_str, same_text,
};
use crate::tree::{Members, get_path, path_view};

verus! {

/// The kinds of request.
#[derive(Debug, Clone, Copy, PartialEq, Eq)]
pub enum Command {
    /// Read an entry.
    Get,
    /// Write an entry.
    Put,
    /// Remove an entry.
    Remove,
}

/// The first word of a line: what comes before its first space.
pub open spec fn first_word(t: Seq<char>) -> Seq<char> {
    t.take(sep_index(t, ' '))
}

/// The reply to `GET <path>`: the JSON text of the value, or a line saying the key was
/// not found.
pub open spec fn get_reply_text(store: Members, line: Seq<char>) -> Seq<char> {
    let key = after_prefix(line, "GET "@);
    match get_path(store, split(key, '.')) {
        Some(v) => json_text(v) + "\n"@,
        None => key_not_found_text(key) + "\n"@,
    }
}

/// The reply to a SET whose store write ended with `r`.
pub open spec fn set_result_text(key: Seq<char>, r: Result<(), Error>) -> Seq<char> {
    match r {
        Ok(_) => "OK\n"@,
        Err(e) => "SET ERROR For Key: "@ + key + ": "@ + error_text(e) + "\n"@,
    }
}

/// What `SET <path> <json>` does: a line without a space after the path changes
/// nothing and gets a fixed reply; otherwise the JSON text (the rest of the line,
/// spaces and all) is written at the path and the reply reports how that went.
pub open spec fn set_reply_done(
    before: Members,
    after: Members,
    line: Seq<char>,
    reply: Seq<char>,
) -> bool {
    let cmd = after_prefix(trim_end(line), "SET "@);
    let i = sep_index(cmd, ' ');
    if i >= cmd.len() {
        after == before && reply == "Invalid SET Command\n"@
    } else {
        let key = cmd.take(i);
        exists|r: Result<(), Error>|
            set_done(before, after, split(key, '.'), cmd.skip(i + 1), r) && reply
                == #[trigger] set_result_text(key, r)
    }
}

/// What `REMOVE <path>` does to the store.
pub open spec fn remove_reply_store(before: Members, line: Seq<char>) -> Members {
    let key = after_prefix(line, "REMOVE "@);
    match remove_entry(before, split(key, '.')) {
        Some(s) => s,
        None => before,
    }
}

/// The reply to `REMOVE <path>`.
pub open spec fn remove_reply_text(before: Members, line: Seq<char>) -> Seq<char> {
    let key = after_prefix(line, "REMOVE "@);
    let p = split(key, '.');
    match remove_entry(before, p) {
        Some(_) => "OK\n"@,
        None => "REMOVE Error For Key: "@ + key + ": "@ + invalid_path_text(dotted(p)) + "\n"@,
    }
}

proof fn lemma_split_nonempty(s: Seq<char>, c: char)
    ensures
        split(s, c).len() >= 1,
{
    lemma_sep_index(s, c);
}

/// Answers `GET <path>` from the store.
pub fn get_reply(line: &str, fabric: &Fabric) -> (r: String)
    ensures
        r@ == get_reply_text(fabric@, line@),
{
    let key = strip_prefix_or_empty(line, "GET ");
    let keys = split_str(key, '.');
    proof {
        lemma_split_nonempty(key@, '.');
    }
    match fabric.get(keys) {
        Ok(v) => {
            let mut out = v.to_text();
            out.append("\n");
            out
        },
        Err(_) => {
            let mut out = Error::KeyNotFound(key.to_owned()).message();
            out.append("\n");
            out
        },
    }
}

/// Carries out `SET <path> <json>` on the store.
pub fn set_reply(line: &str, fabric: &mut Fabric) -> (r: String)
    ensures
        set_reply_done(old(fabric)@, final(fabric)@, line@, r@),
        old(fabric).wf() ==> final(fabric).wf(),
{
    let line = trim_end_str(line);
    let cmd = strip_prefix_or_empty(line, "SET ");
    let i = find_char(cmd, ' ');
    let n = cmd.unicode_len();
    proof {
        lemma_sep_index(cmd@, ' ');
    }
    if i >= n {
        return String::from_str("Invalid SET Command\n");
    }
    let key = cmd.substring_char(0, i);
    let value = cmd.substring_char(i + 1, n);
    proof {
        assert(key@ =~= cmd@.take(i as int));
        assert(value@ =~= cmd@.skip(i + 1));
        lemma_split_nonempty(key@, '.');
    }
    let keys = split_str(key, '.');
    let res = fabric.set(keys, value);
    let out = match &res {
        Ok(_) => String::from_str("OK\n"),
        Err(e) => {
            let mut out = String::from_str("SET ERROR For Key: ");
            out.append(key);
            out.append(": ");
            let m = e.message();
            assert(!(e is IO));
            out.append(m.as_str());
            out.append("\n");
            out
        },
    };
    proof {
        assert(out@ == set_result_text(key@, res));
    }
    out
}

/// Carries out `REMOVE <path>` on the store.
pub fn remove_reply(line: &str, fabric: &mut Fabric) -> (r: String)
    ensures
        final(fabric)@ == remove_reply_store(old(fabric)@, line@),
        r@ == remove_reply_text(old(fabric)@, line@),
        old(fabric).wf() ==> final(fabric).wf(),
{
    let key = strip_prefix_or_empty(line, "REMOVE ");
    let keys = split_str(key, '.');
    proof {
        lemma_split_nonempty(key@, '.');
    }
    match fabric.remove(keys) {
        Ok(_) => String::from_str("OK\n"),
        Err(e) => {
            let mut out = String::from_str("REMOVE Error For Key: ");
            out.append(key);
            out.append(": ");
            let m = e.message();
            out.append(m.as_str());
            out.append("\n");
            out
        },
    }
}

/// The bytes of a reply.
fn reply_bytes(s: String) -> (r: Vec<u8>)
    ensures
        r@ == encode_utf8(s@),
{
    s.as_str().as_bytes_vec()
}

impl Command {
    /// Reads the command that a request line starts with: its first word, after
    /// white space at either end is dropped, must be `GET`, `SET` or `REMOVE`.
    pub fn from(input: &str) -> (r: Result<Command, Error>)
        ensures
            first_word(trim(input@)) == "GET"@ ==> r matches Ok(Command::Get),
            first_word(trim(input@)) == "SET"@ ==> r matches Ok(Command::Put),
            first_word(trim(input@)) == "REMOVE"@ ==> r matches Ok(Command::Remove),
            first_word(trim(input@)) != "GET"@ && first_word(trim(input@)) != "SET"@
                && first_word(trim(input@)) != "REMOVE"@ ==> (r matches Err(
                Error::UnsupportedCommand(c),
            ) && c@ == first_word(trim(input@))),
    {
        let trimmed = trim_str(input);
        let i = find_char(trimmed, ' ');
        proof {
            lemma_sep_index(trimmed@, ' ');
        }
        let word = trimmed.substring_char(0, i);
        assert(word@ =~= first_word(trimmed@));
        proof {
            reveal_strlit("GET");
            reveal_strlit("SET");
            reveal_strlit("REMOVE");
            assert("GET"@ != "SET"@ && "GET"@ != "REMOVE"@ && "SET"@ != "REMOVE"@) by {
                assert("GET"@[0] != "SET"@[0]);
                assert("GET"@.len() != "REMOVE"@.len());
                assert("SET"@.len() != "REMOVE"@.len());
            }
        }
        if same_text(word, "GET") {
            Ok(Command::Get)
        } else if same_text(word, "SET") {
            Ok(Command::Put)
        } else if same_text(word, "REMOVE") {
            Ok(Command::Remove)
        } else {
            Err(Error::UnsupportedCommand(word.to_owned()))
        }
    }

    /// Carries out the request on the store and gives the bytes of the reply. Failures
    /// of the request itself are reported in the reply, so this always succeeds.
    pub fn handle(&self, line: &str, fabric: &mut Fabric) -> (r: Result<Vec<u8>, Error>)
        ensures
            r is Ok,
            *self is Get ==> final(fabric)@ == old(fabric)@ && r->Ok_0@ == encode_utf8(
                get_reply_text(old(fabric)@, line@),
            ),
            *self is Put ==> exists|t: Seq<char>|
                set_reply_done(old(fabric)@, final(fabric)@, line@, t) && r->Ok_0@
                    == #[trigger] encode_utf8(t),
            *self is Remove ==> final(fabric)@ == remove_reply_store(old(fabric)@, line@)
                && r->Ok_0@ == encode_utf8(remove_reply_text(old(fabric)@, line@)),
            old(fabric).wf() ==> final(fabric).wf(),
    {
        match self {
            Command::Get => Ok(reply_bytes(get_reply(line, fabric))),
            Command::Put => Ok(reply_bytes(set_reply(line, fabric))),
            Command::Remove => Ok(reply_bytes(remove_reply(line, fabric))),
        }
    }
}

/// The reply line for a failed request.
pub fn error_reply(e: &Error) -> (r: String)
    ensures
        !(*e is IO) ==> r@ == error_text(*e) + "\n"@,
{
    let mut out = e.message();
    out.append("\n");
    out
}

} // verus!
