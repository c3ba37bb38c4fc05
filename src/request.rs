use vstd::prelude::*;
use crate::text::{trim_end, trim_end_str, same_text};

verus! {

/// The request line that writes `json` at `key`.
pub fn set_request(key: &str, json: &str) -> (r: String)
    ensures
        r@ == "SET "@ + key@ + " "@ + json@ + "\n"@,
{
    let mut r = String::from_str("SET ");
    r.append(key);
    r.append(" ");
    r.append(json);
    r.append("\n");
    r
}

/// The request line that reads `key`.
pub fn get_request(key: &str) -> (r: String)
    ensures
        r@ == "GET "@ + key@ + "\n"@,
{
    let mut r = String::from_str("GET ");
    r.append(key);
    r.append("\n");
    r
}

/// The request line that removes `key`.
pub fn remove_request(key: &str) -> (r: String)
    ensures
        r@ == "REMOVE "@ + key@ + "\n"@,
{
    let mut r = String::from_str("REMOVE ");
    r.append(key);
    r.append("\n");
    r
}

/// Whether a reply reports success: it is the line `OK`, with nothing but white
/// space after it.
pub fn reply_is_ok(resp: &str) -> (r: bool)
    ensures
        r == (trim_end(resp@) == "OK"@),
{
    same_text(trim_end_str(resp), "OK")
}

} // verus!
