use vstd::prelude::*;

verus! {

#[verifier::external_type_specification]
#[verifier::external_body]
pub struct ExIoError(std::io::Error);

/// What can go wrong in the cache.
#[derive(Debug)]
pub enum Error {
    /// A GET whose path does not lead to a value.
    KeyNotFound(String),
    /// The connection failed.
    IO(std::io::Error),
    /// A SET payload that is not JSON, with the parser's message.
    BadDataStructure(String),
    /// A request line that starts with no known command.
    UnsupportedCommand(String),
    /// A path that is empty or does not resolve.
    InvalidKeyPath(String),
}

} // verus!

verus! {

pub open spec fn key_not_found_text(k: Seq<char>) -> Seq<char> {
    "Key: \""@ + k + "\" Not Found."@
}

pub open spec fn bad_data_text(m: Seq<char>) -> Seq<char> {
    "Bad Data Structure: "@ + m
}

pub open spec fn unsupported_text(c: Seq<char>) -> Seq<char> {
    "\""@ + c + "\" Is Not A Supported Command."@
}

pub open spec fn invalid_path_text(p: Seq<char>) -> Seq<char> {
    "\""@ + p + "\" Is Not A Valid Key Path."@
}

/// The one-line message of an error other than a connection failure.
pub open spec fn error_text(e: Error) -> Seq<char> {
    match e {
        Error::KeyNotFound(k) => key_not_found_text(k@),
        Error::IO(_) => "IO Error"@,
        Error::BadDataStructure(m) => bad_data_text(m@),
        Error::UnsupportedCommand(c) => unsupported_text(c@),
        Error::InvalidKeyPath(p) => invalid_path_text(p@),
    }
}

/// Relies on the Display impl of std::io::Error for the text of a connection failure.
#[verifier::external_body]
fn io_error_text(e: &std::io::Error) -> String {
    e.to_string()
}

impl From<std::io::Error> for Error {
    fn from(err: std::io::Error) -> (r: Error) {
        Error::IO(err)
    }
}

impl vstd::std_specs::convert::FromSpecImpl<std::io::Error> for Error {
    open spec fn obeys_from_spec() -> bool {
        true
    }

    open spec fn from_spec(err: std::io::Error) -> Error {
        Error::IO(err)
    }
}

impl Error {
    /// The error as one line of text, without the line break.
    pub fn message(&self) -> (r: String)
        ensures
            !(self is IO) ==> r@ == error_text(*self),
    {
        match self {
            Error::KeyNotFound(k) => {
                let mut r = String::from_str("Key: \"");
                r.append(k.as_str());
                r.append("\" Not Found.");
                r
            },
            Error::IO(e) => {
                let mut r = String::from_str("IO Error: ");
                let t = io_error_text(e);
                r.append(t.as_str());
                r
            },
            Error::BadDataStructure(m) => {
                let mut r = String::from_str("Bad Data Structure: ");
                r.append(m.as_str());
                r
            },
            Error::UnsupportedCommand(c) => {
                let mut r = String::from_str("\"");
                r.append(c.as_str());
                r.append("\" Is Not A Supported Command.");
                r
            },
            Error::InvalidKeyPath(p) => {
                let mut r = String::from_str("\"");
                r.append(p.as_str());
                r.append("\" Is Not A Valid Key Path.");
                r
            },
        }
    }
}

} // verus!
