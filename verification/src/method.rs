//! The request methods that the responder tells apart.

use crate::text::chars::{chars_of, same};
use vstd::prelude::*;
use vstd::string::*;

verus! {

/// A request method; `UNKNOWN` stands for every word that is none of the nine.
#[derive(Clone, Copy, Debug, PartialEq, Eq, Structural)]
pub enum HttpMethod {
    GET,
    POST,
    PUT,
    DELETE,
    PATCH,
    HEAD,
    OPTIONS,
    CONNECT,
    TRACE,
    UNKNOWN,
}

/// The word that names a method.
pub open spec fn name_of(m: HttpMethod) -> Seq<char> {
    match m {
        HttpMethod::GET => "GET"@,
        HttpMethod::POST => "POST"@,
        HttpMethod::PUT => "PUT"@,
        HttpMethod::DELETE => "DELETE"@,
        HttpMethod::PATCH => "PATCH"@,
        HttpMethod::HEAD => "HEAD"@,
        HttpMethod::OPTIONS => "OPTIONS"@,
        HttpMethod::CONNECT => "CONNECT"@,
        HttpMethod::TRACE => "TRACE"@,
        HttpMethod::UNKNOWN => "UNKNOWN"@,
    }
}

/// The method that a word names: the word must match in full and in upper
/// case, and any other word gives `UNKNOWN`.
pub open spec fn method_of(word: Seq<char>) -> HttpMethod {
    if word == "GET"@ {
        HttpMethod::GET
    } else if word == "POST"@ {
        HttpMethod::POST
    } else if word == "PUT"@ {
        HttpMethod::PUT
    } else if word == "DELETE"@ {
        HttpMethod::DELETE
    } else if word == "PATCH"@ {
        HttpMethod::PATCH
    } else if word == "HEAD"@ {
        HttpMethod::HEAD
    } else if word == "OPTIONS"@ {
        HttpMethod::OPTIONS
    } else if word == "CONNECT"@ {
        HttpMethod::CONNECT
    } else if word == "TRACE"@ {
        HttpMethod::TRACE
    } else {
        HttpMethod::UNKNOWN
    }
}

/// Whether `word` holds exactly the characters of `lit`.
pub fn is_word(word: &Vec<char>, lit: &str) -> (r: bool)
    ensures
        r == (word@ == lit@),
{
    let other = chars_of(lit);
    same(word, &other)
}

impl HttpMethod {
    /// The method that `method` names, `UNKNOWN` where it names none.
    pub fn from_str(method: &str) -> (m: HttpMethod)
        ensures
            m == method_of(method@),
    {
        let word = chars_of(method);
        if is_word(&word, "GET") {
            HttpMethod::GET
        } else if is_word(&word, "POST") {
            HttpMethod::POST
        } else if is_word(&word, "PUT") {
            HttpMethod::PUT
        } else if is_word(&word, "DELETE") {
            HttpMethod::DELETE
        } else if is_word(&word, "PATCH") {
            HttpMethod::PATCH
        } else if is_word(&word, "HEAD") {
            HttpMethod::HEAD
        } else if is_word(&word, "OPTIONS") {
            HttpMethod::OPTIONS
        } else if is_word(&word, "CONNECT") {
            HttpMethod::CONNECT
        } else if is_word(&word, "TRACE") {
            HttpMethod::TRACE
        } else {
            HttpMethod::UNKNOWN
        }
    }

    /// The method's name in upper case.
    pub fn to_string(&self) -> (name: String)
        ensures
            name@ == name_of(*self),
    {
        match self {
            HttpMethod::GET => String::from_str("GET"),
            HttpMethod::POST => String::from_str("POST"),
            HttpMethod::PUT => String::from_str("PUT"),
            HttpMethod::DELETE => String::from_str("DELETE"),
            HttpMethod::PATCH => String::from_str("PATCH"),
            HttpMethod::HEAD => String::from_str("HEAD"),
            HttpMethod::OPTIONS => String::from_str("OPTIONS"),
            HttpMethod::CONNECT => String::from_str("CONNECT"),
            HttpMethod::TRACE => String::from_str("TRACE"),
            HttpMethod::UNKNOWN => String::from_str("UNKNOWN"),
        }
    }
}

/// Reading a method's own name gives the method back.
pub proof fn lemma_name_round_trip(m: HttpMethod)
    ensures
        method_of(name_of(m)) == m,
{
    reveal_strlit("GET");
    reveal_strlit("POST");
    reveal_strlit("PUT");
    reveal_strlit("DELETE");
    reveal_strlit("PATCH");
    reveal_strlit("HEAD");
    reveal_strlit("OPTIONS");
    reveal_strlit("CONNECT");
    reveal_strlit("TRACE");
    reveal_strlit("UNKNOWN");
    assert("GET"@.len() == 3 && "PUT"@.len() == 3);
    assert("POST"@.len() == 4 && "HEAD"@.len() == 4);
    assert("PATCH"@.len() == 5 && "TRACE"@.len() == 5);
    assert("DELETE"@.len() == 6);
    assert("OPTIONS"@.len() == 7 && "CONNECT"@.len() == 7 && "UNKNOWN"@.len() == 7);
    assert("GET"@[0] == 'G' && "PUT"@[0] == 'P');
    assert("POST"@[0] == 'P' && "HEAD"@[0] == 'H');
    assert("PATCH"@[0] == 'P' && "TRACE"@[0] == 'T');
    assert("OPTIONS"@[0] == 'O' && "CONNECT"@[0] == 'C' && "UNKNOWN"@[0] == 'U');
}

/// A method other than `UNKNOWN` is named by one word only: its own.
pub proof fn lemma_method_of_name(word: Seq<char>)
    requires
        method_of(word) != HttpMethod::UNKNOWN,
    ensures
        name_of(method_of(word)) == word,
{
}

} // verus!
