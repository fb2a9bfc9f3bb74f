//! The HTTP request methods.

use vstd::prelude::*;
use crate::text::{is_delim, text_eq};

verus! {

/// The request methods that the parser accepts.
#[derive(PartialEq, Eq, Structural, Debug, Clone, Copy)]
pub enum Method {
    GET,
    DELETE,
    POST,
    PUT,
    HEAD,
    CONNECT,
    OPTIONS,
    TRACE,
    PATCH,
}

/// The token matched no method.
#[derive(PartialEq, Eq, Structural, Debug, Clone, Copy)]
pub struct MethodError;

impl Method {
    /// The token that names this method on the request line.
    pub open spec fn token(self) -> Seq<char> {
        match self {
            Method::GET => "GET"@,
            Method::DELETE => "DELETE"@,
            Method::POST => "POST"@,
            Method::PUT => "PUT"@,
            Method::HEAD => "HEAD"@,
            Method::CONNECT => "CONNECT"@,
            Method::OPTIONS => "OPTIONS"@,
            Method::TRACE => "TRACE"@,
            Method::PATCH => "PATCH"@,
        }
    }

    /// Parses a method token: an exact, case-sensitive match against the nine
    /// canonical names.
    pub fn from_str(s: &str) -> (r: Result<Method, MethodError>)
        ensures
            r == method_of(s@),
    {
        if text_eq(s, "GET") {
            Ok(Method::GET)
        } else if text_eq(s, "DELETE") {
            Ok(Method::DELETE)
        } else if text_eq(s, "POST") {
            Ok(Method::POST)
        } else if text_eq(s, "PUT") {
            Ok(Method::PUT)
        } else if text_eq(s, "HEAD") {
            Ok(Method::HEAD)
        } else if text_eq(s, "CONNECT") {
            Ok(Method::CONNECT)
        } else if text_eq(s, "OPTIONS") {
            Ok(Method::OPTIONS)
        } else if text_eq(s, "TRACE") {
            Ok(Method::TRACE)
        } else if text_eq(s, "PATCH") {
            Ok(Method::PATCH)
        } else {
            Err(MethodError)
        }
    }
}

impl core::str::FromStr for Method {
    type Err = MethodError;

    fn from_str(s: &str) -> Result<Method, MethodError> {
        Method::from_str(s)
    }
}

/// The method that a token names, if any.
pub open spec fn method_of(s: Seq<char>) -> Result<Method, MethodError> {
    if s == "GET"@ {
        Ok(Method::GET)
    } else if s == "DELETE"@ {
        Ok(Method::DELETE)
    } else if s == "POST"@ {
        Ok(Method::POST)
    } else if s == "PUT"@ {
        Ok(Method::PUT)
    } else if s == "HEAD"@ {
        Ok(Method::HEAD)
    } else if s == "CONNECT"@ {
        Ok(Method::CONNECT)
    } else if s == "OPTIONS"@ {
        Ok(Method::OPTIONS)
    } else if s == "TRACE"@ {
        Ok(Method::TRACE)
    } else if s == "PATCH"@ {
        Ok(Method::PATCH)
    } else {
        Err(MethodError)
    }
}

/// Each method's token parses back to that method.
pub proof fn lemma_token_parses(m: Method)
    ensures
        method_of(m.token()) == Ok::<Method, MethodError>(m),
{
    reveal_strlit("GET");
    reveal_strlit("DELETE");
    reveal_strlit("POST");
    reveal_strlit("PUT");
    reveal_strlit("HEAD");
    reveal_strlit("CONNECT");
    reveal_strlit("OPTIONS");
    reveal_strlit("TRACE");
    reveal_strlit("PATCH");
    assert("GET"@ =~= seq!['G', 'E', 'T']);
    assert("DELETE"@ =~= seq!['D', 'E', 'L', 'E', 'T', 'E']);
    assert("POST"@ =~= seq!['P', 'O', 'S', 'T']);
    assert("PUT"@ =~= seq!['P', 'U', 'T']);
    assert("HEAD"@ =~= seq!['H', 'E', 'A', 'D']);
    assert("CONNECT"@ =~= seq!['C', 'O', 'N', 'N', 'E', 'C', 'T']);
    assert("OPTIONS"@ =~= seq!['O', 'P', 'T', 'I', 'O', 'N', 'S']);
    assert("TRACE"@ =~= seq!['T', 'R', 'A', 'C', 'E']);
    assert("PATCH"@ =~= seq!['P', 'A', 'T', 'C', 'H']);
}

/// A token that parses names the method it parses to.
pub proof fn lemma_method_of_token(s: Seq<char>)
    ensures
        method_of(s) matches Ok(m) ==> s == m.token(),
{
}

/// No method's token holds a space or a carriage return.
pub proof fn lemma_token_has_no_delim(m: Method)
    ensures
        forall|i: int| 0 <= i < m.token().len() ==> !is_delim(#[trigger] m.token()[i]),
{
    reveal_strlit("GET");
    reveal_strlit("DELETE");
    reveal_strlit("POST");
    reveal_strlit("PUT");
    reveal_strlit("HEAD");
    reveal_strlit("CONNECT");
    reveal_strlit("OPTIONS");
    reveal_strlit("TRACE");
    reveal_strlit("PATCH");
    assert("GET"@ =~= seq!['G', 'E', 'T']);
    assert("DELETE"@ =~= seq!['D', 'E', 'L', 'E', 'T', 'E']);
    assert("POST"@ =~= seq!['P', 'O', 'S', 'T']);
    assert("PUT"@ =~= seq!['P', 'U', 'T']);
    assert("HEAD"@ =~= seq!['H', 'E', 'A', 'D']);
    assert("CONNECT"@ =~= seq!['C', 'O', 'N', 'N', 'E', 'C', 'T']);
    assert("OPTIONS"@ =~= seq!['O', 'P', 'T', 'I', 'O', 'N', 'S']);
    assert("TRACE"@ =~= seq!['T', 'R', 'A', 'C', 'E']);
    assert("PATCH"@ =~= seq!['P', 'A', 'T', 'C', 'H']);
}

} // verus!
