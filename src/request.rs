//! Parsing of the request line.

use vstd::prelude::*;
use vstd::string::StringSliceAdditionalSpecFns;
use vstd::utf8::{decode_utf8, encode_utf8_decode_utf8, valid_utf8};
use crate::method::{method_of, Method, MethodError};
use crate::query_string::{decode, Entry, QueryString};
use crate::text::{get_next_word, next_word, split_at_char, split_once, text_eq};

verus! {

#[verifier::external_type_specification]
#[verifier::external_body]
pub struct ExUtf8Error(core::str::Utf8Error);

/// Relies on `std::str::from_utf8`: it succeeds exactly on valid UTF-8, and the
/// string it returns is made of the bytes it was given.
#[verifier::external_body]
fn str_from_utf8(b: &[u8]) -> (r: Result<&str, core::str::Utf8Error>)
    ensures
        r is Ok <==> valid_utf8(b@),
        r matches Ok(s) ==> s.spec_bytes() == b@,
{
    core::str::from_utf8(b)
}

/// Why a buffer was not a request.
#[derive(PartialEq, Eq, Structural, Debug, Clone, Copy)]
pub enum ParseError {
    InvalidRequest,
    InvalidEncoding,
    InvalidProtocol,
    InvalidMethod,
}

impl ParseError {
    /// The name of the error kind.
    pub open spec fn name(self) -> Seq<char> {
        match self {
            ParseError::InvalidRequest => "InvalidRequest"@,
            ParseError::InvalidEncoding => "InvalidEncoding"@,
            ParseError::InvalidProtocol => "InvalidProtocol"@,
            ParseError::InvalidMethod => "InvalidMethod"@,
        }
    }

    /// A human-readable message for the error kind.
    pub fn message(&self) -> (r: &str)
        ensures
            r@ == self.name(),
    {
        match self {
            ParseError::InvalidRequest => "InvalidRequest",
            ParseError::InvalidEncoding => "InvalidEncoding",
            ParseError::InvalidProtocol => "InvalidProtocol",
            ParseError::InvalidMethod => "InvalidMethod",
        }
    }
}

impl From<core::str::Utf8Error> for ParseError {
    fn from(_e: core::str::Utf8Error) -> (r: ParseError) {
        ParseError::InvalidEncoding
    }
}

impl vstd::std_specs::convert::FromSpecImpl<core::str::Utf8Error> for ParseError {
    open spec fn obeys_from_spec() -> bool {
        true
    }

    open spec fn from_spec(v: core::str::Utf8Error) -> ParseError {
        ParseError::InvalidEncoding
    }
}

impl From<MethodError> for ParseError {
    fn from(_e: MethodError) -> (r: ParseError) {
        ParseError::InvalidMethod
    }
}

impl vstd::std_specs::convert::FromSpecImpl<MethodError> for ParseError {
    open spec fn obeys_from_spec() -> bool {
        true
    }

    open spec fn from_spec(v: MethodError) -> ParseError {
        ParseError::InvalidMethod
    }
}

/// What a parsed request holds: its method, its path, and the decoded query
/// string if the request target had one.
pub struct RequestView {
    pub method: Method,
    pub path: Seq<char>,
    pub query: Option<Seq<Entry>>,
}

/// The request that a method and a request target make: the target is split at
/// its first `?` into path and query string.
pub open spec fn request_of(method: Method, target: Seq<char>) -> RequestView {
    match split_once(target, '?') {
        Some(p) => RequestView { method, path: p.0, query: Some(decode(p.1)) },
        None => RequestView { method, path: target, query: None },
    }
}

/// What a request line parses to. Three words are taken, each ended by a space or
/// a carriage return; the third must be `HTTP/1.1` and the first a method.
pub open spec fn parse_text(t: Seq<char>) -> Result<RequestView, ParseError> {
    match next_word(t) {
        None => Err(ParseError::InvalidRequest),
        Some(w1) => match next_word(w1.1) {
            None => Err(ParseError::InvalidRequest),
            Some(w2) => match next_word(w2.1) {
                None => Err(ParseError::InvalidRequest),
                Some(w3) => if w3.0 != "HTTP/1.1"@ {
                    Err(ParseError::InvalidProtocol)
                } else {
                    match method_of(w1.0) {
                        Err(_) => Err(ParseError::InvalidMethod),
                        Ok(m) => Ok(request_of(m, w2.0)),
                    }
                },
            },
        },
    }
}

/// What a buffer parses to: UTF-8 text first, then its request line.
pub open spec fn parse_bytes(b: Seq<u8>) -> Result<RequestView, ParseError> {
    if valid_utf8(b) {
        parse_text(decode_utf8(b))
    } else {
        Err(ParseError::InvalidEncoding)
    }
}

/// A parsed request line. Its text borrows from the buffer it was parsed from.
#[derive(Debug, PartialEq, Eq)]
pub struct Request<'buf> {
    path: &'buf str,
    query_string: Option<QueryString<'buf>>,
    method: Method,
}

impl<'buf> View for Request<'buf> {
    type V = RequestView;

    closed spec fn view(&self) -> RequestView {
        RequestView {
            method: self.method,
            path: self.path@,
            query: match self.query_string {
                Some(q) => Some(q@),
                None => None,
            },
        }
    }
}

impl<'buf> Request<'buf> {
    /// The query string, if there is one, is well formed.
    pub closed spec fn wf(&self) -> bool {
        self.query_string matches Some(q) ==> q.wf()
    }

    /// The request method.
    pub fn method(&self) -> (r: Method)
        ensures
            r == self@.method,
    {
        self.method
    }

    /// The path, without the query string.
    pub fn path(&self) -> (r: &'buf str)
        ensures
            r@ == self@.path,
    {
        self.path
    }

    /// The decoded query string, if the request target had one.
    pub fn query_string(&self) -> (r: Option<&QueryString<'buf>>)
        requires
            self.wf(),
        ensures
            r matches Some(q) ==> self@.query == Some(q@) && q.wf(),
            r is None <==> self@.query is None,
    {
        match &self.query_string {
            Some(q) => Some(q),
            None => None,
        }
    }

    /// Parses the request line at the start of `buffer`. Bytes after the line's
    /// third word are not read.
    pub fn try_from(buffer: &'buf [u8]) -> (r: Result<Request<'buf>, ParseError>)
        ensures
            match r {
                Ok(req) => parse_bytes(buffer@) == Ok::<RequestView, ParseError>(req@) && req.wf(),
                Err(e) => parse_bytes(buffer@) == Err::<RequestView, ParseError>(e),
            },
    {
        let request = match str_from_utf8(buffer) {
            Ok(s) => s,
            Err(e) => {
                return Err(ParseError::from(e));
            },
        };
        proof {
            encode_utf8_decode_utf8(request@);
            assert(decode_utf8(buffer@) == request@);
        }
        let (method, request) = match get_next_word(request) {
            Some(p) => p,
            None => {
                return Err(ParseError::InvalidRequest);
            },
        };
        let (path, request) = match get_next_word(request) {
            Some(p) => p,
            None => {
                return Err(ParseError::InvalidRequest);
            },
        };
        let (protocol, _) = match get_next_word(request) {
            Some(p) => p,
            None => {
                return Err(ParseError::InvalidRequest);
            },
        };
        if !text_eq(protocol, "HTTP/1.1") {
            return Err(ParseError::InvalidProtocol);
        }
        let method = match Method::from_str(method) {
            Ok(m) => m,
            Err(e) => {
                return Err(ParseError::from(e));
            },
        };
        match split_at_char(path, '?') {
            Some((p, q)) => Ok(Request { path: p, query_string: Some(QueryString::from(q)), method }),
            None => Ok(Request { path, query_string: None, method }),
        }
    }
}

} // verus!
