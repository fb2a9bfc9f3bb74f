//! The server's configuration and what it does with the bytes of one connection.

use vstd::prelude::*;
use crate::request::{parse_bytes, Request, ParseError, RequestView};

verus! {

/// A server listening at an address.
pub struct Server {
    address: String,
}

impl Server {
    /// The address the server listens at.
    pub closed spec fn addr(&self) -> Seq<char> {
        self.address@
    }

    /// A server for `address`.
    pub fn new(address: String) -> (r: Server)
        ensures
            r.addr() == address@,
    {
        Server { address }
    }

    /// The address the server listens at.
    pub fn address(&self) -> (r: &str)
        ensures
            r@ == self.addr(),
    {
        self.address.as_str()
    }
}

/// Handles what one read of a connection put in `buffer`: `count` bytes at its
/// start. Nothing read gives `None`; otherwise the filled part is parsed.
pub fn parse_received<'buf>(buffer: &'buf [u8], count: usize) -> (r: Option<Result<Request<'buf>, ParseError>>)
    requires
        count <= buffer@.len(),
    ensures
        r is None <==> count == 0,
        r matches Some(Ok(req)) ==> parse_bytes(buffer@.take(count as int)) == Ok::<RequestView, ParseError>(req@) && req.wf(),
        r matches Some(Err(e)) ==> parse_bytes(buffer@.take(count as int)) == Err::<RequestView, ParseError>(e),
{
    if count == 0 {
        return None;
    }
    let (filled, _) = buffer.split_at(count);
    assert(filled@ =~= buffer@.take(count as int));
    Some(Request::try_from(filled))
}

} // verus!
