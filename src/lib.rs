//! A small HTTP/1.1 request-line parser with a query-string decoder.
//!
//! A raw byte buffer is decoded as UTF-8, split into method, request target and
//! protocol tokens, and assembled into a [`Request`] that borrows its text from the
//! buffer. Every step is stated against a model over `Seq<char>`.

pub mod text;
pub mod method;
pub mod query_string;
pub mod request;
pub mod server;
pub mod laws;

pub use method::{Method, MethodError};
pub use query_string::{QueryString, Value};
pub use request::{ParseError, Request};
pub use server::{parse_received, Server};
pub use text::get_next_word;
