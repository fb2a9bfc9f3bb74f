//! What holds of every buffer that the parser is given.

use vstd::prelude::*;
use vstd::utf8::{encode_utf8, encode_utf8_decode_utf8, encode_utf8_valid_utf8, valid_utf8, decode_utf8};
use crate::method::{lemma_method_of_token, lemma_token_has_no_delim, lemma_token_parses, Method};
use crate::query_string::decode;
use crate::request::{parse_bytes, ParseError, RequestView};
use crate::text::{
    delim_count, is_delim, lemma_next_word_concat, lemma_next_word_count, lemma_split_once_concat,
    lemma_split_once_none, next_word,
};

verus! {

/// No character of `s` is a space or a carriage return.
pub open spec fn no_delim(s: Seq<char>) -> bool {
    forall|i: int| 0 <= i < s.len() ==> !is_delim(#[trigger] s[i])
}

/// A request target: the path, then `?` and the query string if there is one.
pub open spec fn target_of(path: Seq<char>, query: Option<Seq<char>>) -> Seq<char> {
    match query {
        Some(q) => path + seq!['?'] + q,
        None => path,
    }
}

/// Three words, each followed by its delimiter, then whatever comes after.
pub open spec fn line_of(
    w1: Seq<char>,
    d1: char,
    w2: Seq<char>,
    d2: char,
    w3: Seq<char>,
    d3: char,
    tail: Seq<char>,
) -> Seq<char> {
    w1 + seq![d1] + w2 + seq![d2] + w3 + seq![d3] + tail
}

/// The three words of such a line are found in order.
proof fn lemma_three_words(
    w1: Seq<char>,
    d1: char,
    w2: Seq<char>,
    d2: char,
    w3: Seq<char>,
    d3: char,
    tail: Seq<char>,
)
    requires
        no_delim(w1),
        no_delim(w2),
        no_delim(w3),
        is_delim(d1),
        is_delim(d2),
        is_delim(d3),
    ensures
        ({
            let t = line_of(w1, d1, w2, d2, w3, d3, tail);
            let r1 = w2 + seq![d2] + w3 + seq![d3] + tail;
            let r2 = w3 + seq![d3] + tail;
            &&& next_word(t) == Some((w1, r1))
            &&& next_word(r1) == Some((w2, r2))
            &&& next_word(r2) == Some((w3, tail))
        }),
{
    let t = line_of(w1, d1, w2, d2, w3, d3, tail);
    let r1 = w2 + seq![d2] + w3 + seq![d3] + tail;
    let r2 = w3 + seq![d3] + tail;
    assert(t =~= w1 + seq![d1] + r1);
    assert(r1 =~= w2 + seq![d2] + r2);
    lemma_next_word_concat(w1, d1, r1);
    lemma_next_word_concat(w2, d2, r2);
    lemma_next_word_concat(w3, d3, tail);
}

/// The bytes of any text are valid UTF-8 and decode back to that text.
proof fn lemma_encoded(t: Seq<char>)
    ensures
        valid_utf8(encode_utf8(t)),
        decode_utf8(encode_utf8(t)) == t,
{
    encode_utf8_valid_utf8(t);
    encode_utf8_decode_utf8(t);
}

/// The protocol token holds no delimiter.
proof fn lemma_protocol_has_no_delim()
    ensures
        no_delim("HTTP/1.1"@),
{
    reveal_strlit("HTTP/1.1");
    assert("HTTP/1.1"@ =~= seq!['H', 'T', 'T', 'P', '/', '1', '.', '1']);
}

/// A well-formed request line `METHOD TARGET HTTP/1.1\r...` parses, and the
/// request holds the method, the path and the decoded query string of the line.
pub proof fn lemma_valid_line_parses(
    m: Method,
    path: Seq<char>,
    query: Option<Seq<char>>,
    tail: Seq<char>,
)
    requires
        no_delim(path),
        forall|i: int| 0 <= i < path.len() ==> #[trigger] path[i] != '?',
        query matches Some(q) ==> no_delim(q),
    ensures
        parse_bytes(
            encode_utf8(line_of(m.token(), ' ', target_of(path, query), ' ', "HTTP/1.1"@, '\r', tail)),
        ) == Ok::<RequestView, ParseError>(
            RequestView {
                method: m,
                path,
                query: match query {
                    Some(q) => Some(decode(q)),
                    None => None,
                },
            },
        ),
{
    let target = target_of(path, query);
    let t = line_of(m.token(), ' ', target, ' ', "HTTP/1.1"@, '\r', tail);
    lemma_encoded(t);
    lemma_token_has_no_delim(m);
    lemma_token_parses(m);
    lemma_protocol_has_no_delim();
    match query {
        Some(q) => {
            assert forall|i: int| 0 <= i < target.len() implies !is_delim(#[trigger] target[i]) by {
                if i < path.len() {
                    assert(target[i] == path[i]);
                } else if i > path.len() {
                    assert(target[i] == q[i - path.len() - 1]);
                }
            }
            lemma_split_once_concat(path, '?', q);
        },
        None => {
            lemma_split_once_none(path, '?');
        },
    }
    lemma_three_words(m.token(), ' ', target, ' ', "HTTP/1.1"@, '\r', tail);
}

/// A line whose third word is not `HTTP/1.1` is refused as `InvalidProtocol`,
/// whatever its first word.
pub proof fn lemma_wrong_protocol(
    w1: Seq<char>,
    d1: char,
    w2: Seq<char>,
    d2: char,
    protocol: Seq<char>,
    d3: char,
    tail: Seq<char>,
)
    requires
        no_delim(w1),
        no_delim(w2),
        no_delim(protocol),
        is_delim(d1),
        is_delim(d2),
        is_delim(d3),
        protocol != "HTTP/1.1"@,
    ensures
        parse_bytes(encode_utf8(line_of(w1, d1, w2, d2, protocol, d3, tail)))
            == Err::<RequestView, ParseError>(ParseError::InvalidProtocol),
{
    lemma_encoded(line_of(w1, d1, w2, d2, protocol, d3, tail));
    lemma_three_words(w1, d1, w2, d2, protocol, d3, tail);
}

/// A line with protocol `HTTP/1.1` whose first word names no method is refused
/// as `InvalidMethod`.
pub proof fn lemma_unknown_method(
    w1: Seq<char>,
    d1: char,
    w2: Seq<char>,
    d2: char,
    d3: char,
    tail: Seq<char>,
)
    requires
        no_delim(w1),
        no_delim(w2),
        is_delim(d1),
        is_delim(d2),
        is_delim(d3),
        forall|m: Method| w1 != m.token(),
    ensures
        parse_bytes(encode_utf8(line_of(w1, d1, w2, d2, "HTTP/1.1"@, d3, tail)))
            == Err::<RequestView, ParseError>(ParseError::InvalidMethod),
{
    lemma_encoded(line_of(w1, d1, w2, d2, "HTTP/1.1"@, d3, tail));
    lemma_protocol_has_no_delim();
    lemma_three_words(w1, d1, w2, d2, "HTTP/1.1"@, d3, tail);
    lemma_method_of_token(w1);
}

/// Valid UTF-8 text with fewer than three delimiters is refused as
/// `InvalidRequest`.
pub proof fn lemma_too_few_words(b: Seq<u8>)
    requires
        valid_utf8(b),
        delim_count(decode_utf8(b)) < 3,
    ensures
        parse_bytes(b) == Err::<RequestView, ParseError>(ParseError::InvalidRequest),
{
    let t = decode_utf8(b);
    lemma_next_word_count(t);
    if let Some(p1) = next_word(t) {
        lemma_next_word_count(p1.1);
        if let Some(p2) = next_word(p1.1) {
            lemma_next_word_count(p2.1);
        }
    }
}

/// A buffer that is not valid UTF-8 is refused as `InvalidEncoding`.
pub proof fn lemma_invalid_encoding(b: Seq<u8>)
    requires
        !valid_utf8(b),
    ensures
        parse_bytes(b) == Err::<RequestView, ParseError>(ParseError::InvalidEncoding),
{
}

/// Parsing depends on the buffer alone: equal buffers give equal outcomes, so
/// parsing one buffer twice gives equal requests.
pub proof fn lemma_parse_is_deterministic(b1: Seq<u8>, b2: Seq<u8>)
    requires
        b1 == b2,
    ensures
        parse_bytes(b1) == parse_bytes(b2),
{
}

} // verus!
