use http_server::{get_next_word, parse_received, Method, MethodError, ParseError, Request, Server, Value};

fn parse(bytes: &[u8]) -> Result<Request<'_>, ParseError> {
    Request::try_from(bytes)
}

#[test]
fn every_method_parses() {
    let cases = [
        ("GET", Method::GET),
        ("DELETE", Method::DELETE),
        ("POST", Method::POST),
        ("PUT", Method::PUT),
        ("HEAD", Method::HEAD),
        ("CONNECT", Method::CONNECT),
        ("OPTIONS", Method::OPTIONS),
        ("TRACE", Method::TRACE),
        ("PATCH", Method::PATCH),
    ];
    for (token, method) in cases {
        let line = format!("{} /index.html HTTP/1.1\r", token);
        let req = parse(line.as_bytes()).unwrap();
        assert_eq!(req.method(), method);
        assert_eq!(req.path(), "/index.html");
        assert!(req.query_string().is_none());
    }
}

#[test]
fn method_from_str_is_exact() {
    assert_eq!(Method::from_str("GET"), Ok(Method::GET));
    assert_eq!(Method::from_str("PATCH"), Ok(Method::PATCH));
    assert_eq!(Method::from_str("get"), Err(MethodError));
    assert_eq!(Method::from_str("GET "), Err(MethodError));
    assert_eq!(Method::from_str(""), Err(MethodError));
    assert_eq!(Method::from_str("FOO"), Err(MethodError));
}

#[test]
fn valid_line_with_query_matches_input() {
    let req = parse(b"POST /api/items?id=7 HTTP/1.1\r").unwrap();
    assert_eq!(req.method(), Method::POST);
    assert_eq!(req.path(), "/api/items");
    let q = req.query_string().unwrap();
    assert_eq!(q.len(), 1);
    assert_eq!(q.get("id"), Some(&Value::Single("7")));
}

#[test]
fn wrong_protocol_is_refused() {
    assert_eq!(parse(b"GET / HTTP/1.0\r").unwrap_err(), ParseError::InvalidProtocol);
    assert_eq!(parse(b"GET / http/1.1\r").unwrap_err(), ParseError::InvalidProtocol);
    assert_eq!(parse(b"GET / HTTP/2\r").unwrap_err(), ParseError::InvalidProtocol);
    assert_eq!(parse(b"GET / \r").unwrap_err(), ParseError::InvalidProtocol);
}

#[test]
fn protocol_is_checked_before_method() {
    assert_eq!(parse(b"FOO / HTTP/1.0\r").unwrap_err(), ParseError::InvalidProtocol);
}

#[test]
fn unknown_method_is_refused() {
    assert_eq!(parse(b"FOO / HTTP/1.1\r").unwrap_err(), ParseError::InvalidMethod);
    assert_eq!(parse(b"get / HTTP/1.1\r").unwrap_err(), ParseError::InvalidMethod);
}

#[test]
fn too_few_words_is_refused() {
    assert_eq!(parse(b"").unwrap_err(), ParseError::InvalidRequest);
    assert_eq!(parse(b"GET").unwrap_err(), ParseError::InvalidRequest);
    assert_eq!(parse(b"GET /").unwrap_err(), ParseError::InvalidRequest);
    assert_eq!(parse(b"GET / HTTP/1.1").unwrap_err(), ParseError::InvalidRequest);
}

#[test]
fn invalid_utf8_is_refused() {
    assert_eq!(parse(&[0xff, 0xfe, 0x20]).unwrap_err(), ParseError::InvalidEncoding);
    assert_eq!(parse(b"GET /\xc3 HTTP/1.1\r").unwrap_err(), ParseError::InvalidEncoding);
}

#[test]
fn multibyte_text_is_kept_whole() {
    let req = parse("GET /caf\u{e9}?n\u{e4}me=\u{fc} HTTP/1.1\r".as_bytes()).unwrap();
    assert_eq!(req.path(), "/caf\u{e9}");
    let q = req.query_string().unwrap();
    assert_eq!(q.get("n\u{e4}me"), Some(&Value::Single("\u{fc}")));
}

#[test]
fn path_and_query_are_split() {
    let req = parse(b"GET /search?q=rust&lang=en HTTP/1.1\r").unwrap();
    assert_eq!(req.method(), Method::GET);
    assert_eq!(req.path(), "/search");
    let q = req.query_string().unwrap();
    assert_eq!(q.get("q"), Some(&Value::Single("rust")));
    assert_eq!(q.get("lang"), Some(&Value::Single("en")));
    assert_eq!(q.len(), 2);
}

#[test]
fn end_to_end_ignores_rest_of_message() {
    let req = parse(b"GET /home HTTP/1.1\r\nHost: x\r\n\r\n").unwrap();
    assert_eq!(req.method(), Method::GET);
    assert_eq!(req.path(), "/home");
    assert!(req.query_string().is_none());
}

#[test]
fn parsing_twice_gives_equal_requests() {
    let buffer = b"PUT /a?x=1&x=2 HTTP/1.1\r\n".to_vec();
    let first = parse(&buffer);
    let second = parse(&buffer);
    assert_eq!(first, second);
    let bad = b"PUT /a HTTP/1.0\r".to_vec();
    assert_eq!(parse(&bad), parse(&bad));
}

#[test]
fn error_messages_name_the_kind() {
    assert_eq!(ParseError::InvalidRequest.message(), "InvalidRequest");
    assert_eq!(ParseError::InvalidEncoding.message(), "InvalidEncoding");
    assert_eq!(ParseError::InvalidProtocol.message(), "InvalidProtocol");
    assert_eq!(ParseError::InvalidMethod.message(), "InvalidMethod");
}

#[test]
fn errors_convert_from_their_causes() {
    assert_eq!(ParseError::from(MethodError), ParseError::InvalidMethod);
    let bytes = vec![0xffu8];
    let e = std::str::from_utf8(&bytes).unwrap_err();
    assert_eq!(ParseError::from(e), ParseError::InvalidEncoding);
}

#[test]
fn next_word_splits_at_space_or_carriage_return() {
    assert_eq!(get_next_word("GET /x HTTP/1.1"), Some(("GET", "/x HTTP/1.1")));
    assert_eq!(get_next_word("HTTP/1.1\r\nHost"), Some(("HTTP/1.1", "\nHost")));
    assert_eq!(get_next_word(" x"), Some(("", "x")));
    assert_eq!(get_next_word("abc"), None);
    assert_eq!(get_next_word(""), None);
}

#[test]
fn received_bytes_are_parsed_up_to_count() {
    let mut buffer = [0u8; 64];
    let line = b"GET /ok HTTP/1.1\r\n";
    buffer[..line.len()].copy_from_slice(line);
    let req = parse_received(&buffer, line.len()).unwrap().unwrap();
    assert_eq!(req.path(), "/ok");
    assert!(parse_received(&buffer, 0).is_none());
    assert_eq!(parse_received(&buffer, 6).unwrap().unwrap_err(), ParseError::InvalidRequest);
}

#[test]
fn server_keeps_its_address() {
    let server = Server::new("127.0.0.1:8080".to_string());
    assert_eq!(server.address(), "127.0.0.1:8080");
}

#[test]
fn method_parses_through_from_str_trait() {
    assert_eq!("DELETE".parse::<Method>(), Ok(Method::DELETE));
    assert_eq!("Delete".parse::<Method>(), Err(MethodError));
}
