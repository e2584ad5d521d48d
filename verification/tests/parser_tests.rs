use webserver::http::parser::HttpParser;

const BASIC_REQUEST: &str = "GET /test HTTP/1.1\r\nUserAgent: test rust\r\n\r\n";
const EMPTY_HEADER_REQUEST: &str = "GET /test HTTP/1.1\r\n\r\n";
const POST_REQUEST: &str = "POST / HTTP/1.1\r\nUserAgent: test\r\n\r\ntest rust2";
const FIREFOX_REQUEST: &str = "GET / HTTP/1.1\r\nHost: localhost:7878\r\nUser-Agent: Mozilla/5.0 (X11; Ubuntu; Linux x86_64; rv:85.0) Gecko/20100101 Firefox/85.0\r\nAccept: text/html,application/xhtml+xml,application/xml;q=0.9,image/webp,*/*;q=0.8\r\nAccept-Language: en-US,es;q=0.8,ru;q=0.5,en;q=0.3\r\nAccept-Encoding: gzip, deflate\r\nConnection: keep-alive\r\nUpgrade-Insecure-Requests: 1\r\n\r\n";
const QUERY_REQUEST: &str = "GET /test?query=1&query2=2 HTTP/1.1\r\nUserAgent: test rust\r\n\r\n";
const SINGLE_QUERY_REQUEST: &str = "GET /test?query=1 HTTP/1.1\r\nUserAgent: test rust\r\n\r\n";
const EMPTY_QUERY_REQUEST: &str = "GET /test?query= HTTP/1.1\r\nUserAgent: test rust\r\n\r\n";

const HN_API_RESPONSE: &str = "HTTP/1.1 200 OK\r\nx-request-url: https://hacker-news.firebaseio.com/v0/item/26566925.json?\r\nserver: nginx\r\ndate: Wed, 24 Mar 2021 15:16:03 GMT\r\ncontent-type: application/json; charset=utf-8\r\ncontent-length: 315\r\nconnection: close\r\naccess-control-allow-origin: *\r\ncache-control: no-cache\r\nstrict-transport-security: max-age=31556926; includeSubDomains; preload\r\nx-final-url: https://hacker-news.firebaseio.com/v0/item/26566925.json?\r\naccess-control-expose-headers: server,date,content-type,content-length,connection,access-control-allow-origin,cache-control,strict-transport-security,x-final-url\r\n\r\n{\"by\":\"ldulcic\",\"descendants\":34,\"id\":26566925,\"kids\":[26568095,26567941,26568146,26567831,26568138,26568030,26567964,26567880,26568082,26567890,26567826,26568140],\"score\":66,\"time\":1616592635,\"title\":\"Removed Gem \u{201c}Breaks\u{201d} Rails ActiveStorage\",\"type\":\"story\",\"url\":\"https://github.com/rails/rails/issues/41750\"}";
const BASIC_RESPONSE: &str = "HTTP/1.1 200 Ok\r\nx-test:more test\r\n\r\nlol request to /";

#[test]
fn parser_parse_basic_request() {
    let mut parser = HttpParser::new(BASIC_REQUEST);
    let request = parser.parse_request().unwrap();
    assert_eq!(request.method, "GET");
    assert_eq!(request.uri, "/test");
    assert_eq!(request.version, "1.1");
    assert_eq!(request.headers.len(), 1);
    assert_eq!(request.headers[0].0, "UserAgent");
    assert_eq!(request.headers[0].1, "test rust");
}

#[test]
fn parse_empty_header_request() {
    let mut parser = HttpParser::new(EMPTY_HEADER_REQUEST);
    let request = parser.parse_request().unwrap();
    assert_eq!(request.method, "GET");
    assert_eq!(request.uri, "/test");
    assert_eq!(request.version, "1.1");
    assert_eq!(request.headers.len(), 0);
    assert_eq!(request.body, "");
}

#[test]
fn parser_parse_post_request() {
    let mut parser = HttpParser::new(POST_REQUEST);
    let request = parser.parse_request().unwrap();
    assert_eq!(request.body, "test rust2");
}

#[test]
fn parser_parse_firefox_request() {
    let mut parser = HttpParser::new(FIREFOX_REQUEST);
    let request = parser.parse_request().unwrap();
    assert_eq!(request.headers.len(), 7);
}

#[test]
fn parser_parse_query_params() {
    let mut parser = HttpParser::new(SINGLE_QUERY_REQUEST);
    let request = parser.parse_request().unwrap();
    assert_eq!(request.query.len(), 1);
    assert_eq!(request.query.get("query"), Some(&String::from("1")));
    assert_eq!(request.query.get("query2"), None);
    let mut parser = HttpParser::new(QUERY_REQUEST);
    let request = parser.parse_request().unwrap();
    assert_eq!(request.query.len(), 2);
    assert_eq!(request.query.get("query"), Some(&String::from("1")));
    assert_eq!(request.query.get("query2"), Some(&String::from("2")));
    let mut parser = HttpParser::new(EMPTY_QUERY_REQUEST);
    let request = parser.parse_request().unwrap();
    assert_eq!(request.query.len(), 1);
    assert_eq!(request.query.get("query"), Some(&String::from("")));
    assert_eq!(request.query.get("query2"), None);
}

#[test]
fn parse_response() {
    let mut parser = HttpParser::new(BASIC_RESPONSE);
    let response = parser.parse_response().unwrap();
    assert_eq!(response.version, "1.1");
    assert_eq!(response.status_code, 200);
    assert_eq!(response.reason, "Ok");
    assert_eq!(response.headers.len(), 1);
    assert_eq!(response.headers[0].0, "x-test");
    assert_eq!(response.headers[0].1, "more test");
    assert_eq!(response.body, "lol request to /");
}

#[test]
fn parse_hn_api_response() {
    let mut parser = HttpParser::new(HN_API_RESPONSE);
    let response = parser.parse_response().unwrap();
    assert_eq!(response.headers.len(), 11);
}

#[test]
fn parse_bad_status_code() {
    let mut parser = HttpParser::new("HTTP/1.1 20x Ok\r\n\r\n");
    let err = parser.parse_response().unwrap_err();
    assert!(matches!(err, webserver::http::parser::HttpParserError::StatusCodeIsNotANumber(_)));
}

#[test]
fn parse_header_without_value_is_error() {
    let mut parser = HttpParser::new("GET / HTTP/1.1\r\nKey:\r\n\r\n");
    let err = parser.parse_request().unwrap_err();
    assert!(
        matches!(err, webserver::http::parser::HttpParserError::EmptyHeaderValue(key) if key == "Key")
    );
}

#[test]
fn empty_value_does_not_swallow_next_header() {
    let mut parser = HttpParser::new("GET / HTTP/1.1\r\nKey:\r\nNext: v\r\n\r\n");
    let err = parser.parse_request().unwrap_err();
    assert!(
        matches!(err, webserver::http::parser::HttpParserError::EmptyHeaderValue(key) if key == "Key")
    );
}

#[test]
fn header_value_keeps_tab_loses_spaces() {
    let mut parser = HttpParser::new("GET / HTTP/1.1\r\nA:   spaced\r\nB:\tv\r\n\r\n");
    let request = parser.parse_request().unwrap();
    assert_eq!(request.headers[0], ("A".to_owned(), "spaced".to_owned()));
    assert_eq!(request.headers[1], ("B".to_owned(), "\tv".to_owned()));
}

#[test]
fn parse_status_code_with_leading_plus() {
    let mut parser = HttpParser::new("HTTP/1.1 +200 Ok\r\n\r\n");
    let response = parser.parse_response().unwrap();
    assert_eq!(response.status_code, 200);
}

#[test]
fn parse_wrong_protocol_literal_is_error() {
    let mut parser = HttpParser::new("GET / XTTP/1.1\r\n\r\n");
    let err = parser.parse_request().unwrap_err();
    assert!(matches!(err, webserver::http::parser::HttpParserError::UnexpectedChar(_)));
}

#[test]
fn parse_truncated_request_is_error() {
    let mut parser = HttpParser::new("GET /test HTT");
    let err = parser.parse_request().unwrap_err();
    assert!(matches!(err, webserver::http::parser::HttpParserError::LenghtError(_)));
}

#[test]
fn parse_body_stops_at_nul() {
    let mut parser = HttpParser::new("POST / HTTP/1.1\r\nA: b\r\n\r\nreal body\0\0\0\0");
    let request = parser.parse_request().unwrap();
    assert_eq!(request.body, "real body");
}

#[test]
fn zero_header_body_stops_at_nul() {
    let mut parser = HttpParser::new("POST / HTTP/1.1\r\n\r\nreal body\0\0\0\0");
    let request = parser.parse_request().unwrap();
    assert_eq!(request.headers.len(), 0);
    assert_eq!(request.body, "real body");
}

#[test]
fn request_round_trip() {
    let mut request = webserver::http::HttpRequest::new_with_uri("/id/42?x=1".to_owned());
    request.method = "POST".to_owned();
    request.headers.push(("Host".to_owned(), "localhost".to_owned()));
    request.headers.push(("Accept".to_owned(), "text/html".to_owned()));
    request.headers.push(("Accept".to_owned(), "text/plain".to_owned()));
    request.body = "the payload".to_owned();
    let wire = request.to_string();
    let mut parser = HttpParser::new(wire.as_str());
    let parsed = parser.parse_request().unwrap();
    assert_eq!(parsed.method, "POST");
    assert_eq!(parsed.uri, "/id/42?x=1");
    assert_eq!(parsed.version, "1.1");
    assert_eq!(parsed.body, "the payload");
    assert_eq!(parsed.headers.len(), 3);
    assert_eq!(parsed.headers[0], ("Host".to_owned(), "localhost".to_owned()));
    assert_eq!(parsed.headers[1], ("Accept".to_owned(), "text/html".to_owned()));
    assert_eq!(parsed.headers[2], ("Accept".to_owned(), "text/plain".to_owned()));
    assert_eq!(parsed.query.get("x"), Some(&String::from("1")));
}

#[test]
fn zero_header_round_trip() {
    let mut request = webserver::http::HttpRequest::new_with_uri("/plain".to_owned());
    request.body = "hello".to_owned();
    let wire = request.to_string();
    let mut parser = HttpParser::new(wire.as_str());
    let parsed = parser.parse_request().unwrap();
    assert_eq!(parsed.method, "GET");
    assert_eq!(parsed.uri, "/plain");
    assert_eq!(parsed.version, "1.1");
    assert_eq!(parsed.headers.len(), 0);
    assert_eq!(parsed.body, "hello");
}

#[test]
fn duplicate_query_key_last_wins() {
    let mut parser = HttpParser::new("GET /x?a=1&a=2 HTTP/1.1\r\nH: v\r\n\r\n");
    let request = parser.parse_request().unwrap();
    assert_eq!(request.query.len(), 1);
    assert_eq!(request.query.get("a"), Some(&String::from("2")));
}

#[test]
fn query_segment_without_equals_is_dropped() {
    let mut parser = HttpParser::new("GET /x?a=1&flag HTTP/1.1\r\nH: v\r\n\r\n");
    let request = parser.parse_request().unwrap();
    assert_eq!(request.query.len(), 1);
    assert_eq!(request.query.get("a"), Some(&String::from("1")));
    assert_eq!(request.query.get("flag"), None);
}

#[test]
fn query_segment_without_key_is_dropped() {
    let mut parser = HttpParser::new("GET /x?=5&b=2 HTTP/1.1\r\nH: v\r\n\r\n");
    let request = parser.parse_request().unwrap();
    assert_eq!(request.query.len(), 1);
    assert_eq!(request.query.get(""), None);
    assert_eq!(request.query.get("b"), Some(&String::from("2")));
}

#[test]
fn query_ignores_fragment() {
    let mut parser = HttpParser::new("GET /x?a=1#frag?b=2 HTTP/1.1\r\nH: v\r\n\r\n");
    let request = parser.parse_request().unwrap();
    assert_eq!(request.query.len(), 1);
    assert_eq!(request.query.get("a"), Some(&String::from("1")));
    assert_eq!(request.query.get("b"), None);
}
