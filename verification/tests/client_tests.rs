use webserver::http::client::{build_client_request, client_host, get_uri};
use webserver::http::url::URLParser;

#[test]
fn get_uri_appends_query_marker() {
    let url = URLParser::new("http://example.com/test?query=1#fragment")
        .parse()
        .unwrap();
    assert_eq!(get_uri(&url), "/test?query=1#fragment");
}

#[test]
fn get_uri_with_empty_query_keeps_marker() {
    let url = URLParser::new("http://example.com/test").parse().unwrap();
    assert_eq!(get_uri(&url), "/test?");
}

#[test]
fn client_host_joins_host_and_port() {
    let url = URLParser::new("https://example.com/x").parse().unwrap();
    assert_eq!(client_host(&url), "example.com:443");
}

#[test]
fn build_client_request_injects_host_header() {
    let url = URLParser::new("http://example.com:8080/a/b?x=1").parse().unwrap();
    let request = build_client_request(
        &url,
        vec![("x-requested-with".to_owned(), "rust lol".to_owned())],
    );
    assert_eq!(request.method, "GET");
    assert_eq!(request.version, "1.1");
    assert_eq!(request.body, "");
    assert_eq!(request.uri, "/a/b?x=1");
    assert_eq!(request.headers.len(), 2);
    assert_eq!(
        request.headers[0],
        ("Host".to_owned(), "example.com:8080".to_owned())
    );
    assert_eq!(
        request.headers[1],
        ("x-requested-with".to_owned(), "rust lol".to_owned())
    );
    assert_eq!(
        request.to_string(),
        "GET /a/b?x=1 HTTP/1.1\r\nHost:example.com:8080\r\nx-requested-with:rust lol\r\n\r\n"
    );
}

#[test]
fn decimal_conversions() {
    assert_eq!(webserver::text::u16_to_string(0), "0");
    assert_eq!(webserver::text::u16_to_string(65535), "65535");
    assert_eq!(webserver::text::parse_u16("8080"), Some(8080));
    assert_eq!(webserver::text::parse_u16("65536"), None);
    assert_eq!(webserver::text::parse_u16(""), None);
    assert_eq!(webserver::text::parse_u16("12a"), None);
    assert_eq!(webserver::text::parse_u16("+80"), Some(80));
    assert_eq!(webserver::text::parse_u16("+"), None);
}
