use webserver::http::url::{URLParser, UrlParseError, URL};

#[test]
fn parse_simple_url() {
    assert_eq!(
        URLParser::new("http://example.com/").parse().unwrap(),
        URL {
            protocol: String::from("http"),
            host: String::from("example.com"),
            port: 80,
            path: String::from("/"),
            query: String::from(""),
            fragment: String::from("")
        }
    );
}

#[test]
fn parse_query_and_fragment_url() {
    assert_eq!(
        URLParser::new("http://example.com/test?query=1#fragment")
            .parse()
            .unwrap(),
        URL {
            protocol: String::from("http"),
            host: String::from("example.com"),
            port: 80,
            path: String::from("/test"),
            query: String::from("query=1"),
            fragment: String::from("fragment")
        }
    );
}

#[test]
fn parse_path_url() {
    assert_eq!(
        URLParser::new("http://example.com/test").parse().unwrap(),
        URL {
            protocol: String::from("http"),
            host: String::from("example.com"),
            port: 80,
            path: String::from("/test"),
            query: String::from(""),
            fragment: String::from("")
        }
    );
}

#[test]
fn parse_query_url() {
    assert_eq!(
        URLParser::new("http://example.com/test?query=value&lol=good")
            .parse()
            .unwrap(),
        URL {
            protocol: String::from("http"),
            host: String::from("example.com"),
            port: 80,
            path: String::from("/test"),
            query: String::from("query=value&lol=good"),
            fragment: String::from("")
        }
    );
}

#[test]
fn parse_port_url() {
    assert_eq!(
        URLParser::new("http://example.com:8765/test").parse().unwrap(),
        URL {
            protocol: String::from("http"),
            host: String::from("example.com"),
            port: 8765,
            path: String::from("/test"),
            query: String::from(""),
            fragment: String::from("")
        }
    );
}

#[test]
fn parse_fragment_url() {
    assert_eq!(
        URLParser::new("http://example.com:8765/test#fragment")
            .parse()
            .unwrap(),
        URL {
            protocol: String::from("http"),
            host: String::from("example.com"),
            port: 8765,
            path: String::from("/test"),
            query: String::from(""),
            fragment: String::from("fragment")
        }
    );
}

#[test]
fn parse_default_https_port_url() {
    assert_eq!(
        URLParser::new("https://example.com/test").parse().unwrap(),
        URL {
            protocol: String::from("https"),
            host: String::from("example.com"),
            port: 443,
            path: String::from("/test"),
            query: String::from(""),
            fragment: String::from("")
        }
    );
}

#[test]
fn parse_bare_host_defaults_path() {
    assert_eq!(
        URLParser::new("https://example.com").parse().unwrap(),
        URL {
            protocol: String::from("https"),
            host: String::from("example.com"),
            port: 443,
            path: String::from("/"),
            query: String::from(""),
            fragment: String::from("")
        }
    );
}

#[test]
fn parse_url_errors() {
    assert_eq!(URLParser::new("").parse().unwrap_err(), UrlParseError::NoScheme);
    assert_eq!(URLParser::new("http").parse().unwrap_err(), UrlParseError::NoScheme);
    assert_eq!(
        URLParser::new("ht_tp://x/").parse().unwrap_err(),
        UrlParseError::ExpectedColon
    );
    assert_eq!(
        URLParser::new("http:/x").parse().unwrap_err(),
        UrlParseError::ExpectedSlashSlash
    );
    assert_eq!(
        URLParser::new("://host/").parse().unwrap_err(),
        UrlParseError::EmptyProtocol
    );
    assert_eq!(URLParser::new("http://").parse().unwrap_err(), UrlParseError::EmptyHost);
    assert_eq!(
        URLParser::new("http://host:/x").parse().unwrap_err(),
        UrlParseError::EmptyPort
    );
    assert_eq!(
        URLParser::new("http://host:99999/x").parse().unwrap_err(),
        UrlParseError::InvalidPort
    );
    assert_eq!(
        URLParser::new("http://host:80x/").parse().unwrap_err(),
        UrlParseError::ExpectedSlashAfterPort
    );
}
