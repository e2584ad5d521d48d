//! The pure core of the outbound HTTP client: building the request
//! that goes over the wire from a parsed URL and caller headers.
//!
//! Opening the connection, writing and reading are socket work and
//! live outside this crate; they feed the raw response text back into
//! [`crate::http::parser::HttpParser::parse_response`]. The error
//! type here is how those steps report failure, each step with its own
//! variant.

use vstd::prelude::*;
use vstd::string::StringExecFns;
use crate::http::parser::HttpParserError;
use crate::http::request::HttpRequest;
use crate::http::url::URL;
use crate::http::HttpHeaders;
use crate::stringmap::StringMap;
use crate::text::{push_char, spec_decimal, u16_to_string};

verus! {

/// The connection could not be opened; the message is the socket
/// layer's own wording.
#[derive(Debug)]
pub struct ConnectionError {
    pub host: String,
    pub tcp_error: String,
}

/// Why an outbound call failed: connecting, writing, reading and
/// parsing each surface separately.
#[derive(Debug)]
pub enum HttpClientError {
    ConnectionError(ConnectionError),
    ParseHttpResponseError(HttpParserError),
    ReadResponseError(String),
    WriteResponseError(String),
}

/// The request-line URI built from a URL: the path, then — whenever
/// the path is not empty — a `'?'` and the query, then the fragment
/// after `'#'` when one exists.
pub open spec fn spec_client_uri(path: Seq<char>, query: Seq<char>, fragment: Seq<char>) -> Seq<
    char,
> {
    let base = if path.len() > 0 {
        path + "?"@ + query
    } else {
        path
    };
    if fragment.len() > 0 {
        base + "#"@ + fragment
    } else {
        base
    }
}

/// The `host:port` text that names the peer and fills the `Host`
/// header.
pub open spec fn spec_client_host(host: Seq<char>, port: u16) -> Seq<char> {
    host + ":"@ + spec_decimal(port as int)
}

/// Builds the URI the request line carries.
pub fn get_uri(url: &URL) -> (r: String)
    ensures
        r@ == spec_client_uri(url.path@, url.query@, url.fragment@),
{
    let mut result = url.path.clone();
    if !url.path.as_str().is_empty() {
        push_char(&mut result, '?');
        result.append(url.query.as_str());
        proof {
            assert(url.path@.push('?') =~= url.path@ + "?"@) by {
                reveal_strlit("?");
            }
        }
    }
    if !url.fragment.as_str().is_empty() {
        push_char(&mut result, '#');
        result.append(url.fragment.as_str());
        proof {
            let base = spec_client_uri(url.path@, url.query@, Seq::empty());
            assert(base.push('#') =~= base + "#"@) by {
                reveal_strlit("#");
            }
        }
    }
    result
}

/// Builds the `host:port` peer name.
pub fn client_host(url: &URL) -> (r: String)
    ensures
        r@ == spec_client_host(url.host@, url.port),
{
    let mut r = url.host.clone();
    r.append(":");
    let port = u16_to_string(url.port);
    r.append(port.as_str());
    r
}

/// The GET request an outbound call sends: empty body, version 1.1,
/// the URI from the URL, and a `Host` header in front of the caller's
/// own headers.
pub fn build_client_request(url: &URL, headers: HttpHeaders) -> (r: HttpRequest)
    ensures
        r.method@ == "GET"@,
        r.uri@ == spec_client_uri(url.path@, url.query@, url.fragment@),
        r.version@ == "1.1"@,
        r.body@ == Seq::<char>::empty(),
        r.headers@.len() == headers@.len() + 1,
        r.headers@[0].0@ == "Host"@,
        r.headers@[0].1@ == spec_client_host(url.host@, url.port),
        r.headers@.subrange(1, r.headers@.len() as int) == headers@,
        r.query@ == Map::<Seq<char>, Seq<char>>::empty(),
        r.params@ == Map::<Seq<char>, Seq<char>>::empty(),
{
    let host = client_host(url);
    let mut req_headers: HttpHeaders = Vec::new();
    req_headers.push((String::from_str("Host"), host));
    let ghost first = req_headers@;
    let mut rest = headers;
    req_headers.append(&mut rest);
    proof {
        assert(req_headers@.subrange(1, req_headers@.len() as int) =~= headers@);
    }
    HttpRequest {
        method: String::from_str("GET"),
        body: String::new(),
        uri: get_uri(url),
        version: String::from_str("1.1"),
        headers: req_headers,
        query: StringMap::new(),
        params: StringMap::new(),
    }
}

} // verus!
