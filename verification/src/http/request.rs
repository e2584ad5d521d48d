//! The request value and its serialization to wire format.

use vstd::prelude::*;
use vstd::string::StringExecFns;
use crate::http::{headers_view, spec_headers_string, HttpHeaders};
use crate::stringmap::StringMap;

verus! {

/// A parsed HTTP request. Headers keep order and duplicates; the query
/// map comes from the URI; path parameters are bound by route matching.
#[derive(Debug)]
pub struct HttpRequest {
    pub method: String,
    pub version: String,
    pub headers: HttpHeaders,
    pub uri: String,
    pub body: String,
    pub params: StringMap,
    pub query: StringMap,
}

/// The serialized request: request line, headers, a blank line, then
/// the body. The query and parameter maps leave no trace on the wire.
pub open spec fn spec_request_string(
    method: Seq<char>,
    uri: Seq<char>,
    version: Seq<char>,
    headers: Seq<(Seq<char>, Seq<char>)>,
    body: Seq<char>,
) -> Seq<char> {
    method + " "@ + uri + " HTTP/"@ + version + "\r\n"@ + spec_headers_string(headers) + "\r\n"@
        + body
}

impl HttpRequest {
    /// A GET request for `uri` with no headers and no body.
    pub fn new_with_uri(uri: String) -> (r: HttpRequest)
        ensures
            r.method@ == "GET"@,
            r.uri@ == uri@,
            r.headers@.len() == 0,
            r.version@ == "1.1"@,
            r.body@ == Seq::<char>::empty(),
            r.params@ == Map::<Seq<char>, Seq<char>>::empty(),
            r.query@ == Map::<Seq<char>, Seq<char>>::empty(),
    {
        HttpRequest {
            method: String::from_str("GET"),
            uri,
            headers: Vec::new(),
            version: String::from_str("1.1"),
            body: String::new(),
            params: StringMap::new(),
            query: StringMap::new(),
        }
    }

    /// Serializes the request for the wire.
    pub fn to_string(&self) -> (r: String)
        ensures
            r@ == spec_request_string(
                self.method@,
                self.uri@,
                self.version@,
                headers_view(self.headers@),
                self.body@,
            ),
    {
        let mut r = String::new();
        r.append(self.method.as_str());
        r.append(" ");
        r.append(self.uri.as_str());
        r.append(" HTTP/");
        r.append(self.version.as_str());
        r.append("\r\n");
        let n = self.headers.len();
        let mut i: usize = 0;
        while i < n
            invariant
                i <= n,
                n == self.headers@.len(),
                r@ == self.method@ + " "@ + self.uri@ + " HTTP/"@ + self.version@ + "\r\n"@
                    + spec_headers_string(headers_view(self.headers@).take(i as int)),
            decreases n - i,
        {
            r.append(self.headers[i].0.as_str());
            r.append(":");
            r.append(self.headers[i].1.as_str());
            r.append("\r\n");
            i = i + 1;
            proof {
                let hv = headers_view(self.headers@);
                assert(hv.take(i as int).drop_last() =~= hv.take(i - 1));
                assert(hv.take(i as int).last() == hv[i - 1]);
            }
        }
        proof {
            assert(headers_view(self.headers@).take(n as int) =~= headers_view(
                self.headers@,
            ));
        }
        r.append("\r\n");
        r.append(self.body.as_str());
        r
    }
}

} // verus!
