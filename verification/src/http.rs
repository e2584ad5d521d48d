//! The HTTP components: wire parser, request and response values, URL
//! parser, routing, and the pure core of the outbound client.

pub mod client;
pub mod parser;
pub mod request;
pub mod response;
pub mod server;
pub mod url;

pub use parser::HttpParser;
pub use request::HttpRequest;
pub use response::HttpResponse;
pub use server::HttpServer;

use vstd::prelude::*;

verus! {

/// Header lists keep order and duplicates; they are not maps.
pub type HttpHeaders = Vec<(String, String)>;

/// The character sequences of a header list.
pub open spec fn headers_view(hs: Seq<(String, String)>) -> Seq<(Seq<char>, Seq<char>)> {
    Seq::new(hs.len(), |i: int| (hs[i].0@, hs[i].1@))
}

/// Each header as `key ":" value CRLF`, in order.
pub open spec fn spec_headers_string(hs: Seq<(Seq<char>, Seq<char>)>) -> Seq<char>
    decreases hs.len(),
{
    if hs.len() == 0 {
        Seq::empty()
    } else {
        spec_headers_string(hs.drop_last()) + hs.last().0 + ":"@ + hs.last().1 + "\r\n"@
    }
}

} // verus!
