//! The response value and its serialization to wire format.

use vstd::prelude::*;
use vstd::string::StringExecFns;
use crate::http::{headers_view, spec_headers_string, HttpHeaders};
use crate::text::spec_decimal;

verus! {

/// An HTTP response under construction: status, reason phrase, headers
/// in insertion order, and body.
#[derive(Debug)]
pub struct HttpResponse {
    pub headers: HttpHeaders,
    pub status_code: u16,
    pub body: String,
    pub version: String,
    pub reason: String,
}

/// The reason phrase sent with a status code; unknown codes get a
/// generic placeholder.
pub open spec fn spec_reason_phrase(code: u16) -> Seq<char> {
    if code == 200 {
        "Ok"@
    } else if code == 400 {
        "Bad request"@
    } else if code == 404 {
        "Not found"@
    } else if code == 500 {
        "Internal server error"@
    } else {
        "Something happened"@
    }
}

/// The status line, always under protocol version 1.1:
/// `HTTP/1.1 <code> <reason>`.
pub open spec fn spec_status_line(code: u16) -> Seq<char> {
    "HTTP/1.1"@ + " "@ + spec_decimal(code as int) + " "@ + spec_reason_phrase(code)
}

/// The whole serialized response:
/// status line, CRLF, headers, CRLF, body.
pub open spec fn spec_response_string(r: &HttpResponse) -> Seq<char> {
    spec_status_line(r.status_code) + "\r\n"@ + spec_headers_string(headers_view(r.headers@))
        + "\r\n"@ + r.body@
}

impl HttpResponse {
    /// The default response: status 200, no headers, empty body.
    pub fn new() -> (r: HttpResponse)
        ensures
            r.headers@.len() == 0,
            r.status_code == 200,
            r.body@ == Seq::<char>::empty(),
            r.version@ == "1.1"@,
            r.reason@ == Seq::<char>::empty(),
    {
        HttpResponse {
            headers: Vec::new(),
            status_code: 200,
            body: String::new(),
            version: String::from_str("1.1"),
            reason: String::new(),
        }
    }

    /// The headers collected so far.
    pub fn headers(&self) -> (r: &HttpHeaders)
        ensures
            r@ == self.headers@,
    {
        &self.headers
    }

    /// The headers, open for mutation.
    pub fn headers_mut(&mut self) -> (r: &mut HttpHeaders)
        ensures
            r@ == old(self).headers@,
            final(self).headers@ == final(r)@,
            final(self).status_code == old(self).status_code,
            final(self).body@ == old(self).body@,
            final(self).version@ == old(self).version@,
            final(self).reason@ == old(self).reason@,
    {
        &mut self.headers
    }

    /// Appends one header; order and duplicates are kept.
    pub fn add_header(&mut self, header_key: String, header_value: String)
        ensures
            final(self).headers@ == old(self).headers@.push((header_key, header_value)),
            final(self).status_code == old(self).status_code,
            final(self).body@ == old(self).body@,
            final(self).version@ == old(self).version@,
            final(self).reason@ == old(self).reason@,
    {
        self.headers.push((header_key, header_value));
    }

    pub fn status_code(&self) -> (r: u16)
        ensures
            r == self.status_code,
    {
        self.status_code
    }

    pub fn set_status_code(&mut self, status_code: u16)
        ensures
            final(self).status_code == status_code,
            final(self).headers@ == old(self).headers@,
            final(self).body@ == old(self).body@,
            final(self).version@ == old(self).version@,
            final(self).reason@ == old(self).reason@,
    {
        self.status_code = status_code;
    }

    pub fn body(&self) -> (r: &str)
        ensures
            r@ == self.body@,
    {
        self.body.as_str()
    }

    pub fn set_body(&mut self, body: String)
        ensures
            final(self).body@ == body@,
            final(self).headers@ == old(self).headers@,
            final(self).status_code == old(self).status_code,
            final(self).version@ == old(self).version@,
            final(self).reason@ == old(self).reason@,
    {
        self.body = body;
    }

    /// The reason phrase the status line carries for `code`.
    fn http_reason(code: u16) -> (r: &'static str)
        ensures
            r@ == spec_reason_phrase(code),
    {
        if code == 200 {
            "Ok"
        } else if code == 400 {
            "Bad request"
        } else if code == 404 {
            "Not found"
        } else if code == 500 {
            "Internal server error"
        } else {
            "Something happened"
        }
    }

    fn get_status_line(&self) -> (r: String)
        ensures
            r@ == spec_status_line(self.status_code),
    {
        let mut r = String::from_str("HTTP/1.1");
        r.append(" ");
        let code = crate::text::u16_to_string(self.status_code);
        r.append(code.as_str());
        r.append(" ");
        r.append(Self::http_reason(self.status_code));
        r
    }

    fn headers_to_string(&self) -> (r: String)
        ensures
            r@ == spec_headers_string(headers_view(self.headers@)),
    {
        let mut r = String::new();
        let n = self.headers.len();
        let mut i: usize = 0;
        while i < n
            invariant
                i <= n,
                n == self.headers@.len(),
                r@ == spec_headers_string(headers_view(self.headers@).take(i as int)),
            decreases n - i,
        {
            r.append(self.headers[i].0.as_str());
            r.append(":");
            r.append(self.headers[i].1.as_str());
            r.append("\r\n");
            i = i + 1;
            proof {
                let hv = headers_view(self.headers@);
                assert(hv.take(i as int).drop_last() =~= hv.take(i - 1));
                assert(hv.take(i as int).last() == hv[i - 1]);
            }
        }
        proof {
            assert(headers_view(self.headers@).take(n as int) =~= headers_view(
                self.headers@,
            ));
        }
        r
    }

    /// Serializes the response:
    /// status line, CRLF, the headers, a blank line, then the body.
    pub fn to_string(&self) -> (r: String)
        ensures
            r@ == spec_response_string(self),
    {
        let mut r = self.get_status_line();
        r.append("\r\n");
        let headers = self.headers_to_string();
        r.append(headers.as_str());
        r.append("\r\n");
        r.append(self.body.as_str());
        r
    }
}

} // verus!
