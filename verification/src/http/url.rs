//! The URL parser: a character-at-a-time scan over an absolute URL,
//! with states for protocol, hostname, port, path, query and fragment.
//!
//! Every point where the scan can fail — no scheme, a missing `"//"`,
//! an empty protocol or port, a port that is not a 16-bit number, a
//! stray character after the port — is a structured error, never a
//! panic.

use vstd::prelude::*;
use crate::text::{is_digit_char, push_char, spec_digits_value, substring_of, to_chars};

verus! {

/// A parsed absolute URL. When no port is written (or the written port
/// is zero), the scheme's default is filled in: 80 for `http`, 443 for
/// `https`, 0 otherwise.
#[derive(Debug, PartialEq)]
pub struct URL {
    pub protocol: String,
    pub host: String,
    pub port: u16,
    pub path: String,
    pub query: String,
    pub fragment: String,
}

/// A parsed URL, in mathematical form.
pub struct UrlModel {
    pub protocol: Seq<char>,
    pub host: Seq<char>,
    pub port: u16,
    pub path: Seq<char>,
    pub query: Seq<char>,
    pub fragment: Seq<char>,
}

/// Why a URL was rejected.
#[derive(Debug, PartialEq, Eq, Clone, Copy)]
pub enum UrlParseError {
    /// The input ended while still reading the protocol.
    NoScheme,
    /// A character that is neither a lowercase letter nor `':'` ended
    /// the protocol.
    ExpectedColon,
    /// The literal `"//"` did not follow the `':'`.
    ExpectedSlashSlash,
    /// The protocol before the `':'` was empty.
    EmptyProtocol,
    /// The input ended in the hostname with nothing buffered.
    EmptyHost,
    /// A `':'` announced a port but no digit followed.
    EmptyPort,
    /// The port digits exceed a 16-bit number.
    InvalidPort,
    /// Something other than `'/'` followed the port digits.
    ExpectedSlashAfterPort,
}

/// A lowercase ASCII letter, the only characters a protocol may hold.
pub open spec fn spec_is_protocol_char(c: char) -> bool {
    97 <= c as u32 && c as u32 <= 122
}

/// Anything except `'/'` and `':'` may stand in a hostname.
pub open spec fn spec_is_hostname_char(c: char) -> bool {
    c != '/' && c != ':'
}

/// The first position at or after `i` past the end of the protocol letters, or the end of
/// the text.
pub open spec fn scan_protocol_end(s: Seq<char>, i: int) -> int
    decreases s.len() - i,
{
    if i < 0 || i >= s.len() {
        i
    } else if !(spec_is_protocol_char(s[i])) {
        i
    } else {
        scan_protocol_end(s, i + 1)
    }
}

pub proof fn lemma_scan_protocol_end(s: Seq<char>, i: int)
    requires
        0 <= i <= s.len(),
    ensures
        i <= scan_protocol_end(s, i) <= s.len(),
        forall|k: int| i <= k < scan_protocol_end(s, i) ==> spec_is_protocol_char(s[k]),
    decreases s.len() - i,
{
    if i < s.len() && (spec_is_protocol_char(s[i])) {
        lemma_scan_protocol_end(s, i + 1);
    }
}

/// The first position at or after `i` past the end of the hostname characters, or the end of
/// the text.
pub open spec fn scan_hostname_end(s: Seq<char>, i: int) -> int
    decreases s.len() - i,
{
    if i < 0 || i >= s.len() {
        i
    } else if !(spec_is_hostname_char(s[i])) {
        i
    } else {
        scan_hostname_end(s, i + 1)
    }
}

pub proof fn lemma_scan_hostname_end(s: Seq<char>, i: int)
    requires
        0 <= i <= s.len(),
    ensures
        i <= scan_hostname_end(s, i) <= s.len(),
        forall|k: int| i <= k < scan_hostname_end(s, i) ==> spec_is_hostname_char(s[k]),
    decreases s.len() - i,
{
    if i < s.len() && (spec_is_hostname_char(s[i])) {
        lemma_scan_hostname_end(s, i + 1);
    }
}

/// The first position at or after `i` past the end of the port digits, or the end of
/// the text.
pub open spec fn scan_port_end(s: Seq<char>, i: int) -> int
    decreases s.len() - i,
{
    if i < 0 || i >= s.len() {
        i
    } else if !(is_digit_char(s[i])) {
        i
    } else {
        scan_port_end(s, i + 1)
    }
}

pub proof fn lemma_scan_port_end(s: Seq<char>, i: int)
    requires
        0 <= i <= s.len(),
    ensures
        i <= scan_port_end(s, i) <= s.len(),
        forall|k: int| i <= k < scan_port_end(s, i) ==> is_digit_char(s[k]),
    decreases s.len() - i,
{
    if i < s.len() && (is_digit_char(s[i])) {
        lemma_scan_port_end(s, i + 1);
    }
}

/// The first position at or after `i` past the first `'?'` or `'#'`, or the end of
/// the text.
pub open spec fn scan_path_end(s: Seq<char>, i: int) -> int
    decreases s.len() - i,
{
    if i < 0 || i >= s.len() {
        i
    } else if !(s[i] != '?' && s[i] != '#') {
        i
    } else {
        scan_path_end(s, i + 1)
    }
}

pub proof fn lemma_scan_path_end(s: Seq<char>, i: int)
    requires
        0 <= i <= s.len(),
    ensures
        i <= scan_path_end(s, i) <= s.len(),
        forall|k: int| i <= k < scan_path_end(s, i) ==> s[k] != '?' && s[k] != '#',
    decreases s.len() - i,
{
    if i < s.len() && (s[i] != '?' && s[i] != '#') {
        lemma_scan_path_end(s, i + 1);
    }
}

/// The first position at or after `i` past the first `'#'`, or the end of
/// the text.
pub open spec fn scan_query_end(s: Seq<char>, i: int) -> int
    decreases s.len() - i,
{
    if i < 0 || i >= s.len() {
        i
    } else if !(s[i] != '#') {
        i
    } else {
        scan_query_end(s, i + 1)
    }
}

pub proof fn lemma_scan_query_end(s: Seq<char>, i: int)
    requires
        0 <= i <= s.len(),
    ensures
        i <= scan_query_end(s, i) <= s.len(),
        forall|k: int| i <= k < scan_query_end(s, i) ==> s[k] != '#',
    decreases s.len() - i,
{
    if i < s.len() && (s[i] != '#') {
        lemma_scan_query_end(s, i + 1);
    }
}

/// The tail of a URL from position `j`: a path up to `'?'` or `'#'`,
/// then a query up to `'#'`, then the fragment to the end.
pub open spec fn spec_url_tail(
    s: Seq<char>,
    j: int,
    protocol: Seq<char>,
    host: Seq<char>,
    port: u16,
) -> UrlModel {
    let pq = scan_path_end(s, j);
    let path = s.subrange(j, pq);
    if pq >= s.len() {
        UrlModel { protocol, host, port, path, query: Seq::empty(), fragment: Seq::empty() }
    } else if s[pq] == '?' {
        let f = scan_query_end(s, pq + 1);
        let query = s.subrange(pq + 1, f);
        if f >= s.len() {
            UrlModel { protocol, host, port, path, query, fragment: Seq::empty() }
        } else {
            UrlModel { protocol, host, port, path, query, fragment: s.subrange(
                f + 1,
                s.len() as int,
            ) }
        }
    } else {
        UrlModel { protocol, host, port, path, query: Seq::empty(), fragment: s.subrange(
            pq + 1,
            s.len() as int,
        ) }
    }
}

/// Fills in the scheme's default port when none was written: 80 for
/// `http`, 443 for `https`, otherwise the port stays 0.
pub open spec fn spec_default_port(m: UrlModel) -> UrlModel {
    if m.port == 0 {
        if m.protocol == "http"@ {
            UrlModel { port: 80, ..m }
        } else if m.protocol == "https"@ {
            UrlModel { port: 443, ..m }
        } else {
            m
        }
    } else {
        m
    }
}

/// The whole URL grammar, with each failure point in the order the
/// scan meets it.
pub open spec fn spec_parse_url(s: Seq<char>) -> Result<UrlModel, UrlParseError> {
    let p = scan_protocol_end(s, 0);
    if p >= s.len() {
        Err(UrlParseError::NoScheme)
    } else if s[p] != ':' {
        Err(UrlParseError::ExpectedColon)
    } else if p + 1 >= s.len() || s[p + 1] != '/' {
        Err(UrlParseError::ExpectedSlashSlash)
    } else if p + 2 >= s.len() || s[p + 2] != '/' {
        Err(UrlParseError::ExpectedSlashSlash)
    } else if p == 0 {
        Err(UrlParseError::EmptyProtocol)
    } else {
        let protocol = s.subrange(0, p);
        let hstart = p + 3;
        let h = scan_hostname_end(s, hstart);
        if h >= s.len() {
            if h == hstart {
                Err(UrlParseError::EmptyHost)
            } else {
                Ok(spec_default_port(UrlModel {
                    protocol,
                    host: s.subrange(hstart, h),
                    port: 0,
                    path: "/"@,
                    query: Seq::empty(),
                    fragment: Seq::empty(),
                }))
            }
        } else if s[h] == ':' {
            let host = s.subrange(hstart, h);
            let d = scan_port_end(s, h + 1);
            if d == h + 1 {
                Err(UrlParseError::EmptyPort)
            } else if spec_digits_value(s.subrange(h + 1, d)) > 0xffff {
                Err(UrlParseError::InvalidPort)
            } else {
                let port = spec_digits_value(s.subrange(h + 1, d)) as u16;
                if d >= s.len() {
                    Ok(spec_default_port(UrlModel {
                        protocol,
                        host,
                        port,
                        path: Seq::empty(),
                        query: Seq::empty(),
                        fragment: Seq::empty(),
                    }))
                } else if s[d] != '/' {
                    Err(UrlParseError::ExpectedSlashAfterPort)
                } else {
                    Ok(spec_default_port(spec_url_tail(s, d, protocol, host, port)))
                }
            }
        } else {
            Ok(spec_default_port(spec_url_tail(s, h, protocol, s.subrange(hstart, h), 0)))
        }
    }
}

fn is_valid_protocol_character(ch: Option<char>) -> (r: bool)
    ensures
        r == match ch {
            Some(c) => spec_is_protocol_char(c),
            None => false,
        },
{
    match ch {
        Some(ch) => ch as u32 >= 97 && ch as u32 <= 122,
        None => false,
    }
}

fn is_valid_hostname_character(ch: Option<char>) -> (r: bool)
    ensures
        r == match ch {
            Some(c) => spec_is_hostname_char(c),
            None => false,
        },
{
    match ch {
        Some(ch) => ch != '/' && ch != ':',
        None => false,
    }
}

fn is_digit(ch: Option<char>) -> (r: bool)
    ensures
        r == match ch {
            Some(c) => is_digit_char(c),
            None => false,
        },
{
    match ch {
        Some(ch) => ch as u32 >= 48 && ch as u32 <= 57,
        None => false,
    }
}

/// The URL parser's cursor over the input characters.
pub struct URLParser {
    input: Vec<char>,
    index: usize,
}

impl URLParser {
    /// The text being parsed.
    pub closed spec fn text(&self) -> Seq<char> {
        self.input@
    }

    /// The cursor: how much has been consumed.
    pub closed spec fn pos(&self) -> int {
        self.index as int
    }

    /// A parser at the start of `input`.
    pub fn new(input: &str) -> (r: URLParser)
        ensures
            r.text() == input@,
            r.pos() == 0,
    {
        URLParser { input: to_chars(input), index: 0 }
    }

    fn peek(&self) -> (r: Option<char>)
        ensures
            r == (if 0 <= self.index < self.text().len() {
                Some(self.text()[self.index as int])
            } else {
                None::<char>
            }),
    {
        if self.index < self.input.len() {
            Some(self.input[self.index])
        } else {
            None
        }
    }

    fn scan_protocol(&mut self)
        requires
            old(self).index <= old(self).text().len(),
        ensures
            final(self).text() == old(self).text(),
            final(self).index == scan_protocol_end(old(self).text(), old(self).index as int),
    {
        let ghost s = self.text();
        while self.index < self.input.len() && is_valid_protocol_character(self.peek())
            invariant
                self.text() == s,
                old(self).index <= self.index <= s.len(),
                scan_protocol_end(s, old(self).index as int) == scan_protocol_end(s, self.index as int),
            decreases s.len() - self.index,
        {
            self.index = self.index + 1;
        }
    }

    fn scan_hostname(&mut self)
        requires
            old(self).index <= old(self).text().len(),
        ensures
            final(self).text() == old(self).text(),
            final(self).index == scan_hostname_end(old(self).text(), old(self).index as int),
    {
        let ghost s = self.text();
        while self.index < self.input.len() && is_valid_hostname_character(self.peek())
            invariant
                self.text() == s,
                old(self).index <= self.index <= s.len(),
                scan_hostname_end(s, old(self).index as int) == scan_hostname_end(s, self.index as int),
            decreases s.len() - self.index,
        {
            self.index = self.index + 1;
        }
    }

    fn scan_digits(&mut self)
        requires
            old(self).index <= old(self).text().len(),
        ensures
            final(self).text() == old(self).text(),
            final(self).index == scan_port_end(old(self).text(), old(self).index as int),
    {
        let ghost s = self.text();
        while self.index < self.input.len() && is_digit(self.peek())
            invariant
                self.text() == s,
                old(self).index <= self.index <= s.len(),
                scan_port_end(s, old(self).index as int) == scan_port_end(s, self.index as int),
            decreases s.len() - self.index,
        {
            self.index = self.index + 1;
        }
    }

    fn scan_path(&mut self)
        requires
            old(self).index <= old(self).text().len(),
        ensures
            final(self).text() == old(self).text(),
            final(self).index == scan_path_end(old(self).text(), old(self).index as int),
    {
        let ghost s = self.text();
        while self.index < self.input.len() && self.input[self.index] != '?'
            && self.input[self.index] != '#'
            invariant
                self.text() == s,
                old(self).index <= self.index <= s.len(),
                scan_path_end(s, old(self).index as int) == scan_path_end(s, self.index as int),
            decreases s.len() - self.index,
        {
            self.index = self.index + 1;
        }
    }

    fn scan_query(&mut self)
        requires
            old(self).index <= old(self).text().len(),
        ensures
            final(self).text() == old(self).text(),
            final(self).index == scan_query_end(old(self).text(), old(self).index as int),
    {
        let ghost s = self.text();
        while self.index < self.input.len() && self.input[self.index] != '#'
            invariant
                self.text() == s,
                old(self).index <= self.index <= s.len(),
                scan_query_end(s, old(self).index as int) == scan_query_end(s, self.index as int),
            decreases s.len() - self.index,
        {
            self.index = self.index + 1;
        }
    }

    /// Applies the scheme's default port to a port value of zero.
    fn apply_default_port(protocol: &String, port: u16) -> (r: u16)
        ensures
            ({
                let m = UrlModel {
                    protocol: protocol@,
                    host: Seq::empty(),
                    port,
                    path: Seq::empty(),
                    query: Seq::empty(),
                    fragment: Seq::empty(),
                };
                r == spec_default_port(m).port
            }),
    {
        if port == 0 {
            if crate::text::str_eq(protocol.as_str(), "http") {
                80
            } else if crate::text::str_eq(protocol.as_str(), "https") {
                443
            } else {
                0
            }
        } else {
            port
        }
    }

    /// Parses the URL, visiting protocol, hostname, port, path, query
    /// and fragment in that order; the exact failure points are those
    /// of `spec_parse_url`.
    pub fn parse(&mut self) -> (r: Result<URL, UrlParseError>)
        requires
            old(self).pos() == 0,
        ensures
            final(self).text() == old(self).text(),
            match r {
                Ok(url) => spec_parse_url(old(self).text()) matches Ok(m) && url.protocol@
                    == m.protocol && url.host@ == m.host && url.port == m.port && url.path@
                    == m.path && url.query@ == m.query && url.fragment@ == m.fragment,
                Err(e) => spec_parse_url(old(self).text()) == Err::<UrlModel, UrlParseError>(e),
            },
    {
        let ghost s = self.text();
        let n = self.input.len();
        self.scan_protocol();
        let p = self.index;
        proof {
            lemma_scan_protocol_end(s, 0);
        }
        if p >= n {
            return Err(UrlParseError::NoScheme);
        }
        if self.input[p] != ':' {
            return Err(UrlParseError::ExpectedColon);
        }
        if p + 1 >= n || self.input[p + 1] != '/' {
            return Err(UrlParseError::ExpectedSlashSlash);
        }
        if p + 2 >= n || self.input[p + 2] != '/' {
            return Err(UrlParseError::ExpectedSlashSlash);
        }
        if p == 0 {
            return Err(UrlParseError::EmptyProtocol);
        }
        let protocol = substring_of(&self.input, 0, p);
        let hstart = p + 3;
        self.index = hstart;
        self.scan_hostname();
        let h = self.index;
        proof {
            lemma_scan_hostname_end(s, hstart as int);
        }
        if h >= n {
            if h == hstart {
                return Err(UrlParseError::EmptyHost);
            }
            let host = substring_of(&self.input, hstart, h);
            let port = Self::apply_default_port(&protocol, 0);
            let mut path = String::new();
            push_char(&mut path, '/');
            proof {
                assert(path@ =~= "/"@) by {
                    reveal_strlit("/");
                }
            }
            return Ok(URL {
                protocol,
                host,
                port,
                path,
                query: String::new(),
                fragment: String::new(),
            });
        }
        let host = substring_of(&self.input, hstart, h);
        if self.input[h] == ':' {
            self.index = h + 1;
            self.scan_digits();
            let d = self.index;
            proof {
                lemma_scan_port_end(s, h + 1 as int);
            }
            if d == h + 1 {
                return Err(UrlParseError::EmptyPort);
            }
            let digits = substring_of(&self.input, h + 1, d);
            let port0 = match crate::text::parse_u16(digits.as_str()) {
                Some(number) => number,
                None => {
                    proof {
                        assert(digits@.len() > 0);
                        assert(forall|k: int| 0 <= k < digits@.len() ==> is_digit_char(
                            digits@[k],
                        ));
                    }
                    return Err(UrlParseError::InvalidPort);
                },
            };
            if d >= n {
                let port = Self::apply_default_port(&protocol, port0);
                return Ok(URL {
                    protocol,
                    host,
                    port,
                    path: String::new(),
                    query: String::new(),
                    fragment: String::new(),
                });
            }
            if self.input[d] != '/' {
                return Err(UrlParseError::ExpectedSlashAfterPort);
            }
            self.parse_tail(protocol, host, port0)
        } else {
            self.index = h;
            self.parse_tail(protocol, host, 0)
        }
    }

    /// Path, query and fragment, then the default port.
    fn parse_tail(&mut self, protocol: String, host: String, port0: u16) -> (r: Result<
        URL,
        UrlParseError,
    >)
        requires
            old(self).index <= old(self).text().len(),
        ensures
            final(self).text() == old(self).text(),
            r matches Ok(url) && ({
                let m = spec_default_port(
                    spec_url_tail(
                        old(self).text(),
                        old(self).index as int,
                        protocol@,
                        host@,
                        port0,
                    ),
                );
                url.protocol@ == m.protocol && url.host@ == m.host && url.port == m.port
                    && url.path@ == m.path && url.query@ == m.query && url.fragment@ == m.fragment
            }),
    {
        let ghost s = self.text();
        let n = self.input.len();
        let j = self.index;
        self.scan_path();
        let pq = self.index;
        proof {
            lemma_scan_path_end(s, j as int);
        }
        let path = substring_of(&self.input, j, pq);
        let mut query = String::new();
        let mut fragment = String::new();
        if pq < n {
            if self.input[pq] == '?' {
                self.index = pq + 1;
                self.scan_query();
                let f = self.index;
                proof {
                    lemma_scan_query_end(s, pq + 1 as int);
                }
                query = substring_of(&self.input, pq + 1, f);
                if f < n {
                    fragment = substring_of(&self.input, f + 1, n);
                }
            } else {
                fragment = substring_of(&self.input, pq + 1, n);
            }
        }
        let port = Self::apply_default_port(&protocol, port0);
        Ok(URL { protocol, host, port, path, query, fragment })
    }
}

} // verus!
