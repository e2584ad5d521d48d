//! The wire parser: turns raw request and response text into structured
//! values, one character at a time over an indexed buffer, without
//! backtracking beyond single-character peeks.
//!
//! Every fallible entry point returns a structured error instead of
//! panicking, so a caller can answer a malformed request with a 400
//! response rather than losing its worker thread.

use vstd::prelude::*;
use crate::stringmap::StringMap;
use crate::text::{is_whitespace, is_whitespace_char, lemma_scan_to_bounds, lemma_skip_spaces_bounds, push_char, scan_to, skip_spaces, skip_ws, stops_at, substring_of, to_chars};
use crate::http::request::HttpRequest;
use crate::http::spec_headers_string;
use crate::http::response::HttpResponse;

verus! {

/// What a scan-and-collect step yields: the collected text and the
/// position after it (the stopping delimiter itself, when one was named
/// and found, is stepped over).
pub open spec fn spec_take(s: Seq<char>, i: int, delimiter: Option<char>) -> (Seq<char>, int) {
    let j = scan_to(s, i, delimiter);
    let next = match delimiter {
        Some(_) => if j < s.len() {
            j + 1
        } else {
            j
        },
        None => j,
    };
    (s.subrange(i, j), next)
}

/// A structured reason why the wire text was rejected: a character was
/// needed past the end of the input.
#[derive(Debug, Clone)]
pub struct LenghtError {
    pub index: usize,
    pub length: usize,
}

/// A structured reason why the wire text was rejected: another
/// character stood where a specific one was required.
#[derive(Debug, Clone)]
pub struct UnexpectedCharError {
    pub ch: char,
    pub input_ch: char,
    pub index: usize,
}

/// Everything that can go wrong while parsing wire text.
#[derive(Debug, Clone)]
pub enum HttpParserError {
    LenghtError(LenghtError),
    UnexpectedChar(UnexpectedCharError),
    EmptyHeaderValue(String),
    StatusCodeIsNotANumber(String),
}

/// The mathematical shape of a parse error.
pub enum WireError {
    Lenght { index: int, length: int },
    UnexpectedChar { expected: char, got: char, index: int },
    EmptyHeaderValue(Seq<char>),
    StatusCodeIsNotANumber(Seq<char>),
}

impl View for HttpParserError {
    type V = WireError;

    open spec fn view(&self) -> WireError {
        match self {
            HttpParserError::LenghtError(e) => WireError::Lenght {
                index: e.index as int,
                length: e.length as int,
            },
            HttpParserError::UnexpectedChar(e) => WireError::UnexpectedChar {
                expected: e.ch,
                got: e.input_ch,
                index: e.index as int,
            },
            HttpParserError::EmptyHeaderValue(key) => WireError::EmptyHeaderValue(key@),
            HttpParserError::StatusCodeIsNotANumber(text) => WireError::StatusCodeIsNotANumber(
                text@,
            ),
        }
    }
}

/// Consuming one required character: its position moves past it, or
/// the parse stops with the reason.
pub open spec fn spec_consume_specific(s: Seq<char>, i: int, c: char) -> Result<int, WireError> {
    if i >= s.len() {
        Err(WireError::Lenght { index: i, length: s.len() as int })
    } else if s[i] != c {
        Err(WireError::UnexpectedChar { expected: c, got: s[i], index: i })
    } else {
        Ok(i + 1)
    }
}

/// Consuming a required literal, character by character.
pub open spec fn spec_consume_prefix(s: Seq<char>, i: int, t: Seq<char>) -> Result<int, WireError>
    decreases t.len(),
{
    if t.len() == 0 {
        Ok(i)
    } else {
        match spec_consume_specific(s, i, t[0]) {
            Ok(j) => spec_consume_prefix(s, j, t.subrange(1, t.len() as int)),
            Err(e) => Err(e),
        }
    }
}

/// The wire parser's cursor over an indexed character buffer.
pub struct HttpParser {
    input: Vec<char>,
    index: usize,
}

impl HttpParser {
    #[verifier::type_invariant]
    closed spec fn inv(&self) -> bool {
        self.index <= self.input@.len()
    }

    /// The text being parsed.
    pub closed spec fn text(&self) -> Seq<char> {
        self.input@
    }

    /// The cursor: how much has been consumed.
    pub closed spec fn pos(&self) -> int {
        self.index as int
    }

    /// A parser at the start of `input`.
    pub fn new(input: &str) -> (r: HttpParser)
        ensures
            r.text() == input@,
            r.pos() == 0,
    {
        HttpParser { input: to_chars(input), index: 0 }
    }

    fn check_len(&self) -> (r: Result<(), HttpParserError>)
        ensures
            match r {
                Ok(()) => self.pos() < self.text().len(),
                Err(e) => self.pos() >= self.text().len() && e@ == (WireError::Lenght {
                    index: self.pos(),
                    length: self.text().len() as int,
                }),
            },
    {
        if self.index >= self.input.len() {
            return Err(HttpParserError::LenghtError(LenghtError {
                index: self.index,
                length: self.input.len(),
            }));
        }
        Ok(())
    }

    fn expect_char(&self, ch: char) -> (r: Result<(), HttpParserError>)
        ensures
            match r {
                Ok(()) => self.pos() < self.text().len() && spec_consume_specific(
                    self.text(),
                    self.pos(),
                    ch,
                ) == Ok::<int, WireError>(self.pos() + 1),
                Err(e) => spec_consume_specific(self.text(), self.pos(), ch) == Err::<
                    int,
                    WireError,
                >(e@),
            },
    {
        proof {
            use_type_invariant(self);
        }
        self.check_len()?;
        let input_ch = self.input[self.index];
        if input_ch != ch {
            return Err(HttpParserError::UnexpectedChar(UnexpectedCharError {
                ch,
                input_ch,
                index: self.index,
            }));
        }
        Ok(())
    }

    fn consume_specific(&mut self, ch: char) -> (r: Result<(), HttpParserError>)
        ensures
            final(self).text() == old(self).text(),
            match r {
                Ok(()) => spec_consume_specific(old(self).text(), old(self).pos(), ch) == Ok::<
                    int,
                    WireError,
                >(final(self).pos()),
                Err(e) => spec_consume_specific(old(self).text(), old(self).pos(), ch) == Err::<
                    int,
                    WireError,
                >(e@) && final(self).pos() == old(self).pos(),
            },
    {
        proof {
            use_type_invariant(&*self);
        }
        self.expect_char(ch)?;
        let n = self.input.len();
        proof {
            assert(self.index < n);
        }
        self.index = self.index + 1;
        Ok(())
    }

    fn consume_specific_string(&mut self, string: &str) -> (r: Result<(), HttpParserError>)
        ensures
            final(self).text() == old(self).text(),
            match r {
                Ok(()) => spec_consume_prefix(old(self).text(), old(self).pos(), string@) == Ok::<
                    int,
                    WireError,
                >(final(self).pos()),
                Err(e) => spec_consume_prefix(old(self).text(), old(self).pos(), string@) == Err::<
                    int,
                    WireError,
                >(e@),
            },
    {
        let chars = to_chars(string);
        let n = chars.len();
        proof {
            assert(string@.subrange(0, n as int) =~= string@);
        }
        let mut k: usize = 0;
        while k < n
            invariant
                k <= n,
                n == string@.len(),
                chars@ == string@,
                self.text() == old(self).text(),
                spec_consume_prefix(old(self).text(), old(self).pos(), string@)
                    == spec_consume_prefix(
                    self.text(),
                    self.pos(),
                    string@.subrange(k as int, n as int),
                ),
            decreases n - k,
        {
            let ghost pre = string@.subrange(k as int, n as int);
            match self.consume_specific(chars[k]) {
                Ok(()) => {},
                Err(e) => {
                    proof {
                        assert(pre[0] == string@[k as int]);
                    }
                    return Err(e);
                },
            }
            proof {
                assert(pre[0] == string@[k as int]);
                assert(pre.subrange(1, pre.len() as int) =~= string@.subrange(
                    k + 1 as int,
                    n as int,
                ));
            }
            k = k + 1;
        }
        proof {
            assert(string@.subrange(n as int, n as int) =~= Seq::<char>::empty());
        }
        Ok(())
    }

    fn consume(&mut self) -> (r: Result<char, HttpParserError>)
        ensures
            final(self).text() == old(self).text(),
            match r {
                Ok(c) => old(self).pos() < old(self).text().len() && c == old(self).text()[old(
                    self,
                ).pos()] && final(self).pos() == old(self).pos() + 1,
                Err(e) => old(self).pos() >= old(self).text().len() && final(self).pos() == old(
                    self,
                ).pos() && e@ == (WireError::Lenght {
                    index: old(self).pos(),
                    length: old(self).text().len() as int,
                }),
            },
    {
        proof {
            use_type_invariant(&*self);
        }
        self.check_len()?;
        let n = self.input.len();
        proof {
            assert(self.index < n);
        }
        let input_ch = self.input[self.index];
        self.index = self.index + 1;
        Ok(input_ch)
    }

    fn peek_index(&self, index: usize) -> (r: Option<char>)
        ensures
            r == (if 0 <= index < self.text().len() {
                Some(self.text()[index as int])
            } else {
                None::<char>
            }),
    {
        if index >= self.input.len() {
            return None;
        }
        Some(self.input[index])
    }

    fn peek(&self) -> (r: Option<char>)
        ensures
            r == (if self.pos() < self.text().len() {
                Some(self.text()[self.pos()])
            } else {
                None::<char>
            }),
    {
        proof {
            use_type_invariant(self);
        }
        self.peek_index(self.index)
    }

    fn consume_whitespace(&mut self)
        ensures
            final(self).text() == old(self).text(),
            final(self).pos() == skip_ws(old(self).text(), old(self).pos()),
    {
        proof {
            use_type_invariant(&*self);
        }
        let ghost s = self.text();
        let ghost i0 = self.pos();
        loop
            invariant
                self.text() == s,
                0 <= self.pos() <= s.len(),
                self.index <= self.input@.len(),
                skip_ws(s, i0) == skip_ws(s, self.pos()),
            ensures
                self.text() == s,
                self.pos() == skip_ws(s, i0),
            decreases s.len() - self.pos(),
        {
            if self.index >= self.input.len() {
                proof {
                    assert(skip_ws(s, self.pos()) == self.pos());
                }
                break ;
            }
            let c = self.input[self.index];
            if !is_whitespace(c) {
                proof {
                    assert(skip_ws(s, self.pos()) == self.pos());
                }
                break ;
            }
            self.index = self.index + 1;
        }
    }

    fn consume_spaces(&mut self)
        ensures
            final(self).text() == old(self).text(),
            final(self).pos() == skip_spaces(old(self).text(), old(self).pos()),
    {
        proof {
            use_type_invariant(&*self);
        }
        let ghost s = self.text();
        let ghost i0 = self.pos();
        loop
            invariant
                self.text() == s,
                0 <= self.pos() <= s.len(),
                self.index <= self.input@.len(),
                skip_spaces(s, i0) == skip_spaces(s, self.pos()),
            ensures
                self.text() == s,
                self.pos() == skip_spaces(s, i0),
            decreases s.len() - self.pos(),
        {
            if self.index >= self.input.len() {
                proof {
                    assert(skip_spaces(s, self.pos()) == self.pos());
                }
                break ;
            }
            if self.input[self.index] != ' ' {
                proof {
                    assert(skip_spaces(s, self.pos()) == self.pos());
                }
                break ;
            }
            self.index = self.index + 1;
        }
    }

    fn parse_string_with_delimiter(&mut self, delimiter: Option<char>) -> (r: String)
        ensures
            final(self).text() == old(self).text(),
            r@ == spec_take(old(self).text(), old(self).pos(), delimiter).0,
            final(self).pos() == spec_take(old(self).text(), old(self).pos(), delimiter).1,
    {
        proof {
            use_type_invariant(&*self);
        }
        let ghost s = self.text();
        let ghost i0 = self.pos();
        let mut r = String::new();
        loop
            invariant
                self.text() == s,
                0 <= i0 <= self.pos() <= s.len(),
                self.index <= self.input@.len(),
                scan_to(s, i0, delimiter) == scan_to(s, self.pos(), delimiter),
                r@ == s.subrange(i0, self.pos()),
            ensures
                self.text() == s,
                self.pos() == scan_to(s, i0, delimiter),
                r@ == s.subrange(i0, self.pos()),
            decreases s.len() - self.pos(),
        {
            if self.index >= self.input.len() {
                proof {
                    assert(scan_to(s, self.pos(), delimiter) == self.pos());
                }
                break ;
            }
            let c = self.input[self.index];
            let stop = match delimiter {
                Some(d) => c == d,
                None => is_whitespace(c),
            };
            if stop {
                proof {
                    assert(scan_to(s, self.pos(), delimiter) == self.pos());
                }
                break ;
            }
            push_char(&mut r, c);
            self.index = self.index + 1;
            proof {
                assert(s.subrange(i0, self.pos()) =~= s.subrange(i0, self.pos() - 1).push(
                    s[self.pos() - 1],
                ));
            }
        }
        if self.index < self.input.len() {
            if let Some(_d) = delimiter {
                self.index = self.index + 1;
            }
        }
        r
    }

    fn parse_string(&mut self) -> (r: String)
        ensures
            final(self).text() == old(self).text(),
            r@ == spec_take(old(self).text(), old(self).pos(), None).0,
            final(self).pos() == spec_take(old(self).text(), old(self).pos(), None).1,
    {
        self.parse_string_with_delimiter(None)
    }
}

/// One round of the header loop: a key up to `':'`, optional spaces —
/// and only spaces, so an empty value is caught rather than the next
/// line swallowed — then a value up to CRLF, ending early at the
/// closing blank line, at a missing key, or at the end of the input.
/// An empty value fails with the key's name.
pub open spec fn spec_headers_loop(s: Seq<char>, i: int) -> Result<
    (Seq<(Seq<char>, Seq<char>)>, int),
    WireError,
>
    decreases s.len() - i,
    when 0 <= i <= s.len()
{
    if i >= s.len() {
        Ok((Seq::empty(), i))
    } else {
        let taken_key = spec_take(s, i, Some(':'));
        let key = taken_key.0;
        let i1 = taken_key.1;
        if key.len() == 0 {
            Ok((Seq::empty(), i1))
        } else {
            proof {
                lemma_scan_to_bounds(s, i, Some(':'));
            }
            let i2 = skip_spaces(s, i1);
            proof {
                lemma_skip_spaces_bounds(s, i1);
            }
            let taken_value = spec_take(s, i2, Some('\r'));
            let value = taken_value.0;
            let i3 = taken_value.1;
            proof {
                lemma_scan_to_bounds(s, i2, Some('\r'));
            }
            match spec_consume_specific(s, i3, '\n') {
                Err(e) => Err(e),
                Ok(i4) => if value.len() == 0 {
                    Err(WireError::EmptyHeaderValue(key))
                } else if i4 < s.len() && s[i4] == '\r' && i4 + 1 < s.len() && s[i4 + 1] == '\n' {
                    Ok((seq![(key, value)], i4))
                } else {
                    match spec_headers_loop(s, i4) {
                        Ok((rest, j)) => Ok((seq![(key, value)] + rest, j)),
                        Err(e) => Err(e),
                    }
                },
            }
        }
    }
}

/// The header block: when a CRLF stands first the block is empty and
/// the terminating blank line is consumed; otherwise the header loop
/// runs, followed by the closing CRLF.
pub open spec fn spec_parse_headers(s: Seq<char>, i: int) -> Result<
    (Seq<(Seq<char>, Seq<char>)>, int),
    WireError,
> {
    if i < s.len() && s[i] == '\r' {
        match spec_consume_specific(s, i + 1, '\n') {
            Ok(j) => Ok((Seq::empty(), j)),
            Err(e) => Err(e),
        }
    } else {
        match spec_headers_loop(s, i) {
            Err(e) => Err(e),
            Ok((hs, j)) => match spec_consume_specific(s, j, '\r') {
                Err(e) => Err(e),
                Ok(j1) => match spec_consume_specific(s, j1, '\n') {
                    Err(e) => Err(e),
                    Ok(j2) => Ok((hs, j2)),
                },
            },
        }
    }
}

impl HttpParser {
    fn parse_headers(&mut self) -> (r: Result<Vec<(String, String)>, HttpParserError>)
        ensures
            final(self).text() == old(self).text(),
            match r {
                Ok(hs) => spec_parse_headers(old(self).text(), old(self).pos()) == Ok::<
                    _,
                    WireError,
                >((crate::http::headers_view(hs@), final(self).pos())),
                Err(e) => spec_parse_headers(old(self).text(), old(self).pos()) == Err::<
                    (Seq<(Seq<char>, Seq<char>)>, int),
                    WireError,
                >(e@),
            },
    {
        proof {
            use_type_invariant(&*self);
        }
        let ghost s = self.text();
        let ghost i0 = self.pos();
        let mut headers: Vec<(String, String)> = Vec::new();
        if let Some(c) = self.peek() {
            if c == '\r' {
                self.consume_specific('\r')?;
                self.consume_specific('\n')?;
                proof {
                    assert(crate::http::headers_view(headers@) =~= Seq::<
                        (Seq<char>, Seq<char>),
                    >::empty());
                }
                return Ok(headers);
            }
        }
        loop
            invariant_except_break
                match spec_headers_loop(s, self.pos()) {
                    Ok((rest, j)) => spec_headers_loop(s, i0) == Ok::<_, WireError>((
                        crate::http::headers_view(headers@) + rest,
                        j,
                    )),
                    Err(e) => spec_headers_loop(s, i0) == Err::<
                        (Seq<(Seq<char>, Seq<char>)>, int),
                        WireError,
                    >(e),
                },
            invariant
                self.text() == s,
                0 <= self.pos() <= s.len(),
                s == old(self).text(),
                i0 == old(self).pos(),
                0 <= i0 <= s.len(),
                !(i0 < s.len() && s[i0] == '\r'),
            ensures
                self.text() == s,
                0 <= self.pos() <= s.len(),
                spec_headers_loop(s, i0) == Ok::<_, WireError>((
                    crate::http::headers_view(headers@),
                    self.pos(),
                )),
            decreases s.len() - self.pos(),
        {
            let ghost p = self.pos();
            let ghost acc = crate::http::headers_view(headers@);
            if self.index == self.input.len() {
                proof {
                    assert(spec_headers_loop(s, p) == Ok::<_, WireError>((
                        Seq::<(Seq<char>, Seq<char>)>::empty(),
                        p,
                    )));
                    assert(acc + Seq::<(Seq<char>, Seq<char>)>::empty() =~= acc);
                }
                break ;
            }
            let key = self.parse_string_with_delimiter(Some(':'));
            let ghost i1 = self.pos();
            proof {
                lemma_scan_to_bounds(s, p, Some(':'));
            }
            if key.as_str().is_empty() {
                proof {
                    assert(spec_headers_loop(s, p) == Ok::<_, WireError>((
                        Seq::<(Seq<char>, Seq<char>)>::empty(),
                        i1,
                    )));
                    assert(acc + Seq::<(Seq<char>, Seq<char>)>::empty() =~= acc);
                }
                break ;
            }
            self.consume_spaces();
            let ghost i2 = self.pos();
            proof {
                lemma_skip_spaces_bounds(s, i1);
            }
            let value = self.parse_string_with_delimiter(Some('\r'));
            let ghost i3 = self.pos();
            proof {
                lemma_scan_to_bounds(s, i2, Some('\r'));
            }
            match self.consume_specific('\n') {
                Ok(()) => {},
                Err(e) => {
                    proof {
                        assert(spec_headers_loop(s, p) == Err::<
                            (Seq<(Seq<char>, Seq<char>)>, int),
                            WireError,
                        >(e@));
                    }
                    return Err(e);
                },
            }
            if value.as_str().is_empty() {
                proof {
                    assert(spec_headers_loop(s, p) == Err::<
                        (Seq<(Seq<char>, Seq<char>)>, int),
                        WireError,
                    >(WireError::EmptyHeaderValue(key@)));
                }
                return Err(HttpParserError::EmptyHeaderValue(key));
            }
            let ghost entry = (key@, value@);
            headers.push((key, value));
            proof {
                assert(crate::http::headers_view(headers@) =~= acc + seq![entry]);
            }
            let mut done = false;
            if let Some(c) = self.peek() {
                if c == '\r' {
                    if let Some(c2) = self.peek_index(self.index + 1) {
                        if c2 == '\n' {
                            done = true;
                        }
                    }
                }
            }
            if done {
                proof {
                    assert(spec_headers_loop(s, p) == Ok::<_, WireError>((
                        seq![entry],
                        self.pos(),
                    )));
                    assert(acc + seq![entry] =~= crate::http::headers_view(headers@));
                }
                break ;
            }
            proof {
                match spec_headers_loop(s, self.pos()) {
                    Ok((rest, j)) => {
                        assert(spec_headers_loop(s, p) == Ok::<_, WireError>((
                            seq![entry] + rest,
                            j,
                        )));
                        assert(acc + (seq![entry] + rest) =~= (acc + seq![entry]) + rest);
                    },
                    Err(e) => {},
                }
            }
        }
        self.consume_specific('\r')?;
        self.consume_specific('\n')?;
        Ok(headers)
    }
}

/// What one `&`-separated query segment adds to the map: nothing when
/// it has no `'='` or no key text before it, otherwise the text before
/// the first `'='` bound to everything after it.
pub open spec fn spec_segment_insert(
    m: Map<Seq<char>, Seq<char>>,
    seg: Seq<char>,
) -> Map<Seq<char>, Seq<char>> {
    let e = scan_to(seg, 0, Some('='));
    if e == seg.len() || e == 0 {
        m
    } else {
        m.insert(seg.subrange(0, e), seg.subrange(e + 1, seg.len() as int))
    }
}

/// Folds the query segments into the map, first to last, so that the
/// last occurrence of a duplicate key wins.
pub open spec fn spec_query_fold(
    m: Map<Seq<char>, Seq<char>>,
    rest: Seq<char>,
) -> Map<Seq<char>, Seq<char>>
    decreases rest.len(),
{
    let a = scan_to(rest, 0, Some('&'));
    let m1 = spec_segment_insert(m, rest.subrange(0, a));
    if 0 <= a < rest.len() {
        spec_query_fold(m1, rest.subrange(a + 1, rest.len() as int))
    } else {
        m1
    }
}

/// The query map of a raw URI: everything after the first `'#'` is
/// dropped, then everything after the first `'?'` is read as
/// `&`-separated `key=value` segments; with no `'?'` the map is empty.
pub open spec fn spec_query_of_uri(uri: Seq<char>) -> Map<Seq<char>, Seq<char>> {
    let h = scan_to(uri, 0, Some('#'));
    let no_frag = uri.subrange(0, h);
    let q = scan_to(no_frag, 0, Some('?'));
    if q == no_frag.len() {
        Map::empty()
    } else {
        spec_query_fold(Map::empty(), no_frag.subrange(q + 1, no_frag.len() as int))
    }
}

/// The position of the first `c` in `v` between `from` and `to`, or
/// `to` when there is none, stated over the window's own indices.
fn scan_in(v: &Vec<char>, from: usize, to: usize, c: char) -> (r: usize)
    requires
        from <= to <= v@.len(),
    ensures
        from <= r <= to,
        r - from == scan_to(v@.subrange(from as int, to as int), 0, Some(c)),
{
    let ghost w = v@.subrange(from as int, to as int);
    let mut i = from;
    while i < to
        invariant
            from <= i <= to <= v@.len(),
            w == v@.subrange(from as int, to as int),
            scan_to(w, 0, Some(c)) == scan_to(w, i - from, Some(c)),
        decreases to - i,
    {
        if v[i] == c {
            proof {
                assert(w[i - from] == v@[i as int]);
                assert(scan_to(w, i - from, Some(c)) == i - from);
            }
            return i;
        }
        proof {
            assert(w[i - from] == v@[i as int]);
        }
        i = i + 1;
    }
    proof {
        assert(scan_to(w, to - from, Some(c)) == to - from);
    }
    to
}

impl HttpParser {
    fn parse_query_params(uri: &String) -> (r: StringMap)
        ensures
            r@ == spec_query_of_uri(uri@),
    {
        let chars = to_chars(uri.as_str());
        let n = chars.len();
        proof {
            assert(chars@.subrange(0, n as int) =~= chars@);
        }
        let h = scan_in(&chars, 0, n, '#');
        let ghost no_frag = uri@.subrange(0, h as int);
        let q = scan_in(&chars, 0, h, '?');
        let mut r = StringMap::new();
        if q == h {
            return r;
        }
        let mut p = q + 1;
        proof {
            assert(no_frag.subrange(q + 1, no_frag.len() as int) =~= uri@.subrange(
                p as int,
                h as int,
            ));
        }
        loop
            invariant
                q + 1 <= p <= h <= n,
                n == uri@.len(),
                chars@ == uri@,
                spec_query_of_uri(uri@) == spec_query_fold(r@, uri@.subrange(p as int, h as int)),
            ensures
                r@ == spec_query_of_uri(uri@),
            decreases h - p,
        {
            let ghost m_pre = r@;
            let ghost suffix = uri@.subrange(p as int, h as int);
            let a = scan_in(&chars, p, h, '&');
            let e = scan_in(&chars, p, a, '=');
            let ghost seg = suffix.subrange(0, a - p);
            proof {
                assert(uri@.subrange(p as int, a as int) =~= seg);
            }
            if e < a && e > p {
                let key = substring_of(&chars, p, e);
                let value = substring_of(&chars, e + 1, a);
                proof {
                    assert(key@ =~= seg.subrange(0, e - p));
                    assert(value@ =~= seg.subrange(e - p + 1, seg.len() as int));
                }
                r.insert(key, value);
                proof {
                    assert(r@ == spec_segment_insert(m_pre, seg));
                }
            } else {
                proof {
                    assert(r@ == spec_segment_insert(m_pre, seg));
                }
            }
            if a < h {
                let ghost p_prev = p as int;
                p = a + 1;
                proof {
                    assert(suffix.subrange(a - p_prev + 1, suffix.len() as int) =~= uri@.subrange(
                        p as int,
                        h as int,
                    ));
                }
            } else {
                break ;
            }
        }
        r
    }
}

/// A parsed request, in mathematical form.
pub struct RequestModel {
    pub method: Seq<char>,
    pub uri: Seq<char>,
    pub version: Seq<char>,
    pub headers: Seq<(Seq<char>, Seq<char>)>,
    pub body: Seq<char>,
    pub query: Map<Seq<char>, Seq<char>>,
}

/// A parsed response, in mathematical form.
pub struct ResponseModel {
    pub version: Seq<char>,
    pub status_code: u16,
    pub reason: Seq<char>,
    pub headers: Seq<(Seq<char>, Seq<char>)>,
    pub body: Seq<char>,
}

/// The request line `METHOD SP URI SP "HTTP/" VERSION CRLF`, where any
/// run of whitespace serves as the separator.
pub open spec fn spec_request_line(s: Seq<char>, i: int) -> Result<
    ((Seq<char>, Seq<char>, Seq<char>), int),
    WireError,
> {
    let taken_method = spec_take(s, i, None);
    let i2 = skip_ws(s, taken_method.1);
    let taken_uri = spec_take(s, i2, None);
    let i4 = skip_ws(s, taken_uri.1);
    match spec_consume_prefix(s, i4, "HTTP/"@) {
        Err(e) => Err(e),
        Ok(i5) => {
            let taken_version = spec_take(s, i5, None);
            match spec_consume_specific(s, taken_version.1, '\r') {
                Err(e) => Err(e),
                Ok(i7) => match spec_consume_specific(s, i7, '\n') {
                    Err(e) => Err(e),
                    Ok(i8) => Ok(((taken_method.0, taken_uri.0, taken_version.0), i8)),
                },
            }
        },
    }
}

/// Headers followed by the body, which runs to the first NUL: a
/// fixed-size read buffer is zero-filled, so NUL marks the end of the
/// meaningful input.
pub open spec fn spec_message(s: Seq<char>, i: int) -> Result<
    ((Seq<(Seq<char>, Seq<char>)>, Seq<char>), int),
    WireError,
> {
    match spec_parse_headers(s, i) {
        Err(e) => Err(e),
        Ok((hs, j)) => {
            let taken_body = spec_take(s, j, Some('\0'));
            Ok(((hs, taken_body.0), taken_body.1))
        },
    }
}

/// The status line `"HTTP/" VERSION SP STATUS SP REASON CRLF`; the
/// status text must read as an unsigned 16-bit decimal number, with
/// the optional leading `'+'` std's parse allows.
pub open spec fn spec_status_line_parse(s: Seq<char>, i: int) -> Result<
    ((Seq<char>, u16, Seq<char>), int),
    WireError,
> {
    match spec_consume_prefix(s, i, "HTTP/"@) {
        Err(e) => Err(e),
        Ok(i1) => {
            let taken_version = spec_take(s, i1, None);
            match spec_consume_specific(s, taken_version.1, ' ') {
                Err(e) => Err(e),
                Ok(i3) => {
                    let taken_code = spec_take(s, i3, None);
                    match crate::text::spec_parse_u16(taken_code.0) {
                        None => Err(WireError::StatusCodeIsNotANumber(taken_code.0)),
                        Some(code) => match spec_consume_specific(s, taken_code.1, ' ') {
                            Err(e) => Err(e),
                            Ok(i5) => {
                                let taken_reason = spec_take(s, i5, Some('\r'));
                                match spec_consume_specific(s, taken_reason.1, '\n') {
                                    Err(e) => Err(e),
                                    Ok(i7) => Ok((
                                        (taken_version.0, code, taken_reason.0),
                                        i7,
                                    )),
                                }
                            },
                        },
                    }
                },
            }
        },
    }
}

/// A whole request: request line, headers, body, and the query map
/// read from the URI. Path parameters start out empty.
pub open spec fn spec_parse_request(s: Seq<char>, i: int) -> Result<RequestModel, WireError> {
    match spec_request_line(s, i) {
        Err(e) => Err(e),
        Ok((line, j)) => match spec_message(s, j) {
            Err(e) => Err(e),
            Ok((msg, _end)) => Ok(RequestModel {
                method: line.0,
                uri: line.1,
                version: line.2,
                headers: msg.0,
                body: msg.1,
                query: spec_query_of_uri(line.1),
            }),
        },
    }
}

/// A whole response: status line, headers, body.
pub open spec fn spec_parse_response(s: Seq<char>, i: int) -> Result<ResponseModel, WireError> {
    match spec_status_line_parse(s, i) {
        Err(e) => Err(e),
        Ok((line, j)) => match spec_message(s, j) {
            Err(e) => Err(e),
            Ok((msg, _end)) => Ok(ResponseModel {
                version: line.0,
                status_code: line.1,
                reason: line.2,
                headers: msg.0,
                body: msg.1,
            }),
        },
    }
}

impl HttpParser {
    fn parse_request_line(&mut self) -> (r: Result<(String, String, String), HttpParserError>)
        ensures
            final(self).text() == old(self).text(),
            match r {
                Ok(line) => spec_request_line(old(self).text(), old(self).pos()) == Ok::<
                    _,
                    WireError,
                >(((line.0@, line.1@, line.2@), final(self).pos())),
                Err(e) => spec_request_line(old(self).text(), old(self).pos()) == Err::<
                    ((Seq<char>, Seq<char>, Seq<char>), int),
                    WireError,
                >(e@),
            },
    {
        let method = self.parse_string();
        self.consume_whitespace();
        let uri = self.parse_string();
        self.consume_whitespace();
        self.consume_specific_string("HTTP/")?;
        let version = self.parse_string();
        self.consume_specific('\r')?;
        self.consume_specific('\n')?;
        Ok((method, uri, version))
    }

    fn parse_message(&mut self) -> (r: Result<(Vec<(String, String)>, String), HttpParserError>)
        ensures
            final(self).text() == old(self).text(),
            match r {
                Ok(msg) => spec_message(old(self).text(), old(self).pos()) == Ok::<_, WireError>((
                    (crate::http::headers_view(msg.0@), msg.1@),
                    final(self).pos(),
                )),
                Err(e) => spec_message(old(self).text(), old(self).pos()) == Err::<
                    ((Seq<(Seq<char>, Seq<char>)>, Seq<char>), int),
                    WireError,
                >(e@),
            },
    {
        let headers = self.parse_headers()?;
        let body = self.parse_string_with_delimiter(Some('\0'));
        Ok((headers, body))
    }

    fn parse_status_line(&mut self) -> (r: Result<(String, u16, String), HttpParserError>)
        ensures
            final(self).text() == old(self).text(),
            match r {
                Ok(line) => spec_status_line_parse(old(self).text(), old(self).pos()) == Ok::<
                    _,
                    WireError,
                >(((line.0@, line.1, line.2@), final(self).pos())),
                Err(e) => spec_status_line_parse(old(self).text(), old(self).pos()) == Err::<
                    ((Seq<char>, u16, Seq<char>), int),
                    WireError,
                >(e@),
            },
    {
        self.consume_specific_string("HTTP/")?;
        let version = self.parse_string();
        self.consume_specific(' ')?;
        let status_code_str = self.parse_string();
        let status_code = match crate::text::parse_u16(status_code_str.as_str()) {
            Some(number) => number,
            None => {
                return Err(HttpParserError::StatusCodeIsNotANumber(status_code_str));
            },
        };
        self.consume_specific(' ')?;
        let reason = self.parse_string_with_delimiter(Some('\r'));
        self.consume_specific('\n')?;
        Ok((version, status_code, reason))
    }

    /// Parses one request from the cursor on. The result carries the
    /// query map read from the URI; its path parameters are empty until
    /// a route binds them.
    pub fn parse_request(&mut self) -> (r: Result<HttpRequest, HttpParserError>)
        ensures
            final(self).text() == old(self).text(),
            match r {
                Ok(req) => spec_parse_request(old(self).text(), old(self).pos()) matches Ok(m)
                    && req.method@ == m.method && req.uri@ == m.uri && req.version@ == m.version
                    && crate::http::headers_view(req.headers@) == m.headers && req.body@ == m.body
                    && req.query@ == m.query && req.params@ == Map::<Seq<char>, Seq<char>>::empty(),
                Err(e) => spec_parse_request(old(self).text(), old(self).pos()) == Err::<
                    RequestModel,
                    WireError,
                >(e@),
            },
    {
        let line = match self.parse_request_line() {
            Ok(line) => line,
            Err(e) => {
                return Err(e);
            },
        };
        let (method, uri, version) = line;
        let msg = match self.parse_message() {
            Ok(msg) => msg,
            Err(e) => {
                return Err(e);
            },
        };
        let (headers, body) = msg;
        let query = Self::parse_query_params(&uri);
        Ok(HttpRequest {
            method,
            headers,
            query,
            uri,
            version,
            body,
            params: StringMap::new(),
        })
    }

    /// Parses one response from the cursor on.
    pub fn parse_response(&mut self) -> (r: Result<HttpResponse, HttpParserError>)
        ensures
            final(self).text() == old(self).text(),
            match r {
                Ok(resp) => spec_parse_response(old(self).text(), old(self).pos()) matches Ok(m)
                    && resp.version@ == m.version && resp.status_code == m.status_code
                    && resp.reason@ == m.reason && crate::http::headers_view(resp.headers@)
                    == m.headers && resp.body@ == m.body,
                Err(e) => spec_parse_response(old(self).text(), old(self).pos()) == Err::<
                    ResponseModel,
                    WireError,
                >(e@),
            },
    {
        let line = match self.parse_status_line() {
            Ok(line) => line,
            Err(e) => {
                return Err(e);
            },
        };
        let (version, status_code, reason) = line;
        let msg = match self.parse_message() {
            Ok(msg) => msg,
            Err(e) => {
                return Err(e);
            },
        };
        let (headers, body) = msg;
        Ok(HttpResponse { version, status_code, reason, headers, body })
    }
}

/// No whitespace character anywhere in the text.
pub open spec fn no_ws(t: Seq<char>) -> bool {
    forall|k: int| 0 <= k < t.len() ==> !is_whitespace_char(t[k])
}

/// The character `c` appears nowhere in the text.
pub open spec fn no_char(t: Seq<char>, c: char) -> bool {
    forall|k: int| 0 <= k < t.len() ==> t[k] != c
}

/// A header that the wire format can carry losslessly: a non-empty key
/// without `':'` or CR, and a non-empty value without CR that does not
/// begin with a space (spaces after the colon are separators, not
/// value text).
pub open spec fn header_wf(h: (Seq<char>, Seq<char>)) -> bool {
    &&& h.0.len() > 0
    &&& no_char(h.0, ':')
    &&& no_char(h.0, '\r')
    &&& h.1.len() > 0
    &&& no_char(h.1, '\r')
    &&& h.1[0] != ' '
}

proof fn lemma_scan_stops(s: Seq<char>, i: int, j: int, d: Option<char>)
    requires
        0 <= i <= j <= s.len(),
        forall|k: int| i <= k < j ==> !stops_at(s[k], d),
        j == s.len() || stops_at(s[j], d),
    ensures
        scan_to(s, i, d) == j,
    decreases j - i,
{
    if i < j {
        lemma_scan_stops(s, i + 1, j, d);
    }
}

proof fn lemma_skip_ws_stops(s: Seq<char>, i: int, j: int)
    requires
        0 <= i <= j <= s.len(),
        forall|k: int| i <= k < j ==> is_whitespace_char(s[k]),
        j == s.len() || !is_whitespace_char(s[j]),
    ensures
        skip_ws(s, i) == j,
    decreases j - i,
{
    if i < j {
        lemma_skip_ws_stops(s, i + 1, j);
    }
}

proof fn lemma_consume_prefix_ok(s: Seq<char>, i: int, t: Seq<char>)
    requires
        0 <= i,
        i + t.len() <= s.len(),
        s.subrange(i, i + t.len()) == t,
    ensures
        spec_consume_prefix(s, i, t) == Ok::<int, WireError>(i + t.len()),
    decreases t.len(),
{
    if t.len() > 0 {
        assert(s[i] == t[0]) by {
            assert(s.subrange(i, i + t.len())[0] == t[0]);
        }
        let t1 = t.subrange(1, t.len() as int);
        assert(s.subrange(i + 1, i + 1 + t1.len()) =~= t1) by {
            assert(forall|k: int| 0 <= k < t1.len() ==> #[trigger] s.subrange(
                i + 1,
                i + 1 + t1.len(),
            )[k] == s.subrange(i, i + t.len())[k + 1]);
        }
        lemma_consume_prefix_ok(s, i + 1, t1);
    } else {
        assert(spec_consume_prefix(s, i, t) == Ok::<int, WireError>(i));
    }
}

proof fn lemma_headers_string_first(hs: Seq<(Seq<char>, Seq<char>)>)
    requires
        hs.len() > 0,
    ensures
        spec_headers_string(hs) == (hs[0].0 + ":"@ + hs[0].1 + "\r\n"@) + spec_headers_string(
            hs.drop_first(),
        ),
    decreases hs.len(),
{
    let line0 = hs[0].0 + ":"@ + hs[0].1 + "\r\n"@;
    if hs.len() == 1 {
        assert(hs.drop_last() =~= Seq::<(Seq<char>, Seq<char>)>::empty());
        assert(hs.drop_first() =~= Seq::<(Seq<char>, Seq<char>)>::empty());
        assert(Seq::<char>::empty() + line0 =~= line0);
        assert(line0 + Seq::<char>::empty() =~= line0);
    } else {
        let dl = hs.drop_last();
        lemma_headers_string_first(dl);
        let last_line = hs.last().0 + ":"@ + hs.last().1 + "\r\n"@;
        assert(hs.drop_first().drop_last() =~= dl.drop_first());
        assert(hs.drop_first().last() == hs.last());
        assert(spec_headers_string(hs.drop_first()) == spec_headers_string(dl.drop_first())
            + last_line);
        assert((line0 + spec_headers_string(dl.drop_first())) + last_line =~= line0 + (
        spec_headers_string(dl.drop_first()) + last_line));
    }
}

proof fn lemma_headers_loop_round_trip(s: Seq<char>, i: int, hs: Seq<(Seq<char>, Seq<char>)>)
    requires
        0 <= i,
        hs.len() > 0,
        forall|k: int| 0 <= k < hs.len() ==> header_wf(#[trigger] hs[k]),
        i + spec_headers_string(hs).len() + 2 <= s.len(),
        s.subrange(i, i + spec_headers_string(hs).len() + 2) == spec_headers_string(hs) + "\r\n"@,
    ensures
        spec_headers_loop(s, i) == Ok::<_, WireError>((hs, i + spec_headers_string(hs).len())),
    decreases hs.len(),
{
    reveal_strlit(":");
    reveal_strlit("\r\n");
    let key = hs[0].0;
    let value = hs[0].1;
    let line0 = key + ":"@ + value + "\r\n"@;
    let rest = hs.drop_first();
    let hstr = spec_headers_string(hs);
    lemma_headers_string_first(hs);
    let whole = s.subrange(i, i + hstr.len() + 2);
    assert(header_wf(hs[0]));
    // Character layout of the first line.
    assert(forall|k: int| 0 <= k < hstr.len() + 2 ==> s[i + k] == (hstr + "\r\n"@)[k]) by {
        assert(forall|k: int| 0 <= k < hstr.len() + 2 ==> s[i + k] == whole[k]);
    }
    let kl = key.len() as int;
    let vl = value.len() as int;
    let rstr0 = spec_headers_string(rest);
    assert(hstr + "\r\n"@ =~= line0 + (rstr0 + "\r\n"@));
    assert forall|k: int| 0 <= k < line0.len() implies s[i + k] == line0[k] by {
        assert(s[i + k] == (hstr + "\r\n"@)[k]);
        assert((line0 + (rstr0 + "\r\n"@))[k] == line0[k]);
    }
    assert forall|k: int| 0 <= k < kl implies s[i + k] == key[k] by {
        assert(((key + ":"@) + value)[k] == (key + ":"@)[k]);
        assert((key + ":"@)[k] == key[k]);
        assert(line0[k] == ((key + ":"@ + value) + "\r\n"@)[k]);
    }
    assert(s[i + kl] == ':') by {
        assert(line0[kl] == ((key + ":"@) + value)[kl]);
        assert(((key + ":"@) + value)[kl] == (key + ":"@)[kl]);
        assert((key + ":"@)[kl] == ":"@[0]);
    }
    assert forall|k: int| 0 <= k < vl implies s[i + kl + 1 + k] == value[k] by {
        assert(line0[kl + 1 + k] == ((key + ":"@) + value)[kl + 1 + k]);
        assert(((key + ":"@) + value)[kl + 1 + k] == value[k]);
    }
    assert(s[i + kl + 1 + vl] == '\r') by {
        assert(line0[kl + 1 + vl] == "\r\n"@[0]);
    }
    assert(s[i + kl + 1 + vl + 1] == '\n') by {
        assert(line0[kl + 1 + vl + 1] == "\r\n"@[1]);
    }
    // The key scan stops exactly at the colon.
    assert forall|k: int| i <= k < i + kl implies !stops_at(s[k], Some(':')) by {
        assert(s[i + (k - i)] == key[k - i]);
    }
    lemma_scan_stops(s, i, i + kl, Some(':'));
    assert(spec_take(s, i, Some(':')).0 =~= key);
    let i1 = i + kl + 1;
    // No spaces separate the colon from the value, and the value does
    // not begin with one.
    assert(s[i1] != ' ') by {
        assert(s[i + kl + 1 + 0] == value[0]);
    }
    assert(skip_spaces(s, i1) == i1);
    // The value scan stops exactly at the carriage return.
    assert forall|k: int| i1 <= k < i1 + vl implies !stops_at(s[k], Some('\r')) by {
        assert(s[i + kl + 1 + (k - i1)] == value[k - i1]);
    }
    lemma_scan_stops(s, i1, i1 + vl, Some('\r'));
    assert(spec_take(s, i1, Some('\r')).0 =~= value);
    let i3 = i1 + vl + 1;
    assert(spec_consume_specific(s, i3, '\n') == Ok::<int, WireError>(i3 + 1));
    let i4 = i3 + 1;
    assert(line0.len() == kl + vl + 3);
    assert(i4 == i + line0.len());
    assert forall|k: int| 0 <= k < rstr0.len() + 2 implies s[i4 + k] == (rstr0 + "\r\n"@)[k] by {
        assert(s[i + (line0.len() + k)] == (hstr + "\r\n"@)[line0.len() + k]);
        assert((line0 + (rstr0 + "\r\n"@))[line0.len() + k] == (rstr0 + "\r\n"@)[k]);
    }
    if hs.len() == 1 {
        assert(rstr0 =~= Seq::<char>::empty());
        assert(hstr =~= line0);
        assert(s[i4] == '\r') by {
            assert(s[i4 + 0] == (rstr0 + "\r\n"@)[0]);
        }
        assert(s[i4 + 1] == '\n') by {
            assert(s[i4 + 1] == (rstr0 + "\r\n"@)[1]);
        }
        assert(spec_headers_loop(s, i) == Ok::<_, WireError>((seq![(key, value)], i4)));
        assert(seq![(key, value)] =~= hs);
    } else {
        assert(header_wf(hs[1]));
        assert(hstr =~= line0 + rstr0);
        assert(s.subrange(i4, i4 + rstr0.len() + 2) =~= rstr0 + "\r\n"@);
        lemma_headers_string_first(rest);
        assert(rstr0[0] == rest[0].0[0]) by {
            assert(rest[0].0.len() > 0);
        }
        assert(s[i4] == rstr0[0]) by {
            assert(s[i4 + 0] == (rstr0 + "\r\n"@)[0]);
        }
        assert(rest[0] == hs[1]);
        assert(s[i4] != '\r');
        lemma_headers_loop_round_trip(s, i4, rest);
        assert(spec_headers_loop(s, i) == Ok::<_, WireError>((
            seq![(key, value)] + rest,
            i4 + rstr0.len(),
        )));
        assert(seq![(key, value)] + rest =~= hs);
        assert(i4 + rstr0.len() == i + hstr.len());
    }
}

/// Serializing a request and parsing the text back recovers the
/// method, URI, version, body and the exact header list, order and
/// duplicates included, whenever the pieces are ones the wire format
/// can carry: method and URI non-empty and free of whitespace, version
/// free of whitespace, each header well-formed, and a body without
/// NUL. The header list may be empty. The query map of the parsed
/// request is the one read back out of the URI.
#[verifier::rlimit(60)]
pub proof fn lemma_request_round_trip(
    method: Seq<char>,
    uri: Seq<char>,
    version: Seq<char>,
    headers: Seq<(Seq<char>, Seq<char>)>,
    body: Seq<char>,
)
    requires
        method.len() > 0,
        no_ws(method),
        uri.len() > 0,
        no_ws(uri),
        no_ws(version),
        forall|k: int| 0 <= k < headers.len() ==> header_wf(#[trigger] headers[k]),
        no_char(body, '\0'),
    ensures
        spec_parse_request(
            crate::http::request::spec_request_string(method, uri, version, headers, body),
            0,
        ) == Ok::<RequestModel, WireError>(RequestModel {
            method,
            uri,
            version,
            headers,
            body,
            query: spec_query_of_uri(uri),
        }),
{
    reveal_strlit(" ");
    reveal_strlit(" HTTP/");
    reveal_strlit("HTTP/");
    reveal_strlit("\r\n");
    reveal_strlit(":");
    let w = crate::http::request::spec_request_string(method, uri, version, headers, body);
    let hstr = spec_headers_string(headers);
    let p1 = method + " "@;
    let p2 = p1 + uri;
    let p3 = p2 + " HTTP/"@;
    let p4 = p3 + version;
    let p5 = p4 + "\r\n"@;
    let p6 = p5 + hstr;
    let p7 = p6 + "\r\n"@;
    assert(w == p7 + body);
    let a1 = method.len() as int;
    let a2 = a1 + 1;
    let a3 = a2 + uri.len();
    let a4 = a3 + 6;
    let a5 = a4 + version.len();
    let a6 = a5 + 2;
    let a7 = a6 + hstr.len();
    let a8 = a7 + 2;
    assert(" HTTP/"@ =~= seq![' ', 'H', 'T', 'T', 'P', '/']);
    assert("HTTP/"@ =~= seq!['H', 'T', 'T', 'P', '/']);
    assert(w.len() == a8 + body.len());
    assert forall|k: int| 0 <= k < a1 implies w[k] == method[k] by {
        assert(w[k] == p7[k]);
        assert(p7[k] == p6[k]);
        assert(p6[k] == p5[k]);
        assert(p5[k] == p4[k]);
        assert(p4[k] == p3[k]);
        assert(p3[k] == p2[k]);
        assert(p2[k] == p1[k]);
        assert(p1[k] == method[k]);
    }
    assert(w[a1] == ' ') by {
        assert(w[a1] == p7[a1]);
        assert(p7[a1] == p6[a1]);
        assert(p6[a1] == p5[a1]);
        assert(p5[a1] == p4[a1]);
        assert(p4[a1] == p3[a1]);
        assert(p3[a1] == p2[a1]);
        assert(p2[a1] == p1[a1]);
        assert(p1[a1] == " "@[0]);
    }
    assert forall|k: int| 0 <= k < uri.len() implies w[a2 + k] == uri[k] by {
        assert(w[a2 + k] == p7[a2 + k]);
        assert(p7[a2 + k] == p6[a2 + k]);
        assert(p6[a2 + k] == p5[a2 + k]);
        assert(p5[a2 + k] == p4[a2 + k]);
        assert(p4[a2 + k] == p3[a2 + k]);
        assert(p3[a2 + k] == p2[a2 + k]);
        assert(p2[a2 + k] == uri[k]);
    }
    assert forall|k: int| 0 <= k < 6 implies w[a3 + k] == " HTTP/"@[k] by {
        assert(w[a3 + k] == p7[a3 + k]);
        assert(p7[a3 + k] == p6[a3 + k]);
        assert(p6[a3 + k] == p5[a3 + k]);
        assert(p5[a3 + k] == p4[a3 + k]);
        assert(p4[a3 + k] == p3[a3 + k]);
        assert(p3[a3 + k] == " HTTP/"@[k]);
    }
    assert forall|k: int| 0 <= k < version.len() implies w[a4 + k] == version[k] by {
        assert(w[a4 + k] == p7[a4 + k]);
        assert(p7[a4 + k] == p6[a4 + k]);
        assert(p6[a4 + k] == p5[a4 + k]);
        assert(p5[a4 + k] == p4[a4 + k]);
        assert(p4[a4 + k] == version[k]);
    }
    assert(w[a5] == '\r' && w[a5 + 1] == '\n') by {
        assert(w[a5] == p7[a5]);
        assert(p7[a5] == p6[a5]);
        assert(p6[a5] == p5[a5]);
        assert(p5[a5] == "\r\n"@[0]);
        assert(w[a5 + 1] == p7[a5 + 1]);
        assert(p7[a5 + 1] == p6[a5 + 1]);
        assert(p6[a5 + 1] == p5[a5 + 1]);
        assert(p5[a5 + 1] == "\r\n"@[1]);
    }
    assert forall|k: int| 0 <= k < hstr.len() implies w[a6 + k] == hstr[k] by {
        assert(w[a6 + k] == p7[a6 + k]);
        assert(p7[a6 + k] == p6[a6 + k]);
        assert(p6[a6 + k] == hstr[k]);
    }
    assert(w[a7] == '\r' && w[a7 + 1] == '\n') by {
        assert(w[a7] == p7[a7]);
        assert(p7[a7] == "\r\n"@[0]);
        assert(w[a7 + 1] == p7[a7 + 1]);
        assert(p7[a7 + 1] == "\r\n"@[1]);
    }
    assert forall|k: int| 0 <= k < body.len() implies w[a8 + k] == body[k] by {
        assert(w[a8 + k] == body[k]);
    }
    // Request line: method, whitespace, URI, whitespace, the literal, version, CRLF.
    assert(!is_whitespace_char(uri[0]));
    assert forall|k: int| 0 <= k < a1 implies !stops_at(w[k], None) by {
        assert(w[k] == method[k]);
    }
    lemma_scan_stops(w, 0, a1, None);
    assert(spec_take(w, 0, None).0 =~= method);
    lemma_skip_ws_stops(w, a1, a2);
    assert forall|k: int| a2 <= k < a3 implies !stops_at(w[k], None) by {
        assert(w[a2 + (k - a2)] == uri[k - a2]);
    }
    lemma_scan_stops(w, a2, a3, None);
    assert(spec_take(w, a2, None).0 =~= uri);
    assert(!is_whitespace_char('H'));
    assert(w[a3] == ' ' && w[a3 + 1] == 'H') by {
        assert(w[a3 + 0] == " HTTP/"@[0]);
        assert(w[a3 + 1] == " HTTP/"@[1]);
    }
    lemma_skip_ws_stops(w, a3, a3 + 1);
    assert(w.subrange(a3 + 1, a3 + 1 + 5) =~= "HTTP/"@) by {
        assert(forall|k: int| 0 <= k < 5 ==> #[trigger] w.subrange(a3 + 1, a3 + 1 + 5)[k] == w[
            a3 + (k + 1)
        ]);
    }
    lemma_consume_prefix_ok(w, a3 + 1, "HTTP/"@);
    assert forall|k: int| a4 <= k < a5 implies !stops_at(w[k], None) by {
        assert(w[a4 + (k - a4)] == version[k - a4]);
    }
    lemma_scan_stops(w, a4, a5, None);
    assert(spec_take(w, a4, None).0 =~= version);
    assert(spec_consume_specific(w, a5, '\r') == Ok::<int, WireError>(a5 + 1));
    assert(spec_consume_specific(w, a5 + 1, '\n') == Ok::<int, WireError>(a6));
    assert(spec_request_line(w, 0) == Ok::<_, WireError>(((method, uri, version), a6)));
    if headers.len() == 0 {
        // An empty block: the blank line stands first and is consumed.
        assert(hstr =~= Seq::<char>::empty());
        assert(a7 == a6);
        assert(w[a6] == '\r');
        assert(spec_consume_specific(w, a6 + 1, '\n') == Ok::<int, WireError>(a8));
        assert(spec_parse_headers(w, a6) == Ok::<_, WireError>((
            Seq::<(Seq<char>, Seq<char>)>::empty(),
            a8,
        )));
        assert(headers =~= Seq::<(Seq<char>, Seq<char>)>::empty());
    } else {
        // Headers: non-empty, so the block cannot begin with the blank line.
        lemma_headers_string_first(headers);
        assert(header_wf(headers[0]));
        assert(hstr[0] == headers[0].0[0]) by {
            assert(hstr == (headers[0].0 + ":"@ + headers[0].1 + "\r\n"@) + spec_headers_string(
                headers.drop_first(),
            ));
            assert(((headers[0].0 + ":"@) + headers[0].1)[0] == (headers[0].0 + ":"@)[0]);
            assert((headers[0].0 + ":"@)[0] == headers[0].0[0]);
            assert(((headers[0].0 + ":"@ + headers[0].1) + "\r\n"@)[0] == ((headers[0].0 + ":"@)
                + headers[0].1)[0]);
        }
        assert(w[a6] != '\r') by {
            assert(w[a6 + 0] == hstr[0]);
        }
        assert(w.subrange(a6, a6 + hstr.len() + 2) =~= hstr + "\r\n"@) by {
            assert(forall|k: int| 0 <= k < hstr.len() + 2 ==> #[trigger] w.subrange(
                a6,
                a6 + hstr.len() + 2,
            )[k] == w[a6 + k]);
            assert(forall|k: int| hstr.len() <= k < hstr.len() + 2 ==> #[trigger] w[a6 + k] == w[
                a7 + (k - hstr.len())
            ]);
        }
        lemma_headers_loop_round_trip(w, a6, headers);
        assert(spec_consume_specific(w, a7, '\r') == Ok::<int, WireError>(a7 + 1));
        assert(spec_consume_specific(w, a7 + 1, '\n') == Ok::<int, WireError>(a8));
        assert(spec_parse_headers(w, a6) == Ok::<_, WireError>((headers, a8)));
    }
    // Body: runs to the end, as it holds no NUL.
    assert forall|k: int| a8 <= k < w.len() implies !stops_at(w[k], Some('\0')) by {
        assert(w[a8 + (k - a8)] == body[k - a8]);
    }
    lemma_scan_stops(w, a8, w.len() as int, Some('\0'));
    assert(spec_take(w, a8, Some('\0')).0 =~= body);
    assert(spec_message(w, a6) == Ok::<_, WireError>(((headers, body), w.len() as int)));
}

} // verus!
