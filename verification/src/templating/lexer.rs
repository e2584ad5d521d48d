//! The template lexer: splits input text into literal text runs and
//! `{{...}}` tags, classifying each tag by its first character.

use vstd::prelude::*;
use crate::text::{
    is_whitespace, is_whitespace_char, push_char, skip_ws, substring_of, to_chars,
};

verus! {

/// One lexed piece of a template.
#[derive(Debug, PartialEq, Clone)]
pub enum MustacheLikeToken {
    /// Literal text between tags.
    Text(String),
    /// `{{name}}` (escaped, `true`) or `{{&name}}` (raw, `false`).
    Name(String, bool),
    /// `{{>name}}`: include the partial of that name.
    Partial(String),
    /// `{{#name}}` (plain, `false`) or `{{^name}}` (inverted, `true`).
    OpenTag(String, bool),
    /// `{{/name}}`: closes the section of that name.
    CloseTag(String),
}

/// A token, in mathematical form.
pub enum TokenModel {
    Text(Seq<char>),
    Name(Seq<char>, bool),
    Partial(Seq<char>),
    OpenTag(Seq<char>, bool),
    CloseTag(Seq<char>),
}

impl View for MustacheLikeToken {
    type V = TokenModel;

    open spec fn view(&self) -> TokenModel {
        match self {
            MustacheLikeToken::Text(t) => TokenModel::Text(t@),
            MustacheLikeToken::Name(n, escape) => TokenModel::Name(n@, *escape),
            MustacheLikeToken::Partial(n) => TokenModel::Partial(n@),
            MustacheLikeToken::OpenTag(n, inverted) => TokenModel::OpenTag(n@, *inverted),
            MustacheLikeToken::CloseTag(n) => TokenModel::CloseTag(n@),
        }
    }
}

/// The character sequences of a token list.
pub open spec fn tokens_view(ts: Seq<MustacheLikeToken>) -> Seq<TokenModel> {
    Seq::new(ts.len(), |i: int| ts[i]@)
}

/// Why a template was rejected by the lexer.
#[derive(Debug, PartialEq, Eq, Clone, Copy)]
pub enum MustacheLikeLexError {
    /// A `{{` tag ran to the end of the input without its `}}`.
    UnclosedTag,
    /// A tag held nothing but whitespace.
    EmptyTag,
}

/// The first position at or after `i` where the delimiter text stands
/// whole, or the end of the text.
pub open spec fn scan_delim(s: Seq<char>, i: int, d: Seq<char>) -> int
    decreases s.len() - i,
{
    if i < 0 || i >= s.len() {
        i
    } else if i + d.len() <= s.len() && s.subrange(i, i + d.len()) == d {
        i
    } else {
        scan_delim(s, i + 1, d)
    }
}

pub proof fn lemma_scan_delim_bounds(s: Seq<char>, i: int, d: Seq<char>)
    requires
        0 <= i <= s.len(),
    ensures
        i <= scan_delim(s, i, d) <= s.len(),
    decreases s.len() - i,
{
    if i < s.len() && !(i + d.len() <= s.len() && s.subrange(i, i + d.len()) == d) {
        lemma_scan_delim_bounds(s, i + 1, d);
    }
}

pub proof fn lemma_scan_delim_found(s: Seq<char>, i: int, d: Seq<char>)
    requires
        0 <= i <= s.len(),
    ensures
        scan_delim(s, i, d) < s.len() ==> scan_delim(s, i, d) + d.len() <= s.len()
            && s.subrange(scan_delim(s, i, d), scan_delim(s, i, d) + d.len()) == d,
    decreases s.len() - i,
{
    if i < s.len() && !(i + d.len() <= s.len() && s.subrange(i, i + d.len()) == d) {
        lemma_scan_delim_found(s, i + 1, d);
    }
}

/// The end of the text once trailing whitespace is dropped: the least
/// `j` so that everything in `[j, from)` is whitespace and `s[j - 1]`
/// is not.
pub open spec fn trim_end(s: Seq<char>, from: int) -> int
    decreases from,
{
    if from <= 0 {
        0
    } else if is_whitespace_char(s[from - 1]) {
        trim_end(s, from - 1)
    } else {
        from
    }
}

proof fn lemma_trim_end_lower(s: Seq<char>, from: int, k: int)
    requires
        0 <= k < from <= s.len(),
        !is_whitespace_char(s[k]),
    ensures
        k + 1 <= trim_end(s, from) <= from,
    decreases from,
{
    if from - 1 > k && is_whitespace_char(s[from - 1]) {
        lemma_trim_end_lower(s, from - 1, k);
    }
}

/// The text with leading and trailing whitespace removed.
pub open spec fn spec_trim(s: Seq<char>) -> Seq<char> {
    let a = skip_ws(s, 0);
    if a >= s.len() {
        Seq::empty()
    } else {
        s.subrange(a, trim_end(s, s.len() as int))
    }
}

/// Removes leading and trailing whitespace.
fn trim_string(s: &String) -> (r: String)
    ensures
        r@ == spec_trim(s@),
{
    let chars = to_chars(s.as_str());
    let n = chars.len();
    let mut a: usize = 0;
    while a < n && is_whitespace(chars[a])
        invariant
            0 <= a <= n,
            n == chars@.len(),
            chars@ == s@,
            skip_ws(s@, 0) == skip_ws(s@, a as int),
        decreases n - a,
    {
        a = a + 1;
    }
    proof {
        assert(skip_ws(s@, a as int) == a);
    }
    if a >= n {
        return String::new();
    }
    let mut b: usize = n;
    while b > 0 && is_whitespace(chars[b - 1])
        invariant
            0 <= b <= n,
            n == chars@.len(),
            chars@ == s@,
            trim_end(s@, n as int) == trim_end(s@, b as int),
        decreases b,
    {
        b = b - 1;
    }
    proof {
        assert(trim_end(s@, b as int) == b);
        lemma_trim_end_lower(s@, n as int, a as int);
    }
    substring_of(&chars, a, b)
}

/// How the text inside a tag, already trimmed, becomes a token.
pub open spec fn spec_classify(inside: Seq<char>) -> TokenModel {
    if inside[0] == '#' {
        TokenModel::OpenTag(inside.drop_first(), false)
    } else if inside[0] == '^' {
        TokenModel::OpenTag(inside.drop_first(), true)
    } else if inside[0] == '/' {
        TokenModel::CloseTag(inside.drop_first())
    } else if inside[0] == '&' {
        TokenModel::Name(inside.drop_first(), false)
    } else if inside[0] == '>' {
        TokenModel::Partial(inside.drop_first())
    } else {
        TokenModel::Name(inside, true)
    }
}

/// The token stream of the text from position `i` on: literal text up
/// to each `{{`, then the classified tag up to `}}`, until the end. A
/// tag without its `}}` or with only whitespace inside stops the lex
/// with an error.
pub open spec fn spec_lex(s: Seq<char>, i: int) -> Result<Seq<TokenModel>, MustacheLikeLexError>
    decreases s.len() - i,
    when 0 <= i <= s.len()
{
    if i >= s.len() {
        Ok(Seq::empty())
    } else {
        let t = scan_delim(s, i, "{{"@);
        let text = s.subrange(i, t);
        let toks0: Seq<TokenModel> = if text.len() > 0 {
            seq![TokenModel::Text(text)]
        } else {
            Seq::empty()
        };
        proof {
            lemma_scan_delim_bounds(s, i, "{{"@);
            lemma_scan_delim_found(s, i, "{{"@);
            reveal_strlit("{{");
            reveal_strlit("}}");
        }
        if t >= s.len() {
            Ok(toks0)
        } else {
            let i3 = skip_ws(s, t + 2);
            proof {
                crate::text::lemma_skip_ws_bounds(s, t + 2);
            }
            let c = scan_delim(s, i3, "}}"@);
            proof {
                lemma_scan_delim_bounds(s, i3, "}}"@);
                lemma_scan_delim_found(s, i3, "}}"@);
            }
            if c >= s.len() {
                Err(MustacheLikeLexError::UnclosedTag)
            } else {
                let inside = spec_trim(s.subrange(i3, c));
                if inside.len() == 0 {
                    Err(MustacheLikeLexError::EmptyTag)
                } else {
                    match spec_lex(s, c + 2) {
                        Ok(rest) => Ok(toks0 + seq![spec_classify(inside)] + rest),
                        Err(e) => Err(e),
                    }
                }
            }
        }
    }
}

/// The lexer's cursor and the tokens gathered so far.
pub struct MustacheLikeLexer {
    input: Vec<char>,
    index: usize,
    tokens: Vec<MustacheLikeToken>,
}

impl MustacheLikeLexer {
    #[verifier::type_invariant]
    closed spec fn inv(&self) -> bool {
        self.index <= self.input@.len()
    }

    /// The text being lexed.
    pub closed spec fn text(&self) -> Seq<char> {
        self.input@
    }

    /// The cursor: how much has been consumed.
    pub closed spec fn pos(&self) -> int {
        self.index as int
    }

    /// The tokens gathered so far.
    pub closed spec fn spec_tokens(&self) -> Seq<MustacheLikeToken> {
        self.tokens@
    }

    /// A lexer at the start of `input`, with no tokens yet.
    pub fn new(input: String) -> (r: MustacheLikeLexer)
        ensures
            r.text() == input@,
            r.pos() == 0,
            r.spec_tokens().len() == 0,
    {
        MustacheLikeLexer { input: to_chars(input.as_str()), index: 0, tokens: Vec::new() }
    }

    /// The cursor position, in characters.
    pub fn index(&self) -> (r: usize)
        ensures
            r == self.pos(),
    {
        self.index
    }

    /// Whether the delimiter text stands whole at the cursor.
    fn at_delim(&self, d: &Vec<char>) -> (r: bool)
        ensures
            r == (self.pos() + d@.len() <= self.text().len() && self.text().subrange(
                self.pos(),
                self.pos() + d@.len(),
            ) == d@),
    {
        proof {
            use_type_invariant(self);
        }
        let dn = d.len();
        let n = self.input.len();
        if dn > n - self.index {
            return false;
        }
        let mut k: usize = 0;
        while k < dn
            invariant
                k <= dn,
                self.index + dn <= n,
                n == self.input@.len(),
                dn == d@.len(),
                forall|j: int| 0 <= j < k ==> self.input@[self.index + j] == d@[j],
            decreases dn - k,
        {
            if self.input[self.index + k] != d[k] {
                proof {
                    assert(self.text().subrange(self.pos(), self.pos() + dn as int)[k as int]
                        != d@[k as int]);
                }
                return false;
            }
            k = k + 1;
        }
        proof {
            assert(self.text().subrange(self.pos(), self.pos() + dn as int) =~= d@);
        }
        true
    }

    /// Collects text up to the next occurrence of the delimiter, or to
    /// the end; the delimiter itself stays unconsumed.
    pub fn consume_until(&mut self, delimiter: &str) -> (r: String)
        ensures
            final(self).text() == old(self).text(),
            final(self).spec_tokens() == old(self).spec_tokens(),
            final(self).pos() == scan_delim(old(self).text(), old(self).pos(), delimiter@),
            r@ == old(self).text().subrange(old(self).pos(), final(self).pos()),
    {
        proof {
            use_type_invariant(&*self);
        }
        let ghost s = self.text();
        let ghost i0 = self.pos();
        let ghost dv = delimiter@;
        let d = to_chars(delimiter);
        let mut r = String::new();
        loop
            invariant
                self.text() == s,
                self.spec_tokens() == old(self).spec_tokens(),
                d@ == dv,
                0 <= i0 <= self.pos() <= s.len(),
                self.index <= self.input@.len(),
                scan_delim(s, i0, dv) == scan_delim(s, self.pos(), dv),
                r@ == s.subrange(i0, self.pos()),
            ensures
                self.text() == s,
                self.spec_tokens() == old(self).spec_tokens(),
                self.pos() == scan_delim(s, i0, dv),
                r@ == s.subrange(i0, self.pos()),
            decreases s.len() - self.pos(),
        {
            if self.index >= self.input.len() {
                proof {
                    assert(scan_delim(s, self.pos(), dv) == self.pos());
                }
                break ;
            }
            if self.at_delim(&d) {
                proof {
                    assert(scan_delim(s, self.pos(), dv) == self.pos());
                }
                break ;
            }
            push_char(&mut r, self.input[self.index]);
            self.index = self.index + 1;
            proof {
                assert(s.subrange(i0, self.pos()) =~= s.subrange(i0, self.pos() - 1).push(
                    s[self.pos() - 1],
                ));
            }
        }
        r
    }

    /// Steps over whitespace.
    fn consume_whitespace(&mut self)
        ensures
            final(self).text() == old(self).text(),
            final(self).spec_tokens() == old(self).spec_tokens(),
            final(self).pos() == skip_ws(old(self).text(), old(self).pos()),
    {
        proof {
            use_type_invariant(&*self);
        }
        let ghost s = self.text();
        let ghost i0 = self.pos();
        loop
            invariant
                self.text() == s,
                self.spec_tokens() == old(self).spec_tokens(),
                0 <= self.pos() <= s.len(),
                self.index <= self.input@.len(),
                skip_ws(s, i0) == skip_ws(s, self.pos()),
            ensures
                self.text() == s,
                self.spec_tokens() == old(self).spec_tokens(),
                self.pos() == skip_ws(s, i0),
            decreases s.len() - self.pos(),
        {
            if self.index >= self.input.len() {
                proof {
                    assert(skip_ws(s, self.pos()) == self.pos());
                }
                break ;
            }
            if !is_whitespace(self.input[self.index]) {
                proof {
                    assert(skip_ws(s, self.pos()) == self.pos());
                }
                break ;
            }
            self.index = self.index + 1;
        }
    }

    /// Whether the whole input has been consumed.
    fn eoi(&self) -> (r: bool)
        ensures
            r == (self.pos() >= self.text().len()),
    {
        proof {
            use_type_invariant(self);
        }
        self.index >= self.input.len()
    }

    /// Runs the lexer over the whole input. The tokens come back in
    /// input order; a tag left unclosed or holding only whitespace is
    /// an error.
    pub fn run(self) -> (r: Result<Vec<MustacheLikeToken>, MustacheLikeLexError>)
        ensures
            match r {
                Ok(toks) => spec_lex(self.text(), self.pos()) matches Ok(ts) && tokens_view(
                    toks@,
                ) == tokens_view(self.spec_tokens()) + ts,
                Err(e) => spec_lex(self.text(), self.pos()) == Err::<
                    Seq<TokenModel>,
                    MustacheLikeLexError,
                >(e),
            },
    {
        proof {
            use_type_invariant(&self);
        }
        let mut lexer = self;
        let ghost s = lexer.text();
        let ghost i0 = lexer.pos();
        let ghost acc0 = tokens_view(lexer.spec_tokens());
        proof {
            reveal_strlit("{{");
            reveal_strlit("}}");
        }
        loop
            invariant_except_break
                match spec_lex(s, lexer.pos()) {
                    Ok(rest) => spec_lex(s, i0) matches Ok(all) && acc0 + all == tokens_view(
                        lexer.spec_tokens(),
                    ) + rest,
                    Err(e) => spec_lex(s, i0) == Err::<Seq<TokenModel>, MustacheLikeLexError>(
                        e,
                    ),
                },
            invariant
                lexer.text() == s,
                0 <= lexer.pos() <= s.len(),
                0 <= i0 <= s.len(),
                acc0 == tokens_view(self.spec_tokens()),
                s == self.text(),
                i0 == self.pos(),
                "{{"@.len() == 2,
                "}}"@.len() == 2,
            ensures
                spec_lex(s, i0) matches Ok(all) && acc0 + all == tokens_view(
                    lexer.spec_tokens(),
                ),
            decreases s.len() - lexer.pos(),
        {
            let ghost p = lexer.pos();
            let ghost acc = tokens_view(lexer.spec_tokens());
            if lexer.index >= lexer.input.len() {
                proof {
                    assert(spec_lex(s, p) == Ok::<_, MustacheLikeLexError>(Seq::<
                        TokenModel,
                    >::empty()));
                    assert(acc + Seq::<TokenModel>::empty() =~= acc);
                }
                break ;
            }
            let text_before = lexer.consume_until("{{");
            let ghost t = lexer.pos();
            proof {
                lemma_scan_delim_bounds(s, p, "{{"@);
                lemma_scan_delim_found(s, p, "{{"@);
            }
            let pushed_text = !text_before.as_str().is_empty();
            let ghost text_tok = TokenModel::Text(text_before@);
            if pushed_text {
                let mut toks: Vec<MustacheLikeToken> = Vec::new();
                core::mem::swap(&mut lexer.tokens, &mut toks);
                toks.push(MustacheLikeToken::Text(text_before));
                lexer.tokens = toks;
                proof {
                    assert(tokens_view(lexer.spec_tokens()) =~= acc + seq![text_tok]);
                }
            }
            let ghost acc1 = tokens_view(lexer.spec_tokens());
            if lexer.eoi() {
                proof {
                    assert(spec_lex(s, p) == Ok::<_, MustacheLikeLexError>(
                        if pushed_text {
                            seq![text_tok]
                        } else {
                            Seq::<TokenModel>::empty()
                        },
                    ));
                    if pushed_text {
                        assert(acc + seq![text_tok] =~= acc1);
                    } else {
                        assert(acc + Seq::<TokenModel>::empty() =~= acc);
                    }
                }
                break ;
            }
            proof {
                use_type_invariant(&lexer);
                assert(t + 2 <= s.len());
            }
            lexer.index = lexer.index + 2;
            lexer.consume_whitespace();
            let ghost i3 = lexer.pos();
            proof {
                crate::text::lemma_skip_ws_bounds(s, t + 2);
            }
            let inside_raw = lexer.consume_until("}}");
            let ghost c = lexer.pos();
            proof {
                lemma_scan_delim_bounds(s, i3, "}}"@);
                lemma_scan_delim_found(s, i3, "}}"@);
            }
            if lexer.eoi() {
                proof {
                    assert(c >= s.len());
                    assert(spec_lex(s, p) == Err::<Seq<TokenModel>, MustacheLikeLexError>(
                        MustacheLikeLexError::UnclosedTag,
                    ));
                }
                return Err(MustacheLikeLexError::UnclosedTag);
            }
            proof {
                assert(c + 2 <= s.len());
            }
            lexer.index = lexer.index + 2;
            let trimmed = trim_string(&inside_raw);
            if trimmed.as_str().is_empty() {
                proof {
                    assert(spec_lex(s, p) == Err::<Seq<TokenModel>, MustacheLikeLexError>(
                        MustacheLikeLexError::EmptyTag,
                    ));
                }
                return Err(MustacheLikeLexError::EmptyTag);
            }
            let ghost inside = trimmed@;
            let first = trimmed.as_str().get_char(0);
            let token: MustacheLikeToken = if first == '#' {
                MustacheLikeToken::OpenTag(skip_first(&trimmed), false)
            } else if first == '^' {
                MustacheLikeToken::OpenTag(skip_first(&trimmed), true)
            } else if first == '/' {
                MustacheLikeToken::CloseTag(skip_first(&trimmed))
            } else if first == '&' {
                MustacheLikeToken::Name(skip_first(&trimmed), false)
            } else if first == '>' {
                MustacheLikeToken::Partial(skip_first(&trimmed))
            } else {
                MustacheLikeToken::Name(trimmed, true)
            };
            let ghost tag_tok = token@;
            proof {
                assert(tag_tok == spec_classify(inside));
            }
            let mut toks: Vec<MustacheLikeToken> = Vec::new();
            core::mem::swap(&mut lexer.tokens, &mut toks);
            toks.push(token);
            lexer.tokens = toks;
            proof {
                assert(tokens_view(lexer.spec_tokens()) =~= acc1 + seq![tag_tok]);
                let toks0: Seq<TokenModel> = if pushed_text {
                    seq![text_tok]
                } else {
                    Seq::<TokenModel>::empty()
                };
                match spec_lex(s, lexer.pos()) {
                    Ok(rest) => {
                        assert(spec_lex(s, p) == Ok::<_, MustacheLikeLexError>(
                            (toks0 + seq![tag_tok]) + rest,
                        ));
                        assert(acc + ((toks0 + seq![tag_tok]) + rest) =~= (acc1 + seq![tag_tok])
                            + rest);
                    },
                    Err(e) => {
                        assert(spec_lex(s, p) == Err::<Seq<TokenModel>, MustacheLikeLexError>(
                            e,
                        ));
                    },
                }
            }
        }
        Ok(lexer.tokens)
    }
}

/// The text without its first character.
fn skip_first(s: &String) -> (r: String)
    requires
        s@.len() > 0,
    ensures
        r@ == s@.drop_first(),
{
    let chars = to_chars(s.as_str());
    let r = substring_of(&chars, 1, chars.len());
    proof {
        assert(s@.subrange(1, s@.len() as int) =~= s@.drop_first());
    }
    r
}

} // verus!
