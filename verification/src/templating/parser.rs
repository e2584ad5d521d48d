//! The template parser: turns the lexer's token stream into a node
//! tree. A section's contents run to the matching close tag; a close
//! tag with no open section, or a section left unclosed, is a
//! structured error.

use vstd::prelude::*;
use crate::templating::ast::{lemma_nodes_model_push, nodes_model, MustacheLikeNode, NodeModel};
use crate::templating::lexer::{tokens_view, MustacheLikeToken, TokenModel};
use crate::text::str_eq;

verus! {

/// Why a token stream was rejected.
#[derive(Debug, PartialEq, Eq, Clone, Copy)]
pub enum MustacheLikeParseError {
    /// A close tag stood where no section was open.
    UnexpectedCloseTag,
    /// A section's close tag never came.
    ExpectedToken,
}

/// The first position at or after `i` holding exactly `tok`, or the
/// end of the list.
pub open spec fn scan_token(ts: Seq<TokenModel>, i: int, tok: TokenModel) -> int
    decreases ts.len() - i,
{
    if i < 0 || i >= ts.len() {
        i
    } else if ts[i] == tok {
        i
    } else {
        scan_token(ts, i + 1, tok)
    }
}

pub proof fn lemma_scan_token_bounds(ts: Seq<TokenModel>, i: int, tok: TokenModel)
    requires
        0 <= i <= ts.len(),
    ensures
        i <= scan_token(ts, i, tok) <= ts.len(),
    decreases ts.len() - i,
{
    if i < ts.len() && ts[i] != tok {
        lemma_scan_token_bounds(ts, i + 1, tok);
    }
}

pub proof fn lemma_scan_token_found(ts: Seq<TokenModel>, i: int, tok: TokenModel)
    requires
        0 <= i <= ts.len(),
    ensures
        scan_token(ts, i, tok) < ts.len() ==> ts[scan_token(ts, i, tok)] == tok,
    decreases ts.len() - i,
{
    if i < ts.len() && ts[i] != tok {
        lemma_scan_token_found(ts, i + 1, tok);
    }
}

/// The node list of the tokens from position `i` on. A text, name or
/// partial token stands for itself; an open tag gathers everything up
/// to its close tag — found by a flat scan, not by nesting — and
/// parses that run as the section's contents.
pub open spec fn spec_parse_from(ts: Seq<TokenModel>, i: int) -> Result<
    Seq<NodeModel>,
    MustacheLikeParseError,
>
    decreases ts.len(), ts.len() - i,
    when 0 <= i <= ts.len()
{
    if i >= ts.len() {
        Ok(Seq::empty())
    } else {
        match ts[i] {
            TokenModel::Text(t) => match spec_parse_from(ts, i + 1) {
                Ok(rest) => Ok(seq![NodeModel::Text(t)] + rest),
                Err(e) => Err(e),
            },
            TokenModel::Name(n, escape) => match spec_parse_from(ts, i + 1) {
                Ok(rest) => Ok(seq![NodeModel::Variable(n, escape)] + rest),
                Err(e) => Err(e),
            },
            TokenModel::Partial(n) => match spec_parse_from(ts, i + 1) {
                Ok(rest) => Ok(seq![NodeModel::Partial(n)] + rest),
                Err(e) => Err(e),
            },
            TokenModel::CloseTag(_) => Err(MustacheLikeParseError::UnexpectedCloseTag),
            TokenModel::OpenTag(n, inverted) => {
                let c = scan_token(ts, i + 1, TokenModel::CloseTag(n));
                proof {
                    lemma_scan_token_bounds(ts, i + 1, TokenModel::CloseTag(n));
                }
                if c >= ts.len() {
                    Err(MustacheLikeParseError::ExpectedToken)
                } else {
                    match spec_parse_from(ts.subrange(i + 1, c), 0) {
                        Err(e) => Err(e),
                        Ok(inner) => match spec_parse_from(ts, c + 1) {
                            Err(e) => Err(e),
                            Ok(rest) => Ok(
                                seq![NodeModel::Section(n, inner, inverted)] + rest,
                            ),
                        },
                    }
                }
            },
        }
    }
}

/// Compares two tokens by contents.
fn token_eq(a: &MustacheLikeToken, b: &MustacheLikeToken) -> (r: bool)
    ensures
        r == (a@ == b@),
{
    match (a, b) {
        (MustacheLikeToken::Text(x), MustacheLikeToken::Text(y)) => str_eq(
            x.as_str(),
            y.as_str(),
        ),
        (MustacheLikeToken::Name(x, ex), MustacheLikeToken::Name(y, ey)) => ex == ey && str_eq(
            x.as_str(),
            y.as_str(),
        ),
        (MustacheLikeToken::Partial(x), MustacheLikeToken::Partial(y)) => str_eq(
            x.as_str(),
            y.as_str(),
        ),
        (MustacheLikeToken::OpenTag(x, ix), MustacheLikeToken::OpenTag(y, iy)) => ix == iy
            && str_eq(x.as_str(), y.as_str()),
        (MustacheLikeToken::CloseTag(x), MustacheLikeToken::CloseTag(y)) => str_eq(
            x.as_str(),
            y.as_str(),
        ),
        _ => false,
    }
}

/// Copies a token.
fn clone_token(t: &MustacheLikeToken) -> (r: MustacheLikeToken)
    ensures
        r@ == t@,
{
    match t {
        MustacheLikeToken::Text(x) => MustacheLikeToken::Text(x.clone()),
        MustacheLikeToken::Name(x, e) => MustacheLikeToken::Name(x.clone(), *e),
        MustacheLikeToken::Partial(x) => MustacheLikeToken::Partial(x.clone()),
        MustacheLikeToken::OpenTag(x, i) => MustacheLikeToken::OpenTag(x.clone(), *i),
        MustacheLikeToken::CloseTag(x) => MustacheLikeToken::CloseTag(x.clone()),
    }
}

/// The parser's cursor over the token list.
pub struct MustacheLikeParser {
    tokens: Vec<MustacheLikeToken>,
    index: usize,
}

impl MustacheLikeParser {
    #[verifier::type_invariant]
    closed spec fn inv(&self) -> bool {
        self.index <= self.tokens@.len()
    }

    /// The tokens being parsed.
    pub closed spec fn toks(&self) -> Seq<TokenModel> {
        tokens_view(self.tokens@)
    }

    /// The cursor: how many tokens have been consumed.
    pub closed spec fn pos(&self) -> int {
        self.index as int
    }

    /// A parser at the start of the token list.
    pub fn new(tokens: Vec<MustacheLikeToken>) -> (r: MustacheLikeParser)
        ensures
            r.toks() == tokens_view(tokens@),
            r.pos() == 0,
    {
        MustacheLikeParser { tokens, index: 0 }
    }

    fn has_finished(&self) -> (r: bool)
        ensures
            r == (self.pos() >= self.toks().len()),
    {
        proof {
            use_type_invariant(self);
        }
        self.index >= self.tokens.len()
    }

    fn consume(&mut self)
        requires
            old(self).pos() < old(self).toks().len(),
        ensures
            final(self).toks() == old(self).toks(),
            final(self).pos() == old(self).pos() + 1,
    {
        proof {
            use_type_invariant(&*self);
        }
        let n = self.tokens.len();
        proof {
            assert(self.index < n);
        }
        self.index = self.index + 1;
    }

    /// Copies tokens up to the first occurrence of `token`, or to the
    /// end; the matching token itself stays unconsumed.
    fn consume_until(&mut self, token: &MustacheLikeToken) -> (r: Vec<MustacheLikeToken>)
        ensures
            final(self).toks() == old(self).toks(),
            final(self).pos() == scan_token(old(self).toks(), old(self).pos(), token@),
            tokens_view(r@) == old(self).toks().subrange(old(self).pos(), final(self).pos()),
    {
        proof {
            use_type_invariant(&*self);
        }
        let ghost ts = self.toks();
        let ghost i0 = self.pos();
        let ghost tok = token@;
        let mut out: Vec<MustacheLikeToken> = Vec::new();
        loop
            invariant
                self.toks() == ts,
                0 <= i0 <= self.pos() <= ts.len(),
                self.index <= self.tokens@.len(),
                scan_token(ts, i0, tok) == scan_token(ts, self.pos(), tok),
                tokens_view(out@) == ts.subrange(i0, self.pos()),
                tok == token@,
            ensures
                self.toks() == ts,
                self.pos() == scan_token(ts, i0, tok),
                tokens_view(out@) == ts.subrange(i0, self.pos()),
            decreases ts.len() - self.pos(),
        {
            if self.index >= self.tokens.len() {
                proof {
                    assert(scan_token(ts, self.pos(), tok) == self.pos());
                }
                break ;
            }
            if token_eq(&self.tokens[self.index], token) {
                proof {
                    assert(ts[self.pos()] == tok);
                    assert(scan_token(ts, self.pos(), tok) == self.pos());
                }
                break ;
            }
            proof {
                assert(ts[self.pos()] != tok);
            }
            let ghost p = self.pos();
            let copied = clone_token(&self.tokens[self.index]);
            let ghost out_pre = out@;
            let ghost copied_view = copied@;
            proof {
                assert(copied_view == ts[p]);
                assert(out_pre.len() == p - i0) by {
                    assert(tokens_view(out_pre).len() == out_pre.len());
                }
            }
            out.push(copied);
            self.index = self.index + 1;
            proof {
                assert forall|k: int| 0 <= k < out@.len() implies tokens_view(out@)[k]
                    == ts.subrange(i0, self.pos())[k] by {
                    assert(tokens_view(out@)[k] == out@[k]@);
                    assert(ts.subrange(i0, self.pos())[k] == ts[i0 + k]);
                    if k < out_pre.len() {
                        assert(out@[k] == out_pre[k]);
                        assert(tokens_view(out_pre)[k] == out_pre[k]@);
                        assert(ts.subrange(i0, p)[k] == ts[i0 + k]);
                    } else {
                        assert(out@[k]@ == copied_view);
                        assert(i0 + k == p);
                    }
                }
                assert(tokens_view(out@).len() == out@.len());
                assert(tokens_view(out@) =~= ts.subrange(i0, self.pos()));
            }
        }
        out
    }

    /// Steps over one required token; its absence is the error a
    /// missing close tag causes.
    fn consume_specific(&mut self, token: &MustacheLikeToken) -> (r: Result<
        (),
        MustacheLikeParseError,
    >)
        ensures
            final(self).toks() == old(self).toks(),
            match r {
                Ok(()) => old(self).pos() < old(self).toks().len()
                    && old(self).toks()[old(self).pos()] == token@
                    && final(self).pos() == old(self).pos() + 1,
                Err(e) => e == MustacheLikeParseError::ExpectedToken
                    && !(old(self).pos() < old(self).toks().len()
                    && old(self).toks()[old(self).pos()] == token@)
                    && final(self).pos() == old(self).pos(),
            },
    {
        proof {
            use_type_invariant(&*self);
        }
        if self.index >= self.tokens.len() {
            return Err(MustacheLikeParseError::ExpectedToken);
        }
        if !token_eq(&self.tokens[self.index], token) {
            return Err(MustacheLikeParseError::ExpectedToken);
        }
        self.consume();
        Ok(())
    }

    /// Parses the tokens from the cursor to the end into a node list.
    pub fn parse(&mut self) -> (r: Result<Vec<MustacheLikeNode>, MustacheLikeParseError>)
        ensures
            final(self).toks() == old(self).toks(),
            match r {
                Ok(nodes) => spec_parse_from(old(self).toks(), old(self).pos()) == Ok::<
                    _,
                    MustacheLikeParseError,
                >(nodes_model(nodes@)),
                Err(e) => spec_parse_from(old(self).toks(), old(self).pos()) == Err::<
                    Seq<NodeModel>,
                    MustacheLikeParseError,
                >(e),
            },
        decreases old(self).toks().len(),
    {
        proof {
            use_type_invariant(&*self);
        }
        let ghost ts = self.toks();
        let ghost i0 = self.pos();
        let mut nodes: Vec<MustacheLikeNode> = Vec::new();
        loop
            invariant_except_break
                match spec_parse_from(ts, self.pos()) {
                    Ok(rest) => spec_parse_from(ts, i0) matches Ok(all) && all == nodes_model(
                        nodes@,
                    ) + rest,
                    Err(e) => spec_parse_from(ts, i0) == Err::<
                        Seq<NodeModel>,
                        MustacheLikeParseError,
                    >(e),
                },
            invariant
                self.toks() == ts,
                0 <= i0 <= self.pos() <= ts.len(),
                i0 == old(self).pos(),
                ts == old(self).toks(),
                ts.len() == old(self).toks().len(),
            ensures
                self.toks() == ts,
                spec_parse_from(ts, i0) == Ok::<_, MustacheLikeParseError>(nodes_model(
                    nodes@,
                )),
            decreases ts.len() - self.pos(),
        {
            let ghost p = self.pos();
            let ghost acc = nodes_model(nodes@);
            if self.has_finished() {
                proof {
                    assert(spec_parse_from(ts, p) == Ok::<_, MustacheLikeParseError>(Seq::<
                        NodeModel,
                    >::empty()));
                    assert(acc + Seq::<NodeModel>::empty() =~= acc);
                }
                break ;
            }
            proof {
                use_type_invariant(&*self);
            }
            let next_kind = {
                let token = &self.tokens[self.index];
                match token {
                    MustacheLikeToken::Text(text) => {
                        let node = MustacheLikeNode::Text(text.clone());
                        Ok(Some(node))
                    },
                    MustacheLikeToken::Name(name, escape) => {
                        let node = MustacheLikeNode::Variable(name.clone(), *escape);
                        Ok(Some(node))
                    },
                    MustacheLikeToken::Partial(name) => {
                        let node = MustacheLikeNode::Partial(name.clone());
                        Ok(Some(node))
                    },
                    MustacheLikeToken::CloseTag(_name) => Err(
                        MustacheLikeParseError::UnexpectedCloseTag,
                    ),
                    MustacheLikeToken::OpenTag(_name, _inverted) => Ok(None),
                }
            };
            match next_kind {
                Err(e) => {
                    proof {
                        assert(spec_parse_from(ts, p) == Err::<
                            Seq<NodeModel>,
                            MustacheLikeParseError,
                        >(MustacheLikeParseError::UnexpectedCloseTag));
                    }
                    return Err(e);
                },
                Ok(Some(node)) => {
                    let ghost nm = node.model();
                    let ghost nodes_pre = nodes@;
                    self.consume();
                    nodes.push(node);
                    proof {
                        lemma_nodes_model_push(nodes_pre, nodes@.last());
                        assert(nodes@ =~= nodes_pre.push(nodes@.last()));
                        assert(nodes_model(nodes@) == acc + seq![nm]);
                        match spec_parse_from(ts, self.pos()) {
                            Ok(rest) => {
                                assert(spec_parse_from(ts, p) == Ok::<
                                    _,
                                    MustacheLikeParseError,
                                >(seq![nm] + rest));
                                assert(acc + (seq![nm] + rest) =~= (acc + seq![nm]) + rest);
                            },
                            Err(e) => {},
                        }
                    }
                },
                Ok(None) => {
                    let (tag_name, inverted) = {
                        match &self.tokens[self.index] {
                            MustacheLikeToken::OpenTag(name, inverted) => (
                                name.clone(),
                                *inverted,
                            ),
                            _ => (String::new(), false),
                        }
                    };
                    let ghost nv = tag_name@;
                    let close_tag_token = MustacheLikeToken::CloseTag(clone_string(&tag_name));
                    self.consume();
                    let section_tokens = self.consume_until(&close_tag_token);
                    let ghost c = self.pos();
                    proof {
                        lemma_scan_token_bounds(ts, p + 1, close_tag_token@);
                        lemma_scan_token_found(ts, p + 1, close_tag_token@);
                    }
                    match self.consume_specific(&close_tag_token) {
                        Err(e) => {
                            proof {
                                assert(c >= ts.len());
                                assert(spec_parse_from(ts, p) == Err::<
                                    Seq<NodeModel>,
                                    MustacheLikeParseError,
                                >(MustacheLikeParseError::ExpectedToken));
                            }
                            return Err(e);
                        },
                        Ok(()) => {},
                    }
                    let ghost section_view = tokens_view(section_tokens@);
                    proof {
                        assert(c < ts.len());
                        assert(section_view.len() < ts.len());
                    }
                    let mut section_parser = MustacheLikeParser::new(section_tokens);
                    let section_nodes = match section_parser.parse() {
                        Ok(section_nodes) => section_nodes,
                        Err(e) => {
                            proof {
                                assert(spec_parse_from(ts, p) == Err::<
                                    Seq<NodeModel>,
                                    MustacheLikeParseError,
                                >(e));
                            }
                            return Err(e);
                        },
                    };
                    let ghost inner = nodes_model(section_nodes@);
                    let node = MustacheLikeNode::Section(tag_name, section_nodes, inverted);
                    let ghost nm = node.model();
                    let ghost nodes_pre = nodes@;
                    nodes.push(node);
                    proof {
                        lemma_nodes_model_push(nodes_pre, nodes@.last());
                        assert(nodes@ =~= nodes_pre.push(nodes@.last()));
                        assert(nm == NodeModel::Section(nv, inner, inverted));
                        assert(nodes_model(nodes@) == acc + seq![nm]);
                        match spec_parse_from(ts, self.pos()) {
                            Ok(rest) => {
                                assert(spec_parse_from(ts, p) == Ok::<
                                    _,
                                    MustacheLikeParseError,
                                >(seq![nm] + rest));
                                assert(acc + (seq![nm] + rest) =~= (acc + seq![nm]) + rest);
                            },
                            Err(e) => {},
                        }
                    }
                },
            }
        }
        Ok(nodes)
    }
}

/// Copies a string.
fn clone_string(s: &String) -> (r: String)
    ensures
        r@ == s@,
{
    s.clone()
}

} // verus!
