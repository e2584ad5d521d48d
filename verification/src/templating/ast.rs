//! The template node tree, and HTML escaping for variable
//! substitution.
//!
//! Rendering a tree against a JSON context is the collaborator
//! renderer's job and happens outside this crate; the tree shape and
//! the escaping rules are fixed here.

use vstd::prelude::*;
use vstd::string::StringExecFns;

verus! {

/// One node of a parsed template.
#[derive(Debug, PartialEq)]
pub enum MustacheLikeNode {
    /// Literal text.
    Text(String),
    /// A variable substitution; `true` means HTML-escaped.
    Variable(String, bool),
    /// A section: name, contents, and whether it is inverted.
    Section(String, Vec<MustacheLikeNode>, bool),
    /// A partial inclusion by name.
    Partial(String),
}

/// A node, in mathematical form.
pub enum NodeModel {
    Text(Seq<char>),
    Variable(Seq<char>, bool),
    Section(Seq<char>, Seq<NodeModel>, bool),
    Partial(Seq<char>),
}

impl MustacheLikeNode {
    /// The mathematical form of this node.
    pub open spec fn model(&self) -> NodeModel
        decreases self,
    {
        match self {
            MustacheLikeNode::Text(t) => NodeModel::Text(t@),
            MustacheLikeNode::Variable(n, escape) => NodeModel::Variable(n@, *escape),
            MustacheLikeNode::Section(n, children, inverted) => {
                proof {
                    assert(decreases_to!(self => children@));
                }
                NodeModel::Section(n@, nodes_model(children@), *inverted)
            },
            MustacheLikeNode::Partial(n) => NodeModel::Partial(n@),
        }
    }
}

/// The mathematical forms of a node list.
pub open spec fn nodes_model(v: Seq<MustacheLikeNode>) -> Seq<NodeModel>
    decreases v,
{
    if v.len() == 0 {
        Seq::empty()
    } else {
        seq![v[0].model()] + nodes_model(v.subrange(1, v.len() as int))
    }
}

/// Appending a node appends its model.
pub proof fn lemma_nodes_model_push(v: Seq<MustacheLikeNode>, x: MustacheLikeNode)
    ensures
        nodes_model(v.push(x)) == nodes_model(v) + seq![x.model()],
    decreases v.len(),
{
    if v.len() == 0 {
        assert(v.push(x).subrange(1, 1) =~= Seq::<MustacheLikeNode>::empty());
        assert(v.push(x)[0] == x);
        assert(nodes_model(v.push(x)) == seq![x.model()] + nodes_model(
            Seq::<MustacheLikeNode>::empty(),
        ));
        assert(nodes_model(Seq::<MustacheLikeNode>::empty()) =~= Seq::<NodeModel>::empty());
        assert(nodes_model(v) =~= Seq::<NodeModel>::empty());
        assert(seq![x.model()] + Seq::<NodeModel>::empty() =~= Seq::<NodeModel>::empty()
            + seq![x.model()]);
    } else {
        assert(v.push(x).subrange(1, v.len() as int + 1) =~= v.subrange(1, v.len() as int).push(
            x,
        ));
        lemma_nodes_model_push(v.subrange(1, v.len() as int), x);
        assert(v.push(x)[0] == v[0]);
        let tail = nodes_model(v.subrange(1, v.len() as int));
        assert(nodes_model(v.push(x)) == seq![v[0].model()] + (tail + seq![x.model()]));
        assert(seq![v[0].model()] + (tail + seq![x.model()]) =~= (seq![v[0].model()] + tail)
            + seq![x.model()]);
    }
}

/// What one character contributes to HTML-escaped output.
pub open spec fn spec_escape_char(c: char) -> Seq<char> {
    if c == '&' {
        "&amp;"@
    } else if c == '<' {
        "&lt;"@
    } else if c == '>' {
        "&gt;"@
    } else if c == '"' {
        "&quot;"@
    } else if c == '\'' {
        "&#39;"@
    } else if c == '/' {
        "&#x2F;"@
    } else {
        seq![c]
    }
}

/// The text with every markup-sensitive character written as its HTML
/// entity.
pub open spec fn spec_escape_html(s: Seq<char>) -> Seq<char>
    decreases s.len(),
{
    if s.len() == 0 {
        Seq::empty()
    } else {
        spec_escape_html(s.drop_last()) + spec_escape_char(s.last())
    }
}

/// Escapes `&`, `<`, `>`, `"`, `'` and `/` for safe HTML output.
pub fn escape_html(string: &str) -> (r: String)
    ensures
        r@ == spec_escape_html(string@),
{
    let chars = crate::text::to_chars(string);
    let n = chars.len();
    let mut r = String::new();
    let mut i: usize = 0;
    while i < n
        invariant
            i <= n,
            n == chars@.len(),
            chars@ == string@,
            r@ == spec_escape_html(string@.take(i as int)),
        decreases n - i,
    {
        let c = chars[i];
        if c == '&' {
            r.append("&amp;");
        } else if c == '<' {
            r.append("&lt;");
        } else if c == '>' {
            r.append("&gt;");
        } else if c == '"' {
            r.append("&quot;");
        } else if c == '\'' {
            r.append("&#39;");
        } else if c == '/' {
            r.append("&#x2F;");
        } else {
            crate::text::push_char(&mut r, c);
            proof {
                assert(spec_escape_char(c) =~= seq![c]);
                assert(spec_escape_html(string@.take(i as int)).push(c) =~= spec_escape_html(
                    string@.take(i as int),
                ) + seq![c]);
            }
        }
        i = i + 1;
        proof {
            assert(string@.take(i as int).drop_last() =~= string@.take(i - 1));
            assert(string@.take(i as int).last() == string@[i - 1]);
        }
    }
    proof {
        assert(string@.take(n as int) =~= string@);
    }
    r
}

} // verus!
